//! Binary-or-text classification of byte buffers (content_inspector).

use vstd::prelude::*;
use crate::bytes::starts_with;

verus! {

/// The kinds of content that `content_inspector::inspect` tells apart.
pub enum ContentKind {
    Binary,
    Utf8,
    Utf8Bom,
    Utf16Le,
    Utf16Be,
    Utf32Le,
    Utf32Be,
}

impl ContentKind {
    /// This kind is `Binary`.
    pub fn is_binary(&self) -> (r: bool)
        ensures
            r == (*self is Binary),
    {
        match self {
            ContentKind::Binary => true,
            _ => false,
        }
    }
}

/// Some byte among the first `min(len, 1024)` bytes of `b` is zero.
pub open spec fn zero_in_scan_window(b: Seq<u8>) -> bool {
    exists|i: int| 0 <= i < b.len() && i < 1024 && b[i] == 0
}

/// The classification that `content_inspector::inspect` (version 0.2.4)
/// makes: byte order marks first, then a zero byte in the first 1024 bytes
/// or a PDF or PNG magic number means binary, and anything else is UTF-8.
pub open spec fn inspect_spec(b: Seq<u8>) -> ContentKind {
    if starts_with(b, seq![0xefu8, 0xbbu8, 0xbfu8]) {
        ContentKind::Utf8Bom
    } else if starts_with(b, seq![0x00u8, 0x00u8, 0xfeu8, 0xffu8]) {
        ContentKind::Utf32Be
    } else if starts_with(b, seq![0xffu8, 0xfeu8, 0x00u8, 0x00u8]) {
        ContentKind::Utf32Le
    } else if starts_with(b, seq![0xfeu8, 0xffu8]) {
        ContentKind::Utf16Be
    } else if starts_with(b, seq![0xffu8, 0xfeu8]) {
        ContentKind::Utf16Le
    } else if zero_in_scan_window(b) {
        ContentKind::Binary
    } else if starts_with(b, seq![0x25u8, 0x50u8, 0x44u8, 0x46u8]) || starts_with(
        b,
        seq![0x89u8, 0x50u8, 0x4eu8, 0x47u8],
    ) {
        ContentKind::Binary
    } else {
        ContentKind::Utf8
    }
}

/// `content_inspector::inspect`: the byte-order-mark and zero-byte
/// classification of the buffer, as its source (0.2.4) computes it.
#[verifier::external_body]
pub(crate) fn inspect_content(buf: &[u8]) -> (r: ContentKind)
    ensures
        r == inspect_spec(buf@),
{
    match content_inspector::inspect(buf) {
        content_inspector::ContentType::BINARY => ContentKind::Binary,
        content_inspector::ContentType::UTF_8 => ContentKind::Utf8,
        content_inspector::ContentType::UTF_8_BOM => ContentKind::Utf8Bom,
        content_inspector::ContentType::UTF_16LE => ContentKind::Utf16Le,
        content_inspector::ContentType::UTF_16BE => ContentKind::Utf16Be,
        content_inspector::ContentType::UTF_32LE => ContentKind::Utf32Le,
        content_inspector::ContentType::UTF_32BE => ContentKind::Utf32Be,
    }
}

} // verus!
