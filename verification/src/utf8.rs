//! UTF-8 validation of raw request bytes.

use vstd::prelude::*;
use vstd::string::StringSliceAdditionalSpecFns;
use vstd::utf8::*;
use crate::bytes::without_spaces;

verus! {

/// The bytes of `s` from `i` on.
pub open spec fn suffix(s: Seq<u8>, i: int) -> Seq<u8> {
    s.subrange(i, s.len() as int)
}

/// What `std::str::from_utf8(..).unwrap_err().valid_up_to()` reports, and the
/// length of the whole input when it is valid: the end of the longest run of
/// well-formed characters at the start of `s`.
pub open spec fn is_valid_up_to(s: Seq<u8>, n: int) -> bool {
    &&& partial_valid_utf8(s, n)
    &&& (n < s.len() ==> !valid_first_scalar(suffix(s, n)))
}

/// The end of the run of well-formed characters that starts at `i`: each
/// step reads one character, and the run stops at the end of `s` or at the
/// first byte that does not begin a well-formed character.
pub open spec fn utf8_prefix_end(s: Seq<u8>, i: int) -> int
    decreases s.len() - i,
{
    if i < 0 || i >= s.len() {
        i
    } else if valid_first_scalar(suffix(s, i)) {
        proof {
            lemma_scalar_len_positive(suffix(s, i));
        }
        utf8_prefix_end(s, i + length_of_first_scalar(suffix(s, i)))
    } else {
        i
    }
}

/// What `std::str::from_utf8(s).unwrap_err().valid_up_to()` reports for
/// invalid input, and `s.len()` for valid input.
pub open spec fn utf8_prefix_len(s: Seq<u8>) -> int {
    utf8_prefix_end(s, 0)
}

/// The UTF-8 run read from `i` ends between `i` and the end of `s`.
pub proof fn lemma_prefix_end_bounds(s: Seq<u8>, i: int)
    requires
        0 <= i <= s.len(),
    ensures
        i <= utf8_prefix_end(s, i) <= s.len(),
    decreases s.len() - i,
{
    if i < s.len() && valid_first_scalar(suffix(s, i)) {
        lemma_scalar_len_positive(suffix(s, i));
        lemma_prefix_end_bounds(s, i + length_of_first_scalar(suffix(s, i)));
    }
}

pub proof fn lemma_scalar_len_positive(t: Seq<u8>)
    requires
        valid_first_scalar(t),
    ensures
        1 <= length_of_first_scalar(t) <= t.len(),
{
}

/// The length of the well-formed character that starts at `s[i]`, or 0 when
/// none does.
fn scalar_len_at(s: &[u8], i: usize) -> (r: usize)
    requires
        i < s@.len(),
    ensures
        r > 0 <==> valid_first_scalar(suffix(s@, i as int)),
        r > 0 ==> r == length_of_first_scalar(suffix(s@, i as int)),
{
    let n = s.len();
    let ghost t = suffix(s@, i as int);
    let b0 = s[i];
    assert(t[0] == b0);
    if b0 <= 0x7f {
        return 1;
    }
    if b0 < 0xc0 || b0 > 0xf7 {
        return 0;
    }
    if n - i < 2 {
        return 0;
    }
    let b1 = s[i + 1];
    assert(t[1] == b1);
    if b1 < 0x80 || b1 > 0xbf {
        return 0;
    }
    if b0 <= 0xdf {
        let cp: u32 = (((b0 & 0x1f) as u32) << 6u32) | ((b1 & 0x3f) as u32);
        assert(cp == codepoint_width_2(b0, b1));
        if cp >= 0x80 && !(0xd800 <= cp && cp <= 0xdfff) {
            return 2;
        } else {
            return 0;
        }
    }
    if n - i < 3 {
        return 0;
    }
    let b2 = s[i + 2];
    assert(t[2] == b2);
    if b2 < 0x80 || b2 > 0xbf {
        return 0;
    }
    if b0 <= 0xef {
        let cp: u32 = (((b0 & 0x0f) as u32) << 12u32) | (((b1 & 0x3f) as u32) << 6u32) | ((b2
            & 0x3f) as u32);
        assert(cp == codepoint_width_3(b0, b1, b2));
        if cp >= 0x800 && !(0xd800 <= cp && cp <= 0xdfff) {
            return 3;
        } else {
            return 0;
        }
    }
    if n - i < 4 {
        return 0;
    }
    let b3 = s[i + 3];
    assert(t[3] == b3);
    if b3 < 0x80 || b3 > 0xbf {
        return 0;
    }
    let cp: u32 = (((b0 & 0x07) as u32) << 18u32) | (((b1 & 0x3f) as u32) << 12u32) | (((b2
        & 0x3f) as u32) << 6u32) | ((b3 & 0x3f) as u32);
    assert(cp == codepoint_width_4(b0, b1, b2, b3));
    if 0x10000 <= cp && cp <= 0x10ffff && !(0xd800 <= cp && cp <= 0xdfff) {
        4
    } else {
        0
    }
}

/// The end of the longest well-formed UTF-8 prefix of `s`; it is `s.len()`
/// exactly when `s` is valid UTF-8.
pub fn valid_up_to(s: &[u8]) -> (r: usize)
    ensures
        r <= s@.len(),
        r == utf8_prefix_len(s@),
        is_valid_up_to(s@, r as int),
        (r == s@.len()) == valid_utf8(s@),
{
    let n = s.len();
    let mut i: usize = 0;
    assert(s@.subrange(0, 0) =~= Seq::<u8>::empty());
    while i < n
        invariant
            n == s@.len(),
            i <= n,
            partial_valid_utf8(s@, i as int),
            utf8_prefix_len(s@) == utf8_prefix_end(s@, i as int),
        decreases n - i,
    {
        let w = scalar_len_at(s, i);
        if w == 0 {
            proof {
                lemma_invalid_from(s@, i as int);
            }
            return i;
        }
        proof {
            partial_valid_utf8_extend(s@, i as int);
        }
        i = i + w;
    }
    assert(s@.subrange(0, n as int) =~= s@);
    i
}

proof fn lemma_invalid_from(s: Seq<u8>, i: int)
    requires
        partial_valid_utf8(s, i),
        i < s.len(),
        !valid_first_scalar(suffix(s, i)),
    ensures
        !valid_utf8(s),
{
    partial_valid_partial_invalid_utf8(s, i);
}

/// `k` is the end of `s` or the position of a byte that is not a
/// continuation byte, i.e. a place where a character may begin.
pub open spec fn at_char_start(s: Seq<u8>, k: int) -> bool {
    k == s.len() || (0 <= k < s.len() && !is_continuation_byte(s[k]))
}

proof fn lemma_char_start_is_boundary(s: Seq<u8>, k: int)
    requires
        valid_utf8(s),
        at_char_start(s, k),
    ensures
        is_char_boundary(s, k),
{
    if k == s.len() {
        is_char_boundary_start_end_of_seq(s);
    } else {
        is_char_boundary_iff_not_is_continuation_byte(s, k);
    }
}

/// The bytes of valid UTF-8 between two character starts are valid UTF-8.
pub proof fn lemma_valid_between(s: Seq<u8>, i: int, j: int)
    requires
        valid_utf8(s),
        0 <= i <= j <= s.len(),
        at_char_start(s, i),
        at_char_start(s, j),
    ensures
        valid_utf8(s.subrange(i, j)),
{
    lemma_char_start_is_boundary(s, i);
    valid_utf8_split(s, i);
    let t = s.subrange(i, s.len() as int);
    if j < s.len() {
        assert(t[j - i] == s[j]);
    }
    assert(at_char_start(t, j - i));
    lemma_char_start_is_boundary(t, j - i);
    valid_utf8_split(t, j - i);
    assert(t.subrange(0, j - i) =~= s.subrange(i, j));
}

/// In valid UTF-8 an ASCII byte is a whole character: a character starts
/// at it and right after it.
pub proof fn lemma_ascii_neighbors(s: Seq<u8>, k: int)
    requires
        valid_utf8(s),
        0 <= k < s.len(),
        s[k] < 0x80,
    ensures
        at_char_start(s, k),
        at_char_start(s, k + 1),
{
    if k + 1 < s.len() {
        lemma_char_start_is_boundary(s, k);
        valid_utf8_split(s, k);
        let t = s.subrange(k, s.len() as int);
        assert(t[0] == s[k]);
        assert(length_of_first_scalar(t) == 1);
        let u = pop_first_scalar(t);
        assert(u.len() > 0);
        assert(u[0] == s[k + 1]);
        assert(valid_utf8(u));
        assert(valid_first_scalar(u));
    }
}

pub proof fn lemma_without_spaces_concat(a: Seq<u8>, b: Seq<u8>)
    ensures
        without_spaces(a + b) == without_spaces(a) + without_spaces(b),
    decreases b.len(),
{
    if b.len() == 0 {
        assert(a + b =~= a);
        assert(without_spaces(a) + without_spaces(b) =~= without_spaces(a));
    } else {
        assert((a + b).drop_last() =~= a + b.drop_last());
        assert((a + b).last() == b.last());
        lemma_without_spaces_concat(a, b.drop_last());
        if b.last() == 0x20 {
        } else {
            assert(without_spaces(a + b) =~= without_spaces(a) + without_spaces(b));
        }
    }
}

pub proof fn lemma_without_spaces_no_space(a: Seq<u8>)
    requires
        forall|i: int| 0 <= i < a.len() ==> a[i] != 0x20,
    ensures
        without_spaces(a) == a,
    decreases a.len(),
{
    if a.len() > 0 {
        lemma_without_spaces_no_space(a.drop_last());
        assert(a.drop_last().push(a.last()) =~= a);
    }
}

/// Removing the spaces from valid UTF-8 leaves valid UTF-8.
pub proof fn lemma_without_spaces_valid(s: Seq<u8>)
    requires
        valid_utf8(s),
    ensures
        valid_utf8(without_spaces(s)),
    decreases s.len(),
{
    if s.len() > 0 {
        let w = length_of_first_scalar(s);
        let h = s.subrange(0, w);
        let r = pop_first_scalar(s);
        assert(s =~= h + r);
        lemma_without_spaces_concat(h, r);
        lemma_without_spaces_valid(r);
        assert(h[0] == s[0]);
        assert(valid_first_scalar(h));
        assert(pop_first_scalar(h) =~= Seq::<u8>::empty());
        reveal_with_fuel(valid_utf8, 2);
        assert(valid_utf8(h));
        if w == 1 && s[0] == 0x20 {
            assert(h.last() == 0x20);
            assert(h.drop_last() =~= Seq::<u8>::empty());
            assert(without_spaces(h.drop_last()) =~= Seq::<u8>::empty());
            assert(without_spaces(h) == without_spaces(h.drop_last()));
            assert(without_spaces(s) =~= without_spaces(r));
        } else {
            if w > 1 {
                assert(forall|i: int| 0 < i < w ==> h[i] == s[i]);
            }
            lemma_without_spaces_no_space(h);
            valid_utf8_concat(h, without_spaces(r));
        }
    }
}

/// Bytes that are all ASCII are valid UTF-8.
pub proof fn lemma_ascii_valid(s: Seq<u8>)
    requires
        forall|i: int| 0 <= i < s.len() ==> #[trigger] s[i] < 0x80,
    ensures
        valid_utf8(s),
{
    assert(s.subrange(0, 0) =~= Seq::<u8>::empty());
    assert(valid_utf8(Seq::<u8>::empty()));
    assert forall|i: int| 0 <= i < s.len() implies #[trigger] is_leading_byte_width_1(s[i]) by {
        assert(s[i] < 0x80);
    }
    partial_valid_utf8_extend_ascii_block(s, 0, s.len() as int);
    assert(s.subrange(0, s.len() as int) =~= s);
}

/// Whether `s` is valid UTF-8, as `std::str::from_utf8(s).is_ok()`.
pub fn is_utf8(s: &[u8]) -> (r: bool)
    ensures
        r == valid_utf8(s@),
{
    valid_up_to(s) == s.len()
}

/// `std::str::from_utf8`: the bytes as a string slice when they are valid
/// UTF-8. The slice holds exactly the given bytes.
#[verifier::external_body]
pub(crate) fn str_from_utf8(v: &[u8]) -> (r: Option<&str>)
    ensures
        r is Some <==> valid_utf8(v@),
        r matches Some(s) ==> s.spec_bytes() == v@,
{
    std::str::from_utf8(v).ok()
}

} // verus!
