//! The deploy endpoint: the shell commands it runs, the image id it reads
//! from the build output, the service manifest it writes, and the random
//! service name.

use rand::Rng;
use vstd::prelude::*;
use vstd::string::{StringExecFns, StringSliceAdditionalSpecFns};
use vstd::utf8::{decode_utf8, encode_utf8, encode_utf8_decode_utf8, valid_utf8};
use crate::bytes::{
    append_bytes, contains, contains_seq, copy_range, find_byte, find_byte_from, find_seq_from,
    lemma_find_byte_absent, lemma_find_byte_bounds, lemma_find_byte_concat, remove_spaces,
    without_spaces,
};
use crate::reply::{ok_status, text_bytes};
use crate::route::{skip_ws, skip_ws_from, token_end, token_end_from, ws_width};
use crate::text::push_char;
use crate::utf8::{
    at_char_start, is_utf8, lemma_ascii_neighbors, lemma_ascii_valid, lemma_valid_between,
    lemma_without_spaces_no_space, str_from_utf8,
};

verus! {

/// Why the deploy endpoint gives up.
#[derive(Debug, Clone, Copy, PartialEq, Eq, Structural)]
pub enum DeployError {
    /// The image build printed something that is not UTF-8.
    BuildOutputNotUtf8,
    /// A "Successfully built" line has fewer than three words.
    MissingImageId,
    /// A placeholder pattern of the service manifest does not compile.
    PlaceholderPatternInvalid,
}

pub open spec fn build_marker() -> Seq<u8> {
    "Successfully built".spec_bytes()
}

/// The bounds of word `k` (counting from 0) of `s` at or after `from`, as
/// `split_whitespace` finds them.
pub open spec fn word_at(s: Seq<u8>, from: int, k: nat) -> Option<(int, int)>
    decreases k,
{
    let a = skip_ws(s, from);
    if a < 0 || a >= s.len() {
        None
    } else if k == 0 {
        Some((a, token_end(s, a)))
    } else {
        word_at(s, token_end(s, a), (k - 1) as nat)
    }
}

/// Word `k` of `s`.
pub open spec fn nth_word(s: Seq<u8>, k: nat) -> Option<Seq<u8>> {
    match word_at(s, 0, k) {
        Some((a, e)) => Some(s.subrange(a, e)),
        None => None,
    }
}

/// The end of the line (split at `\n`) that starts at `from`.
pub open spec fn newline_end(s: Seq<u8>, from: int) -> int {
    match find_byte_from(s, 0x0au8, from) {
        Some(e) => e,
        None => s.len() as int,
    }
}

/// Scans the build output from the line that starts at `from`: every line
/// that says "Successfully built" gives the image id as its third word.
pub open spec fn scan_build_lines(out: Seq<u8>, from: int, id: Seq<u8>) -> Result<
    Seq<u8>,
    DeployError,
>
    decreases out.len() + 1 - from,
{
    if from < 0 || from > out.len() {
        Ok(id)
    } else {
        let e = newline_end(out, from);
        proof {
            lemma_find_byte_bounds(out, 0x0au8, from);
        }
        let line = out.subrange(from, e);
        let next = if contains_seq(line, build_marker()) {
            match nth_word(line, 2) {
                None => Err(DeployError::MissingImageId),
                Some(w) => Ok(without_spaces(w)),
            }
        } else {
            Ok(id)
        };
        match next {
            Err(err) => Err(err),
            Ok(n) => if e < out.len() {
                scan_build_lines(out, e + 1, n)
            } else {
                Ok(n)
            },
        }
    }
}

/// The id of the image that the build output reports last (empty when it
/// reports none).
pub open spec fn image_id_spec(out: Seq<u8>) -> Result<Seq<u8>, DeployError> {
    if !valid_utf8(out) {
        Err(DeployError::BuildOutputNotUtf8)
    } else {
        scan_build_lines(out, 0, Seq::<u8>::empty())
    }
}

/// The build output line that reports the image `id`.
pub open spec fn build_line(id: Seq<u8>) -> Seq<u8> {
    build_marker() + seq![0x20u8] + id
}

/// A printable ASCII byte other than the space.
pub open spec fn is_visible_ascii(b: u8) -> bool {
    0x21 <= b <= 0x7e
}

/// An image id as `docker build` prints it: a nonempty run of visible ASCII
/// characters.
pub open spec fn is_plain_id(id: Seq<u8>) -> bool {
    id.len() > 0 && forall|i: int| 0 <= i < id.len() ==> is_visible_ascii(#[trigger] id[i])
}

/// A word of visible ASCII bytes that ends at a space or at the end of `s`
/// ends there for `token_end` too.
proof fn lemma_token_end_visible(s: Seq<u8>, i: int, j: int)
    requires
        0 <= i <= j <= s.len(),
        forall|k: int| i <= k < j ==> is_visible_ascii(#[trigger] s[k]),
        j == s.len() || s[j] == 0x20,
    ensures
        token_end(s, i) == j,
    decreases j - i,
{
    if i < j {
        assert(ws_width(s, i) == 0);
        lemma_token_end_visible(s, i + 1, j);
    }
}

/// The bytes of `Successfully built`: visible ASCII, but for the space at 12.
proof fn lemma_build_marker_bytes()
    ensures
        build_marker().len() == 18,
        build_marker()[12] == 0x20,
        forall|k: int| 0 <= k < 18 && k != 12 ==> is_visible_ascii(#[trigger] build_marker()[k]),
{
    reveal_strlit("Successfully built");
    assert(vstd::string::is_ascii("Successfully built"));
    vstd::string::is_ascii_spec_bytes("Successfully built");
    assert(build_marker() =~= seq![
        0x53u8, 0x75u8, 0x63u8, 0x63u8, 0x65u8, 0x73u8, 0x73u8, 0x66u8, 0x75u8, 0x6cu8, 0x6cu8,
        0x79u8, 0x20u8, 0x62u8, 0x75u8, 0x69u8, 0x6cu8, 0x74u8,
    ]);
}

/// Whatever id the earlier lines of the build output gave, a last line
/// `Successfully built <id>` gives `<id>` whole, for every plain id.
pub proof fn law_last_build_line_gives_whole_id(
    out: Seq<u8>,
    from: int,
    earlier: Seq<u8>,
    id: Seq<u8>,
)
    requires
        0 <= from <= out.len(),
        out.subrange(from, out.len() as int) == build_line(id),
        is_plain_id(id),
    ensures
        scan_build_lines(out, from, earlier) == Ok::<Seq<u8>, DeployError>(id),
{
    lemma_build_marker_bytes();
    let line = build_line(id);
    let n = line.len() as int;
    assert(n == 19 + id.len());
    assert forall|k: int| 0 <= k < n implies #[trigger] line[k] == 0x20 || is_visible_ascii(
        line[k],
    ) by {
        if k < 18 {
            assert(line[k] == build_marker()[k]);
        } else if k > 18 {
            assert(line[k] == id[k - 19]);
        }
    }
    // The line is the last one: no `\n` follows `from`.
    assert forall|j: int| from <= j < out.len() implies out[j] != 0x0au8 by {
        assert(out[j] == line[j - from]);
    }
    lemma_find_byte_absent(out, 0x0au8, from);
    assert(newline_end(out, from) == out.len());
    assert(out.subrange(from, out.len() as int) == line);
    // It holds the marker.
    assert(line.subrange(0, 18) =~= build_marker());
    assert(find_seq_from(line, build_marker(), 0) == Some(0int));
    // Its words: `Successfully`, `built`, then the id up to the end.
    assert forall|k: int| 0 <= k < 12 implies is_visible_ascii(#[trigger] line[k]) by {
        assert(line[k] == build_marker()[k]);
    }
    assert forall|k: int| 13 <= k < 18 implies is_visible_ascii(#[trigger] line[k]) by {
        assert(line[k] == build_marker()[k]);
    }
    assert forall|k: int| 19 <= k < n implies is_visible_ascii(#[trigger] line[k]) by {
        assert(line[k] == id[k - 19]);
    }
    assert(line[12] == 0x20u8);
    assert(line[18] == 0x20u8);
    lemma_token_end_visible(line, 0, 12);
    lemma_token_end_visible(line, 13, 18);
    lemma_token_end_visible(line, 19, n);
    assert(ws_width(line, 0) == 0);
    assert(skip_ws(line, 0) == 0);
    assert(ws_width(line, 13) == 0);
    assert(skip_ws(line, 13) == 13);
    assert(skip_ws(line, 12) == 13);
    assert(ws_width(line, 19) == 0);
    assert(skip_ws(line, 19) == 19);
    assert(skip_ws(line, 18) == 19);
    assert(word_at(line, 18, 0) == Some((19int, n)));
    assert(word_at(line, 12, 1) == word_at(line, 18, 0));
    assert(word_at(line, 0, 2) == word_at(line, 12, 1));
    assert(line.subrange(19, n) =~= id);
    assert(nth_word(line, 2) == Some(id));
    assert forall|i: int| 0 <= i < id.len() implies id[i] != 0x20 by {
        assert(is_visible_ascii(id[i]));
    }
    lemma_without_spaces_no_space(id);
}

/// The build output made of the line `Successfully built <id>` alone gives
/// `<id>` whole, for every plain id.
pub proof fn law_image_id_of_build_line(id: Seq<u8>)
    requires
        is_plain_id(id),
    ensures
        image_id_spec(build_line(id)) == Ok::<Seq<u8>, DeployError>(id),
{
    let line = build_line(id);
    law_last_build_line_gives_whole_id(line, 0, Seq::<u8>::empty(), id);
    assert(line.subrange(0, line.len() as int) =~= line);
    // The line is ASCII, so it is UTF-8.
    reveal_strlit("Successfully built");
    vstd::utf8::encode_utf8_valid_utf8("Successfully built"@);
    lemma_build_marker_bytes();
    assert(line.subrange(0, 18) =~= build_marker());
    assert forall|i: int| 18 <= i < line.len() implies #[trigger]
        vstd::utf8::is_leading_byte_width_1(line[i]) by {
        if i > 18 {
            assert(line[i] == id[i - 19]);
            assert(is_visible_ascii(id[i - 19]));
        }
    }
    vstd::utf8::partial_valid_utf8_extend_ascii_block(line, 18, line.len() as int);
}

/// Scanning an output made of `p`, a line break and `rest` goes through the
/// lines of `p` as scanning `p` alone does, then on to the lines of `rest`.
proof fn lemma_scan_build_prefix(p: Seq<u8>, rest: Seq<u8>, from: int, id: Seq<u8>)
    requires
        0 <= from <= p.len(),
    ensures
        scan_build_lines(p + seq![0x0au8] + rest, from, id) == match scan_build_lines(
            p,
            from,
            id,
        ) {
            Ok(a) => scan_build_lines(p + seq![0x0au8] + rest, p.len() + 1int, a),
            Err(e) => Err(e),
        },
    decreases p.len() + 1 - from,
{
    let out = p + seq![0x0au8] + rest;
    assert(out =~= p + (seq![0x0au8] + rest));
    lemma_find_byte_concat(p, seq![0x0au8] + rest, 0x0au8, from);
    assert(out[p.len() as int] == 0x0au8);
    assert(find_byte_from(out, 0x0au8, p.len() as int) == Some(p.len() as int));
    lemma_find_byte_bounds(p, 0x0au8, from);
    let e = newline_end(p, from);
    assert(newline_end(out, from) == e);
    assert(out.subrange(from, e) =~= p.subrange(from, e));
    if e < p.len() {
        let line = p.subrange(from, e);
        let next = if contains_seq(line, build_marker()) {
            match nth_word(line, 2) {
                None => Err(DeployError::MissingImageId),
                Some(w) => Ok(without_spaces(w)),
            }
        } else {
            Ok(id)
        };
        if let Ok(a) = next {
            lemma_scan_build_prefix(p, rest, e + 1, a);
        }
    }
}

/// The image id is the whole id of the last line: an output whose earlier
/// lines read without error and whose last line is `Successfully built
/// <id>` gives `<id>`, for every plain id.
pub proof fn law_image_id_is_last_reported(earlier: Seq<u8>, id: Seq<u8>)
    requires
        image_id_spec(earlier) is Ok,
        is_plain_id(id),
    ensures
        image_id_spec(earlier + seq![0x0au8] + build_line(id)) == Ok::<Seq<u8>, DeployError>(id),
{
    let out = earlier + seq![0x0au8] + build_line(id);
    lemma_scan_build_prefix(earlier, build_line(id), 0, Seq::<u8>::empty());
    let a = scan_build_lines(earlier, 0, Seq::<u8>::empty())->Ok_0;
    assert(out.subrange(earlier.len() + 1int, out.len() as int) =~= build_line(id));
    law_last_build_line_gives_whole_id(out, earlier.len() + 1int, a, id);
    // The output is UTF-8: the earlier lines are, and the rest is ASCII.
    law_image_id_of_build_line(id);
    lemma_ascii_valid(seq![0x0au8]);
    vstd::utf8::valid_utf8_concat(earlier, seq![0x0au8]);
    vstd::utf8::valid_utf8_concat(earlier + seq![0x0au8], build_line(id));
}

/// A byte-string outcome of the deploy endpoint, taken by its view.
pub open spec fn deploy_view(r: Result<Vec<u8>, DeployError>) -> Result<Seq<u8>, DeployError> {
    match r {
        Ok(v) => Ok(v@),
        Err(e) => Err(e),
    }
}

/// Word `k` of `s`, copied.
fn word_of(s: &[u8], k: usize) -> (r: Option<Vec<u8>>)
    ensures
        r matches Some(w) ==> nth_word(s@, k as nat) == Some(w@),
        r is None ==> nth_word(s@, k as nat) is None,
{
    let mut from: usize = 0;
    let mut left = k;
    loop
        invariant
            from <= s@.len(),
            word_at(s@, 0, k as nat) == word_at(s@, from as int, left as nat),
        decreases left,
    {
        let a = skip_ws_from(s, from);
        if a >= s.len() {
            return None;
        }
        let e = token_end_from(s, a);
        if left == 0 {
            return Some(copy_range(s, a, e));
        }
        from = e;
        left = left - 1;
    }
}

/// Reads the image id from the output of `docker build`.
pub fn image_id(out: &[u8]) -> (r: Result<Vec<u8>, DeployError>)
    ensures
        deploy_view(r) == image_id_spec(out@),
{
    if !is_utf8(out) {
        return Err(DeployError::BuildOutputNotUtf8);
    }
    let n = out.len();
    let marker = "Successfully built".as_bytes();
    let mut id: Vec<u8> = Vec::new();
    let mut from: usize = 0;
    loop
        invariant
            n == out@.len(),
            from <= n,
            marker@ == build_marker(),
            image_id_spec(out@) == scan_build_lines(out@, from as int, id@),
        decreases n + 1 - from,
    {
        let found = find_byte(out, 0x0au8, from);
        proof {
            lemma_find_byte_bounds(out@, 0x0au8, from as int);
        }
        let e = match found {
            Some(e) => e,
            None => n,
        };
        let line = vstd::slice::slice_subrange(out, from, e);
        if contains(line, marker) {
            match word_of(line, 2) {
                None => {
                    return Err(DeployError::MissingImageId);
                },
                Some(w) => {
                    id = remove_spaces(w.as_slice());
                },
            }
        }
        if e == n {
            return Ok(id);
        }
        from = e + 1;
    }
}

/// The regular expression that finds the image-id placeholder.
pub open spec fn containerid_pattern() -> Seq<char> {
    "\\{containerid\\}"@
}

/// The regular expression that finds the service-name placeholder (its `.`
/// matches any character).
pub open spec fn uuid_pattern() -> Seq<char> {
    "\\{my_uuid.to_string\\(\\)\\}"@
}

/// Whether the regular expression `pattern` matches somewhere in `haystack`,
/// or `None` when it does not compile.
pub uninterp spec fn regex_match_outcome(pattern: Seq<char>, haystack: Seq<char>) -> Option<bool>;

/// The text `haystack` with the first match of `pattern` replaced by `rep`
/// (whose `$` references are expanded), or `None` when `pattern` does not
/// compile.
pub uninterp spec fn regex_replace_outcome(
    pattern: Seq<char>,
    haystack: Seq<char>,
    rep: Seq<char>,
) -> Option<Seq<char>>;

/// `regex::Regex::new(pattern)` followed by `Regex::is_match(haystack)`;
/// `None` when the pattern does not compile. Which texts a pattern matches
/// is the regex crate's and is only named, by `regex_match_outcome`.
#[verifier::external_body]
fn regex_is_match(pattern: &str, haystack: &str) -> (r: Option<bool>)
    ensures
        r == regex_match_outcome(pattern@, haystack@),
{
    match regex::Regex::new(pattern) {
        Ok(re) => Some(re.is_match(haystack)),
        Err(_) => None,
    }
}

/// `t` is `h` with one part of it replaced by `rep`: the text before and
/// after that part is kept as it was.
pub open spec fn replaces_one_part(h: Seq<char>, rep: Seq<char>, t: Seq<char>) -> bool {
    exists|b: Seq<char>, m: Seq<char>, a: Seq<char>|
        #![trigger b + m + a]
        h == b + m + a && t == b + rep + a
}

/// `regex::Regex::new(pattern)` followed by `Regex::replace(haystack, rep)`:
/// the first match replaced, with `rep` expanded as the crate expands it;
/// `None` when the pattern does not compile. The result is named, by
/// `regex_replace_outcome`; where the pattern matches and `rep` holds no
/// `$` (so nothing is expanded), the result is the haystack with the text
/// of that match replaced by `rep` and the text around it kept. Where the
/// match lies is the crate's and is not stated.
#[verifier::external_body]
fn regex_replace(pattern: &str, haystack: &str, rep: &str) -> (r: Option<String>)
    ensures
        match r {
            Some(s) => regex_replace_outcome(pattern@, haystack@, rep@) == Some(s@),
            None => regex_replace_outcome(pattern@, haystack@, rep@) is None,
        },
        r matches Some(s) ==> (regex_match_outcome(pattern@, haystack@) == Some(true)
            && !rep@.contains('$') ==> replaces_one_part(haystack@, rep@, s@)),
{
    match regex::Regex::new(pattern) {
        Ok(re) => Some(re.replace(haystack, rep).into_owned()),
        Err(_) => None,
    }
}

/// The bytes of a replaced line.
pub open spec fn replaced_line(outcome: Option<Seq<char>>) -> Result<Seq<u8>, DeployError> {
    match outcome {
        None => Err(DeployError::PlaceholderPatternInvalid),
        Some(t) => Ok(encode_utf8(t)),
    }
}

/// One line of the service manifest: where the image-id pattern matches,
/// its first match becomes the image id; in other lines, the first match of
/// the service-name pattern becomes the service name; other lines stay.
pub open spec fn fill_line(line: Seq<u8>, image: Seq<char>, name: Seq<char>) -> Result<
    Seq<u8>,
    DeployError,
> {
    let text = decode_utf8(line);
    match regex_match_outcome(containerid_pattern(), text) {
        None => Err(DeployError::PlaceholderPatternInvalid),
        Some(true) => replaced_line(regex_replace_outcome(containerid_pattern(), text, image)),
        Some(false) => match regex_match_outcome(uuid_pattern(), text) {
            None => Err(DeployError::PlaceholderPatternInvalid),
            Some(true) => replaced_line(regex_replace_outcome(uuid_pattern(), text, name)),
            Some(false) => Ok(line),
        },
    }
}

/// Where the image-id pattern matches a line, its filled text is the line's
/// text with one part replaced by the image id and the text before and
/// after that part kept, given that the pattern's replacement does so (as
/// `Regex::replace` does with a replacement free of `$`).
pub proof fn law_image_line_keeps_context(line: Seq<u8>, image: Seq<char>, name: Seq<char>)
    requires
        regex_match_outcome(containerid_pattern(), decode_utf8(line)) == Some(true),
        regex_replace_outcome(containerid_pattern(), decode_utf8(line), image) matches Some(t)
            ==> replaces_one_part(decode_utf8(line), image, t),
    ensures
        fill_line(line, image, name) matches Ok(out) ==> replaces_one_part(
            decode_utf8(line),
            image,
            decode_utf8(out),
        ),
{
    if let Some(t) = regex_replace_outcome(containerid_pattern(), decode_utf8(line), image) {
        encode_utf8_decode_utf8(t);
    }
}

/// Where only the service-name pattern matches a line, its filled text is
/// the line's text with one part replaced by the service name and the text
/// before and after that part kept, given that the pattern's replacement
/// does so (as `Regex::replace` does with a replacement free of `$`).
pub proof fn law_name_line_keeps_context(line: Seq<u8>, image: Seq<char>, name: Seq<char>)
    requires
        regex_match_outcome(containerid_pattern(), decode_utf8(line)) == Some(false),
        regex_match_outcome(uuid_pattern(), decode_utf8(line)) == Some(true),
        regex_replace_outcome(uuid_pattern(), decode_utf8(line), name) matches Some(t)
            ==> replaces_one_part(decode_utf8(line), name, t),
    ensures
        fill_line(line, image, name) matches Ok(out) ==> replaces_one_part(
            decode_utf8(line),
            name,
            decode_utf8(out),
        ),
{
    if let Some(t) = regex_replace_outcome(uuid_pattern(), decode_utf8(line), name) {
        encode_utf8_decode_utf8(t);
    }
}

/// `rest` with `done` written before it.
pub open spec fn after(done: Seq<u8>, rest: Result<Seq<u8>, DeployError>) -> Result<
    Seq<u8>,
    DeployError,
> {
    match rest {
        Ok(r) => Ok(done + r),
        Err(e) => Err(e),
    }
}

/// The filled lines of the template from the one that starts at `from`,
/// each followed by `\n`.
pub open spec fn fill_lines(t: Seq<u8>, from: int, image: Seq<char>, name: Seq<char>) -> Result<
    Seq<u8>,
    DeployError,
>
    decreases t.len() + 1 - from,
{
    if from < 0 || from > t.len() {
        Ok(Seq::<u8>::empty())
    } else {
        let e = newline_end(t, from);
        proof {
            lemma_find_byte_bounds(t, 0x0au8, from);
        }
        match fill_line(t.subrange(from, e), image, name) {
            Err(err) => Err(err),
            Ok(f) => if e < t.len() {
                after(f.push(0x0au8), fill_lines(t, e + 1, image, name))
            } else {
                Ok(f.push(0x0au8))
            },
        }
    }
}

/// The service manifest written from the template file's bytes: a template
/// that is not UTF-8 reads as empty text.
pub open spec fn serving_manifest_spec(template: Seq<u8>, image: Seq<char>, name: Seq<char>) -> Result<
    Seq<u8>,
    DeployError,
> {
    fill_lines(
        if valid_utf8(template) {
            template
        } else {
            Seq::<u8>::empty()
        },
        0,
        image,
        name,
    )
}

/// Neither placeholder pattern matches any line from the one that starts at
/// `from` on.
pub open spec fn lines_without_placeholders(t: Seq<u8>, from: int) -> bool
    decreases t.len() + 1 - from,
{
    if from < 0 || from > t.len() {
        true
    } else {
        let e = newline_end(t, from);
        proof {
            lemma_find_byte_bounds(t, 0x0au8, from);
        }
        let text = decode_utf8(t.subrange(from, e));
        &&& regex_match_outcome(containerid_pattern(), text) == Some(false)
        &&& regex_match_outcome(uuid_pattern(), text) == Some(false)
        &&& (e < t.len() ==> lines_without_placeholders(t, e + 1))
    }
}

/// A template none of whose lines holds a placeholder is written as it is,
/// with a line break after its last line.
pub proof fn law_manifest_without_placeholders(template: Seq<u8>, image: Seq<char>, name: Seq<char>)
    requires
        valid_utf8(template),
        lines_without_placeholders(template, 0),
    ensures
        serving_manifest_spec(template, image, name) == Ok::<Seq<u8>, DeployError>(
            template.push(0x0au8),
        ),
{
    lemma_plain_lines(template, 0, image, name);
    assert(template.subrange(0, template.len() as int) =~= template);
}

proof fn lemma_plain_lines(t: Seq<u8>, from: int, image: Seq<char>, name: Seq<char>)
    requires
        0 <= from <= t.len(),
        lines_without_placeholders(t, from),
    ensures
        fill_lines(t, from, image, name) == Ok::<Seq<u8>, DeployError>(
            t.subrange(from, t.len() as int).push(0x0au8),
        ),
    decreases t.len() + 1 - from,
{
    let e = newline_end(t, from);
    lemma_find_byte_bounds(t, 0x0au8, from);
    let line = t.subrange(from, e);
    assert(fill_line(line, image, name) == Ok::<Seq<u8>, DeployError>(line));
    if e < t.len() {
        lemma_plain_lines(t, e + 1, image, name);
        assert(line.push(0x0au8) + t.subrange(e + 1, t.len() as int).push(0x0au8) =~= t.subrange(
            from,
            t.len() as int,
        ).push(0x0au8));
    }
}

/// The bytes of a string.
fn string_bytes(s: &String) -> (r: Vec<u8>)
    ensures
        r@ == encode_utf8(s@),
{
    let b = s.as_str().as_bytes();
    copy_range(b, 0, b.len())
}

/// One line of the service manifest.
fn fill_line_exec(line: &[u8], line_str: &str, image: &str, name: &str) -> (r: Result<
    Vec<u8>,
    DeployError,
>)
    requires
        line_str.spec_bytes() == line@,
    ensures
        deploy_view(r) == fill_line(line@, image@, name@),
        r matches Ok(v) ==> (regex_match_outcome(containerid_pattern(), decode_utf8(line@))
            == Some(true) && !image@.contains('$') ==> replaces_one_part(
            decode_utf8(line@),
            image@,
            decode_utf8(v@),
        )),
        r matches Ok(v) ==> (regex_match_outcome(containerid_pattern(), decode_utf8(line@))
            == Some(false) && regex_match_outcome(uuid_pattern(), decode_utf8(line@)) == Some(
            true,
        ) && !name@.contains('$') ==> replaces_one_part(
            decode_utf8(line@),
            name@,
            decode_utf8(v@),
        )),
{
    proof {
        encode_utf8_decode_utf8(line_str@);
    }
    let cid = "\\{containerid\\}";
    let uid = "\\{my_uuid.to_string\\(\\)\\}";
    assert(cid@ == containerid_pattern());
    assert(uid@ == uuid_pattern());
    let first = match regex_is_match(cid, line_str) {
        None => {
            return Err(DeployError::PlaceholderPatternInvalid);
        },
        Some(b) => b,
    };
    if first {
        let replaced = regex_replace(cid, line_str, image);
        proof {
            if !image@.contains('$') {
                law_image_line_keeps_context(line@, image@, name@);
            }
        }
        return match replaced {
            None => Err(DeployError::PlaceholderPatternInvalid),
            Some(t) => Ok(string_bytes(&t)),
        };
    }
    let second = match regex_is_match(uid, line_str) {
        None => {
            return Err(DeployError::PlaceholderPatternInvalid);
        },
        Some(b) => b,
    };
    if second {
        let replaced = regex_replace(uid, line_str, name);
        proof {
            if !name@.contains('$') {
                law_name_line_keeps_context(line@, image@, name@);
            }
        }
        return match replaced {
            None => Err(DeployError::PlaceholderPatternInvalid),
            Some(t) => Ok(string_bytes(&t)),
        };
    }
    assert(line@.subrange(0, line@.len() as int) =~= line@);
    Ok(copy_range(line, 0, line.len()))
}

/// Writes the service manifest from its template, the image id and the
/// service name.
pub fn serving_manifest(template: &[u8], image: &str, name: &str) -> (r: Result<
    Vec<u8>,
    DeployError,
>)
    ensures
        deploy_view(r) == serving_manifest_spec(template@, image@, name@),
{
    let empty: [u8; 0] = [];
    let t: &[u8] = if is_utf8(template) {
        template
    } else {
        &empty
    };
    assert(empty@ =~= Seq::<u8>::empty());
    assert(valid_utf8(empty@)) by {
        assert(empty@.len() == 0);
    }
    let n = t.len();
    let mut r: Vec<u8> = Vec::new();
    let mut from: usize = 0;
    loop
        invariant
            n == t@.len(),
            from <= n,
            valid_utf8(t@),
            at_char_start(t@, from as int),
            serving_manifest_spec(template@, image@, name@) == after(
                r@,
                fill_lines(t@, from as int, image@, name@),
            ),
        decreases n + 1 - from,
    {
        let found = find_byte(t, 0x0au8, from);
        proof {
            lemma_find_byte_bounds(t@, 0x0au8, from as int);
        }
        let e = match found {
            Some(e) => e,
            None => n,
        };
        if e < n {
            proof {
                lemma_ascii_neighbors(t@, e as int);
            }
        }
        proof {
            lemma_valid_between(t@, from as int, e as int);
        }
        let line = vstd::slice::slice_subrange(t, from, e);
        let line_str = match str_from_utf8(line) {
            Some(l) => l,
            None => {
                proof {
                    assert(false);
                }
                return Err(DeployError::PlaceholderPatternInvalid);
            },
        };
        let filled = match fill_line_exec(line, line_str, image, name) {
            Err(err) => {
                return Err(err);
            },
            Ok(f) => f,
        };
        let ghost before = r@;
        append_bytes(&mut r, filled.as_slice());
        r.push(0x0au8);
        assert(r@ =~= before + filled@.push(0x0au8));
        if e == n {
            return Ok(r);
        }
        proof {
            lemma_ascii_neighbors(t@, e as int);
            assert(fill_lines(t@, from as int, image@, name@) == after(
                filled@.push(0x0au8),
                fill_lines(t@, e + 1, image@, name@),
            ));
            assert(forall|x: Seq<u8>| #![auto] before + (filled@.push(0x0au8) + x) =~= r@ + x);
        }
        from = e + 1;
    }
}

pub open spec fn nu_domain() -> Seq<u8> {
    "default.dev.mu-system.bokuno.pw".spec_bytes()
}

pub open spec fn service_notice_prefix() -> Seq<u8> {
    "created service on fqdn : http://".spec_bytes()
}

/// The reply of the deploy endpoint: the 200 status line, the build
/// output, then where the new service answers.
pub fn nu_reply(build_out: &[u8], name: &[u8]) -> (r: Vec<u8>)
    ensures
        r@ == ok_status() + build_out@ + service_notice_prefix() + name@ + seq![0x2eu8]
            + nu_domain(),
{
    let mut r = text_bytes("HTTP/1.1 200 OK\r\n\r\n");
    append_bytes(&mut r, build_out);
    append_bytes(&mut r, "created service on fqdn : http://".as_bytes());
    append_bytes(&mut r, name);
    r.push(0x2eu8);
    append_bytes(&mut r, "default.dev.mu-system.bokuno.pw".as_bytes());
    r
}

/// The character of the decimal digit `d`.
pub open spec fn digit_char(d: int) -> char {
    (0x30 + d) as char
}

/// `n` in four decimal digits, with leading zeros.
pub open spec fn four_digits(n: nat) -> Seq<char> {
    seq![
        digit_char(((n / 1000) % 10) as int),
        digit_char(((n / 100) % 10) as int),
        digit_char(((n / 10) % 10) as int),
        digit_char((n % 10) as int),
    ]
}

/// A service name: four letters, then a number in four digits.
pub open spec fn dns_name_spec(letters: Seq<u8>, number: nat) -> Seq<char> {
    seq![letters[0] as char, letters[1] as char, letters[2] as char, letters[3] as char]
        + four_digits(number)
}

/// A lowercase ASCII letter.
pub open spec fn is_lowercase_letter(c: char) -> bool {
    'a' <= c && c <= 'z'
}

pub open spec fn is_decimal_digit(c: char) -> bool {
    '0' <= c && c <= '9'
}

/// Writes a service name from four letters and a number below 10000, as
/// `format!("{}{}{}{}{:04}", ..)` does.
pub fn format_dns_name(letters: &[u8], number: u32) -> (r: String)
    requires
        letters@.len() == 4,
        number < 10000,
    ensures
        r@ == dns_name_spec(letters@, number as nat),
{
    let mut r = String::new();
    push_char(&mut r, letters[0] as char);
    push_char(&mut r, letters[1] as char);
    push_char(&mut r, letters[2] as char);
    push_char(&mut r, letters[3] as char);
    push_char(&mut r, (0x30u8 + ((number / 1000) % 10) as u8) as char);
    push_char(&mut r, (0x30u8 + ((number / 100) % 10) as u8) as char);
    push_char(&mut r, (0x30u8 + ((number / 10) % 10) as u8) as char);
    push_char(&mut r, (0x30u8 + (number % 10) as u8) as char);
    assert(r@ =~= dns_name_spec(letters@, number as nat));
    r
}

#[verifier::external_type_specification]
#[verifier::external_body]
pub struct ExThreadRng(rand::rngs::ThreadRng);

/// `rand::thread_rng`: the thread's random number generator.
#[verifier::external_body]
fn thread_rng() -> rand::rngs::ThreadRng {
    rand::thread_rng()
}

/// `Rng::gen_range(lo..=hi)` on bytes: a random byte from `lo` to `hi`
/// (it panics on an empty range, which `requires` rules out).
#[verifier::external_body]
fn gen_byte_in(rng: &mut rand::rngs::ThreadRng, lo: u8, hi: u8) -> (r: u8)
    requires
        lo <= hi,
    ensures
        lo <= r <= hi,
{
    rng.gen_range(lo..=hi)
}

/// `Rng::gen_range(0..hi)` on `u32`: a random number below `hi` (it panics
/// on an empty range, which `requires` rules out).
#[verifier::external_body]
fn gen_u32_below(rng: &mut rand::rngs::ThreadRng, hi: u32) -> (r: u32)
    requires
        0 < hi,
    ensures
        r < hi,
{
    rng.gen_range(0..hi)
}

/// A random service name: four random lowercase letters, then a random
/// number below 9999 in four digits.
pub fn newdnsname() -> (r: String)
    ensures
        exists|letters: Seq<u8>, number: nat|
            {
                &&& letters.len() == 4
                &&& forall|i: int| 0 <= i < 4 ==> 0x61 <= #[trigger] letters[i] <= 0x7a
                &&& number < 9999
                &&& r@ == dns_name_spec(letters, number)
            },
        r@.len() == 8,
        forall|i: int| 0 <= i < 4 ==> is_lowercase_letter(#[trigger] r@[i]),
        forall|i: int| 4 <= i < 8 ==> is_decimal_digit(#[trigger] r@[i]),
{
    let mut rng = thread_rng();
    let l1 = gen_byte_in(&mut rng, 0x61u8, 0x7au8);
    let l2 = gen_byte_in(&mut rng, 0x61u8, 0x7au8);
    let l3 = gen_byte_in(&mut rng, 0x61u8, 0x7au8);
    let l4 = gen_byte_in(&mut rng, 0x61u8, 0x7au8);
    let number = gen_u32_below(&mut rng, 9999);
    let letters: [u8; 4] = [l1, l2, l3, l4];
    let r = format_dns_name(&letters, number);
    proof {
        let ls = letters@;
        assert(forall|i: int| 0 <= i < 4 ==> 0x61 <= #[trigger] ls[i] <= 0x7a);
        assert(r@.len() == 8);
    }
    r
}

} // verus!
