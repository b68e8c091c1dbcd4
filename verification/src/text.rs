//! Character-level string helpers.

use vstd::prelude::*;
use vstd::string::StringSliceAdditionalSpecFns;
use vstd::utf8::*;

verus! {

/// `String::push`: appends one character at the end of the string.
#[verifier::external_body]
pub(crate) fn push_char(s: &mut String, c: char)
    ensures
        final(s)@ == old(s)@.push(c),
{
    s.push(c)
}

/// The characters of `s` without the first one (nothing for the empty text).
pub open spec fn drop_first_char(s: Seq<char>) -> Seq<char> {
    if s.len() == 0 {
        s
    } else {
        s.drop_first()
    }
}

/// The characters of `s` without its spaces.
pub open spec fn without_space_chars(s: Seq<char>) -> Seq<char>
    decreases s.len(),
{
    if s.len() == 0 {
        s
    } else if s.last() == ' ' {
        without_space_chars(s.drop_last())
    } else {
        without_space_chars(s.drop_last()).push(s.last())
    }
}

/// The characters of `s` with every `-` turned into `_`.
pub open spec fn hyphens_to_underscores(s: Seq<char>) -> Seq<char> {
    s.map_values(|c: char| if c == '-' { '_' } else { c })
}

/// Drops the first character of `target` (meant for the leading `/` of a
/// request path).
pub fn remove_first_slash(target: &str) -> (result: &str)
    ensures
        result@ == drop_first_char(target@),
{
    if target.is_empty() {
        return target;
    }
    let bytes = target.as_bytes();
    proof {
        encode_utf8_valid_utf8(target@);
        encode_utf8_first_scalar(target@);
        reveal_with_fuel(encode_utf8, 1);
    }
    let b = bytes[0];
    let w: usize = if b < 0x80 {
        1
    } else if b < 0xe0 {
        2
    } else if b < 0xf0 {
        3
    } else {
        4
    };
    proof {
        let s = target.spec_bytes();
        assert(w == length_of_first_scalar(s));
        assert(is_char_boundary(pop_first_scalar(s), 0));
        assert(is_char_boundary(s, w as int));
    }
    let (_, rest) = target.split_at(w);
    proof {
        let s = target.spec_bytes();
        let tail = target@.drop_first();
        assert(s =~= encode_scalar(target@[0] as u32) + encode_utf8(tail));
        assert(rest.spec_bytes() =~= encode_utf8(tail));
        encode_utf8_decode_utf8(rest@);
        encode_utf8_decode_utf8(tail);
    }
    rest
}

/// Removes every space from `target`.
pub fn remove_all_whitespace(target: &String) -> (result: String)
    ensures
        result@ == without_space_chars(target@),
        !result@.contains(' '),
{
    let mut result = String::new();
    for c in it: target.as_str().chars()
        invariant
            it.seq() == target@,
            result@ == without_space_chars(target@.take(it.index() as int)),
    {
        assert(target@.take(it.index() + 1).drop_last() =~= target@.take(it.index() as int));
        if c != ' ' {
            push_char(&mut result, c);
        }
    }
    assert(target@.take(target@.len() as int) =~= target@);
    proof {
        lemma_no_space_left(target@);
    }
    result
}

/// Replaces every hyphen of `target` by an underscore.
pub fn replace_all_hyphen(target: &String) -> (result: String)
    ensures
        result@ == hyphens_to_underscores(target@),
        result@.len() == target@.len(),
        !result@.contains('-'),
{
    let mut result = String::new();
    for c in it: target.as_str().chars()
        invariant
            it.seq() == target@,
            result@ == hyphens_to_underscores(target@.take(it.index() as int)),
    {
        assert(target@.take(it.index() + 1) =~= target@.take(it.index() as int).push(c));
        if c == '-' {
            push_char(&mut result, '_');
        } else {
            push_char(&mut result, c);
        }
        assert(result@ =~= hyphens_to_underscores(target@.take(it.index() + 1)));
    }
    assert(target@.take(target@.len() as int) =~= target@);
    assert forall|i: int| 0 <= i < result@.len() implies result@[i] != '-' by {}
    result
}

proof fn lemma_no_space_left(s: Seq<char>)
    ensures
        !without_space_chars(s).contains(' '),
    decreases s.len(),
{
    if s.len() > 0 {
        lemma_no_space_left(s.drop_last());
        let r = without_space_chars(s.drop_last());
        if s.last() != ' ' {
            assert forall|i: int| 0 <= i < r.push(s.last()).len() implies r.push(s.last())[i]
                != ' ' by {
                if i < r.len() {
                    assert(r[i] != ' ');
                }
            }
        }
    }
}

/// Removing spaces twice is removing them once: a text without spaces is
/// left as it is.
pub proof fn law_remove_all_whitespace_idempotent(s: Seq<char>)
    ensures
        without_space_chars(without_space_chars(s)) == without_space_chars(s),
{
    lemma_no_space_left(s);
    lemma_spaceless_unchanged(without_space_chars(s));
}

proof fn lemma_spaceless_unchanged(s: Seq<char>)
    requires
        !s.contains(' '),
    ensures
        without_space_chars(s) == s,
    decreases s.len(),
{
    if s.len() > 0 {
        assert(s.last() == s[s.len() - 1]);
        assert(!s.drop_last().contains(' ')) by {
            assert forall|i: int| 0 <= i < s.drop_last().len() implies s.drop_last()[i]
                != ' ' by {
                assert(s.drop_last()[i] == s[i]);
            }
        }
        lemma_spaceless_unchanged(s.drop_last());
        assert(s.drop_last().push(s.last()) =~= s);
    }
}

/// Replacing hyphens twice is replacing them once.
pub proof fn law_replace_all_hyphen_idempotent(s: Seq<char>)
    ensures
        hyphens_to_underscores(hyphens_to_underscores(s)) == hyphens_to_underscores(s),
{
    assert(hyphens_to_underscores(hyphens_to_underscores(s)) =~= hyphens_to_underscores(s));
}

} // verus!
