//! Byte-string searching, splitting and number handling used by the
//! request and reply code.

use vstd::prelude::*;

verus! {

/// `pat` occurs in `s` starting at index `i`.
pub open spec fn occurs_at(s: Seq<u8>, pat: Seq<u8>, i: int) -> bool {
    0 <= i && i + pat.len() <= s.len() && s.subrange(i, i + pat.len()) == pat
}

/// The first index at or after `from` where `pat` occurs in `s`.
pub open spec fn find_seq_from(s: Seq<u8>, pat: Seq<u8>, from: int) -> Option<int>
    decreases s.len() + 1 - from,
{
    if from < 0 || from + pat.len() > s.len() {
        None
    } else if occurs_at(s, pat, from) {
        Some(from)
    } else {
        find_seq_from(s, pat, from + 1)
    }
}

/// `pat` occurs somewhere in `s`.
pub open spec fn contains_seq(s: Seq<u8>, pat: Seq<u8>) -> bool {
    find_seq_from(s, pat, 0) is Some
}

/// `s` begins with `pat`.
pub open spec fn starts_with(s: Seq<u8>, pat: Seq<u8>) -> bool {
    pat.len() <= s.len() && s.subrange(0, pat.len() as int) == pat
}

/// The first index at or after `from` that holds the byte `b`.
pub open spec fn find_byte_from(s: Seq<u8>, b: u8, from: int) -> Option<int>
    decreases s.len() - from,
{
    if from < 0 || from >= s.len() {
        None
    } else if s[from] == b {
        Some(from)
    } else {
        find_byte_from(s, b, from + 1)
    }
}

/// `s` with every byte `b` removed.
pub open spec fn strip_byte(s: Seq<u8>, b: u8) -> Seq<u8>
    decreases s.len(),
{
    if s.len() == 0 {
        seq![]
    } else if s.last() == b {
        strip_byte(s.drop_last(), b)
    } else {
        strip_byte(s.drop_last(), b).push(s.last())
    }
}

/// `s` with every space byte removed.
pub open spec fn without_spaces(s: Seq<u8>) -> Seq<u8> {
    strip_byte(s, 0x20u8)
}

/// The second piece of `s.split(sep)`: the bytes between the first `sep`
/// and the next one (or the end), or `None` when `sep` does not occur.
pub open spec fn field_after(s: Seq<u8>, sep: u8) -> Option<Seq<u8>> {
    match find_byte_from(s, sep, 0) {
        None => None,
        Some(i) => Some(
            s.subrange(
                i + 1,
                match find_byte_from(s, sep, i + 1) {
                    Some(j) => j,
                    None => s.len() as int,
                },
            ),
        ),
    }
}

pub open spec fn is_digit(b: u8) -> bool {
    0x30 <= b <= 0x39
}

pub open spec fn all_digits(s: Seq<u8>) -> bool {
    forall|i: int| 0 <= i < s.len() ==> #[trigger] is_digit(s[i])
}

/// The number written by the decimal digits `s`.
pub open spec fn digits_value(s: Seq<u8>) -> nat
    decreases s.len(),
{
    if s.len() == 0 {
        0
    } else {
        digits_value(s.drop_last()) * 10 + (s.last() - 0x30) as nat
    }
}

/// The digits of a number text: the text without one leading `+`.
pub open spec fn digits_part(s: Seq<u8>) -> Seq<u8> {
    if s.len() > 0 && s[0] == 0x2b {
        s.drop_first()
    } else {
        s
    }
}

/// What `str::parse::<usize>` gives for the text `s`: an optional `+`,
/// then one or more decimal digits whose value fits in a `usize`.
pub open spec fn parse_usize_spec(s: Seq<u8>) -> Option<nat> {
    let d = digits_part(s);
    if d.len() == 0 || !all_digits(d) || digits_value(d) > usize::MAX {
        None
    } else {
        Some(digits_value(d))
    }
}

/// `s[from..from + pat.len()] == pat`, checked byte by byte.
pub fn matches_at(s: &[u8], pat: &[u8], from: usize) -> (r: bool)
    ensures
        r == occurs_at(s@, pat@, from as int),
{
    if pat.len() > s.len() || from > s.len() - pat.len() {
        return false;
    }
    let n = s.len();
    let mut k: usize = 0;
    while k < pat.len()
        invariant
            n == s@.len(),
            from as int + pat@.len() <= n,
            k <= pat@.len(),
            forall|j: int| 0 <= j < k ==> s@[from + j] == pat@[j],
        decreases pat@.len() - k,
    {
        if s[from + k] != pat[k] {
            assert(s@.subrange(from as int, from + pat@.len())[k as int] != pat@[k as int]);
            return false;
        }
        k = k + 1;
    }
    assert(s@.subrange(from as int, from + pat@.len()) =~= pat@);
    true
}

/// The first occurrence of `pat` in `s` at or after `from`.
pub fn find_from(s: &[u8], pat: &[u8], from: usize) -> (r: Option<usize>)
    ensures
        r matches Some(i) ==> find_seq_from(s@, pat@, from as int) == Some(i as int),
        r is None ==> find_seq_from(s@, pat@, from as int) is None,
{
    if pat.len() > s.len() {
        return None;
    }
    let last = s.len() - pat.len();
    let mut i = from;
    while i <= last
        invariant
            last == s@.len() - pat@.len(),
            from <= i,
            find_seq_from(s@, pat@, from as int) == find_seq_from(s@, pat@, i as int),
        decreases last + 1 - i,
    {
        if matches_at(s, pat, i) {
            return Some(i);
        }
        assert(find_seq_from(s@, pat@, i as int) == find_seq_from(s@, pat@, i + 1));
        if i == last {
            return None;
        }
        i = i + 1;
    }
    None
}

/// The first position at or after `from` that holds `b`.
pub fn find_byte(s: &[u8], b: u8, from: usize) -> (r: Option<usize>)
    ensures
        r matches Some(i) ==> find_byte_from(s@, b, from as int) == Some(i as int),
        r is None ==> find_byte_from(s@, b, from as int) is None,
{
    let mut i = from;
    while i < s.len()
        invariant
            from <= i,
            find_byte_from(s@, b, from as int) == find_byte_from(s@, b, i as int),
        decreases s@.len() - i,
    {
        if s[i] == b {
            return Some(i);
        }
        i = i + 1;
    }
    None
}

/// `s` begins with `pat`.
pub fn has_prefix(s: &[u8], pat: &[u8]) -> (r: bool)
    ensures
        r == starts_with(s@, pat@),
{
    let r = matches_at(s, pat, 0);
    assert(r == starts_with(s@, pat@));
    r
}

/// `pat` occurs somewhere in `s`.
pub fn contains(s: &[u8], pat: &[u8]) -> (r: bool)
    ensures
        r == contains_seq(s@, pat@),
{
    find_from(s, pat, 0).is_some()
}

/// `a` and `b` hold the same bytes.
pub fn bytes_eq(a: &[u8], b: &[u8]) -> (r: bool)
    ensures
        r == (a@ == b@),
{
    if a.len() != b.len() {
        return false;
    }
    let r = matches_at(a, b, 0);
    assert(r ==> a@ =~= b@) by {
        if r {
            assert(a@.subrange(0, b@.len() as int) =~= a@);
        }
    }
    assert(a@ == b@ ==> r) by {
        if a@ == b@ {
            assert(a@.subrange(0, b@.len() as int) =~= a@);
        }
    }
    r
}

/// How many times the byte `b` occurs in `s`.
pub open spec fn count_byte(s: Seq<u8>, b: u8) -> nat
    decreases s.len(),
{
    if s.len() == 0 {
        0
    } else {
        count_byte(s.drop_last(), b) + if s.last() == b {
            1nat
        } else {
            0nat
        }
    }
}

/// The last index of `s` that holds `b`.
pub open spec fn last_index_of(s: Seq<u8>, b: u8) -> Option<int>
    decreases s.len(),
{
    if s.len() == 0 {
        None
    } else if s.last() == b {
        Some(s.len() - 1)
    } else {
        last_index_of(s.drop_last(), b)
    }
}

/// Piece `k` of `s.split(sep)` (piece 0 comes before the first `sep`), or
/// `None` when `s` has fewer than `k + 1` pieces.
pub open spec fn split_piece(s: Seq<u8>, sep: u8, k: nat) -> Option<Seq<u8>>
    decreases s.len(),
{
    match find_byte_from(s, sep, 0) {
        None => if k == 0 {
            Some(s)
        } else {
            None
        },
        Some(i) => {
            proof {
                lemma_find_byte_bounds(s, sep, 0);
            }
            if k == 0 {
                Some(s.subrange(0, i))
            } else {
                split_piece(s.subrange(i + 1, s.len() as int), sep, (k - 1) as nat)
            }
        },
    }
}

pub proof fn lemma_last_index_bounds(s: Seq<u8>, b: u8)
    ensures
        last_index_of(s, b) matches Some(i) ==> 0 <= i < s.len() && s[i] == b,
    decreases s.len(),
{
    if s.len() > 0 && s.last() != b {
        lemma_last_index_bounds(s.drop_last(), b);
    }
}

/// How many times `b` occurs in `s`.
pub fn count_occurrences(s: &[u8], b: u8) -> (r: usize)
    ensures
        r == count_byte(s@, b),
{
    let mut r: usize = 0;
    let mut i: usize = 0;
    while i < s.len()
        invariant
            i <= s@.len(),
            r <= i,
            r == count_byte(s@.subrange(0, i as int), b),
        decreases s@.len() - i,
    {
        assert(s@.subrange(0, i + 1).drop_last() =~= s@.subrange(0, i as int));
        if s[i] == b {
            r = r + 1;
        }
        i = i + 1;
    }
    assert(s@.subrange(0, i as int) =~= s@);
    r
}

/// The last position of `s` that holds `b`.
pub fn last_position(s: &[u8], b: u8) -> (r: Option<usize>)
    ensures
        r matches Some(i) ==> last_index_of(s@, b) == Some(i as int) && i < s@.len(),
        r is None ==> last_index_of(s@, b) is None,
{
    proof {
        lemma_last_index_bounds(s@, b);
    }
    let mut i = s.len();
    assert(s@.subrange(0, i as int) =~= s@);
    while i > 0
        invariant
            i <= s@.len(),
            last_index_of(s@, b) == last_index_of(s@.subrange(0, i as int), b),
        decreases i,
    {
        assert(s@.subrange(0, i as int).drop_last() =~= s@.subrange(0, i - 1));
        if s[i - 1] == b {
            return Some(i - 1);
        }
        i = i - 1;
    }
    assert(s@.subrange(0, 0) =~= Seq::<u8>::empty());
    None
}

/// Piece `k` of `s.split(sep)`, copied.
pub fn split_piece_at(s: &[u8], sep: u8, k: usize) -> (r: Option<Vec<u8>>)
    ensures
        r matches Some(v) ==> split_piece(s@, sep, k as nat) == Some(v@),
        r is None ==> split_piece(s@, sep, k as nat) is None,
{
    let mut start: usize = 0;
    let mut left = k;
    let n = s.len();
    assert(s@.subrange(0, n as int) =~= s@);
    loop
        invariant
            n == s@.len(),
            start <= n,
            split_piece(s@, sep, k as nat) == split_piece(
                s@.subrange(start as int, n as int),
                sep,
                left as nat,
            ),
        decreases n - start, left,
    {
        let ghost rest = s@.subrange(start as int, n as int);
        let rest_slice = vstd::slice::slice_subrange(s, start, n);
        match find_byte(rest_slice, sep, 0) {
            None => {
                if left == 0 {
                    return Some(copy_range(s, start, n));
                }
                return None;
            },
            Some(i) => {
                proof {
                    lemma_find_byte_bounds(rest, sep, 0);
                }
                if left == 0 {
                    let v = copy_range(s, start, start + i);
                    assert(v@ =~= rest.subrange(0, i as int));
                    return Some(v);
                }
                assert(rest.subrange(i + 1, rest.len() as int) =~= s@.subrange(
                    start + i + 1,
                    n as int,
                ));
                start = start + i + 1;
                left = left - 1;
            },
        }
    }
}

/// A copy of `s[from..to]`.
pub fn copy_range(s: &[u8], from: usize, to: usize) -> (r: Vec<u8>)
    requires
        from <= to <= s@.len(),
    ensures
        r@ == s@.subrange(from as int, to as int),
{
    let mut r: Vec<u8> = Vec::new();
    let mut i = from;
    while i < to
        invariant
            from <= i <= to <= s@.len(),
            r@ == s@.subrange(from as int, i as int),
        decreases to - i,
    {
        r.push(s[i]);
        i = i + 1;
        assert(r@ =~= s@.subrange(from as int, i as int));
    }
    r
}

/// Appends all of `other` to `v`.
pub fn append_bytes(v: &mut Vec<u8>, other: &[u8])
    ensures
        final(v)@ == old(v)@ + other@,
{
    let mut i: usize = 0;
    while i < other.len()
        invariant
            i <= other@.len(),
            v@ == old(v)@ + other@.subrange(0, i as int),
        decreases other@.len() - i,
    {
        v.push(other[i]);
        i = i + 1;
        assert(v@ =~= old(v)@ + other@.subrange(0, i as int));
    }
    assert(other@.subrange(0, other@.len() as int) =~= other@);
}

/// `s` without its space bytes.
pub fn remove_spaces(s: &[u8]) -> (r: Vec<u8>)
    ensures
        r@ == without_spaces(s@),
{
    remove_byte(s, 0x20u8)
}

/// `s` without the bytes `b`.
pub fn remove_byte(s: &[u8], b: u8) -> (r: Vec<u8>)
    ensures
        r@ == strip_byte(s@, b),
{
    let mut r: Vec<u8> = Vec::new();
    let mut i: usize = 0;
    while i < s.len()
        invariant
            i <= s@.len(),
            r@ == strip_byte(s@.subrange(0, i as int), b),
        decreases s@.len() - i,
    {
        let ghost before = s@.subrange(0, i as int);
        if s[i] != b {
            r.push(s[i]);
        }
        i = i + 1;
        assert(s@.subrange(0, i as int).drop_last() =~= before);
    }
    assert(s@.subrange(0, s@.len() as int) =~= s@);
    r
}

/// The second piece of `s.split(sep)`, copied.
pub fn field_after_sep(s: &[u8], sep: u8) -> (r: Option<Vec<u8>>)
    ensures
        r matches Some(v) ==> field_after(s@, sep) == Some(v@),
        r is None ==> field_after(s@, sep) is None,
{
    match find_byte(s, sep, 0) {
        None => None,
        Some(i) => {
            proof {
                lemma_find_byte_bounds(s@, sep, 0);
            }
            let n = s.len();
            assert(i < n);
            let end = match find_byte(s, sep, i + 1) {
                Some(j) => {
                    proof {
                        lemma_find_byte_bounds(s@, sep, i + 1);
                    }
                    j
                },
                None => s.len(),
            };
            Some(copy_range(s, i + 1, end))
        },
    }
}

pub proof fn lemma_find_byte_bounds(s: Seq<u8>, b: u8, from: int)
    ensures
        find_byte_from(s, b, from) matches Some(i) ==> from <= i < s.len() && s[i] == b,
    decreases s.len() - from,
{
    if from < 0 || from >= s.len() {
    } else if s[from] == b {
    } else {
        lemma_find_byte_bounds(s, b, from + 1);
    }
}

pub proof fn lemma_find_seq_bounds(s: Seq<u8>, pat: Seq<u8>, from: int)
    ensures
        find_seq_from(s, pat, from) matches Some(i) ==> from <= i && occurs_at(s, pat, i),
        find_seq_from(s, pat, from) matches Some(i) ==> forall|j: int|
            from <= j < i ==> !#[trigger] occurs_at(s, pat, j),
    decreases s.len() + 1 - from,
{
    if from < 0 || from + pat.len() > s.len() {
    } else if occurs_at(s, pat, from) {
    } else {
        lemma_find_seq_bounds(s, pat, from + 1);
    }
}

/// The first `b` at or after `from` is at `i` when `s[i]` is `b` and no
/// byte between `from` and `i` is.
pub proof fn lemma_find_byte_at(s: Seq<u8>, b: u8, from: int, i: int)
    requires
        0 <= from <= i < s.len(),
        s[i] == b,
        forall|j: int| from <= j < i ==> s[j] != b,
    ensures
        find_byte_from(s, b, from) == Some(i),
    decreases i - from,
{
    if from < i {
        lemma_find_byte_at(s, b, from + 1, i);
    }
}

/// Searching `p + q` from a position in `p` finds what searching `p` finds,
/// and when `p` holds no `b` from there, what searching `q`'s part finds.
pub proof fn lemma_find_byte_concat(p: Seq<u8>, q: Seq<u8>, b: u8, from: int)
    requires
        0 <= from <= p.len(),
    ensures
        find_byte_from(p + q, b, from) == match find_byte_from(p, b, from) {
            Some(i) => Some(i),
            None => find_byte_from(p + q, b, p.len() as int),
        },
    decreases p.len() - from,
{
    if from < p.len() {
        assert((p + q)[from] == p[from]);
        lemma_find_byte_concat(p, q, b, from + 1);
    }
}

/// No `b` is found after `from` when none of those bytes is `b`.
pub proof fn lemma_find_byte_absent(s: Seq<u8>, b: u8, from: int)
    requires
        0 <= from,
        forall|j: int| from <= j < s.len() ==> s[j] != b,
    ensures
        find_byte_from(s, b, from) is None,
    decreases s.len() - from,
{
    if from < s.len() {
        lemma_find_byte_absent(s, b, from + 1);
    }
}

/// The first occurrence of `pat` at or after `from` is at `i` when it occurs
/// there and at no position between `from` and `i`.
pub proof fn lemma_find_seq_at(s: Seq<u8>, pat: Seq<u8>, from: int, i: int)
    requires
        0 <= from <= i,
        occurs_at(s, pat, i),
        forall|j: int| from <= j < i ==> !#[trigger] occurs_at(s, pat, j),
    ensures
        find_seq_from(s, pat, from) == Some(i),
    decreases i - from,
{
    if from < i {
        lemma_find_seq_at(s, pat, from + 1, i);
    }
}

/// A pattern whose first byte does not occur in `s` is not found in it.
pub proof fn lemma_find_seq_absent(s: Seq<u8>, pat: Seq<u8>, from: int)
    requires
        pat.len() > 0,
        forall|j: int| 0 <= j < s.len() ==> s[j] != pat[0],
    ensures
        find_seq_from(s, pat, from) is None,
    decreases s.len() + 1 - from,
{
    if from < 0 || from + pat.len() > s.len() {
    } else {
        assert(s.subrange(from, from + pat.len())[0] == s[from]);
        lemma_find_seq_absent(s, pat, from + 1);
    }
}

/// The decimal numeral of `n`: its digits, most significant first, with no
/// leading zero.
pub open spec fn decimal(n: nat) -> Seq<u8>
    decreases n,
{
    if n < 10 {
        seq![(n + 0x30) as u8]
    } else {
        decimal(n / 10).push((n % 10 + 0x30) as u8)
    }
}

/// The decimal numeral of `n` is a nonempty run of digits whose value is `n`.
pub proof fn lemma_decimal(n: nat)
    ensures
        decimal(n).len() > 0,
        all_digits(decimal(n)),
        digits_value(decimal(n)) == n,
    decreases n,
{
    if n < 10 {
        assert(decimal(n).drop_last() =~= Seq::<u8>::empty());
        assert(decimal(n).last() == n + 0x30);
        assert(digits_value(Seq::<u8>::empty()) == 0);
        assert(digits_value(decimal(n)) == digits_value(decimal(n).drop_last()) * 10 + (
        decimal(n).last() - 0x30) as nat);
    } else {
        lemma_decimal(n / 10);
        assert(decimal(n).drop_last() =~= decimal(n / 10));
        assert(decimal(n).last() == n % 10 + 0x30);
        assert(n == (n / 10) * 10 + n % 10);
        assert(digits_value(decimal(n)) == digits_value(decimal(n).drop_last()) * 10 + (
        decimal(n).last() - 0x30) as nat);
        assert forall|i: int| 0 <= i < decimal(n).len() implies #[trigger] is_digit(
            decimal(n)[i],
        ) by {
            if i < decimal(n).len() - 1 {
                assert(decimal(n)[i] == decimal(n / 10)[i]);
            }
        }
    }
}

/// A number that fits in a `usize` is read back from its decimal numeral.
pub proof fn lemma_parse_decimal(n: nat)
    requires
        n <= usize::MAX,
    ensures
        parse_usize_spec(decimal(n)) == Some(n),
{
    lemma_decimal(n);
    assert(is_digit(decimal(n)[0]));
    assert(digits_part(decimal(n)) == decimal(n));
}

proof fn lemma_digits_value_monotone(s: Seq<u8>, i: int)
    requires
        0 <= i <= s.len(),
    ensures
        digits_value(s.subrange(0, i)) <= digits_value(s),
    decreases s.len() - i,
{
    if i < s.len() {
        lemma_digits_value_monotone(s, i + 1);
        assert(s.subrange(0, i + 1).drop_last() =~= s.subrange(0, i));
    } else {
        assert(s.subrange(0, i) =~= s);
    }
}

/// Parses the decimal text `s` as `str::parse::<usize>` does.
pub fn parse_usize(s: &[u8]) -> (r: Option<usize>)
    ensures
        r matches Some(n) ==> parse_usize_spec(s@) == Some(n as nat),
        r is None ==> parse_usize_spec(s@) is None,
{
    let start: usize = if s.len() > 0 && s[0] == 0x2b {
        1
    } else {
        0
    };
    let ghost d = s@.subrange(start as int, s@.len() as int);
    assert(d =~= digits_part(s@));
    if start == s.len() {
        return None;
    }
    let mut value: usize = 0;
    let mut i = start;
    while i < s.len()
        invariant
            start <= i <= s@.len(),
            d == s@.subrange(start as int, s@.len() as int),
            d == digits_part(s@),
            forall|j: int| start <= j < i ==> is_digit(#[trigger] s@[j]),
            value as nat == digits_value(s@.subrange(start as int, i as int)),
        decreases s@.len() - i,
    {
        let b = s[i];
        if b < 0x30 || b > 0x39 {
            assert(d[i - start] == b);
            assert(!is_digit(d[i - start]));
            assert(!all_digits(d));
            return None;
        }
        let ghost prefix = s@.subrange(start as int, i + 1);
        assert(prefix.drop_last() =~= s@.subrange(start as int, i as int));
        assert(d.subrange(0, i + 1 - start) =~= prefix);
        let digit = (b - 0x30) as usize;
        assert(prefix.last() == b);
        assert(digits_value(prefix) == digits_value(prefix.drop_last()) * 10 + digit);
        match value.checked_mul(10) {
            None => {
                proof {
                    lemma_digits_value_monotone(d, i + 1 - start);
                }
                return None;
            },
            Some(v10) => match v10.checked_add(digit) {
                None => {
                    proof {
                        lemma_digits_value_monotone(d, i + 1 - start);
                    }
                    return None;
                },
                Some(v) => {
                    value = v;
                },
            },
        }
        i = i + 1;
    }
    assert(s@.subrange(start as int, i as int) =~= d);
    assert(all_digits(d));
    Some(value)
}

} // verus!
