//! Byte-level text primitives the map loader is built on: whitespace and
//! bracket trimming, byte search, splitting, and unsigned decimal parsing.
//! Every executable function is specified against a small recursive spec
//! function over the byte sequence.

use vstd::prelude::*;

verus! {

/// ASCII whitespace as the loader understands it: space and the control
/// characters tab through carriage return.
pub open spec fn is_ascii_space(b: u8) -> bool {
    b == 32 || (9 <= b && b <= 13)
}

/// The row delimiters of the map format.
pub open spec fn is_bracket(b: u8) -> bool {
    b == 91 || b == 93
}

pub open spec fn is_ascii_digit(b: u8) -> bool {
    48 <= b && b <= 57
}

/// What is left of `s` after dropping every leading byte satisfying `p`.
pub open spec fn spec_drop_leading(s: Seq<u8>, p: spec_fn(u8) -> bool) -> Seq<u8>
    decreases s.len(),
{
    if s.len() > 0 && p(s[0]) {
        spec_drop_leading(s.drop_first(), p)
    } else {
        s
    }
}

/// What is left of `s` after dropping every trailing byte satisfying `p`.
pub open spec fn spec_drop_trailing(s: Seq<u8>, p: spec_fn(u8) -> bool) -> Seq<u8>
    decreases s.len(),
{
    if s.len() > 0 && p(s.last()) {
        spec_drop_trailing(s.drop_last(), p)
    } else {
        s
    }
}

pub open spec fn spec_trim_pred(s: Seq<u8>, p: spec_fn(u8) -> bool) -> Seq<u8> {
    spec_drop_trailing(spec_drop_leading(s, p), p)
}

/// `s` with ASCII whitespace removed from both ends.
pub open spec fn spec_trim(s: Seq<u8>) -> Seq<u8> {
    spec_trim_pred(s, |b: u8| is_ascii_space(b))
}

/// `s` with row-delimiter brackets removed from both ends.
pub open spec fn spec_trim_brackets(s: Seq<u8>) -> Seq<u8> {
    spec_trim_pred(s, |b: u8| is_bracket(b))
}

proof fn lemma_drop_leading_subrange(s: Seq<u8>, p: spec_fn(u8) -> bool, i: int)
    requires
        0 <= i <= s.len(),
        forall|j: int| 0 <= j < i ==> p(s[j]),
        i < s.len() ==> !p(s[i]),
    ensures
        spec_drop_leading(s, p) == s.subrange(i, s.len() as int),
    decreases i,
{
    if i == 0 {
        assert(s.subrange(0, s.len() as int) =~= s);
    } else {
        assert(p(s[0]));
        let tail = s.drop_first();
        assert forall|j: int| 0 <= j < i - 1 implies p(tail[j]) by {
            assert(tail[j] == s[j + 1]);
        }
        lemma_drop_leading_subrange(tail, p, i - 1);
        assert(tail.subrange(i - 1, tail.len() as int) =~= s.subrange(i, s.len() as int));
    }
}

proof fn lemma_drop_trailing_subrange(s: Seq<u8>, p: spec_fn(u8) -> bool, i: int)
    requires
        0 <= i <= s.len(),
        forall|j: int| i <= j < s.len() ==> p(s[j]),
        0 < i ==> !p(s[i - 1]),
    ensures
        spec_drop_trailing(s, p) == s.subrange(0, i),
    decreases s.len() - i,
{
    if i == s.len() {
        assert(s.subrange(0, i) =~= s);
    } else {
        assert(p(s.last()));
        let head = s.drop_last();
        lemma_drop_trailing_subrange(head, p, i);
        assert(head.subrange(0, i) =~= s.subrange(0, i));
    }
}

/// Narrows `[lo, hi)` to the range left after trimming ASCII whitespace
/// from both ends.
#[verifier::loop_isolation(false)]
pub(crate) fn trim_space_range(v: &Vec<u8>, lo: usize, hi: usize) -> (r: (usize, usize))
    requires
        lo <= hi <= v@.len(),
    ensures
        lo <= r.0 <= r.1 <= hi,
        v@.subrange(r.0 as int, r.1 as int) == spec_trim(v@.subrange(lo as int, hi as int)),
{
    let ghost s = v@.subrange(lo as int, hi as int);
    let ghost p = |b: u8| is_ascii_space(b);
    let mut a = lo;
    while a < hi && (v[a] == 32 || (9 <= v[a] && v[a] <= 13))
        invariant
            lo <= a <= hi <= v@.len(),
            forall|j: int| lo <= j < a ==> is_ascii_space(v@[j]),
        decreases hi - a,
    {
        a = a + 1;
    }
    let mut b = hi;
    while b > a && (v[b - 1] == 32 || (9 <= v[b - 1] && v[b - 1] <= 13))
        invariant
            lo <= a <= b <= hi <= v@.len(),
            forall|j: int| lo <= j < a ==> is_ascii_space(v@[j]),
            forall|j: int| b <= j < hi ==> is_ascii_space(v@[j]),
        decreases b,
    {
        b = b - 1;
    }
    proof {
        assert forall|j: int| 0 <= j < a - lo implies p(s[j]) by {
            assert(s[j] == v@[lo + j]);
        }
        assert(a - lo < s.len() ==> !p(s[a - lo]));
        lemma_drop_leading_subrange(s, p, a - lo);
        let t = s.subrange(a - lo, s.len() as int);
        assert forall|j: int| b - a <= j < t.len() implies p(t[j]) by {
            assert(t[j] == v@[a + j]);
        }
        assert(0 < b - a ==> !p(t[b - a - 1]));
        lemma_drop_trailing_subrange(t, p, b - a);
        assert(t.subrange(0, b - a) =~= v@.subrange(a as int, b as int));
    }
    (a, b)
}

/// Narrows `[lo, hi)` to the range left after trimming brackets from both
/// ends.
#[verifier::loop_isolation(false)]
pub(crate) fn trim_bracket_range(v: &Vec<u8>, lo: usize, hi: usize) -> (r: (usize, usize))
    requires
        lo <= hi <= v@.len(),
    ensures
        lo <= r.0 <= r.1 <= hi,
        v@.subrange(r.0 as int, r.1 as int) == spec_trim_brackets(
            v@.subrange(lo as int, hi as int),
        ),
{
    let ghost s = v@.subrange(lo as int, hi as int);
    let ghost p = |b: u8| is_bracket(b);
    let mut a = lo;
    while a < hi && (v[a] == 91 || v[a] == 93)
        invariant
            lo <= a <= hi <= v@.len(),
            forall|j: int| lo <= j < a ==> is_bracket(v@[j]),
        decreases hi - a,
    {
        a = a + 1;
    }
    let mut b = hi;
    while b > a && (v[b - 1] == 91 || v[b - 1] == 93)
        invariant
            lo <= a <= b <= hi <= v@.len(),
            forall|j: int| lo <= j < a ==> is_bracket(v@[j]),
            forall|j: int| b <= j < hi ==> is_bracket(v@[j]),
        decreases b,
    {
        b = b - 1;
    }
    proof {
        assert forall|j: int| 0 <= j < a - lo implies p(s[j]) by {
            assert(s[j] == v@[lo + j]);
        }
        assert(a - lo < s.len() ==> !p(s[a - lo]));
        lemma_drop_leading_subrange(s, p, a - lo);
        let t = s.subrange(a - lo, s.len() as int);
        assert forall|j: int| b - a <= j < t.len() implies p(t[j]) by {
            assert(t[j] == v@[a + j]);
        }
        assert(0 < b - a ==> !p(t[b - a - 1]));
        lemma_drop_trailing_subrange(t, p, b - a);
        assert(t.subrange(0, b - a) =~= v@.subrange(a as int, b as int));
    }
    (a, b)
}

/// Index of the first occurrence of `t` in `s`, if any.
pub open spec fn spec_find<T>(s: Seq<T>, t: T) -> Option<int>
    decreases s.len(),
{
    if s.len() == 0 {
        None
    } else if s[0] == t {
        Some(0int)
    } else {
        match spec_find(s.drop_first(), t) {
            None => None,
            Some(i) => Some(i + 1),
        }
    }
}

/// Index of the last occurrence of `t` in `s`, if any.
pub open spec fn spec_find_last<T>(s: Seq<T>, t: T) -> Option<int>
    decreases s.len(),
{
    if s.len() == 0 {
        None
    } else if s.last() == t {
        Some(s.len() - 1)
    } else {
        spec_find_last(s.drop_last(), t)
    }
}

pub proof fn lemma_find_scan<T>(s: Seq<T>, t: T, i: int)
    requires
        0 <= i <= s.len(),
        forall|j: int| 0 <= j < i ==> s[j] != t,
        i < s.len() ==> s[i] == t,
    ensures
        spec_find(s, t) == if i < s.len() {
            Some(i)
        } else {
            None::<int>
        },
    decreases i,
{
    if i > 0 {
        assert(s[0] != t);
        let tail = s.drop_first();
        assert forall|j: int| 0 <= j < i - 1 implies tail[j] != t by {
            assert(tail[j] == s[j + 1]);
        }
        assert(i - 1 < tail.len() ==> tail[i - 1] == s[i]);
        lemma_find_scan(tail, t, i - 1);
    }
}

pub proof fn lemma_find_last_scan<T>(s: Seq<T>, t: T, i: int)
    requires
        -1 <= i < s.len(),
        forall|j: int| i < j < s.len() ==> s[j] != t,
        0 <= i ==> s[i] == t,
    ensures
        spec_find_last(s, t) == if 0 <= i {
            Some(i)
        } else {
            None::<int>
        },
    decreases s.len(),
{
    if s.len() > 0 {
        if i == s.len() - 1 {
        } else {
            assert(s.last() != t);
            let head = s.drop_last();
            assert forall|j: int| i < j < head.len() implies head[j] != t by {
                assert(head[j] == s[j]);
            }
            lemma_find_last_scan(head, t, i);
        }
    }
}

/// First occurrence of `t` within `[lo, hi)` of `v`, as an absolute index.
#[verifier::loop_isolation(false)]
pub(crate) fn find_from(v: &Vec<u8>, lo: usize, hi: usize, t: u8) -> (r: Option<usize>)
    requires
        lo <= hi <= v@.len(),
    ensures
        ({
            let s = v@.subrange(lo as int, hi as int);
            match r {
                Some(k) => lo <= k < hi && spec_find(s, t) == Some(k - lo),
                None => spec_find(s, t) is None,
            }
        }),
{
    let ghost s = v@.subrange(lo as int, hi as int);
    let mut i = lo;
    while i < hi
        invariant
            lo <= i <= hi <= v@.len(),
            forall|j: int| lo <= j < i ==> v@[j] != t,
        decreases hi - i,
    {
        if v[i] == t {
            proof {
                assert forall|j: int| 0 <= j < i - lo implies s[j] != t by {
                    assert(s[j] == v@[lo + j]);
                }
                assert(s[i - lo] == t);
                lemma_find_scan(s, t, i - lo);
            }
            return Some(i);
        }
        i = i + 1;
    }
    proof {
        assert forall|j: int| 0 <= j < s.len() implies s[j] != t by {
            assert(s[j] == v@[lo + j]);
        }
        lemma_find_scan(s, t, s.len() as int);
    }
    None
}

/// Last occurrence of `t` within `[lo, hi)` of `v`, as an absolute index.
#[verifier::loop_isolation(false)]
pub(crate) fn find_last_from(v: &Vec<u8>, lo: usize, hi: usize, t: u8) -> (r: Option<usize>)
    requires
        lo <= hi <= v@.len(),
    ensures
        ({
            let s = v@.subrange(lo as int, hi as int);
            match r {
                Some(k) => lo <= k < hi && spec_find_last(s, t) == Some(k - lo),
                None => spec_find_last(s, t) is None,
            }
        }),
{
    let ghost s = v@.subrange(lo as int, hi as int);
    let mut i = hi;
    while i > lo
        invariant
            lo <= i <= hi <= v@.len(),
            forall|j: int| i <= j < hi ==> v@[j] != t,
        decreases i,
    {
        i = i - 1;
        if v[i] == t {
            proof {
                assert forall|j: int| i - lo < j < s.len() implies s[j] != t by {
                    assert(s[j] == v@[lo + j]);
                }
                assert(s[i - lo] == t);
                lemma_find_last_scan(s, t, i - lo);
            }
            return Some(i);
        }
    }
    proof {
        assert forall|j: int| -1 < j < s.len() implies s[j] != t by {
            assert(s[j] == v@[lo + j]);
        }
        lemma_find_last_scan(s, t, -1);
    }
    None
}

/// The comma-separated pieces of `s`, in order, separators removed. A
/// sequence with no separator splits into itself alone, so the result is
/// never empty.
pub open spec fn spec_split(s: Seq<u8>, t: u8) -> Seq<Seq<u8>>
    decreases s.len(),
{
    match spec_find(s, t) {
        None => seq![s],
        Some(i) => if 0 <= i < s.len() {
            seq![s.subrange(0, i)] + spec_split(s.subrange(i + 1, s.len() as int), t)
        } else {
            seq![s]
        },
    }
}

/// Value of a sequence of ASCII digits read as a decimal number.
pub open spec fn spec_digits_value(s: Seq<u8>) -> int
    decreases s.len(),
{
    if s.len() == 0 {
        0
    } else {
        spec_digits_value(s.drop_last()) * 10 + (s.last() - 48)
    }
}

pub open spec fn spec_all_digits(s: Seq<u8>) -> bool {
    forall|i: int| 0 <= i < s.len() ==> is_ascii_digit(s[i])
}

/// The value of `s` read as an unsigned decimal integer: an optional
/// leading plus sign followed by at least one digit, and nothing else.
pub open spec fn spec_parse_uint(s: Seq<u8>) -> Option<int> {
    if s.len() >= 1 && s[0] == 43 {
        let digits = s.subrange(1, s.len() as int);
        if digits.len() >= 1 && spec_all_digits(digits) {
            Some(spec_digits_value(digits))
        } else {
            None
        }
    } else if s.len() >= 1 && spec_all_digits(s) {
        Some(spec_digits_value(s))
    } else {
        None
    }
}

proof fn lemma_digits_value_nonneg(s: Seq<u8>)
    requires
        spec_all_digits(s),
    ensures
        spec_digits_value(s) >= 0,
    decreases s.len(),
{
    if s.len() > 0 {
        let head = s.drop_last();
        assert(spec_all_digits(head));
        lemma_digits_value_nonneg(head);
    }
}

/// A decimal number is at least the value of any of its prefixes: reading
/// further digits never shrinks the value.
proof fn lemma_digits_value_prefix(s: Seq<u8>, i: int)
    requires
        0 <= i <= s.len(),
        spec_all_digits(s),
    ensures
        spec_digits_value(s.subrange(0, i)) <= spec_digits_value(s),
    decreases s.len() - i,
{
    if i == s.len() {
        assert(s.subrange(0, i) =~= s);
    } else {
        let shorter = s.subrange(0, i);
        let longer = s.subrange(0, i + 1);
        assert(longer.drop_last() =~= shorter);
        assert(spec_all_digits(shorter));
        lemma_digits_value_nonneg(shorter);
        assert(longer.last() == s[i]);
        assert(spec_digits_value(longer) == spec_digits_value(shorter) * 10 + (s[i] - 48));
        lemma_digits_value_prefix(s, i + 1);
    }
}

/// Reads `[lo, hi)` of `v` as an unsigned decimal integer no greater than
/// `max`; anything malformed or out of range reads as `None`.
#[verifier::loop_isolation(false)]
pub(crate) fn parse_uint_range(v: &Vec<u8>, lo: usize, hi: usize, max: u32) -> (r: Option<u32>)
    requires
        lo <= hi <= v@.len(),
    ensures
        ({
            let s = v@.subrange(lo as int, hi as int);
            match spec_parse_uint(s) {
                None => r is None,
                Some(val) => 0 <= val && if val <= max {
                    r == Some(val as u32)
                } else {
                    r is None
                },
            }
        }),
{
    let ghost s = v@.subrange(lo as int, hi as int);
    if lo == hi {
        return None;
    }
    let start: usize = if v[lo] == 43 {
        lo + 1
    } else {
        lo
    };
    let ghost digits = v@.subrange(start as int, hi as int);
    proof {
        if s[0] == 43 {
            assert(digits =~= s.subrange(1, s.len() as int));
        } else {
            assert(digits =~= s);
        }
    }
    if start == hi {
        // a sign with no digits, or nothing at all
        assert(digits.len() == 0);
        return None;
    }
    let mut acc: u64 = 0;
    let mut i = start;
    while i < hi
        invariant
            start <= i <= hi <= v@.len(),
            digits == v@.subrange(start as int, hi as int),
            forall|j: int| start <= j < i ==> is_ascii_digit(v@[j]),
            acc == spec_digits_value(digits.subrange(0, i - start)),
            acc <= max,
            max <= u32::MAX,
        decreases hi - i,
    {
        let b = v[i];
        if b < 48 || b > 57 {
            proof {
                assert(!is_ascii_digit(digits[i - start]));
                assert(!spec_all_digits(digits));
            }
            return None;
        }
        let d: u64 = (b - 48) as u64;
        let next: u64 = acc * 10 + d;
        proof {
            let pref = digits.subrange(0, i - start + 1);
            assert(pref.drop_last() =~= digits.subrange(0, i - start));
            assert(pref.last() == digits[i - start]);
        }
        if next > max as u64 {
            proof {
                if spec_all_digits(digits) {
                    lemma_digits_value_nonneg(digits);
                    lemma_digits_value_prefix(digits, i - start + 1);
                    assert(spec_digits_value(digits) > max);
                }
            }
            return None;
        }
        acc = next;
        i = i + 1;
    }
    proof {
        assert(digits.subrange(0, (hi - start) as int) =~= digits);
        assert(spec_all_digits(digits));
        assert(spec_parse_uint(s) == Some(spec_digits_value(digits)));
    }
    Some(acc as u32)
}

/// Searching a concatenation whose first part misses `t` finds whatever the
/// second part holds, shifted past the first.
pub proof fn lemma_find_concat_absent<T>(a: Seq<T>, b: Seq<T>, t: T)
    requires
        forall|i: int| 0 <= i < a.len() ==> a[i] != t,
    ensures
        spec_find(a + b, t) == match spec_find(b, t) {
            None => None::<int>,
            Some(i) => Some(a.len() + i),
        },
    decreases a.len(),
{
    if a.len() == 0 {
        assert(a + b =~= b);
    } else {
        let s = a + b;
        assert(s[0] == a[0]);
        let atail = a.drop_first();
        assert forall|i: int| 0 <= i < atail.len() implies atail[i] != t by {
            assert(atail[i] == a[i + 1]);
        }
        lemma_find_concat_absent(atail, b, t);
        assert(s.drop_first() =~= atail + b);
    }
}

/// Splitting at the first separator of a concatenation: the part before it
/// becomes one piece, the rest splits on its own.
pub proof fn lemma_split_concat(a: Seq<u8>, b: Seq<u8>, t: u8)
    requires
        forall|i: int| 0 <= i < a.len() ==> a[i] != t,
    ensures
        spec_split(a + seq![t] + b, t) == seq![a] + spec_split(b, t),
{
    let s = a + seq![t] + b;
    let tb = seq![t] + b;
    assert(tb[0] == t);
    assert(spec_find(tb, t) == Some(0int));
    lemma_find_concat_absent(a, tb, t);
    assert(a + tb =~= s);
    assert(spec_find(s, t) == Some(a.len() as int));
    assert(s.subrange(0, a.len() as int) =~= a);
    assert(s.subrange(a.len() as int + 1, s.len() as int) =~= b);
}

/// Trimming leaves a sequence alone when neither end satisfies the
/// predicate.
pub proof fn lemma_trim_pred_identity(s: Seq<u8>, p: spec_fn(u8) -> bool)
    requires
        s.len() > 0 ==> !p(s[0]) && !p(s.last()),
    ensures
        spec_trim_pred(s, p) == s,
{
}

/// The decimal rendering of a nonnegative number.
pub open spec fn spec_digits_of(n: int) -> Seq<u8>
    decreases n,
{
    if n < 10 {
        seq![(48 + n) as u8]
    } else {
        spec_digits_of(n / 10) + seq![(48 + n % 10) as u8]
    }
}

/// The decimal rendering of `n` is all digits and reads back as `n`.
pub proof fn lemma_digits_of_value(n: int)
    requires
        0 <= n,
    ensures
        spec_all_digits(spec_digits_of(n)),
        spec_digits_of(n).len() >= 1,
        spec_digits_value(spec_digits_of(n)) == n,
    decreases n,
{
    let s = spec_digits_of(n);
    if n < 10 {
        assert(s =~= seq![(48 + n) as u8]);
        assert(s.drop_last() =~= Seq::<u8>::empty());
        assert(spec_digits_value(s.drop_last()) == 0);
        assert(spec_digits_value(s) == n);
    } else {
        let head = spec_digits_of(n / 10);
        lemma_digits_of_value(n / 10);
        assert(s == head + seq![(48 + n % 10) as u8]);
        assert(s.drop_last() =~= head);
        assert(s.last() == (48 + n % 10) as u8);
        assert forall|i: int| 0 <= i < s.len() implies is_ascii_digit(s[i]) by {
            if i < head.len() {
                assert(s[i] == head[i]);
            } else {
                assert(s[i] == s.last());
            }
        }
        assert(spec_digits_value(s) == spec_digits_value(head) * 10 + (s.last() - 48));
        assert(n / 10 * 10 + n % 10 == n);
    }
}

/// The decimal rendering of `n` parses back to `n`.
pub proof fn lemma_digits_of_parses(n: int)
    requires
        0 <= n,
    ensures
        spec_parse_uint(spec_digits_of(n)) == Some(n),
{
    lemma_digits_of_value(n);
    let s = spec_digits_of(n);
    assert(is_ascii_digit(s[0]));
    assert(s[0] != 43);
}


/// Searching backward over a concatenation whose second part misses `t`
/// finds whatever the first part holds.
pub proof fn lemma_find_last_concat_absent<T>(a: Seq<T>, b: Seq<T>, t: T)
    requires
        forall|i: int| 0 <= i < b.len() ==> b[i] != t,
    ensures
        spec_find_last(a + b, t) == spec_find_last(a, t),
    decreases b.len(),
{
    if b.len() == 0 {
        assert(a + b =~= a);
    } else {
        let s = a + b;
        assert(s.last() == b.last());
        assert(s.drop_last() =~= a + b.drop_last());
        let bhead = b.drop_last();
        assert forall|i: int| 0 <= i < bhead.len() implies bhead[i] != t by {
            assert(bhead[i] == b[i]);
        }
        lemma_find_last_concat_absent(a, bhead, t);
    }
}

/// Whitespace trimming leaves a sequence alone when neither end is
/// whitespace.
pub proof fn lemma_trim_identity(s: Seq<u8>)
    requires
        s.len() > 0 ==> !is_ascii_space(s[0]) && !is_ascii_space(s.last()),
    ensures
        spec_trim(s) == s,
{
    lemma_trim_pred_identity(s, |b: u8| is_ascii_space(b));
}

/// Bracket trimming takes exactly the range between the leading and
/// trailing runs of brackets.
pub proof fn lemma_trim_brackets_range(s: Seq<u8>, i: int, j: int)
    requires
        0 <= i <= j <= s.len(),
        forall|k: int| 0 <= k < i ==> is_bracket(s[k]),
        forall|k: int| j <= k < s.len() ==> is_bracket(s[k]),
        i < s.len() ==> !is_bracket(s[i]),
        i < j ==> !is_bracket(s[j - 1]),
    ensures
        spec_trim_brackets(s) == s.subrange(i, j),
{
    let p = |b: u8| is_bracket(b);
    lemma_drop_leading_subrange(s, p, i);
    let t = s.subrange(i, s.len() as int);
    assert forall|k: int| j - i <= k < t.len() implies p(t[k]) by {
        assert(t[k] == s[i + k]);
    }
    assert(0 < j - i ==> !p(t[j - i - 1]));
    lemma_drop_trailing_subrange(t, p, j - i);
    assert(t.subrange(0, j - i) =~= s.subrange(i, j));
}

} // verus!


