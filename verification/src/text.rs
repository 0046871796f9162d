//! Character-level text helpers shared by the parsers and renderers.
//!
//! Every helper works on the `Seq<char>` view of a string. Scans are stated as
//! tail-recursive spec functions with an accumulator, so each loop's invariant
//! is "the spec of the whole input equals the spec of the unread rest, resumed
//! from the current state".

use vstd::prelude::*;
use vstd::string::StrSliceExecFns;

verus! {

/// Appends one character to a `String` (`String::push`).
#[verifier::external_body]
pub(crate) fn push_char(s: &mut String, c: char)
    ensures
        final(s)@ == old(s)@.push(c),
{
    s.push(c);
}

/// Unicode `White_Space`, the property behind `char::is_whitespace`.
pub open spec fn is_ws(c: char) -> bool {
    ||| ('\u{9}' <= c && c <= '\u{d}')
    ||| c == ' '
    ||| c == '\u{85}'
    ||| c == '\u{a0}'
    ||| c == '\u{1680}'
    ||| ('\u{2000}' <= c && c <= '\u{200a}')
    ||| c == '\u{2028}'
    ||| c == '\u{2029}'
    ||| c == '\u{202f}'
    ||| c == '\u{205f}'
    ||| c == '\u{3000}'
}

pub fn is_whitespace(c: char) -> (r: bool)
    ensures
        r == is_ws(c),
{
    ('\u{9}' <= c && c <= '\u{d}') || c == ' ' || c == '\u{85}' || c == '\u{a0}' || c
        == '\u{1680}' || ('\u{2000}' <= c && c <= '\u{200a}') || c == '\u{2028}' || c
        == '\u{2029}' || c == '\u{202f}' || c == '\u{205f}' || c == '\u{3000}'
}

pub open spec fn is_digit(c: char) -> bool {
    '0' <= c && c <= '9'
}

pub open spec fn is_ascii_alnum(c: char) -> bool {
    ||| ('0' <= c && c <= '9')
    ||| ('a' <= c && c <= 'z')
    ||| ('A' <= c && c <= 'Z')
}

/// `char::to_ascii_lowercase`.
pub open spec fn lower_char(c: char) -> char {
    if 'A' <= c && c <= 'Z' {
        ((c as u32) + 32) as char
    } else {
        c
    }
}

pub fn to_lower_char(c: char) -> (r: char)
    ensures
        r == lower_char(c),
{
    if 'A' <= c && c <= 'Z' {
        let u = (c as u32) + 32;
        assert(u == (c as u32) + 32);
        char_of_ascii(u)
    } else {
        c
    }
}

/// The ASCII character with code `u` (`u < 128`).
fn char_of_ascii(u: u32) -> (c: char)
    requires
        u < 128,
    ensures
        c == u as char,
{
    let b: u8 = u as u8;
    b as char
}

/// `str::to_ascii_lowercase`.
pub open spec fn lower(s: Seq<char>) -> Seq<char> {
    Seq::new(s.len(), |i: int| lower_char(s[i]))
}

/// `str::trim_start`.
pub open spec fn trim_start(s: Seq<char>) -> Seq<char>
    decreases s.len(),
{
    if s.len() > 0 && is_ws(s[0]) {
        trim_start(s.drop_first())
    } else {
        s
    }
}

/// `str::trim_end`.
pub open spec fn trim_end(s: Seq<char>) -> Seq<char>
    decreases s.len(),
{
    if s.len() > 0 && is_ws(s.last()) {
        trim_end(s.drop_last())
    } else {
        s
    }
}

/// `str::trim`: leading and trailing whitespace removed.
pub open spec fn trim(s: Seq<char>) -> Seq<char> {
    trim_end(trim_start(s))
}

/// `str::trim_end_matches(c)` for a single character.
pub open spec fn trim_end_char(s: Seq<char>, c: char) -> Seq<char>
    decreases s.len(),
{
    if s.len() > 0 && s.last() == c {
        trim_end_char(s.drop_last(), c)
    } else {
        s
    }
}

pub open spec fn starts_with(s: Seq<char>, p: Seq<char>) -> bool {
    p.len() <= s.len() && s.subrange(0, p.len() as int) == p
}

pub open spec fn ends_with(s: Seq<char>, p: Seq<char>) -> bool {
    p.len() <= s.len() && s.subrange(s.len() - p.len(), s.len() as int) == p
}

/// `str::strip_prefix(p).unwrap_or(s)`.
pub open spec fn strip_prefix_or(s: Seq<char>, p: Seq<char>) -> Seq<char> {
    if starts_with(s, p) {
        s.subrange(p.len() as int, s.len() as int)
    } else {
        s
    }
}

/// `str::strip_suffix(p).unwrap_or(s)`.
pub open spec fn strip_suffix_or(s: Seq<char>, p: Seq<char>) -> Seq<char> {
    if ends_with(s, p) {
        s.subrange(0, s.len() - p.len())
    } else {
        s
    }
}

pub open spec fn occurs_at(s: Seq<char>, p: Seq<char>, i: int) -> bool {
    0 <= i && i + p.len() <= s.len() && s.subrange(i, i + p.len()) == p
}

/// The first position at or after `i` where `p` occurs in `s`.
pub open spec fn find_from(s: Seq<char>, p: Seq<char>, i: int) -> Option<int>
    decreases s.len() + 1 - i,
{
    if i < 0 || i + p.len() > s.len() {
        None
    } else if occurs_at(s, p, i) {
        Some(i)
    } else {
        find_from(s, p, i + 1)
    }
}

/// `str::find`: the first position where `p` occurs in `s`.
pub open spec fn find(s: Seq<char>, p: Seq<char>) -> Option<int> {
    find_from(s, p, 0)
}

/// `str::contains`.
pub open spec fn contains(s: Seq<char>, p: Seq<char>) -> bool {
    find(s, p) is Some
}

pub open spec fn has_char(s: Seq<char>, c: char) -> bool {
    exists|i: int| 0 <= i < s.len() && s[i] == c
}

pub open spec fn digit_char(d: nat) -> char {
    if d == 0 {
        '0'
    } else if d == 1 {
        '1'
    } else if d == 2 {
        '2'
    } else if d == 3 {
        '3'
    } else if d == 4 {
        '4'
    } else if d == 5 {
        '5'
    } else if d == 6 {
        '6'
    } else if d == 7 {
        '7'
    } else if d == 8 {
        '8'
    } else {
        '9'
    }
}

/// Decimal digits of `n`, most significant first (`u64`'s `Display`).
pub open spec fn dec(n: nat) -> Seq<char>
    decreases n,
{
    if n < 10 {
        seq![digit_char(n)]
    } else {
        dec(n / 10).push(digit_char(n % 10))
    }
}

/// A signed integer's `Display`: a `-` before the digits of a negative value.
pub open spec fn dec_signed(n: int) -> Seq<char> {
    if n < 0 {
        seq!['-'] + dec((-n) as nat)
    } else {
        dec(n as nat)
    }
}

/// The characters of `s`, in order.
pub fn chars_of(s: &str) -> (v: Vec<char>)
    ensures
        v@ == s@,
{
    let n = s.unicode_len();
    let mut v: Vec<char> = Vec::new();
    let mut i: usize = 0;
    while i < n
        invariant
            n == s@.len(),
            i <= n,
            v@ == s@.take(i as int),
        decreases n - i,
    {
        let c = s.get_char(i);
        v.push(c);
        i = i + 1;
        assert(v@ =~= s@.take(i as int));
    }
    assert(v@ =~= s@);
    v
}

/// A `String` holding exactly the characters of `v`.
pub fn string_of(v: &Vec<char>) -> (s: String)
    ensures
        s@ == v@,
{
    let mut s = String::new();
    push_chars(&mut s, v);
    s
}

/// Appends every character of `v` to `s`.
pub fn push_chars(s: &mut String, v: &Vec<char>)
    ensures
        final(s)@ == old(s)@ + v@,
{
    let ghost start = s@;
    let mut i: usize = 0;
    while i < v.len()
        invariant
            i <= v.len(),
            s@ == start + v@.take(i as int),
        decreases v.len() - i,
    {
        push_char(s, v[i]);
        i = i + 1;
        assert(s@ =~= start + v@.take(i as int));
    }
    assert(v@.take(v.len() as int) =~= v@);
}

/// Appends `t` to `s`.
pub fn push_str(s: &mut String, t: &str)
    ensures
        final(s)@ == old(s)@ + t@,
{
    let v = chars_of(t);
    push_chars(s, &v);
}

/// An owned copy of `t`.
pub fn owned(t: &str) -> (s: String)
    ensures
        s@ == t@,
{
    let mut s = String::new();
    push_str(&mut s, t);
    assert(s@ =~= t@);
    s
}

/// A `String` made of `a` then `b`.
pub fn concat2(a: &str, b: &str) -> (s: String)
    ensures
        s@ == a@ + b@,
{
    let mut s = owned(a);
    push_str(&mut s, b);
    s
}

/// A `String` made of `a`, `b`, then `c`.
pub fn concat3(a: &str, b: &str, c: &str) -> (s: String)
    ensures
        s@ == a@ + b@ + c@,
{
    let mut s = concat2(a, b);
    push_str(&mut s, c);
    s
}

pub fn digit(d: u64) -> (c: char)
    requires
        d < 10,
    ensures
        c == digit_char(d as nat),
{
    if d == 0 {
        '0'
    } else if d == 1 {
        '1'
    } else if d == 2 {
        '2'
    } else if d == 3 {
        '3'
    } else if d == 4 {
        '4'
    } else if d == 5 {
        '5'
    } else if d == 6 {
        '6'
    } else if d == 7 {
        '7'
    } else if d == 8 {
        '8'
    } else {
        '9'
    }
}

/// Decimal digits of `n`.
pub fn dec_chars(n: u64) -> (v: Vec<char>)
    ensures
        v@ == dec(n as nat),
    decreases n,
{
    if n < 10 {
        let mut v = Vec::new();
        v.push(digit(n));
        assert(v@ =~= seq![digit_char(n as nat)]);
        v
    } else {
        let mut v = dec_chars(n / 10);
        v.push(digit(n % 10));
        v
    }
}

/// `n.to_string()` for an unsigned integer.
pub fn u64_text(n: u64) -> (s: String)
    ensures
        s@ == dec(n as nat),
{
    let v = dec_chars(n);
    string_of(&v)
}

/// `n.to_string()` for a signed integer.
pub fn i64_text(n: i64) -> (s: String)
    ensures
        s@ == dec_signed(n as int),
{
    if n < 0 {
        let m: u64 = if n == i64::MIN {
            9223372036854775808u64
        } else {
            (-n) as u64
        };
        let mut s = String::new();
        push_char(&mut s, '-');
        let v = dec_chars(m);
        push_chars(&mut s, &v);
        assert(s@ =~= seq!['-'] + dec((-(n as int)) as nat));
        s
    } else {
        u64_text(n as u64)
    }
}

/// Appends the decimal digits of `n` to `s`.
pub fn push_u64(s: &mut String, n: u64)
    ensures
        final(s)@ == old(s)@ + dec(n as nat),
{
    let v = dec_chars(n);
    push_chars(s, &v);
}

/// The position just past the leading whitespace of `v`.
pub fn trim_start_pos(v: &Vec<char>) -> (lo: usize)
    ensures
        lo <= v.len(),
        trim_start(v@) == v@.subrange(lo as int, v@.len() as int),
{
    let mut lo: usize = 0;
    assert(v@.subrange(0, v@.len() as int) =~= v@);
    while lo < v.len() && is_whitespace(v[lo])
        invariant
            lo <= v.len(),
            trim_start(v@) == trim_start(v@.subrange(lo as int, v@.len() as int)),
        decreases v.len() - lo,
    {
        let ghost rest = v@.subrange(lo as int, v@.len() as int);
        assert(rest.drop_first() =~= v@.subrange(lo + 1, v@.len() as int));
        lo = lo + 1;
    }
    lo
}

/// `trim_end` of `v@.subrange(lo, hi)`, as a new end position.
pub fn trim_end_pos(v: &Vec<char>, lo: usize, hi: usize) -> (end: usize)
    requires
        lo <= hi <= v.len(),
    ensures
        lo <= end <= hi,
        trim_end(v@.subrange(lo as int, hi as int)) == v@.subrange(lo as int, end as int),
{
    let mut end = hi;
    while end > lo && is_whitespace(v[end - 1])
        invariant
            lo <= end <= hi <= v.len(),
            trim_end(v@.subrange(lo as int, hi as int)) == trim_end(
                v@.subrange(lo as int, end as int),
            ),
        decreases end - lo,
    {
        let ghost cur = v@.subrange(lo as int, end as int);
        assert(cur.drop_last() =~= v@.subrange(lo as int, end - 1));
        end = end - 1;
    }
    end
}

/// The characters of `v` between `lo` and `hi`.
pub fn slice_chars(v: &Vec<char>, lo: usize, hi: usize) -> (r: Vec<char>)
    requires
        lo <= hi <= v.len(),
    ensures
        r@ == v@.subrange(lo as int, hi as int),
{
    let mut r = Vec::new();
    let mut i = lo;
    while i < hi
        invariant
            lo <= i <= hi <= v.len(),
            r@ == v@.subrange(lo as int, i as int),
        decreases hi - i,
    {
        r.push(v[i]);
        i = i + 1;
        assert(r@ =~= v@.subrange(lo as int, i as int));
    }
    r
}

/// `str::trim`.
pub fn trim_chars(v: &Vec<char>) -> (r: Vec<char>)
    ensures
        r@ == trim(v@),
{
    let lo = trim_start_pos(v);
    let hi = trim_end_pos(v, lo, v.len());
    slice_chars(v, lo, hi)
}

/// `str::to_ascii_lowercase`.
pub fn lower_chars(v: &Vec<char>) -> (r: Vec<char>)
    ensures
        r@ == lower(v@),
{
    let mut r = Vec::new();
    let mut i: usize = 0;
    while i < v.len()
        invariant
            i <= v.len(),
            r@ =~= lower(v@.take(i as int)),
        decreases v.len() - i,
    {
        r.push(to_lower_char(v[i]));
        i = i + 1;
        assert(r@ =~= lower(v@.take(i as int)));
    }
    assert(v@.take(v.len() as int) =~= v@);
    r
}

/// Whether `p` occurs in `s` at position `i`.
pub fn occurs_at_exec(s: &Vec<char>, p: &Vec<char>, i: usize) -> (r: bool)
    ensures
        r == occurs_at(s@, p@, i as int),
{
    if i > s.len() || p.len() > s.len() - i {
        return false;
    }
    let mut j: usize = 0;
    while j < p.len()
        invariant
            i + p.len() <= s.len(),
            j <= p.len(),
            forall|k: int| 0 <= k < j ==> s@[i + k] == p@[k],
        decreases p.len() - j,
    {
        if s[i + j] != p[j] {
            assert(s@.subrange(i as int, i + p.len())[j as int] != p@[j as int]);
            return false;
        }
        j = j + 1;
    }
    assert(s@.subrange(i as int, i + p.len()) =~= p@);
    true
}

pub fn starts_with_exec(s: &Vec<char>, p: &Vec<char>) -> (r: bool)
    ensures
        r == starts_with(s@, p@),
{
    occurs_at_exec(s, p, 0)
}

pub fn ends_with_exec(s: &Vec<char>, p: &Vec<char>) -> (r: bool)
    ensures
        r == ends_with(s@, p@),
{
    if p.len() > s.len() {
        false
    } else {
        occurs_at_exec(s, p, s.len() - p.len())
    }
}

/// `str::find`.
pub fn find_exec(s: &Vec<char>, p: &Vec<char>) -> (r: Option<usize>)
    ensures
        match r {
            Some(i) => find(s@, p@) == Some(i as int),
            None => find(s@, p@) is None,
        },
{
    let mut i: usize = 0;
    while i <= s.len()
        invariant
            i <= s.len() + 1,
            find(s@, p@) == find_from(s@, p@, i as int),
        decreases s.len() + 1 - i,
    {
        if p.len() > s.len() - i {
            return None;
        }
        if occurs_at_exec(s, p, i) {
            return Some(i);
        }
        if i == s.len() {
            assert(find_from(s@, p@, i + 1) is None);
            return None;
        }
        i = i + 1;
    }
    None
}

pub fn contains_exec(s: &Vec<char>, p: &Vec<char>) -> (r: bool)
    ensures
        r == contains(s@, p@),
{
    find_exec(s, p).is_some()
}

pub fn has_char_exec(s: &Vec<char>, c: char) -> (r: bool)
    ensures
        r == has_char(s@, c),
{
    let mut i: usize = 0;
    while i < s.len()
        invariant
            i <= s.len(),
            forall|k: int| 0 <= k < i ==> s@[k] != c,
        decreases s.len() - i,
    {
        if s[i] == c {
            return true;
        }
        i = i + 1;
    }
    false
}

/// Whether two character sequences are equal.
pub fn chars_eq(a: &Vec<char>, b: &Vec<char>) -> (r: bool)
    ensures
        r == (a@ == b@),
{
    if a.len() != b.len() {
        return false;
    }
    let r = occurs_at_exec(a, b, 0);
    assert(a@.subrange(0, b@.len() as int) =~= a@);
    r
}

/// Whether two strings are equal.
pub fn str_eq(a: &str, b: &str) -> (r: bool)
    ensures
        r == (a@ == b@),
{
    let va = chars_of(a);
    let vb = chars_of(b);
    chars_eq(&va, &vb)
}

/// `str::strip_prefix(p).unwrap_or(s)`.
pub fn strip_prefix_or_exec(s: &Vec<char>, p: &Vec<char>) -> (r: Vec<char>)
    ensures
        r@ == strip_prefix_or(s@, p@),
{
    if starts_with_exec(s, p) {
        slice_chars(s, p.len(), s.len())
    } else {
        s.clone()
    }
}

/// `str::strip_suffix(p).unwrap_or(s)`.
pub fn strip_suffix_or_exec(s: &Vec<char>, p: &Vec<char>) -> (r: Vec<char>)
    ensures
        r@ == strip_suffix_or(s@, p@),
{
    if ends_with_exec(s, p) {
        slice_chars(s, 0, s.len() - p.len())
    } else {
        s.clone()
    }
}

/// `str::trim_end_matches(c)` for one character.
pub fn trim_end_char_exec(s: &Vec<char>, c: char) -> (r: Vec<char>)
    ensures
        r@ == trim_end_char(s@, c),
{
    let mut end = s.len();
    assert(s@.subrange(0, s@.len() as int) =~= s@);
    while end > 0 && s[end - 1] == c
        invariant
            end <= s.len(),
            trim_end_char(s@, c) == trim_end_char(s@.subrange(0, end as int), c),
        decreases end,
    {
        assert(s@.subrange(0, end as int).drop_last() =~= s@.subrange(0, end - 1));
        end = end - 1;
    }
    slice_chars(s, 0, end)
}

/// The characters of `s` up to the first non-digit.
pub open spec fn leading_digits(s: Seq<char>) -> Seq<char>
    decreases s.len(),
{
    if s.len() > 0 && is_digit(s[0]) {
        seq![s[0]] + leading_digits(s.drop_first())
    } else {
        seq![]
    }
}

pub open spec fn digits_value(d: Seq<char>) -> nat
    decreases d.len(),
{
    if d.len() == 0 {
        0
    } else {
        (digits_value(d.drop_last()) * 10 + ((d.last() as int) - ('0' as int))) as nat
    }
}

/// `str::parse::<u64>` on a run of ASCII digits.
pub open spec fn parse_digits(d: Seq<char>) -> Option<u64> {
    if d.len() == 0 || digits_value(d) > u64::MAX {
        None
    } else {
        Some(digits_value(d) as u64)
    }
}

/// The value of a run of digits, or `None` when it is empty or exceeds
/// `u64::MAX`.
pub fn parse_digit_run(v: &Vec<char>, lo: usize) -> (r: Option<u64>)
    requires
        lo <= v.len(),
    ensures
        r == parse_digits(leading_digits(v@.subrange(lo as int, v@.len() as int))),
{
    let ghost tail = v@.subrange(lo as int, v@.len() as int);
    let mut i: usize = lo;
    let mut value: u64 = 0;
    let ghost mut seen: Seq<char> = seq![];
    while i < v.len() && '0' <= v[i] && v[i] <= '9'
        invariant
            lo <= i <= v.len(),
            tail == v@.subrange(lo as int, v@.len() as int),
            seen == v@.subrange(lo as int, i as int),
            leading_digits(tail) == seen + leading_digits(v@.subrange(i as int, v@.len() as int)),
            value == digits_value(seen),
        decreases v.len() - i,
    {
        let d: u64 = (v[i] as u32 - '0' as u32) as u64;
        let ghost rest = v@.subrange(i as int, v@.len() as int);
        assert(rest.drop_first() =~= v@.subrange(i + 1, v@.len() as int));
        assert(seen.push(v@[i as int]) =~= v@.subrange(lo as int, i + 1));
        assert(seen + leading_digits(rest) =~= seen.push(v@[i as int]) + leading_digits(rest.drop_first()));
        proof {
            seen = seen.push(v@[i as int]);
            assert(seen.drop_last() =~= v@.subrange(lo as int, i as int));
        }
        if value > (u64::MAX - d) / 10 {
            proof {
                lemma_leading_digits_are_digits(v@.subrange(i + 1, v@.len() as int));
                lemma_digits_grow(seen, leading_digits(v@.subrange(i + 1, v@.len() as int)));
            }
            return None;
        }
        value = value * 10 + d;
        i = i + 1;
    }
    assert(leading_digits(v@.subrange(i as int, v@.len() as int)) =~= seq![]);
    assert(seen + seq![] =~= seen);
    if i == lo {
        None
    } else {
        Some(value)
    }
}

/// Appending digits never makes the value smaller.
pub proof fn lemma_digits_grow(a: Seq<char>, b: Seq<char>)
    requires
        forall|k: int| 0 <= k < b.len() ==> is_digit(#[trigger] b[k]),
    ensures
        digits_value(a + b) >= digits_value(a),
    decreases b.len(),
{
    if b.len() == 0 {
        assert(a + b =~= a);
    } else {
        lemma_digits_grow(a, b.drop_last());
        assert((a + b).drop_last() =~= a + b.drop_last());
    }
}

pub proof fn lemma_leading_digits_are_digits(s: Seq<char>)
    ensures
        forall|k: int| 0 <= k < leading_digits(s).len() ==> is_digit(#[trigger] leading_digits(s)[k]),
    decreases s.len(),
{
    if s.len() > 0 && is_digit(s[0]) {
        lemma_leading_digits_are_digits(s.drop_first());
        let l = leading_digits(s);
        let r = leading_digits(s.drop_first());
        assert(l =~= seq![s[0]] + r);
        assert forall|k: int| 0 <= k < l.len() implies is_digit(#[trigger] l[k]) by {
            if k > 0 {
                assert(l[k] == r[k - 1]);
            }
        }
    }
}

/// Mapping commutes with `push`.
pub proof fn lemma_map_push<A, B>(s: Seq<A>, e: A, f: spec_fn(A) -> B)
    ensures
        s.push(e).map_values(f) == s.map_values(f).push(f(e)),
{
    assert(s.push(e).map_values(f) =~= s.map_values(f).push(f(e)));
}

/// A prefix one longer is the prefix with the next element pushed.
pub proof fn lemma_take_push<A>(s: Seq<A>, i: int)
    requires
        0 <= i < s.len(),
    ensures
        s.take(i + 1) == s.take(i).push(s[i]),
{
    assert(s.take(i + 1) =~= s.take(i).push(s[i]));
}

} // verus!

verus! {

/// A position found by `find` lies inside `s` with `p` there.
pub proof fn lemma_find_bounds(s: Seq<char>, p: Seq<char>)
    ensures
        find(s, p) matches Some(i) ==> occurs_at(s, p, i),
{
    lemma_find_from_bounds(s, p, 0);
}

pub proof fn lemma_find_from_bounds(s: Seq<char>, p: Seq<char>, i: int)
    ensures
        find_from(s, p, i) matches Some(j) ==> occurs_at(s, p, j) && i <= j,
    decreases s.len() + 1 - i,
{
    if i < 0 || i + p.len() > s.len() {
    } else if occurs_at(s, p, i) {
    } else {
        lemma_find_from_bounds(s, p, i + 1);
    }
}

} // verus!

verus! {

pub proof fn lemma_trim_start_idempotent(s: Seq<char>)
    ensures
        trim_start(trim_start(s)) == trim_start(s),
        trim_start(s).len() > 0 ==> !is_ws(trim_start(s)[0]),
    decreases s.len(),
{
    if s.len() > 0 && is_ws(s[0]) {
        lemma_trim_start_idempotent(s.drop_first());
    }
}

pub proof fn lemma_trim_end_keeps_start(s: Seq<char>)
    requires
        s.len() > 0 ==> !is_ws(s[0]),
    ensures
        trim_end(s).len() > 0 ==> !is_ws(trim_end(s)[0]),
        trim_end(s).len() > 0 ==> !is_ws(trim_end(s).last()),
        trim_end(s).len() <= s.len(),
        trim_end(s) == s.subrange(0, trim_end(s).len() as int),
    decreases s.len(),
{
    if s.len() > 0 && is_ws(s.last()) {
        lemma_trim_end_keeps_start(s.drop_last());
        assert(s.drop_last().len() > 0 ==> s.drop_last()[0] == s[0]);
    }
}

pub proof fn lemma_trim_idempotent(s: Seq<char>)
    ensures
        trim(trim(s)) == trim(s),
{
    let a = trim_start(s);
    lemma_trim_start_idempotent(s);
    lemma_trim_end_keeps_start(a);
    let t = trim_end(a);
    if t.len() > 0 {
        assert(!is_ws(t[0]));
        assert(trim_start(t) == t);
        assert(!is_ws(t.last()));
        assert(trim_end(t) == t);
    } else {
        assert(trim_start(t) == t);
        assert(trim_end(t) == t);
    }
}

} // verus!

verus! {

/// Text with no whitespace at either end is its own trim.
pub proof fn lemma_trim_fixed(s: Seq<char>)
    requires
        s.len() > 0 ==> !is_ws(s[0]) && !is_ws(s.last()),
    ensures
        trim(s) == s,
{
    assert(trim_start(s) == s);
    assert(trim_end(s) == s);
}

/// A trimmed text has no whitespace at either end.
pub proof fn lemma_trim_ends(s: Seq<char>)
    ensures
        trim(s).len() > 0 ==> !is_ws(trim(s)[0]) && !is_ws(trim(s).last()),
{
    lemma_trim_start_idempotent(s);
    lemma_trim_end_keeps_start(trim_start(s));
}

/// `trim_start(s)` is a suffix of `s`.
pub proof fn lemma_trim_start_suffix(s: Seq<char>) -> (k: int)
    ensures
        0 <= k <= s.len(),
        trim_start(s) == s.subrange(k, s.len() as int),
    decreases s.len(),
{
    if s.len() > 0 && is_ws(s[0]) {
        let j = lemma_trim_start_suffix(s.drop_first());
        assert(s.drop_first().subrange(j, s.drop_first().len() as int) =~= s.subrange(j + 1, s.len() as int));
        j + 1
    } else {
        assert(s.subrange(0, s.len() as int) =~= s);
        0
    }
}

/// Trimming never brings in a character that was absent.
pub proof fn lemma_trim_keeps_absent(s: Seq<char>, c: char)
    requires
        !has_char(s, c),
    ensures
        !has_char(trim(s), c),
{
    let k = lemma_trim_start_suffix(s);
    let a = trim_start(s);
    lemma_trim_start_idempotent(s);
    lemma_trim_end_keeps_start(a);
    let t = trim(s);
    if has_char(t, c) {
        let i = choose|i: int| 0 <= i < t.len() && t[i] == c;
        assert(t[i] == a[i]);
        assert(a[i] == s[k + i]);
    }
}

/// Where `s` does not start with `p`: they differ at position `i`.
pub proof fn lemma_not_prefix_at(s: Seq<char>, p: Seq<char>, i: int)
    requires
        0 <= i < p.len(),
        i < s.len(),
        s[i] != p[i],
    ensures
        !starts_with(s, p),
{
    if starts_with(s, p) {
        assert(s.subrange(0, p.len() as int)[i] == s[i]);
    }
}

proof fn lemma_find_from_first_char(s: Seq<char>, c: char, i: int, j: int)
    requires
        0 <= j <= i < s.len(),
        s[i] == c,
        forall|k: int| j <= k < i ==> s[k] != c,
    ensures
        find_from(s, seq![c], j) == Some(i),
    decreases i - j,
{
    if j < i {
        if occurs_at(s, seq![c], j) {
            assert(s.subrange(j, j + 1)[0] == s[j]);
        }
        lemma_find_from_first_char(s, c, i, j + 1);
    } else {
        assert(s.subrange(i, i + 1) =~= seq![c]);
    }
}

/// The first occurrence of a character is where `find` stops.
pub proof fn lemma_find_first_char(s: Seq<char>, c: char, i: int)
    requires
        0 <= i < s.len(),
        s[i] == c,
        forall|k: int| 0 <= k < i ==> s[k] != c,
    ensures
        find(s, seq![c]) == Some(i),
{
    lemma_find_from_first_char(s, c, i, 0);
}

/// A pattern holding a character that `s` lacks is never found in `s`.
pub proof fn lemma_find_absent(s: Seq<char>, p: Seq<char>, j: int)
    requires
        0 <= j < p.len(),
        !has_char(s, p[j]),
    ensures
        find(s, p) is None,
{
    lemma_find_bounds(s, p);
    if find(s, p) is Some {
        let i = find(s, p).unwrap();
        assert(s.subrange(i, i + p.len())[j] == s[i + j]);
    }
}

/// Lowering ASCII letters never produces a character that is not a
/// lower-case letter from anything but itself.
pub proof fn lemma_lower_char_fixed(c: char)
    requires
        !('a' <= lower_char(c) && lower_char(c) <= 'z'),
    ensures
        lower_char(c) == c,
{
}

} // verus!
