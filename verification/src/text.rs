//! Character-level text operations with their specifications.
//!
//! Strings are specified by their character sequences (`s@`).  The
//! operations here (trimming, line splitting, searching, decimal rendering)
//! are the ones the rest of the library builds on.

use vstd::prelude::*;
use vstd::utf8::{encode_scalar, encode_utf8};

verus! {

// ---------------------------------------------------------------------------
// Specifications
// ---------------------------------------------------------------------------

/// Unicode `White_Space`, the property behind `char::is_whitespace`.
pub open spec fn is_whitespace(c: char) -> bool {
    let u = c as u32;
    ||| 0x09 <= u <= 0x0d
    ||| u == 0x20
    ||| u == 0x85
    ||| u == 0xa0
    ||| u == 0x1680
    ||| 0x2000 <= u <= 0x200a
    ||| u == 0x2028
    ||| u == 0x2029
    ||| u == 0x202f
    ||| u == 0x205f
    ||| u == 0x3000
}

/// `s` without its leading whitespace.
pub open spec fn trim_start(s: Seq<char>) -> Seq<char>
    decreases s.len(),
{
    if s.len() > 0 && is_whitespace(s[0]) {
        trim_start(s.drop_first())
    } else {
        s
    }
}

/// `s` without its trailing whitespace.
pub open spec fn trim_end(s: Seq<char>) -> Seq<char>
    decreases s.len(),
{
    if s.len() > 0 && is_whitespace(s.last()) {
        trim_end(s.drop_last())
    } else {
        s
    }
}

/// `s` without leading and trailing whitespace (`str::trim`).
pub open spec fn trim(s: Seq<char>) -> Seq<char> {
    trim_end(trim_start(s))
}

/// `p` is a prefix of `s`.
pub open spec fn has_prefix(s: Seq<char>, p: Seq<char>) -> bool {
    p.len() <= s.len() && s.subrange(0, p.len() as int) == p
}

/// `p` is a suffix of `s`.
pub open spec fn has_suffix(s: Seq<char>, p: Seq<char>) -> bool {
    p.len() <= s.len() && s.subrange(s.len() - p.len(), s.len() as int) == p
}

/// `p` occurs in `s` starting at index `i`.
pub open spec fn occurs_at(s: Seq<char>, p: Seq<char>, i: int) -> bool {
    0 <= i && i + p.len() <= s.len() && s.subrange(i, i + p.len()) == p
}

/// `p` occurs somewhere in `s`.
pub open spec fn contains(s: Seq<char>, p: Seq<char>) -> bool {
    exists|i: int| occurs_at(s, p, i)
}

/// The first index `i >= k` at which `p` occurs in `s`.
pub open spec fn find_from(s: Seq<char>, p: Seq<char>, k: int) -> Option<int>
    decreases s.len() + 1 - k,
{
    if k < 0 || k + p.len() > s.len() {
        None
    } else if s.subrange(k, k + p.len()) == p {
        Some(k)
    } else {
        find_from(s, p, k + 1)
    }
}

/// The index of the first `'\n'` in `s`, or `s.len()` when there is none.
pub open spec fn newline_index(s: Seq<char>) -> nat
    decreases s.len(),
{
    if s.len() == 0 {
        0
    } else if s[0] == '\n' {
        0
    } else {
        1 + newline_index(s.drop_first())
    }
}

/// A line as `str::lines` yields it: a `'\r'` directly before the `'\n'`
/// that ended it is dropped.
pub open spec fn strip_cr(l: Seq<char>) -> Seq<char> {
    if l.len() > 0 && l.last() == '\r' {
        l.drop_last()
    } else {
        l
    }
}

/// The lines of `s` (`str::lines`): `s` split at each `'\n'`, a final
/// `'\n'` ending the last line rather than starting an empty one.
pub open spec fn lines(s: Seq<char>) -> Seq<Seq<char>>
    decreases s.len(),
{
    if s.len() == 0 {
        Seq::empty()
    } else {
        let i = newline_index(s) as int;
        if i >= s.len() {
            seq![s]
        } else {
            seq![strip_cr(s.subrange(0, i))] + lines(s.subrange(i + 1, s.len() as int))
        }
    }
}

/// The character of a decimal digit.
pub open spec fn digit_char(d: nat) -> char {
    if d == 0 {
        '0'
    } else if d == 1 {
        '1'
    } else if d == 2 {
        '2'
    } else if d == 3 {
        '3'
    } else if d == 4 {
        '4'
    } else if d == 5 {
        '5'
    } else if d == 6 {
        '6'
    } else if d == 7 {
        '7'
    } else if d == 8 {
        '8'
    } else {
        '9'
    }
}

/// The decimal rendering of `n`, without leading zeros.
pub open spec fn decimal(n: nat) -> Seq<char>
    decreases n,
{
    if n < 10 {
        seq![digit_char(n)]
    } else {
        decimal(n / 10).push(digit_char(n % 10))
    }
}

/// The first `n` characters of `s`, or all of them when there are fewer.
pub open spec fn take_chars(s: Seq<char>, n: nat) -> Seq<char> {
    if s.len() <= n {
        s
    } else {
        s.subrange(0, n as int)
    }
}

/// The number of bytes of the UTF-8 encoding of `s` (`str::len`).
pub open spec fn byte_len(s: Seq<char>) -> nat {
    encode_utf8(s).len()
}

/// The number of bytes of the UTF-8 encoding of one character.
pub open spec fn char_width(c: char) -> nat {
    let u = c as u32;
    if u < 0x80 {
        1
    } else if u < 0x800 {
        2
    } else if u < 0x10000 {
        3
    } else {
        4
    }
}

// ---------------------------------------------------------------------------
// Names for what std computes from Unicode tables
// ---------------------------------------------------------------------------

/// What `str::to_lowercase` returns for a string with these characters.
pub uninterp spec fn lowercase(s: Seq<char>) -> Seq<char>;

/// What `char::is_alphanumeric` returns for a character.
pub uninterp spec fn alphanumeric(c: char) -> bool;

/// `str::to_lowercase` (std): the Unicode lowercase mapping of each
/// character.  The contract claims only that the result is a function of
/// the characters of `s`, named `lowercase`.
#[verifier::external_body]
pub fn to_lowercase(s: &str) -> (r: String)
    ensures
        r@ == lowercase(s@),
{
    s.to_lowercase()
}

/// `char::is_alphanumeric` (std): whether `c` is Unicode alphabetic or
/// numeric.  The contract claims only that the answer is a function of `c`,
/// named `alphanumeric`.
#[verifier::external_body]
pub fn is_alphanumeric(c: char) -> (b: bool)
    ensures
        b == alphanumeric(c),
{
    c.is_alphanumeric()
}

/// `String::push` (std): appends `c` at the end of `s`.
#[verifier::external_body]
pub fn push_char(s: &mut String, c: char)
    ensures
        final(s)@ == old(s)@.push(c),
{
    s.push(c);
}

// ---------------------------------------------------------------------------
// Lemmas
// ---------------------------------------------------------------------------

proof fn lemma_trim_start_skip(s: Seq<char>, i: int)
    requires
        0 <= i <= s.len(),
        forall|j: int| 0 <= j < i ==> is_whitespace(#[trigger] s[j]),
    ensures
        trim_start(s) == trim_start(s.subrange(i, s.len() as int)),
    decreases i,
{
    if i == 0 {
        assert(s.subrange(0, s.len() as int) =~= s);
    } else {
        let t = s.drop_first();
        assert forall|j: int| 0 <= j < i - 1 implies is_whitespace(#[trigger] t[j]) by {
            assert(t[j] == s[j + 1]);
        }
        lemma_trim_start_skip(t, i - 1);
        assert(t.subrange(i - 1, t.len() as int) =~= s.subrange(i, s.len() as int));
    }
}

proof fn lemma_trim_end_take(s: Seq<char>, k: int)
    requires
        0 <= k <= s.len(),
        forall|j: int| k <= j < s.len() ==> is_whitespace(#[trigger] s[j]),
    ensures
        trim_end(s) == trim_end(s.subrange(0, k)),
    decreases s.len() - k,
{
    if k == s.len() {
        assert(s.subrange(0, k) =~= s);
    } else {
        let t = s.drop_last();
        assert forall|j: int| k <= j < t.len() implies is_whitespace(#[trigger] t[j]) by {
            assert(t[j] == s[j]);
        }
        lemma_trim_end_take(t, k);
        assert(t.subrange(0, k) =~= s.subrange(0, k));
    }
}

/// Trimming takes the run of characters between the first and the last
/// character that is not whitespace.
proof fn lemma_trim_bounds(s: Seq<char>, lo: int, hi: int)
    requires
        0 <= lo <= hi <= s.len(),
        forall|j: int| 0 <= j < lo ==> is_whitespace(#[trigger] s[j]),
        forall|j: int| hi <= j < s.len() ==> is_whitespace(#[trigger] s[j]),
        lo < hi ==> !is_whitespace(s[lo]) && !is_whitespace(s[hi - 1]),
        lo == hi ==> hi == s.len(),
    ensures
        trim(s) == s.subrange(lo, hi),
{
    lemma_trim_start_skip(s, lo);
    let t = s.subrange(lo, s.len() as int);
    assert(trim_start(t) == t);
    lemma_trim_end_take(t, hi - lo);
    assert(t.subrange(0, hi - lo) =~= s.subrange(lo, hi));
    if lo < hi {
        assert(s.subrange(lo, hi).last() == s[hi - 1]);
    }
}

/// Trimming a trimmed sequence changes nothing.
pub proof fn lemma_trim_idempotent(s: Seq<char>)
    ensures
        trim(trim(s)) == trim(s),
{
    let t = trim(s);
    lemma_trim_shape(s);
    if t.len() > 0 {
        lemma_trim_bounds(t, 0, t.len() as int);
        assert(t.subrange(0, t.len() as int) =~= t);
    }
}

/// A trimmed sequence neither starts nor ends with whitespace.
pub proof fn lemma_trim_shape(s: Seq<char>)
    ensures
        trim(s).len() > 0 ==> !is_whitespace(trim(s)[0]) && !is_whitespace(trim(s).last()),
        trim(s).len() <= s.len(),
{
    lemma_trim_start_shape(s);
    lemma_trim_end_shape(trim_start(s));
    let a = trim_start(s);
    let b = trim_end(a);
    if b.len() > 0 {
        lemma_trim_end_is_prefix(a);
        assert(b[0] == a[0]);
    }
}

proof fn lemma_trim_start_shape(s: Seq<char>)
    ensures
        trim_start(s).len() > 0 ==> !is_whitespace(trim_start(s)[0]),
        trim_start(s).len() <= s.len(),
    decreases s.len(),
{
    if s.len() > 0 && is_whitespace(s[0]) {
        lemma_trim_start_shape(s.drop_first());
    }
}

proof fn lemma_trim_end_shape(s: Seq<char>)
    ensures
        trim_end(s).len() > 0 ==> !is_whitespace(trim_end(s).last()),
        trim_end(s).len() <= s.len(),
    decreases s.len(),
{
    if s.len() > 0 && is_whitespace(s.last()) {
        lemma_trim_end_shape(s.drop_last());
    }
}

proof fn lemma_trim_end_is_prefix(s: Seq<char>)
    ensures
        trim_end(s).len() <= s.len(),
        trim_end(s) == s.subrange(0, trim_end(s).len() as int),
    decreases s.len(),
{
    if s.len() > 0 && is_whitespace(s.last()) {
        lemma_trim_end_is_prefix(s.drop_last());
        assert(s.drop_last().subrange(0, trim_end(s).len() as int) =~= s.subrange(
            0,
            trim_end(s).len() as int,
        ));
    } else {
        assert(s.subrange(0, s.len() as int) =~= s);
    }
}

proof fn lemma_find_from_facts(s: Seq<char>, p: Seq<char>, k: int)
    requires
        0 <= k,
    ensures
        find_from(s, p, k) matches Some(i) ==> k <= i && occurs_at(s, p, i) && forall|j: int|
            k <= j < i ==> !occurs_at(s, p, j),
        find_from(s, p, k) is None ==> forall|j: int| k <= j ==> !occurs_at(s, p, j),
    decreases s.len() + 1 - k,
{
    if k + p.len() > s.len() {
    } else if s.subrange(k, k + p.len()) == p {
    } else {
        lemma_find_from_facts(s, p, k + 1);
    }
}

/// An occurrence found from `k` lies at or after `k` and fits in `s`.
pub proof fn lemma_find_from_bounds(s: Seq<char>, p: Seq<char>, k: int)
    requires
        0 <= k,
    ensures
        find_from(s, p, k) matches Some(i) ==> k <= i && i + p.len() <= s.len() && occurs_at(s, p, i),
{
    lemma_find_from_facts(s, p, k);
}

/// The search from `k` finds the first occurrence at or after `k`.
pub proof fn lemma_find_from_first(s: Seq<char>, p: Seq<char>, k: int, i: int)
    requires
        0 <= k <= i,
        occurs_at(s, p, i),
        forall|j: int| k <= j < i ==> !occurs_at(s, p, j),
    ensures
        find_from(s, p, k) == Some(i),
    decreases i - k,
{
    if k < i {
        assert(!occurs_at(s, p, k));
        lemma_find_from_first(s, p, k + 1, i);
    }
}

/// The search from `k` finds nothing when nothing occurs at or after `k`.
pub proof fn lemma_find_from_none(s: Seq<char>, p: Seq<char>, k: int)
    requires
        0 <= k,
        forall|j: int| k <= j ==> !occurs_at(s, p, j),
    ensures
        find_from(s, p, k) is None,
    decreases s.len() + 1 - k,
{
    if k + p.len() <= s.len() {
        assert(!occurs_at(s, p, k));
        lemma_find_from_none(s, p, k + 1);
    }
}

/// `find_from(s, p, 0)` finds an occurrence exactly when `p` occurs in `s`.
pub proof fn lemma_find_contains(s: Seq<char>, p: Seq<char>)
    ensures
        find_from(s, p, 0) is Some <==> contains(s, p),
        find_from(s, p, 0) matches Some(i) ==> occurs_at(s, p, i),
{
    lemma_find_from_facts(s, p, 0);
    if let Some(i) = find_from(s, p, 0) {
        assert(occurs_at(s, p, i));
    }
}

/// A first line without `'\n'`, then `'\n'`, then the rest: the lines are
/// that first line (without a `'\r'` that ended it) and the lines of the
/// rest.
pub proof fn lemma_lines_first(first: Seq<char>, rest: Seq<char>)
    requires
        !first.contains('\n'),
    ensures
        lines(first + seq!['\n'] + rest) == seq![strip_cr(first)] + lines(rest),
{
    let s = first + seq!['\n'] + rest;
    let n = first.len() as int;
    assert forall|j: int| 0 <= j < n implies s[j] != '\n' by {
        assert(s[j] == first[j]);
        if s[j] == '\n' {
            assert(first.contains(first[j]));
        }
    }
    lemma_newline_index_of(s, n);
    assert(s.subrange(0, n) =~= first);
    assert(s.subrange(n + 1, s.len() as int) =~= rest);
}

/// A non-empty text without `'\n'` is one line.
pub proof fn lemma_lines_single(l: Seq<char>)
    requires
        !l.contains('\n'),
        l.len() > 0,
    ensures
        lines(l) == seq![l],
{
    assert forall|j: int| 0 <= j < l.len() implies l[j] != '\n' by {
        if l[j] == '\n' {
            assert(l.contains(l[j]));
        }
    }
    lemma_newline_index_of(l, l.len() as int);
}

proof fn lemma_trim_start_drop_last(s: Seq<char>)
    requires
        s.len() > 0,
        is_whitespace(s.last()),
    ensures
        trim_start(s).len() > 0 ==> trim_start(s).last() == s.last() && trim_start(s.drop_last())
            == trim_start(s).drop_last(),
        trim_start(s).len() == 0 ==> trim_start(s.drop_last()).len() == 0,
    decreases s.len(),
{
    if is_whitespace(s[0]) {
        if s.len() > 1 {
            let t = s.drop_first();
            assert(t.last() == s.last());
            lemma_trim_start_drop_last(t);
            assert(s.drop_last().drop_first() =~= t.drop_last());
            assert(s.drop_last()[0] == s[0]);
        } else {
            assert(s.drop_first().len() == 0);
            assert(s.drop_last().len() == 0);
        }
    } else {
        if s.len() == 1 {
            assert(s[0] == s.last());
        } else {
            assert(s.drop_last()[0] == s[0]);
        }
    }
}

/// Dropping the `'\r'` that ended a line does not change the trimmed line.
pub proof fn lemma_trim_strip_cr(l: Seq<char>)
    ensures
        trim(strip_cr(l)) == trim(l),
{
    if l.len() > 0 && l.last() == '\r' {
        assert(is_whitespace('\r'));
        lemma_trim_start_drop_last(l);
        let a = trim_start(l);
        if a.len() > 0 {
            assert(trim_end(a) == trim_end(a.drop_last()));
        } else {
            assert(trim_start(l.drop_last()) =~= a);
        }
    }
}

proof fn lemma_newline_index(s: Seq<char>)
    ensures
        0 <= newline_index(s) <= s.len(),
        forall|j: int| 0 <= j < newline_index(s) ==> s[j] != '\n',
        newline_index(s) < s.len() ==> s[newline_index(s) as int] == '\n',
    decreases s.len(),
{
    if s.len() > 0 && s[0] != '\n' {
        let t = s.drop_first();
        lemma_newline_index(t);
        assert forall|j: int| 0 <= j < newline_index(s) implies s[j] != '\n' by {
            if j > 0 {
                assert(s[j] == t[j - 1]);
            }
        }
    }
}

proof fn lemma_newline_index_of(s: Seq<char>, i: int)
    requires
        0 <= i <= s.len(),
        forall|j: int| 0 <= j < i ==> s[j] != '\n',
        i < s.len() ==> s[i] == '\n',
    ensures
        newline_index(s) == i,
    decreases i,
{
    if i > 0 {
        let t = s.drop_first();
        assert forall|j: int| 0 <= j < i - 1 implies t[j] != '\n' by {
            assert(t[j] == s[j + 1]);
        }
        lemma_newline_index_of(t, i - 1);
    }
}

pub proof fn lemma_encode_concat(a: Seq<char>, b: Seq<char>)
    ensures
        encode_utf8(a + b) == encode_utf8(a) + encode_utf8(b),
    decreases a.len(),
{
    if a.len() == 0 {
        assert(a + b =~= b);
        assert(encode_utf8(a) =~= Seq::<u8>::empty());
        assert(encode_utf8(a) + encode_utf8(b) =~= encode_utf8(b));
    } else {
        lemma_encode_concat(a.drop_first(), b);
        assert((a + b).drop_first() =~= a.drop_first() + b);
        assert((a + b)[0] == a[0]);
        assert(encode_utf8(a + b) =~= encode_scalar(a[0] as u32) + (encode_utf8(a.drop_first())
            + encode_utf8(b)));
    }
}

pub proof fn lemma_char_width(c: char)
    ensures
        encode_utf8(seq![c]).len() == char_width(c),
        1 <= char_width(c) <= 4,
{
    broadcast use vstd::utf8::char_is_scalar;

    assert(seq![c].drop_first() =~= Seq::<char>::empty());
    assert(encode_utf8(seq![c]) == encode_scalar(c as u32) + encode_utf8(Seq::<char>::empty()));
}

pub proof fn lemma_byte_len_push(s: Seq<char>, c: char)
    ensures
        byte_len(s.push(c)) == byte_len(s) + char_width(c),
{
    lemma_encode_concat(s, seq![c]);
    assert(s.push(c) =~= s + seq![c]);
    lemma_char_width(c);
}

pub proof fn lemma_byte_len_concat(a: Seq<char>, b: Seq<char>)
    ensures
        byte_len(a + b) == byte_len(a) + byte_len(b),
{
    lemma_encode_concat(a, b);
}

/// Longer prefixes take more bytes.
pub proof fn lemma_prefix_bytes_increase(f: Seq<char>, j: int, k: int)
    requires
        0 <= j < k <= f.len(),
    ensures
        byte_len(f.subrange(0, j)) < byte_len(f.subrange(0, k)),
    decreases k - j,
{
    assert(f.subrange(0, k) =~= f.subrange(0, k - 1).push(f[k - 1]));
    lemma_byte_len_push(f.subrange(0, k - 1), f[k - 1]);
    if j < k - 1 {
        lemma_prefix_bytes_increase(f, j, k - 1);
    }
}

// ---------------------------------------------------------------------------
// Executable operations
// ---------------------------------------------------------------------------

/// Collects the characters of a string slice.
pub fn chars_of(s: &str) -> (v: Vec<char>)
    ensures
        v@ == s@,
{
    let mut v: Vec<char> = Vec::new();
    for c in it: s.chars()
        invariant
            v@ == it.seq().take(it.index() as int),
            it.seq() == s@,
    {
        v.push(c);
    }
    v
}

/// The string made of `v[lo..hi]`.
pub fn string_of_range(v: &Vec<char>, lo: usize, hi: usize) -> (r: String)
    requires
        lo <= hi <= v.len(),
    ensures
        r@ == v@.subrange(lo as int, hi as int),
{
    let mut r = String::new();
    let mut i = lo;
    while i < hi
        invariant
            lo <= i <= hi <= v.len(),
            r@ == v@.subrange(lo as int, i as int),
        decreases hi - i,
    {
        push_char(&mut r, v[i]);
        assert(v@.subrange(lo as int, i + 1) =~= v@.subrange(lo as int, i as int).push(v@[i as int]));
        i = i + 1;
    }
    r
}

/// Appends the characters of `v[lo..hi]` to `s`.
pub fn push_range(s: &mut String, v: &Vec<char>, lo: usize, hi: usize)
    requires
        lo <= hi <= v.len(),
    ensures
        final(s)@ == old(s)@ + v@.subrange(lo as int, hi as int),
{
    let mut i = lo;
    while i < hi
        invariant
            lo <= i <= hi <= v.len(),
            s@ == old(s)@ + v@.subrange(lo as int, i as int),
        decreases hi - i,
    {
        push_char(s, v[i]);
        assert(v@.subrange(lo as int, i + 1) =~= v@.subrange(lo as int, i as int).push(v@[i as int]));
        i = i + 1;
    }
}

/// Appends a string slice to `s`.
pub fn push_str(s: &mut String, t: &str)
    ensures
        final(s)@ == old(s)@ + t@,
{
    let v = chars_of(t);
    push_range(s, &v, 0, v.len());
    assert(v@.subrange(0, v@.len() as int) =~= v@);
}

/// Whether `c` is whitespace (`char::is_whitespace`).
pub fn is_whitespace_char(c: char) -> (b: bool)
    ensures
        b == is_whitespace(c),
{
    let u = c as u32;
    (0x09 <= u && u <= 0x0d) || u == 0x20 || u == 0x85 || u == 0xa0 || u == 0x1680 || (0x2000
        <= u && u <= 0x200a) || u == 0x2028 || u == 0x2029 || u == 0x202f || u == 0x205f || u
        == 0x3000
}

/// The bounds of `v[lo..hi]` once leading and trailing whitespace is cut.
pub fn trim_range(v: &Vec<char>, lo: usize, hi: usize) -> (r: (usize, usize))
    requires
        lo <= hi <= v.len(),
    ensures
        lo <= r.0 <= r.1 <= hi,
        v@.subrange(r.0 as int, r.1 as int) == trim(v@.subrange(lo as int, hi as int)),
{
    let ghost s = v@.subrange(lo as int, hi as int);
    let mut a = lo;
    while a < hi && is_whitespace_char(v[a])
        invariant
            lo <= a <= hi <= v.len(),
            s == v@.subrange(lo as int, hi as int),
            forall|j: int| lo <= j < a ==> is_whitespace(#[trigger] v@[j]),
        decreases hi - a,
    {
        a = a + 1;
    }
    let mut b = hi;
    while b > a && is_whitespace_char(v[b - 1])
        invariant
            lo <= a <= b <= hi <= v.len(),
            s == v@.subrange(lo as int, hi as int),
            forall|j: int| b <= j < hi ==> is_whitespace(#[trigger] v@[j]),
        decreases b,
    {
        b = b - 1;
    }
    proof {
        assert forall|j: int| 0 <= j < a - lo implies is_whitespace(#[trigger] s[j]) by {
            assert(s[j] == v@[j + lo]);
        }
        assert forall|j: int| b - lo <= j < s.len() implies is_whitespace(#[trigger] s[j]) by {
            assert(s[j] == v@[j + lo]);
        }
        if a < b {
            assert(s[a - lo] == v@[a as int]);
            assert(s[b - lo - 1] == v@[b - 1]);
        }
        lemma_trim_bounds(s, a - lo, b - lo);
        assert(s.subrange(a - lo, b - lo) =~= v@.subrange(a as int, b as int));
    }
    (a, b)
}

/// `str::trim`: the string without leading and trailing whitespace.
pub fn trim_str(s: &str) -> (r: String)
    ensures
        r@ == trim(s@),
{
    let v = chars_of(s);
    let (a, b) = trim_range(&v, 0, v.len());
    assert(v@.subrange(0, v@.len() as int) =~= v@);
    string_of_range(&v, a, b)
}

/// Whether `v[lo..hi]` begins with `p`.
pub fn range_has_prefix(v: &Vec<char>, lo: usize, hi: usize, p: &Vec<char>) -> (b: bool)
    requires
        lo <= hi <= v.len(),
    ensures
        b == has_prefix(v@.subrange(lo as int, hi as int), p@),
{
    if p.len() > hi - lo {
        return false;
    }
    let mut i: usize = 0;
    while i < p.len()
        invariant
            lo <= hi <= v.len(),
            p.len() <= hi - lo,
            i <= p.len(),
            forall|j: int| 0 <= j < i ==> v@[lo + j] == p@[j],
        decreases p.len() - i,
    {
        if v[lo + i] != p[i] {
            proof {
                let s = v@.subrange(lo as int, hi as int);
                assert(s.subrange(0, p.len() as int)[i as int] == v@[lo + i]);
            }
            return false;
        }
        i = i + 1;
    }
    proof {
        let s = v@.subrange(lo as int, hi as int);
        assert(s.subrange(0, p.len() as int) =~= p@);
    }
    true
}

/// Whether `v[lo..hi]` ends with `p`.
pub fn range_has_suffix(v: &Vec<char>, lo: usize, hi: usize, p: &Vec<char>) -> (b: bool)
    requires
        lo <= hi <= v.len(),
    ensures
        b == has_suffix(v@.subrange(lo as int, hi as int), p@),
{
    if p.len() > hi - lo {
        return false;
    }
    let start = hi - p.len();
    let r = range_has_prefix(v, start, hi, p);
    proof {
        let s = v@.subrange(lo as int, hi as int);
        assert(s.subrange(s.len() - p@.len(), s.len() as int) =~= v@.subrange(
            start as int,
            hi as int,
        ));
        assert(v@.subrange(start as int, hi as int).subrange(0, p@.len() as int) =~= v@.subrange(
            start as int,
            hi as int,
        ));
    }
    r
}

/// The first index `i >= k` (relative to `lo`) at which `p` occurs in
/// `v[lo..hi]`.
pub fn range_find_from(v: &Vec<char>, lo: usize, hi: usize, p: &Vec<char>, k: usize) -> (r:
    Option<usize>)
    requires
        lo <= hi <= v.len(),
        k <= hi - lo,
    ensures
        match r {
            Some(i) => find_from(v@.subrange(lo as int, hi as int), p@, k as int) == Some(i as int),
            None => find_from(v@.subrange(lo as int, hi as int), p@, k as int) is None,
        },
{
    let ghost s = v@.subrange(lo as int, hi as int);
    let mut i = k;
    while i <= hi - lo
        invariant
            lo <= hi <= v.len(),
            k <= i,
            s == v@.subrange(lo as int, hi as int),
            find_from(s, p@, k as int) == find_from(s, p@, i as int),
        decreases hi - lo + 1 - i,
    {
        if p.len() > hi - lo - i {
            return None;
        }
        let at = range_has_prefix(v, lo + i, hi, p);
        proof {
            let t = v@.subrange((lo + i) as int, hi as int);
            assert(t.subrange(0, p@.len() as int) =~= s.subrange(i as int, i + p@.len()));
            if p@.len() == 0 {
                assert(t.subrange(0, 0) =~= p@);
            }
        }
        if at {
            return Some(i);
        }
        i = i + 1;
    }
    None
}

/// Whether `p` occurs in `v[lo..hi]`.
pub fn range_contains(v: &Vec<char>, lo: usize, hi: usize, p: &Vec<char>) -> (b: bool)
    requires
        lo <= hi <= v.len(),
    ensures
        b == contains(v@.subrange(lo as int, hi as int), p@),
{
    let r = range_find_from(v, lo, hi, p, 0);
    proof {
        lemma_find_contains(v@.subrange(lo as int, hi as int), p@);
    }
    r.is_some()
}

/// Whether `p` occurs in `s`.
pub fn str_contains(s: &str, p: &str) -> (b: bool)
    ensures
        b == contains(s@, p@),
{
    let v = chars_of(s);
    let w = chars_of(p);
    assert(v@.subrange(0, v@.len() as int) =~= v@);
    range_contains(&v, 0, v.len(), &w)
}

/// The index of the first `'\n'` in `v[lo..hi]` (relative to `lo`), or
/// `hi - lo` when there is none.
fn newline_in(v: &Vec<char>, lo: usize, hi: usize) -> (r: usize)
    requires
        lo <= hi <= v.len(),
    ensures
        r as int == newline_index(v@.subrange(lo as int, hi as int)),
{
    let ghost s = v@.subrange(lo as int, hi as int);
    let mut i = lo;
    while i < hi && v[i] != '\n'
        invariant
            lo <= i <= hi <= v.len(),
            s == v@.subrange(lo as int, hi as int),
            forall|j: int| lo <= j < i ==> v@[j] != '\n',
        decreases hi - i,
    {
        i = i + 1;
    }
    proof {
        assert forall|j: int| 0 <= j < i - lo implies s[j] != '\n' by {
            assert(s[j] == v@[lo + j]);
        }
        if i < hi {
            assert(s[i - lo] == v@[i as int]);
        }
        lemma_newline_index_of(s, i - lo);
    }
    i - lo
}

/// The bounds of the lines of `v` (`str::lines`), in order.
pub fn line_ranges(v: &Vec<char>) -> (r: Vec<(usize, usize)>)
    ensures
        r@.len() == lines(v@).len(),
        forall|k: int|
            0 <= k < r@.len() ==> {
                &&& (#[trigger] r@[k]).0 <= r@[k].1 <= v@.len()
                &&& v@.subrange(r@[k].0 as int, r@[k].1 as int) == lines(v@)[k]
            },
{
    let mut r: Vec<(usize, usize)> = Vec::new();
    let mut pos: usize = 0;
    let n = v.len();
    let ghost done: Seq<Seq<char>> = Seq::empty();
    assert(v@.subrange(0, n as int) =~= v@);
    while pos < n
        invariant
            n == v.len(),
            pos <= n,
            r@.len() == done.len(),
            done + lines(v@.subrange(pos as int, n as int)) == lines(v@),
            forall|k: int|
                0 <= k < r@.len() ==> {
                    &&& (#[trigger] r@[k]).0 <= r@[k].1 <= v@.len()
                    &&& v@.subrange(r@[k].0 as int, r@[k].1 as int) == done[k]
                },
        decreases n - pos,
    {
        let ghost s = v@.subrange(pos as int, n as int);
        let i = newline_in(v, pos, n);
        proof {
            lemma_newline_index(s);
        }
        let ghost line: Seq<char>;
        if i == n - pos {
            r.push((pos, n));
            proof {
                line = s;
                assert(lines(s) == seq![s]);
                assert(lines(v@.subrange(n as int, n as int)) =~= Seq::<Seq<char>>::empty());
            }
            pos = n;
        } else {
            let end = pos + i;
            let stop = if end > pos && v[end - 1] == '\r' {
                end - 1
            } else {
                end
            };
            r.push((pos, stop));
            proof {
                let first = s.subrange(0, i as int);
                line = strip_cr(first);
                if end > pos {
                    assert(first.last() == v@[end - 1]);
                }
                assert(v@.subrange(pos as int, stop as int) =~= line);
                assert(s.subrange(i + 1, s.len() as int) =~= v@.subrange(end + 1, n as int));
                assert(lines(s) == seq![line] + lines(v@.subrange(end + 1, n as int)));
            }
            pos = end + 1;
        }
        proof {
            let old_done = done;
            done = done.push(line);
            assert(done + lines(v@.subrange(pos as int, n as int)) =~= old_done + (seq![line]
                + lines(v@.subrange(pos as int, n as int))));
        }
    }
    proof {
        assert(lines(v@.subrange(n as int, n as int)) =~= Seq::<Seq<char>>::empty());
        assert(done + Seq::<Seq<char>>::empty() =~= done);
    }
    r
}

/// The width in bytes of the UTF-8 encoding of `c`.
pub fn char_width_of(c: char) -> (w: usize)
    ensures
        w == char_width(c),
{
    let u = c as u32;
    if u < 0x80 {
        1
    } else if u < 0x800 {
        2
    } else if u < 0x10000 {
        3
    } else {
        4
    }
}

pub proof fn lemma_prefix_bytes_mono(f: Seq<char>, j: int, k: int)
    requires
        0 <= j <= k <= f.len(),
    ensures
        byte_len(f.subrange(0, j)) <= byte_len(f.subrange(0, k)),
{
    if j < k {
        lemma_prefix_bytes_increase(f, j, k);
    }
}

/// The number of bytes of the UTF-8 encoding of `v[lo..hi]`, or `cap`
/// when that number is larger.
pub fn range_byte_len_capped(v: &Vec<char>, lo: usize, hi: usize, cap: usize) -> (r: usize)
    requires
        lo <= hi <= v.len(),
        cap <= 1_000_000,
    ensures
        r == if byte_len(v@.subrange(lo as int, hi as int)) < cap {
            byte_len(v@.subrange(lo as int, hi as int))
        } else {
            cap as nat
        },
{
    let ghost s = v@.subrange(lo as int, hi as int);
    let mut total: usize = 0;
    let mut i = lo;
    assert(v@.subrange(lo as int, lo as int) =~= Seq::<char>::empty());
    while i < hi && total < cap
        invariant
            lo <= i <= hi <= v.len(),
            cap <= 1_000_000,
            total < cap + 4,
            s == v@.subrange(lo as int, hi as int),
            total == byte_len(v@.subrange(lo as int, i as int)),
        decreases hi - i,
    {
        proof {
            assert(v@.subrange(lo as int, i + 1) =~= v@.subrange(lo as int, i as int).push(
                v@[i as int],
            ));
            lemma_byte_len_push(v@.subrange(lo as int, i as int), v@[i as int]);
        }
        total = total + char_width_of(v[i]);
        i = i + 1;
    }
    proof {
        assert(s.subrange(0, i - lo) =~= v@.subrange(lo as int, i as int));
        lemma_prefix_bytes_mono(s, i - lo, s.len() as int);
        assert(s.subrange(0, s.len() as int) =~= s);
    }
    if total < cap {
        total
    } else {
        cap
    }
}

/// The character of the decimal digit `d`.
pub fn digit(d: u64) -> (c: char)
    requires
        d < 10,
    ensures
        c == digit_char(d as nat),
{
    if d == 0 {
        '0'
    } else if d == 1 {
        '1'
    } else if d == 2 {
        '2'
    } else if d == 3 {
        '3'
    } else if d == 4 {
        '4'
    } else if d == 5 {
        '5'
    } else if d == 6 {
        '6'
    } else if d == 7 {
        '7'
    } else if d == 8 {
        '8'
    } else {
        '9'
    }
}

/// Appends the decimal rendering of `n` to `s`.
pub fn push_decimal(s: &mut String, n: u64)
    ensures
        final(s)@ == old(s)@ + decimal(n as nat),
    decreases n,
{
    if n >= 10 {
        push_decimal(s, n / 10);
    }
    push_char(s, digit(n % 10));
    proof {
        if n >= 10 {
            assert(decimal(n as nat) == decimal((n / 10) as nat).push(digit_char((n % 10) as nat)));
        } else {
            assert(decimal(n as nat) == seq![digit_char(n as nat)]);
        }
    }
}

} // verus!
