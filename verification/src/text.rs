//! Byte strings: character classes, case folding, trimming, searching and
//! decimal numbers. Everything here works on raw bytes; text is ASCII and
//! every other byte is carried through unchanged.

use vstd::prelude::*;
use vstd::slice::*;
use vstd::string::*;

verus! {

pub const TAB: u8 = 0x09;

pub const LF: u8 = 0x0a;

pub const CR: u8 = 0x0d;

pub const SPACE: u8 = 0x20;

pub const PLUS: u8 = 0x2b;

pub const SLASH: u8 = 0x2f;

pub const DIGIT_ZERO: u8 = 0x30;

pub const DIGIT_NINE: u8 = 0x39;

pub const UPPER_A: u8 = 0x41;

pub const UPPER_Z: u8 = 0x5a;

/// The bytes of a text made of ASCII characters only, one byte per character.
pub open spec fn ascii_bytes(s: Seq<char>) -> Seq<u8> {
    Seq::new(s.len(), |i: int| s[i] as u8)
}

/// The bytes that `o` holds, where it holds any.
pub open spec fn opt_bytes(o: Option<Vec<u8>>) -> Option<Seq<u8>> {
    match o {
        Some(v) => Some(v@),
        None => None,
    }
}

/// Carriage return or line feed.
pub open spec fn is_newline(b: u8) -> bool {
    b == CR || b == LF
}

/// The ASCII white space: tab, line feed, vertical tab, form feed, carriage
/// return and space.
pub open spec fn is_whitespace(b: u8) -> bool {
    (TAB <= b && b <= CR) || b == SPACE
}

pub open spec fn is_digit(b: u8) -> bool {
    DIGIT_ZERO <= b && b <= DIGIT_NINE
}

/// The lower-case form of an ASCII capital; any other byte is left as it is.
pub open spec fn to_lower(b: u8) -> u8 {
    if UPPER_A <= b && b <= UPPER_Z {
        (b + 0x20) as u8
    } else {
        b
    }
}

/// `s` with every byte folded by `to_lower`.
pub open spec fn lowercase(s: Seq<u8>) -> Seq<u8> {
    Seq::new(s.len(), |i: int| to_lower(s[i]))
}

/// Two byte strings that differ at most in the case of ASCII letters.
pub open spec fn eq_ignore_case(a: Seq<u8>, b: Seq<u8>) -> bool {
    a.len() == b.len() && forall|i: int| 0 <= i < a.len() ==> to_lower(a[i]) == to_lower(b[i])
}

/// The length of `s` without its trailing run of newline bytes.
pub open spec fn trimmed_len(s: Seq<u8>) -> nat
    decreases s.len(),
{
    if s.len() > 0 && is_newline(s.last()) {
        trimmed_len(s.drop_last())
    } else {
        s.len()
    }
}

/// `s` without its trailing run of newline bytes.
pub open spec fn without_newlines(s: Seq<u8>) -> Seq<u8> {
    s.take(trimmed_len(s) as int)
}

/// The least index in `from..to` at which `p` holds, or `to` when `p` holds
/// nowhere in that range.
pub open spec fn first_index(from: int, to: int, p: spec_fn(int) -> bool) -> int
    decreases to - from,
{
    if from >= to {
        to
    } else if p(from) {
        from
    } else {
        first_index(from + 1, to, p)
    }
}

/// The positions of `s` that hold the byte `b`.
pub open spec fn byte_at(s: Seq<u8>, b: u8) -> spec_fn(int) -> bool {
    |i: int| s[i] == b
}

/// The positions of `s` that hold white space.
pub open spec fn whitespace_at(s: Seq<u8>) -> spec_fn(int) -> bool {
    |i: int| is_whitespace(s[i])
}

/// The positions of `s` that hold anything but white space.
pub open spec fn visible_at(s: Seq<u8>) -> spec_fn(int) -> bool {
    |i: int| !is_whitespace(s[i])
}

/// The byte `b` occurs in `s` at or after index `from`.
pub open spec fn occurs_from(s: Seq<u8>, from: int, b: u8) -> bool {
    exists|i: int| from <= i < s.len() && s[i] == b
}

/// `pat` stands in `s` at index `i`.
pub open spec fn occurs_at(s: Seq<u8>, pat: Seq<u8>, i: int) -> bool {
    0 <= i && i + pat.len() <= s.len() && s.subrange(i, i + pat.len()) =~= pat
}

/// The positions of `s` at which `pat` stands.
pub open spec fn occurrence_at(s: Seq<u8>, pat: Seq<u8>) -> spec_fn(int) -> bool {
    |i: int| occurs_at(s, pat, i)
}

/// The index of the first occurrence of `pat` in `s`.
pub open spec fn first_occurrence(s: Seq<u8>, pat: Seq<u8>) -> Option<int> {
    if pat.len() > s.len() {
        None
    } else {
        let i = first_index(0, s.len() - pat.len() + 1, occurrence_at(s, pat));
        if i <= s.len() - pat.len() {
            Some(i)
        } else {
            None
        }
    }
}

/// What stands before and after the first occurrence of `pat` in `s`.
pub open spec fn split_once(s: Seq<u8>, pat: Seq<u8>) -> Option<(Seq<u8>, Seq<u8>)> {
    match first_occurrence(s, pat) {
        Some(i) => Some((s.take(i), s.skip(i + pat.len()))),
        None => None,
    }
}

/// What follows the first occurrence of `pat` in `s`; empty when there is none.
pub open spec fn after_first(s: Seq<u8>, pat: Seq<u8>) -> Seq<u8> {
    match split_once(s, pat) {
        Some((_, rest)) => rest,
        None => Seq::empty(),
    }
}

/// The number that a run of decimal digits writes.
pub open spec fn digits_value(s: Seq<u8>) -> nat
    decreases s.len(),
{
    if s.len() == 0 {
        0
    } else {
        digits_value(s.drop_last()) * 10 + (s.last() - DIGIT_ZERO) as nat
    }
}

pub open spec fn all_digits(s: Seq<u8>) -> bool {
    forall|i: int| 0 <= i < s.len() ==> is_digit(#[trigger] s[i])
}

/// `s` without one leading plus sign.
pub open spec fn unsigned_part(s: Seq<u8>) -> Seq<u8> {
    if s.len() > 0 && s[0] == PLUS {
        s.skip(1)
    } else {
        s
    }
}

/// The number written by `s`: an optional plus sign, then one or more decimal
/// digits and nothing else.
pub open spec fn parse_decimal(s: Seq<u8>) -> Option<nat> {
    let digits = unsigned_part(s);
    if digits.len() > 0 && all_digits(digits) {
        Some(digits_value(digits))
    } else {
        None
    }
}

/// The number written by `s`, where it fits the machine word.
pub open spec fn parse_decimal_usize(s: Seq<u8>) -> Option<usize> {
    match parse_decimal(s) {
        Some(n) => if n <= usize::MAX {
            Some(n as usize)
        } else {
            None
        },
        None => None,
    }
}

/// The decimal digits of `n`, without leading zeros.
pub open spec fn decimal_digits(n: nat) -> Seq<u8>
    decreases n,
{
    if n < 10 {
        seq![(DIGIT_ZERO + n) as u8]
    } else {
        decimal_digits(n / 10).push((DIGIT_ZERO + n % 10) as u8)
    }
}

/// `first_index` lies in the range, `p` holds there unless the range is
/// exhausted, and `p` holds nowhere before it.
pub proof fn lemma_first_index(from: int, to: int, p: spec_fn(int) -> bool)
    requires
        from <= to,
    ensures
        from <= first_index(from, to, p) <= to,
        first_index(from, to, p) < to ==> p(first_index(from, to, p)),
        forall|j: int| from <= j < first_index(from, to, p) ==> !#[trigger] p(j),
    decreases to - from,
{
    if from < to && !p(from) {
        lemma_first_index(from + 1, to, p);
    }
}

/// The index that `lemma_first_index` describes is the only one of its kind.
pub proof fn lemma_first_index_unique(from: int, to: int, p: spec_fn(int) -> bool, k: int)
    requires
        from <= k <= to,
        k < to ==> p(k),
        forall|j: int| from <= j < k ==> !#[trigger] p(j),
    ensures
        first_index(from, to, p) == k,
    decreases k - from,
{
    if from < k {
        lemma_first_index_unique(from + 1, to, p, k);
    }
}

/// Folding a second time changes nothing.
pub proof fn lemma_lowercase_idempotent(s: Seq<u8>)
    ensures
        lowercase(lowercase(s)) == lowercase(s),
{
    assert forall|i: int| 0 <= i < s.len() implies to_lower(to_lower(s[i])) == to_lower(s[i]) by {}
    assert(lowercase(lowercase(s)) =~= lowercase(s));
}

/// Names that differ only in the case of their letters fold to the same key.
pub proof fn lemma_lowercase_ignores_case(a: Seq<u8>, b: Seq<u8>)
    ensures
        eq_ignore_case(a, b) <==> lowercase(a) == lowercase(b),
{
    if eq_ignore_case(a, b) {
        assert(lowercase(a) =~= lowercase(b));
    }
    if lowercase(a) == lowercase(b) {
        assert(a.len() == lowercase(a).len());
        assert(b.len() == lowercase(b).len());
        assert forall|i: int| 0 <= i < a.len() implies to_lower(a[i]) == to_lower(b[i]) by {
            assert(lowercase(a)[i] == to_lower(a[i]));
            assert(lowercase(b)[i] == to_lower(b[i]));
        }
    }
}

/// Where `s` begins with `pat`, that is the first occurrence of `pat`, and
/// what follows it is `s` without its first `pat.len()` bytes.
pub proof fn lemma_prefix_occurs_first(s: Seq<u8>, pat: Seq<u8>)
    requires
        pat.is_prefix_of(s),
    ensures
        first_occurrence(s, pat) == Some(0int),
        after_first(s, pat) == s.skip(pat.len() as int),
{
    let p = occurrence_at(s, pat);
    assert(p(0));
    lemma_first_index_unique(0, s.len() - pat.len() + 1, p, 0);
}

/// Where `b` does not occur in `s`, the one-byte pattern `b` has no
/// occurrence in it.
pub proof fn lemma_absent_byte(s: Seq<u8>, b: u8)
    requires
        !occurs_from(s, 0, b),
    ensures
        first_occurrence(s, seq![b]) is None,
{
    let pat = seq![b];
    let p = occurrence_at(s, pat);
    if pat.len() <= s.len() {
        assert forall|j: int| 0 <= j < s.len() - pat.len() + 1 implies !#[trigger] p(j) by {
            if occurs_at(s, pat, j) {
                assert(s.subrange(j, j + 1)[0] == pat[0]);
                assert(s[j] == b);
            }
        }
        lemma_first_index_unique(0, s.len() - pat.len() + 1, p, s.len() - pat.len() + 1);
    }
}

/// `trimmed_len` marks the end of the longest prefix that does not end in a
/// newline byte.
pub proof fn lemma_trimmed_len(s: Seq<u8>)
    ensures
        trimmed_len(s) <= s.len(),
        trimmed_len(s) > 0 ==> !is_newline(s[trimmed_len(s) - 1]),
        forall|i: int| trimmed_len(s) <= i < s.len() ==> is_newline(#[trigger] s[i]),
    decreases s.len(),
{
    if s.len() > 0 && is_newline(s.last()) {
        let t = s.drop_last();
        lemma_trimmed_len(t);
        assert forall|i: int| trimmed_len(s) <= i < s.len() implies is_newline(#[trigger] s[i]) by {
            if i < t.len() {
                assert(t[i] == s[i]);
            }
        }
    }
}

/// The length that `lemma_trimmed_len` describes is the only one of its kind.
pub proof fn lemma_trimmed_len_unique(s: Seq<u8>, k: int)
    requires
        0 <= k <= s.len(),
        k > 0 ==> !is_newline(s[k - 1]),
        forall|i: int| k <= i < s.len() ==> is_newline(#[trigger] s[i]),
    ensures
        trimmed_len(s) == k,
    decreases s.len(),
{
    if k < s.len() {
        assert(is_newline(s[s.len() - 1]));
        lemma_trimmed_len_unique(s.drop_last(), k);
    }
}

/// A prefix of a run of digits writes no more than the whole run.
pub proof fn lemma_digits_value_prefix(s: Seq<u8>, k: int)
    requires
        all_digits(s),
        0 <= k <= s.len(),
    ensures
        digits_value(s.take(k)) <= digits_value(s),
    decreases s.len() - k,
{
    if k < s.len() {
        lemma_digits_value_prefix(s, k + 1);
        assert(s.take(k + 1).drop_last() =~= s.take(k));
        assert(is_digit(s[k]));
    } else {
        assert(s.take(k) =~= s);
    }
}

pub fn is_newline_byte(b: u8) -> (r: bool)
    ensures
        r == is_newline(b),
{
    b == CR || b == LF
}

pub fn is_whitespace_byte(b: u8) -> (r: bool)
    ensures
        r == is_whitespace(b),
{
    (TAB <= b && b <= CR) || b == SPACE
}

pub fn to_lower_byte(b: u8) -> (r: u8)
    ensures
        r == to_lower(b),
{
    if UPPER_A <= b && b <= UPPER_Z {
        b + 0x20
    } else {
        b
    }
}

/// The bytes of a text: for an ASCII text, one byte for each character.
pub fn literal(s: &str) -> (b: &[u8])
    ensures
        b@ == s.spec_bytes(),
        is_ascii(s) ==> b@ == ascii_bytes(s@),
{
    broadcast use is_ascii_spec_bytes;

    s.as_bytes()
}

/// A copy of `s` with every ASCII capital replaced by its lower-case letter.
pub fn to_lowercase(s: &[u8]) -> (folded: Vec<u8>)
    ensures
        folded@ == lowercase(s@),
{
    let mut folded: Vec<u8> = Vec::new();
    let mut i: usize = 0;
    while i < s.len()
        invariant
            i <= s.len(),
            folded@ == lowercase(s@.take(i as int)),
        decreases s.len() - i,
    {
        folded.push(to_lower_byte(s[i]));
        i += 1;
        assert(folded@ =~= lowercase(s@.take(i as int)));
    }
    assert(s@.take(i as int) =~= s@);
    folded
}

/// A copy of `line` without its trailing carriage returns and line feeds.
pub fn trim_newlines(line: &[u8]) -> (trimmed: Vec<u8>)
    ensures
        trimmed@ == without_newlines(line@),
        trimmed@.is_prefix_of(line@),
        trimmed@.len() > 0 ==> !is_newline(trimmed@.last()),
        forall|i: int| trimmed@.len() <= i < line@.len() ==> is_newline(#[trigger] line@[i]),
{
    let mut end: usize = line.len();
    while end > 0 && is_newline_byte(line[end - 1])
        invariant
            end <= line.len(),
            forall|i: int| end <= i < line@.len() ==> is_newline(#[trigger] line@[i]),
        decreases end,
    {
        end -= 1;
    }
    proof {
        lemma_trimmed_len_unique(line@, end as int);
    }
    slice_to_vec(slice_subrange(line, 0, end))
}

/// Whether two byte strings are the same.
pub fn bytes_eq(a: &[u8], b: &[u8]) -> (r: bool)
    ensures
        r == (a@ == b@),
{
    if a.len() != b.len() {
        return false;
    }
    let mut i: usize = 0;
    while i < a.len()
        invariant
            i <= a.len(),
            a.len() == b.len(),
            forall|j: int| 0 <= j < i ==> a@[j] == b@[j],
        decreases a.len() - i,
    {
        if a[i] != b[i] {
            return false;
        }
        i += 1;
    }
    assert(a@ =~= b@);
    true
}

/// Whether `pat` stands in `s` at index `at`.
pub fn matches_at(s: &[u8], pat: &[u8], at: usize) -> (r: bool)
    ensures
        r == occurs_at(s@, pat@, at as int),
{
    if pat.len() > s.len() || at > s.len() - pat.len() {
        return false;
    }
    let ghost window = s@.subrange(at as int, at + pat@.len());
    let mut k: usize = 0;
    while k < pat.len()
        invariant
            k <= pat.len(),
            at + pat.len() <= s.len(),
            window == s@.subrange(at as int, at + pat@.len()),
            forall|j: int| 0 <= j < k ==> window[j] == pat@[j],
        decreases pat.len() - k,
    {
        if s[at + k] != pat[k] {
            assert(window[k as int] != pat@[k as int]);
            return false;
        }
        k += 1;
    }
    assert(window =~= pat@);
    true
}

/// Whether `s` begins with `pat`.
pub fn starts_with(s: &[u8], pat: &[u8]) -> (r: bool)
    ensures
        r == pat@.is_prefix_of(s@),
{
    matches_at(s, pat, 0)
}

/// Whether the byte `b` occurs in `s` at or after index `from`.
pub fn contains_from(s: &[u8], from: usize, b: u8) -> (r: bool)
    ensures
        r == occurs_from(s@, from as int, b),
{
    let mut i: usize = from;
    while i < s.len()
        invariant
            from <= i,
            forall|j: int| from <= j < i && j < s@.len() ==> s@[j] != b,
        decreases s.len() - i,
    {
        if s[i] == b {
            return true;
        }
        i += 1;
    }
    false
}

/// The index of the first byte equal to `b` at or after `from`, or the length
/// of `s` when there is none.
pub fn find_byte(s: &[u8], from: usize, b: u8) -> (at: usize)
    ensures
        at == first_index(from as int, s@.len() as int, byte_at(s@, b)),
        at <= s@.len(),
        from <= s@.len() ==> from <= at,
{
    if from >= s.len() {
        return s.len();
    }
    let mut i: usize = from;
    while i < s.len() && s[i] != b
        invariant
            from <= i <= s.len(),
            forall|j: int| from <= j < i ==> !#[trigger] byte_at(s@, b)(j),
        decreases s.len() - i,
    {
        i += 1;
    }
    proof {
        lemma_first_index_unique(from as int, s@.len() as int, byte_at(s@, b), i as int);
    }
    i
}

/// The index of the first byte at or after `from` that is not white space,
/// or the length of `s`.
pub fn skip_whitespace(s: &[u8], from: usize) -> (at: usize)
    ensures
        at == first_index(from as int, s@.len() as int, visible_at(s@)),
        at <= s@.len(),
        from <= s@.len() ==> from <= at,
{
    if from >= s.len() {
        return s.len();
    }
    let mut i: usize = from;
    while i < s.len() && is_whitespace_byte(s[i])
        invariant
            from <= i <= s.len(),
            forall|j: int| from <= j < i ==> !#[trigger] visible_at(s@)(j),
        decreases s.len() - i,
    {
        i += 1;
    }
    proof {
        lemma_first_index_unique(from as int, s@.len() as int, visible_at(s@), i as int);
    }
    i
}

/// The index of the first white space at or after `from`, or the length of `s`.
pub fn skip_visible(s: &[u8], from: usize) -> (at: usize)
    ensures
        at == first_index(from as int, s@.len() as int, whitespace_at(s@)),
        at <= s@.len(),
        from <= s@.len() ==> from <= at,
{
    if from >= s.len() {
        return s.len();
    }
    let mut i: usize = from;
    while i < s.len() && !is_whitespace_byte(s[i])
        invariant
            from <= i <= s.len(),
            forall|j: int| from <= j < i ==> !#[trigger] whitespace_at(s@)(j),
        decreases s.len() - i,
    {
        i += 1;
    }
    proof {
        lemma_first_index_unique(from as int, s@.len() as int, whitespace_at(s@), i as int);
    }
    i
}

/// The index of the first occurrence of `pat` in `s`.
pub fn find(s: &[u8], pat: &[u8]) -> (r: Option<usize>)
    ensures
        match r {
            Some(i) => {
                &&& first_occurrence(s@, pat@) == Some(i as int)
                &&& occurs_at(s@, pat@, i as int)
                &&& forall|j: int| 0 <= j < i ==> !occurs_at(s@, pat@, j)
            },
            None => {
                &&& first_occurrence(s@, pat@) is None
                &&& forall|j: int| !occurs_at(s@, pat@, j)
            },
        },
{
    if pat.len() > s.len() {
        return None;
    }
    let last: usize = s.len() - pat.len();
    let ghost p = occurrence_at(s@, pat@);
    let mut i: usize = 0;
    while i <= last
        invariant
            i <= last + 1,
            last == s.len() - pat.len(),
            p == occurrence_at(s@, pat@),
            forall|j: int| 0 <= j < i ==> !#[trigger] p(j),
        decreases last + 1 - i,
    {
        if matches_at(s, pat, i) {
            proof {
                lemma_first_index_unique(0, last + 1, p, i as int);
                assert forall|j: int| 0 <= j < i implies !occurs_at(s@, pat@, j) by {
                    assert(!p(j));
                }
            }
            return Some(i);
        }
        i += 1;
    }
    proof {
        lemma_first_index_unique(0, last + 1, p, last + 1);
        assert forall|j: int| !occurs_at(s@, pat@, j) by {
            if 0 <= j <= last {
                assert(!p(j));
            }
        }
    }
    None
}

/// What follows the first occurrence of `pat` in `s`; empty when there is none.
pub fn rest_after<'a>(s: &'a [u8], pat: &[u8]) -> (rest: &'a [u8])
    ensures
        rest@ == after_first(s@, pat@),
{
    let end: usize = s.len();
    match find(s, pat) {
        Some(i) => slice_subrange(s, i + pat.len(), end),
        None => slice_subrange(s, 0, 0),
    }
}

/// The parts of `s` before and after the first occurrence of `pat`.
pub fn split_at_first<'a>(s: &'a [u8], pat: &[u8]) -> (r: Option<(&'a [u8], &'a [u8])>)
    ensures
        match r {
            Some((before, after)) => split_once(s@, pat@) == Some((before@, after@)),
            None => split_once(s@, pat@) is None,
        },
{
    let end: usize = s.len();
    match find(s, pat) {
        Some(i) => Some((slice_subrange(s, 0, i), slice_subrange(s, i + pat.len(), end))),
        None => None,
    }
}

/// Reads an unsigned decimal number: an optional plus sign, then one or more
/// digits. Anything else, and a number that does not fit, gives `None`.
pub fn parse_usize(s: &[u8]) -> (r: Option<usize>)
    ensures
        r == parse_decimal_usize(s@),
{
    let start: usize = if s.len() > 0 && s[0] == PLUS {
        1
    } else {
        0
    };
    let ghost digits = unsigned_part(s@);
    assert(digits =~= s@.skip(start as int));
    if start == s.len() {
        return None;
    }
    let mut value: usize = 0;
    let mut i: usize = start;
    while i < s.len()
        invariant
            start <= i <= s.len(),
            digits == s@.skip(start as int),
            digits == unsigned_part(s@),
            all_digits(digits.take(i - start)),
            value == digits_value(digits.take(i - start)),
        decreases s.len() - i,
    {
        let b: u8 = s[i];
        if b < DIGIT_ZERO || b > DIGIT_NINE {
            assert(!is_digit(digits[i - start]));
            return None;
        }
        let digit: usize = (b - DIGIT_ZERO) as usize;
        proof {
            assert(digits.take(i + 1 - start).drop_last() =~= digits.take(i - start));
            assert(digits.take(i + 1 - start).last() == b);
            if all_digits(digits) {
                lemma_digits_value_prefix(digits, i + 1 - start);
            }
        }
        if value > (usize::MAX - digit) / 10 {
            return None;
        }
        value = value * 10 + digit;
        i += 1;
    }
    assert(digits.take(i - start) =~= digits);
    Some(value)
}

/// The digits of a number write that number.
pub proof fn lemma_decimal_digits(n: nat)
    ensures
        decimal_digits(n).len() > 0,
        all_digits(decimal_digits(n)),
        digits_value(decimal_digits(n)) == n,
        parse_decimal(decimal_digits(n)) == Some(n),
    decreases n,
{
    let d = decimal_digits(n);
    if n < 10 {
        assert(d.drop_last() =~= Seq::<u8>::empty());
        assert(digits_value(d.drop_last()) == 0);
    } else {
        lemma_decimal_digits(n / 10);
        assert(d.drop_last() =~= decimal_digits(n / 10));
    }
    assert(d[0] != PLUS);
}

/// Appends the bytes of `s` to `out`.
pub fn push_bytes(out: &mut Vec<u8>, s: &[u8])
    ensures
        final(out)@ == old(out)@ + s@,
{
    let mut i: usize = 0;
    while i < s.len()
        invariant
            i <= s.len(),
            out@ == old(out)@ + s@.take(i as int),
        decreases s.len() - i,
    {
        out.push(s[i]);
        i += 1;
        assert(out@ =~= old(out)@ + s@.take(i as int));
    }
    assert(s@.take(i as int) =~= s@);
}

/// Appends the decimal digits of `n` to `out`.
pub fn push_decimal(out: &mut Vec<u8>, n: usize)
    ensures
        final(out)@ == old(out)@ + decimal_digits(n as nat),
    decreases n,
{
    if n >= 10 {
        push_decimal(out, n / 10);
    }
    let digit: u8 = (n % 10) as u8;
    out.push(DIGIT_ZERO + digit);
    assert(final(out)@ =~= old(out)@ + decimal_digits(n as nat));
}

} // verus!
