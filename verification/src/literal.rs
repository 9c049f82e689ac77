//! The grammar of number literals.

use vstd::prelude::*;

verus! {

pub open spec fn is_digit(c: char) -> bool {
    48 <= c as u32 <= 57
}

pub open spec fn is_sign(c: char) -> bool {
    c == '+' || c == '-'
}

pub open spec fn is_exp_mark(c: char) -> bool {
    c == 'e' || c == 'E'
}

pub open spec fn all_digits(s: Seq<char>) -> bool {
    forall|i: int| 0 <= i < s.len() ==> is_digit(#[trigger] s[i])
}

/// The number that the decimal digits `s` write.
pub open spec fn digits_value(s: Seq<char>) -> nat
    decreases s.len(),
{
    if s.len() == 0 {
        0
    } else {
        (digits_value(s.drop_last()) * 10 + (s.last() as u32 - 48)) as nat
    }
}

/// `s` without its leading sign, if it has one.
pub open spec fn unsigned_part(s: Seq<char>) -> Seq<char> {
    if s.len() > 0 && is_sign(s[0]) {
        s.subrange(1, s.len() as int)
    } else {
        s
    }
}

/// The integer that `s` writes, if `s` is an optional sign followed by one or
/// more decimal digits and nothing else.
pub open spec fn integer_text(s: Seq<char>) -> Option<int> {
    let body = unsigned_part(s);
    if body.len() > 0 && all_digits(body) {
        if s[0] == '-' {
            Some(-(digits_value(body) as int))
        } else {
            Some(digits_value(body) as int)
        }
    } else {
        None
    }
}

/// The integer that `s` writes, if it writes one that an `isize` holds.
pub open spec fn integer_of(s: Seq<char>) -> Option<isize> {
    match integer_text(s) {
        Some(v) => if isize::MIN <= v <= isize::MAX {
            Some(v as isize)
        } else {
            None
        },
        None => None,
    }
}

/// The first index at or after `from` where `s` holds `c`, or the length of
/// `s` if there is none.
pub open spec fn find_char(s: Seq<char>, c: char, from: int) -> int
    decreases s.len() - from,
{
    if from >= s.len() {
        s.len() as int
    } else if s[from] == c {
        from
    } else {
        find_char(s, c, from + 1)
    }
}

/// The first index at or after `from` where `s` holds `e` or `E`, or the
/// length of `s` if there is none.
pub open spec fn find_exp_mark(s: Seq<char>, from: int) -> int
    decreases s.len() - from,
{
    if from >= s.len() {
        s.len() as int
    } else if is_exp_mark(s[from]) {
        from
    } else {
        find_exp_mark(s, from + 1)
    }
}

/// Digits with at most one `.` among them, and at least one digit.
pub open spec fn is_mantissa(m: Seq<char>) -> bool {
    let dot = find_char(m, '.', 0);
    if dot == m.len() {
        m.len() > 0 && all_digits(m)
    } else {
        &&& m.len() > 1
        &&& all_digits(m.subrange(0, dot))
        &&& all_digits(m.subrange(dot + 1, m.len() as int))
    }
}

/// An optional sign followed by one or more digits.
pub open spec fn is_exponent(e: Seq<char>) -> bool {
    let body = unsigned_part(e);
    body.len() > 0 && all_digits(body)
}

/// A mantissa, optionally followed by `e` or `E` and an exponent.
pub open spec fn is_number(b: Seq<char>) -> bool {
    let mark = find_exp_mark(b, 0);
    &&& is_mantissa(b.subrange(0, mark))
    &&& mark < b.len() ==> is_exponent(b.subrange(mark + 1, b.len() as int))
}

/// The ASCII letter `c` in lower case; any other character unchanged.
pub open spec fn lower(c: char) -> char {
    if 65 <= c as u32 <= 90 {
        ((c as u32 + 32) as u8) as char
    } else {
        c
    }
}

/// Whether `s` is `word` but for the case of its ASCII letters.
pub open spec fn is_word(s: Seq<char>, word: Seq<char>) -> bool {
    &&& s.len() == word.len()
    &&& forall|i: int| 0 <= i < s.len() ==> lower(#[trigger] s[i]) == word[i]
}

/// One of the names of the values that are no finite number.
pub open spec fn is_special(b: Seq<char>) -> bool {
    ||| is_word(b, seq!['i', 'n', 'f'])
    ||| is_word(b, seq!['i', 'n', 'f', 'i', 'n', 'i', 't', 'y'])
    ||| is_word(b, seq!['n', 'a', 'n'])
}

/// Whether `s` is a floating-point literal: an optional sign, then a number
/// or a special name.
pub open spec fn is_float_text(s: Seq<char>) -> bool {
    let body = unsigned_part(s);
    is_number(body) || is_special(body)
}

fn digit(c: char) -> (r: Option<u8>)
    ensures
        r is Some <==> is_digit(c),
        r matches Some(d) ==> d == c as u32 - 48,
{
    let u = c as u32;
    if 48 <= u && u <= 57 {
        Some((u - 48) as u8)
    } else {
        None
    }
}

fn sign_at_front(v: &Vec<char>, lo: usize, hi: usize) -> (b: bool)
    requires
        lo <= hi <= v.len(),
    ensures
        b == (hi > lo && is_sign(v@[lo as int])),
{
    hi > lo && (v[lo] == '+' || v[lo] == '-')
}

/// Whether `v[lo..hi]` holds digits only.
fn digits_only(v: &Vec<char>, lo: usize, hi: usize) -> (b: bool)
    requires
        lo <= hi <= v.len(),
    ensures
        b == all_digits(v@.subrange(lo as int, hi as int)),
{
    let mut i: usize = lo;
    while i < hi
        invariant
            lo <= i <= hi <= v.len(),
            all_digits(v@.subrange(lo as int, i as int)),
        decreases hi - i,
    {
        if digit(v[i]).is_none() {
            assert(!is_digit(v@.subrange(lo as int, hi as int)[i - lo]));
            return false;
        }
        i += 1;
    }
    true
}

/// The integer that the characters `v` write, if they write one that an
/// `isize` holds.
pub fn parse_integer(v: &Vec<char>) -> (r: Option<isize>)
    ensures
        r == integer_of(v@),
{
    let n = v.len();
    let signed = sign_at_front(v, 0, n);
    let negative = signed && v[0] == '-';
    let start: usize = if signed { 1 } else { 0 };
    let ghost body = unsigned_part(v@);
    assert(body == v@.subrange(start as int, n as int));
    if start == n {
        return None;
    }
    let limit: u128 = isize::MAX as u128 + 1;
    let mut acc: u128 = 0;
    let mut big = false;
    let mut i: usize = start;
    while i < n
        invariant
            start <= i <= n == v.len(),
            body == unsigned_part(v@),
            body == v@.subrange(start as int, n as int),
            limit == isize::MAX + 1,
            all_digits(body.take(i - start)),
            !big ==> acc == digits_value(body.take(i - start)) && acc <= limit,
            big ==> digits_value(body.take(i - start)) > limit,
        decreases n - i,
    {
        let d = match digit(v[i]) {
            Some(d) => d,
            None => {
                assert(!is_digit(body[i - start]));
                return None;
            },
        };
        assert(body.take(i - start + 1).drop_last() == body.take(i - start));
        assert(body.take(i - start + 1).last() == v@[i as int]);
        if !big {
            acc = acc * 10 + d as u128;
            if acc > limit {
                big = true;
            }
        }
        i += 1;
    }
    assert(body.take(n - start) == body);
    if big {
        None
    } else if negative {
        Some((-(acc as i128)) as isize)
    } else if acc < limit {
        Some(acc as isize)
    } else {
        None
    }
}

fn to_lower(c: char) -> (r: char)
    ensures
        r == lower(c),
{
    let u = c as u32;
    if 65 <= u && u <= 90 {
        ((u + 32) as u8) as char
    } else {
        c
    }
}

/// Whether `v[lo..hi]` is `word` but for the case of its ASCII letters.
fn is_word_at(v: &Vec<char>, lo: usize, hi: usize, word: &Vec<char>) -> (b: bool)
    requires
        lo <= hi <= v.len(),
    ensures
        b == is_word(v@.subrange(lo as int, hi as int), word@),
{
    if hi - lo != word.len() {
        return false;
    }
    let ghost s = v@.subrange(lo as int, hi as int);
    let mut i: usize = 0;
    while i < word.len()
        invariant
            lo <= hi <= v.len(),
            hi - lo == word.len(),
            i <= word.len(),
            s == v@.subrange(lo as int, hi as int),
            forall|j: int| 0 <= j < i ==> lower(#[trigger] s[j]) == word@[j],
        decreases word.len() - i,
    {
        if to_lower(v[lo + i]) != word[i] {
            assert(lower(s[i as int]) != word@[i as int]);
            return false;
        }
        i += 1;
    }
    true
}

/// The first index in `lo..hi` where `v` holds `c`, or `hi`.
fn find_char_at(v: &Vec<char>, lo: usize, hi: usize, c: char) -> (k: usize)
    requires
        lo <= hi <= v.len(),
    ensures
        lo <= k <= hi,
        k - lo == find_char(v@.subrange(lo as int, hi as int), c, 0),
{
    let ghost s = v@.subrange(lo as int, hi as int);
    let mut i: usize = lo;
    while i < hi
        invariant
            lo <= i <= hi <= v.len(),
            s == v@.subrange(lo as int, hi as int),
            find_char(s, c, 0) == find_char(s, c, i - lo),
        decreases hi - i,
    {
        if v[i] == c {
            return i;
        }
        i += 1;
    }
    i
}

/// The first index in `lo..hi` where `v` holds `e` or `E`, or `hi`.
fn find_exp_mark_at(v: &Vec<char>, lo: usize, hi: usize) -> (k: usize)
    requires
        lo <= hi <= v.len(),
    ensures
        lo <= k <= hi,
        k - lo == find_exp_mark(v@.subrange(lo as int, hi as int), 0),
{
    let ghost s = v@.subrange(lo as int, hi as int);
    let mut i: usize = lo;
    while i < hi
        invariant
            lo <= i <= hi <= v.len(),
            s == v@.subrange(lo as int, hi as int),
            find_exp_mark(s, 0) == find_exp_mark(s, i - lo),
        decreases hi - i,
    {
        if v[i] == 'e' || v[i] == 'E' {
            return i;
        }
        i += 1;
    }
    i
}

fn is_mantissa_at(v: &Vec<char>, lo: usize, hi: usize) -> (b: bool)
    requires
        lo <= hi <= v.len(),
    ensures
        b == is_mantissa(v@.subrange(lo as int, hi as int)),
{
    let ghost m = v@.subrange(lo as int, hi as int);
    let dot = find_char_at(v, lo, hi, '.');
    if dot == hi {
        hi > lo && digits_only(v, lo, hi)
    } else {
        assert(m.subrange(0, dot - lo) == v@.subrange(lo as int, dot as int));
        assert(m.subrange(dot - lo + 1, m.len() as int) == v@.subrange(dot + 1, hi as int));
        hi - lo > 1 && digits_only(v, lo, dot) && digits_only(v, dot + 1, hi)
    }
}

fn is_exponent_at(v: &Vec<char>, lo: usize, hi: usize) -> (b: bool)
    requires
        lo <= hi <= v.len(),
    ensures
        b == is_exponent(v@.subrange(lo as int, hi as int)),
{
    let ghost e = v@.subrange(lo as int, hi as int);
    let start: usize = if sign_at_front(v, lo, hi) { lo + 1 } else { lo };
    assert(unsigned_part(e) == v@.subrange(start as int, hi as int));
    hi > start && digits_only(v, start, hi)
}

fn is_number_at(v: &Vec<char>, lo: usize, hi: usize) -> (b: bool)
    requires
        lo <= hi <= v.len(),
    ensures
        b == is_number(v@.subrange(lo as int, hi as int)),
{
    let ghost s = v@.subrange(lo as int, hi as int);
    let mark = find_exp_mark_at(v, lo, hi);
    assert(s.subrange(0, mark - lo) == v@.subrange(lo as int, mark as int));
    if !is_mantissa_at(v, lo, mark) {
        return false;
    }
    if mark == hi {
        return true;
    }
    assert(s.subrange(mark - lo + 1, s.len() as int) == v@.subrange(mark + 1, hi as int));
    is_exponent_at(v, mark + 1, hi)
}

/// Whether the characters `v` are a floating-point literal.
pub fn is_float(v: &Vec<char>) -> (b: bool)
    ensures
        b == is_float_text(v@),
{
    let n = v.len();
    let start: usize = if sign_at_front(v, 0, n) { 1 } else { 0 };
    assert(unsigned_part(v@) == v@.subrange(start as int, n as int));
    if is_number_at(v, start, n) {
        return true;
    }
    let inf = vec!['i', 'n', 'f'];
    let infinity = vec!['i', 'n', 'f', 'i', 'n', 'i', 't', 'y'];
    let nan = vec!['n', 'a', 'n'];
    assert(inf@ == seq!['i', 'n', 'f']);
    assert(infinity@ == seq!['i', 'n', 'f', 'i', 'n', 'i', 't', 'y']);
    assert(nan@ == seq!['n', 'a', 'n']);
    is_word_at(v, start, n, &inf) || is_word_at(v, start, n, &infinity) || is_word_at(
        v,
        start,
        n,
        &nan,
    )
}

} // verus!
