//! Decimal text for the token-cap integer: rendering for the settings file
//! and the request body, and parsing for the settings file and the
//! configuration override command.

use vstd::prelude::*;
use crate::text::push_char;

verus! {

pub open spec fn is_digit(c: char) -> bool {
    c == '0' || c == '1' || c == '2' || c == '3' || c == '4' || c == '5' || c == '6' || c == '7'
        || c == '8' || c == '9'
}

pub open spec fn digit_char(d: int) -> char {
    if d == 0 {
        '0'
    } else if d == 1 {
        '1'
    } else if d == 2 {
        '2'
    } else if d == 3 {
        '3'
    } else if d == 4 {
        '4'
    } else if d == 5 {
        '5'
    } else if d == 6 {
        '6'
    } else if d == 7 {
        '7'
    } else if d == 8 {
        '8'
    } else {
        '9'
    }
}

pub open spec fn digit_val(c: char) -> int {
    if c == '0' {
        0
    } else if c == '1' {
        1
    } else if c == '2' {
        2
    } else if c == '3' {
        3
    } else if c == '4' {
        4
    } else if c == '5' {
        5
    } else if c == '6' {
        6
    } else if c == '7' {
        7
    } else if c == '8' {
        8
    } else {
        9
    }
}

/// The decimal digits of a non-negative number, most significant first.
pub open spec fn dec_nat(n: int) -> Seq<char>
    recommends
        n >= 0,
    decreases n,
{
    if n < 10 {
        seq![digit_char(n)]
    } else {
        dec_nat(n / 10).push(digit_char(n % 10))
    }
}

/// The decimal text of an integer: a minus sign before the digits when it is
/// negative.
pub open spec fn dec_int(n: int) -> Seq<char> {
    if n >= 0 {
        dec_nat(n)
    } else {
        seq!['-'] + dec_nat(-n)
    }
}

pub open spec fn all_digits(ds: Seq<char>) -> bool {
    forall|i: int| 0 <= i < ds.len() ==> is_digit(ds[i])
}

/// The value of a digit run read left to right, starting from an accumulator.
pub open spec fn fold_digits(ds: Seq<char>, acc: int) -> int
    decreases ds.len(),
{
    if ds.len() == 0 {
        acc
    } else {
        fold_digits(ds.drop_first(), acc * 10 + digit_val(ds[0]))
    }
}

/// Folding a concatenation folds the two parts in turn.
pub proof fn lemma_fold_digits_concat(a: Seq<char>, b: Seq<char>, acc: int)
    ensures
        fold_digits(a + b, acc) == fold_digits(b, fold_digits(a, acc)),
    decreases a.len(),
{
    if a.len() == 0 {
        assert(a + b =~= b);
    } else {
        assert((a + b).drop_first() =~= a.drop_first() + b);
        lemma_fold_digits_concat(a.drop_first(), b, acc * 10 + digit_val(a[0]));
    }
}

pub proof fn lemma_fold_digits_snoc(ds: Seq<char>, d: char, acc: int)
    ensures
        fold_digits(ds.push(d), acc) == fold_digits(ds, acc) * 10 + digit_val(d),
{
    assert(ds.push(d) =~= ds + seq![d]);
    lemma_fold_digits_concat(ds, seq![d], acc);
    let m = fold_digits(ds, acc);
    assert(seq![d].drop_first() =~= Seq::<char>::empty());
    assert(fold_digits(seq![d], m) == fold_digits(Seq::<char>::empty(), m * 10 + digit_val(d)));
    assert(fold_digits(Seq::<char>::empty(), m * 10 + digit_val(d)) == m * 10 + digit_val(d));
}

/// The rendered digits of a non-negative number are digits, at least one of
/// them.
pub proof fn lemma_dec_nat_digits(n: int)
    requires
        n >= 0,
    ensures
        all_digits(dec_nat(n)),
        dec_nat(n).len() >= 1,
        is_digit(dec_nat(n)[0]),
    decreases n,
{
    if n >= 10 {
        lemma_dec_nat_digits(n / 10);
    }
}

/// Reading the rendered digits back gives the number.
pub proof fn lemma_fold_dec_nat(n: int)
    requires
        n >= 0,
    ensures
        fold_digits(dec_nat(n), 0) == n,
    decreases n,
{
    if n < 10 {
        let s = dec_nat(n);
        assert(s.drop_first() =~= Seq::<char>::empty());
        assert(fold_digits(s, 0) == fold_digits(s.drop_first(), 0 * 10 + digit_val(s[0])));
        assert(fold_digits(Seq::<char>::empty(), digit_val(s[0])) == digit_val(s[0]));
    } else {
        lemma_fold_dec_nat(n / 10);
        lemma_fold_digits_snoc(dec_nat(n / 10), digit_char(n % 10), 0);
    }
}

/// A fold from a non-negative accumulator never shrinks below it.
pub proof fn lemma_fold_digits_lower(ds: Seq<char>, acc: int)
    requires
        acc >= 0,
    ensures
        fold_digits(ds, acc) >= acc,
    decreases ds.len(),
{
    if ds.len() > 0 {
        lemma_fold_digits_lower(ds.drop_first(), acc * 10 + digit_val(ds[0]));
    }
}

/// The digits at the front of a text, folded, and the text after them.
pub open spec fn scan_digits(t: Seq<char>, acc: int) -> (int, Seq<char>)
    decreases t.len(),
{
    if t.len() > 0 && is_digit(t[0]) {
        scan_digits(t.skip(1), acc * 10 + digit_val(t[0]))
    } else {
        (acc, t)
    }
}

/// Scanning a text that begins with a digit run folds the run into the
/// accumulator and then scans what follows.
pub proof fn lemma_scan_digits_prefix(ds: Seq<char>, r: Seq<char>, acc: int)
    requires
        all_digits(ds),
    ensures
        scan_digits(ds + r, acc) == scan_digits(r, fold_digits(ds, acc)),
    decreases ds.len(),
{
    if ds.len() == 0 {
        assert(ds + r =~= r);
    } else {
        assert((ds + r)[0] == ds[0]);
        assert((ds + r).skip(1) =~= ds.drop_first() + r);
        lemma_scan_digits_prefix(ds.drop_first(), r, acc * 10 + digit_val(ds[0]));
    }
}

/// A scan from a non-negative accumulator never yields less than it.
pub proof fn lemma_scan_digits_lower(t: Seq<char>, acc: int)
    requires
        acc >= 0,
    ensures
        scan_digits(t, acc).0 >= acc,
    decreases t.len(),
{
    if t.len() > 0 && is_digit(t[0]) {
        lemma_scan_digits_lower(t.skip(1), acc * 10 + digit_val(t[0]));
    }
}

proof fn lemma_scan_digits_rest_len(t: Seq<char>, acc: int)
    ensures
        scan_digits(t, acc).1.len() <= t.len(),
    decreases t.len(),
{
    if t.len() > 0 && is_digit(t[0]) {
        lemma_scan_digits_rest_len(t.skip(1), acc * 10 + digit_val(t[0]));
    }
}

/// An optionally signed digit run at the front of a text: its value and the
/// text after it, or nothing when no digit starts it.
pub open spec fn take_int(t: Seq<char>) -> Option<(int, Seq<char>)> {
    if t.len() > 0 && t[0] == '-' {
        if t.len() > 1 && is_digit(t[1]) {
            let (v, r) = scan_digits(t.skip(1), 0);
            Some((-v, r))
        } else {
            None
        }
    } else if t.len() > 0 && is_digit(t[0]) {
        Some(scan_digits(t, 0))
    } else {
        None
    }
}

/// Scanning a digit run followed by a non-digit folds exactly the run.
pub proof fn lemma_scan_digits_concat(ds: Seq<char>, rest: Seq<char>, acc: int)
    requires
        all_digits(ds),
        rest.len() == 0 || !is_digit(rest[0]),
    ensures
        scan_digits(ds + rest, acc) == (fold_digits(ds, acc), rest),
    decreases ds.len(),
{
    if ds.len() == 0 {
        assert(ds + rest =~= rest);
    } else {
        assert((ds + rest)[0] == ds[0]);
        assert((ds + rest).skip(1) =~= ds.drop_first() + rest);
        lemma_scan_digits_concat(ds.drop_first(), rest, acc * 10 + digit_val(ds[0]));
    }
}

/// Reading back a rendered integer gives the integer and leaves the rest,
/// provided the rest does not begin with another digit.
pub proof fn lemma_take_int_dec(n: int, rest: Seq<char>)
    requires
        rest.len() == 0 || !is_digit(rest[0]),
    ensures
        take_int(dec_int(n) + rest) == Some((n, rest)),
{
    if n >= 0 {
        lemma_dec_nat_digits(n);
        lemma_fold_dec_nat(n);
        assert((dec_nat(n) + rest)[0] == dec_nat(n)[0]);
        lemma_scan_digits_concat(dec_nat(n), rest, 0);
    } else {
        lemma_dec_nat_digits(-n);
        lemma_fold_dec_nat(-n);
        let t = dec_int(n) + rest;
        assert(t[0] == '-');
        assert(t[1] == dec_nat(-n)[0]);
        assert(t.skip(1) =~= dec_nat(-n) + rest);
        lemma_scan_digits_concat(dec_nat(-n), rest, 0);
    }
}

fn digit_of(d: u32) -> (c: char)
    requires
        d < 10,
    ensures
        c == digit_char(d as int),
{
    if d == 0 {
        '0'
    } else if d == 1 {
        '1'
    } else if d == 2 {
        '2'
    } else if d == 3 {
        '3'
    } else if d == 4 {
        '4'
    } else if d == 5 {
        '5'
    } else if d == 6 {
        '6'
    } else if d == 7 {
        '7'
    } else if d == 8 {
        '8'
    } else {
        '9'
    }
}

fn digit_val_of(c: char) -> (r: Option<u32>)
    ensures
        match r {
            Some(d) => is_digit(c) && d < 10 && d as int == digit_val(c),
            None => !is_digit(c),
        },
{
    if c == '0' {
        Some(0)
    } else if c == '1' {
        Some(1)
    } else if c == '2' {
        Some(2)
    } else if c == '3' {
        Some(3)
    } else if c == '4' {
        Some(4)
    } else if c == '5' {
        Some(5)
    } else if c == '6' {
        Some(6)
    } else if c == '7' {
        Some(7)
    } else if c == '8' {
        Some(8)
    } else if c == '9' {
        Some(9)
    } else {
        None
    }
}

fn push_dec_u32(out: &mut String, n: u32)
    ensures
        final(out)@ == old(out)@ + dec_nat(n as int),
    decreases n,
{
    if n < 10 {
        push_char(out, digit_of(n));
        proof {
            assert(old(out)@.push(digit_char(n as int)) =~= old(out)@ + dec_nat(n as int));
        }
    } else {
        push_dec_u32(out, n / 10);
        push_char(out, digit_of(n % 10));
        proof {
            assert((old(out)@ + dec_nat(n as int / 10)).push(digit_char(n as int % 10)) =~= old(
                out,
            )@ + dec_nat(n as int));
        }
    }
}

/// Appends the decimal text of an integer to a string under construction.
pub fn push_dec_i32(out: &mut String, n: i32)
    ensures
        final(out)@ == old(out)@ + dec_int(n as int),
{
    if n >= 0 {
        push_dec_u32(out, n as u32);
    } else {
        push_char(out, '-');
        let mag: u32 = (-(n as i64)) as u32;
        proof {
            assert(mag as int == -(n as int));
        }
        push_dec_u32(out, mag);
        proof {
            assert(old(out)@.push('-') + dec_nat(mag as int) =~= old(out)@ + dec_int(n as int));
        }
    }
}

/// A digit run that is taken leaves strictly less text behind it.
pub proof fn lemma_take_int_rest_len(t: Seq<char>)
    ensures
        take_int(t) matches Some(p) ==> p.1.len() < t.len(),
{
    if t.len() > 0 && t[0] == '-' {
        lemma_scan_digits_rest_len(t.skip(1), 0);
    } else if t.len() > 0 && is_digit(t[0]) {
        lemma_scan_digits_rest_len(t.skip(1), 0 * 10 + digit_val(t[0]));
    }
}

/// Scans an optionally signed digit run beginning at `from`, as `take_int`
/// reads it: the value and the position after the digits, or nothing when no
/// digit run starts there or its value does not fit a signed 32-bit number.
pub fn scan_int(s: &str, from: usize) -> (r: Option<(i32, usize)>)
    requires
        from <= s@.len(),
    ensures
        match r {
            Some(p) => p.1 <= s@.len() && take_int(s@.skip(from as int)) == Some(
                (p.0 as int, s@.skip(p.1 as int)),
            ),
            None => match take_int(s@.skip(from as int)) {
                Some(q) => !(-0x8000_0000 <= q.0 <= 0x7fff_ffff),
                None => true,
            },
        },
{
    let n = s.unicode_len();
    if from == n {
        return None;
    }
    let c0 = s.get_char(from);
    let neg = c0 == '-';
    let start = if neg {
        from + 1
    } else {
        from
    };
    if start == n {
        return None;
    }
    let mut i: usize = start;
    let mut acc: u64 = 0;
    let mut done = false;
    proof {
        assert(s@.subrange(start as int, start as int) =~= Seq::<char>::empty());
    }
    while !done && i < n
        invariant
            n == s@.len(),
            from <= start <= i <= n,
            start < n,
            start == from + (if neg {
                1int
            } else {
                0int
            }),
            neg == (s@[from as int] == '-'),
            done ==> !is_digit(s@[i as int]),
            forall|j: int| start <= j < i ==> is_digit(s@[j]),
            acc as int == fold_digits(s@.subrange(start as int, i as int), 0),
            acc <= 0x8000_0000,
        decreases n - i + (if done {
            0int
        } else {
            1int
        }),
    {
        let c = s.get_char(i);
        match digit_val_of(c) {
            None => {
                done = true;
            },
            Some(d) => {
                proof {
                    assert(s@.subrange(start as int, i + 1) =~= s@.subrange(
                        start as int,
                        i as int,
                    ).push(s@[i as int]));
                    lemma_fold_digits_snoc(s@.subrange(start as int, i as int), s@[i as int], 0);
                }
                acc = acc * 10 + (d as u64);
                if acc > 0x8000_0000 {
                    proof {
                        let ds = s@.subrange(start as int, i + 1);
                        let remaining = s@.skip(i + 1);
                        lemma_scan_digits_prefix(ds, remaining, 0);
                        lemma_scan_digits_lower(remaining, acc as int);
                        let t = s@.skip(from as int);
                        if neg {
                            assert(t[0] == '-');
                            assert(t.skip(1) =~= ds + remaining);
                            assert(t[1] == s@[start as int]);
                        } else {
                            assert(t =~= ds + remaining);
                        }
                    }
                    return None;
                }
                i += 1;
            },
        }
    }
    proof {
        assert(i == n || !is_digit(s@[i as int]));
    }
    if i == start {
        proof {
            let t = s@.skip(from as int);
            if neg {
                assert(t[1] == s@[start as int]);
                assert(!is_digit(t[1]));
            } else {
                assert(t[0] == s@[start as int]);
                assert(!is_digit(t[0]));
            }
        }
        return None;
    }
    proof {
        let t = s@.skip(from as int);
        let ds = s@.subrange(start as int, i as int);
        let rest = s@.skip(i as int);
        assert(rest.len() == 0 || !is_digit(rest[0]));
        lemma_scan_digits_concat(ds, rest, 0);
        if neg {
            assert(t[0] == '-');
            assert(t.skip(1) =~= ds + rest);
            assert(t[1] == s@[start as int]);
        } else {
            assert(t =~= ds + rest);
            assert(t[0] == s@[start as int]);
        }
    }
    if neg {
        let v: i32 = (-(acc as i64)) as i32;
        proof {
            assert(v as int == -(acc as int));
        }
        Some((v, i))
    } else {
        if acc > 0x7fff_ffff {
            return None;
        }
        Some((acc as i32, i))
    }
}

/// The number a whole text denotes: an optional sign, then digits and nothing
/// else; anything else is no number.
pub open spec fn parse_int_text(t: Seq<char>) -> Option<int> {
    if t.len() > 0 && (t[0] == '-' || t[0] == '+') {
        if t.len() > 1 && all_digits(t.skip(1)) {
            if t[0] == '-' {
                Some(-fold_digits(t.skip(1), 0))
            } else {
                Some(fold_digits(t.skip(1), 0))
            }
        } else {
            None
        }
    } else if t.len() > 0 && all_digits(t) {
        Some(fold_digits(t, 0))
    } else {
        None
    }
}

/// The text parsed as a signed 32-bit number; a well-formed number out of
/// that range is no result.
pub open spec fn spec_parse_i32(t: Seq<char>) -> Option<int> {
    match parse_int_text(t) {
        Some(v) => if -0x8000_0000 <= v <= 0x7fff_ffff {
            Some(v)
        } else {
            None
        },
        None => None,
    }
}

/// Parses a whole text as a signed 32-bit decimal number: an optional sign,
/// then one or more digits, nothing else, within range.
pub fn parse_i32(s: &str) -> (r: Option<i32>)
    ensures
        match r {
            Some(v) => spec_parse_i32(s@) == Some(v as int),
            None => spec_parse_i32(s@) is None,
        },
{
    let n = s.unicode_len();
    if n == 0 {
        return None;
    }
    let c0 = s.get_char(0);
    let neg = c0 == '-';
    let start: usize = if c0 == '-' || c0 == '+' {
        1
    } else {
        0
    };
    if start == n {
        return None;
    }
    let mut i: usize = start;
    let mut acc: u64 = 0;
    while i < n
        invariant
            n == s@.len(),
            start <= i <= n,
            start == (if s@[0] == '-' || s@[0] == '+' {
                1int
            } else {
                0int
            }),
            start < n,
            neg == (s@[0] == '-'),
            forall|j: int| start <= j < i ==> is_digit(s@[j]),
            acc as int == fold_digits(s@.subrange(start as int, i as int), 0),
            acc <= 0x8000_0000,
        decreases n - i,
    {
        let c = s.get_char(i);
        let d = match digit_val_of(c) {
            Some(d) => d,
            None => {
                proof {
                    if start == 1 {
                        assert(s@.skip(1) =~= s@.subrange(1, n as int));
                        assert(!is_digit(s@.skip(1)[i - 1]));
                    } else {
                        assert(!is_digit(s@[i as int]));
                    }
                }
                return None;
            },
        };
        proof {
            assert(s@.subrange(start as int, i + 1) =~= s@.subrange(start as int, i as int).push(
                s@[i as int],
            ));
            lemma_fold_digits_snoc(s@.subrange(start as int, i as int), s@[i as int], 0);
        }
        acc = acc * 10 + (d as u64);
        if acc > 0x8000_0000 {
            proof {
                let whole = s@.subrange(start as int, n as int);
                let done = s@.subrange(start as int, i + 1);
                let rest = s@.subrange(i + 1, n as int);
                assert(whole =~= done + rest);
                lemma_fold_digits_concat(done, rest, 0);
                lemma_fold_digits_lower(rest, acc as int);
                assert(fold_digits(whole, 0) > 0x8000_0000);
                if start == 1 {
                    assert(s@.skip(1) =~= whole);
                } else {
                    assert(s@ =~= whole);
                }
            }
            return None;
        }
        i += 1;
    }
    proof {
        let whole = s@.subrange(start as int, n as int);
        assert(all_digits(whole));
        if start == 1 {
            assert(s@.skip(1) =~= whole);
        } else {
            assert(s@ =~= whole);
        }
        assert(parse_int_text(s@) == Some(
            if s@[0] == '-' {
                -(acc as int)
            } else {
                acc as int
            },
        ));
    }
    if neg {
        let v: i32 = (-(acc as i64)) as i32;
        proof {
            assert(v as int == -(acc as int));
        }
        Some(v)
    } else {
        if acc > 0x7fff_ffff {
            return None;
        }
        Some(acc as i32)
    }
}

} // verus!
