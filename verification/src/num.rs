//! Decimal rendering and parsing of integers, with the proof that parsing
//! inverts rendering. The canonical log stores every number in this form.

use vstd::prelude::*;

verus! {

pub open spec fn is_digit(c: char) -> bool {
    c == '0' || c == '1' || c == '2' || c == '3' || c == '4' || c == '5' || c == '6' || c == '7'
        || c == '8' || c == '9'
}

pub open spec fn dec_digit(d: int) -> char {
    if d == 0 {
        '0'
    } else if d == 1 {
        '1'
    } else if d == 2 {
        '2'
    } else if d == 3 {
        '3'
    } else if d == 4 {
        '4'
    } else if d == 5 {
        '5'
    } else if d == 6 {
        '6'
    } else if d == 7 {
        '7'
    } else if d == 8 {
        '8'
    } else {
        '9'
    }
}

pub open spec fn digit_val(c: char) -> nat {
    if c == '0' {
        0
    } else if c == '1' {
        1
    } else if c == '2' {
        2
    } else if c == '3' {
        3
    } else if c == '4' {
        4
    } else if c == '5' {
        5
    } else if c == '6' {
        6
    } else if c == '7' {
        7
    } else if c == '8' {
        8
    } else {
        9
    }
}

/// The decimal digits of `n`, most significant first, without a sign.
pub open spec fn dec_nat(n: nat) -> Seq<char>
    decreases n,
{
    if n < 10 {
        seq![dec_digit(n as int)]
    } else {
        dec_nat((n / 10) as nat).push(dec_digit((n % 10) as int))
    }
}

/// The decimal rendering of a signed number.
pub open spec fn dec_int(n: int) -> Seq<char> {
    if n < 0 {
        seq!['-'] + dec_nat((-n) as nat)
    } else {
        dec_nat(n as nat)
    }
}

/// The numeric value of a digit sequence.
pub open spec fn digits_val(ds: Seq<char>) -> nat
    decreases ds.len(),
{
    if ds.len() == 0 {
        0
    } else {
        digits_val(ds.drop_last()) * 10 + digit_val(ds.last())
    }
}

/// Splits `s` into its longest digit prefix and the remainder.
pub open spec fn take_digits(s: Seq<char>) -> (Seq<char>, Seq<char>)
    decreases s.len(),
{
    if s.len() > 0 && is_digit(s[0]) {
        let (d, r) = take_digits(s.skip(1));
        (seq![s[0]] + d, r)
    } else {
        (Seq::<char>::empty(), s)
    }
}

/// Parses an unsigned decimal number that fits a `u64`; the remainder of
/// the input follows the digits.
pub open spec fn sp_u64(s: Seq<char>) -> Option<(nat, Seq<char>)> {
    let (ds, r) = take_digits(s);
    if ds.len() == 0 || digits_val(ds) > u64::MAX {
        Option::None
    } else {
        Option::Some((digits_val(ds), r))
    }
}

/// Parses a signed decimal number that fits an `i64`.
pub open spec fn sp_i64(s: Seq<char>) -> Option<(int, Seq<char>)> {
    if s.len() > 0 && s[0] == '-' {
        let (ds, r) = take_digits(s.skip(1));
        if ds.len() == 0 || digits_val(ds) > 0x8000000000000000 {
            Option::None
        } else {
            Option::Some((-(digits_val(ds) as int), r))
        }
    } else {
        let (ds, r) = take_digits(s);
        if ds.len() == 0 || digits_val(ds) > i64::MAX {
            Option::None
        } else {
            Option::Some((digits_val(ds) as int, r))
        }
    }
}

/// A rendered number consists of digits alone.
pub proof fn lemma_dec_nat_digits(n: nat)
    ensures
        dec_nat(n).len() >= 1,
        forall|i: int| 0 <= i < dec_nat(n).len() ==> is_digit(#[trigger] dec_nat(n)[i]),
    decreases n,
{
    if n >= 10 {
        lemma_dec_nat_digits(n / 10);
        assert forall|i: int| 0 <= i < dec_nat(n).len() implies is_digit(
            #[trigger] dec_nat(n)[i],
        ) by {
            if i < dec_nat(n).len() - 1 {
                assert(dec_nat(n)[i] == dec_nat(n / 10)[i]);
            }
        }
    }
}

/// Taking digits from digits followed by a non-digit returns exactly the
/// digits.
pub proof fn lemma_take_digits_append(ds: Seq<char>, rest: Seq<char>)
    requires
        forall|i: int| 0 <= i < ds.len() ==> is_digit(#[trigger] ds[i]),
        rest.len() == 0 || !is_digit(rest[0]),
    ensures
        take_digits(ds + rest) == (ds, rest),
    decreases ds.len(),
{
    if ds.len() == 0 {
        assert(ds + rest =~= rest);
        if rest.len() > 0 {
            assert(take_digits(rest) == (Seq::<char>::empty(), rest));
        }
        assert(take_digits(ds + rest) == (ds, rest));
    } else {
        let s = ds + rest;
        assert(s[0] == ds[0]);
        assert(is_digit(s[0]));
        assert(s.skip(1) =~= ds.skip(1) + rest);
        lemma_take_digits_append(ds.skip(1), rest);
        let (d, r) = take_digits(s.skip(1));
        assert(d == ds.skip(1) && r == rest);
        assert(seq![s[0]] + ds.skip(1) =~= ds);
    }
}

/// The value of the rendered digits of `n` is `n`.
pub proof fn lemma_digits_val_dec_nat(n: nat)
    ensures
        digits_val(dec_nat(n)) == n,
    decreases n,
{
    if n < 10 {
        let ds = dec_nat(n);
        assert(ds =~= seq![dec_digit(n as int)]);
        assert(ds.drop_last() =~= Seq::<char>::empty());
        assert(ds.last() == dec_digit(n as int));
        assert(digit_val(dec_digit(n as int)) == n);
        assert(digits_val(ds) == digits_val(ds.drop_last()) * 10 + digit_val(ds.last()));
    } else {
        lemma_digits_val_dec_nat(n / 10);
        let ds = dec_nat(n);
        assert(ds == dec_nat((n / 10) as nat).push(dec_digit((n % 10) as int)));
        assert(ds.drop_last() =~= dec_nat(n / 10));
        assert(ds.last() == dec_digit((n % 10) as int));
        assert(digit_val(dec_digit((n % 10) as int)) == n % 10);
        assert(digits_val(ds) == digits_val(ds.drop_last()) * 10 + digit_val(ds.last()));
        assert(digits_val(ds) == (n / 10) * 10 + n % 10);
        assert(n == (n / 10) * 10 + n % 10);
    }
}

/// Parsing inverts rendering for unsigned numbers, up to a remainder that
/// does not begin with a digit.
pub proof fn lemma_sp_u64_inv(n: u64, rest: Seq<char>)
    requires
        rest.len() == 0 || !is_digit(rest[0]),
    ensures
        sp_u64(dec_nat(n as nat) + rest) == Option::Some((n as nat, rest)),
{
    lemma_dec_nat_digits(n as nat);
    lemma_take_digits_append(dec_nat(n as nat), rest);
    lemma_digits_val_dec_nat(n as nat);
}

/// Parsing inverts rendering for signed numbers.
pub proof fn lemma_sp_i64_inv(n: i64, rest: Seq<char>)
    requires
        rest.len() == 0 || !is_digit(rest[0]),
    ensures
        sp_i64(dec_int(n as int) + rest) == Option::Some((n as int, rest)),
{
    if n < 0 {
        let mag = (-(n as int)) as nat;
        let s = dec_int(n as int) + rest;
        lemma_dec_nat_digits(mag);
        assert(s[0] == '-');
        assert(s.skip(1) =~= dec_nat(mag) + rest);
        lemma_take_digits_append(dec_nat(mag), rest);
        lemma_digits_val_dec_nat(mag);
    } else {
        let s = dec_int(n as int) + rest;
        lemma_dec_nat_digits(n as nat);
        assert(s =~= dec_nat(n as nat) + rest);
        assert(s.len() > 0 && s[0] == dec_nat(n as nat)[0]);
        assert(s[0] != '-');
        lemma_take_digits_append(dec_nat(n as nat), rest);
        lemma_digits_val_dec_nat(n as nat);
    }
}


/// Appends one decimal digit character.
fn push_digit(out: &mut String, d: u64)
    requires
        d < 10,
    ensures
        final(out)@ == old(out)@.push(dec_digit(d as int)),
{
    if d == 0 {
        crate::text::push_char(out, '0');
    } else if d == 1 {
        crate::text::push_char(out, '1');
    } else if d == 2 {
        crate::text::push_char(out, '2');
    } else if d == 3 {
        crate::text::push_char(out, '3');
    } else if d == 4 {
        crate::text::push_char(out, '4');
    } else if d == 5 {
        crate::text::push_char(out, '5');
    } else if d == 6 {
        crate::text::push_char(out, '6');
    } else if d == 7 {
        crate::text::push_char(out, '7');
    } else if d == 8 {
        crate::text::push_char(out, '8');
    } else {
        crate::text::push_char(out, '9');
    }
}

/// Appends the decimal rendering of an unsigned number.
pub fn push_dec_u64(out: &mut String, n: u64)
    ensures
        final(out)@ == old(out)@ + dec_nat(n as nat),
    decreases n,
{
    if n < 10 {
        push_digit(out, n);
        proof {
            assert(old(out)@.push(dec_digit(n as int)) =~= old(out)@ + dec_nat(n as nat));
        }
    } else {
        push_dec_u64(out, n / 10);
        push_digit(out, n % 10);
        proof {
            assert((old(out)@ + dec_nat((n / 10) as nat)).push(dec_digit((n % 10) as int)) =~= old(
                out,
            )@ + dec_nat(n as nat));
        }
    }
}

/// Appends the decimal rendering of a signed number.
pub fn push_dec_i64(out: &mut String, n: i64)
    ensures
        final(out)@ == old(out)@ + dec_int(n as int),
{
    if n < 0 {
        crate::text::push_char(out, '-');
        let mag: u64 = (-(n as i128)) as u64;
        proof {
            assert(mag as nat == (-(n as int)) as nat);
        }
        push_dec_u64(out, mag);
        proof {
            assert(old(out)@.push('-') + dec_nat(mag as nat) =~= old(out)@ + dec_int(n as int));
        }
    } else {
        push_dec_u64(out, n as u64);
    }
}

/// Maps a digit character to its value.
fn digit_of(c: char) -> (r: Option<u64>)
    ensures
        r is Some <==> is_digit(c),
        r matches Option::Some(d) ==> d < 10 && d as nat == digit_val(c),
{
    if c == '0' {
        Option::Some(0)
    } else if c == '1' {
        Option::Some(1)
    } else if c == '2' {
        Option::Some(2)
    } else if c == '3' {
        Option::Some(3)
    } else if c == '4' {
        Option::Some(4)
    } else if c == '5' {
        Option::Some(5)
    } else if c == '6' {
        Option::Some(6)
    } else if c == '7' {
        Option::Some(7)
    } else if c == '8' {
        Option::Some(8)
    } else if c == '9' {
        Option::Some(9)
    } else {
        Option::None
    }
}

/// Parses an unsigned decimal number starting at `pos`, exactly as
/// [`sp_u64`] describes.
pub fn p_u64(s: &str, pos: usize) -> (r: Option<(u64, usize)>)
    requires
        pos <= s@.len(),
    ensures
        r is Some <==> sp_u64(s@.skip(pos as int)) is Some,
        r matches Option::Some(p) ==> pos <= p.1 <= s@.len() && sp_u64(s@.skip(pos as int))
            == Option::Some((p.0 as nat, s@.skip(p.1 as int))),
{
    let slen = s.unicode_len();
    let mut i: usize = pos;
    let mut acc: u64 = 0;
    let mut over: bool = false;
    loop
        invariant
            slen == s@.len(),
            pos <= i <= slen,
            forall|k: int| pos <= k < i ==> is_digit(#[trigger] s@[k]),
            take_digits(s@.skip(pos as int)) == (
                s@.subrange(pos as int, i as int) + take_digits(s@.skip(i as int)).0,
                take_digits(s@.skip(i as int)).1,
            ),
            !over ==> acc as nat == digits_val(s@.subrange(pos as int, i as int)),
            over ==> digits_val(s@.subrange(pos as int, i as int)) > u64::MAX,
        ensures
            pos <= i <= slen,
            i == slen || !is_digit(s@[i as int]),
            take_digits(s@.skip(pos as int)) == (
                s@.subrange(pos as int, i as int),
                s@.skip(i as int),
            ),
            !over ==> acc as nat == digits_val(s@.subrange(pos as int, i as int)),
            over ==> digits_val(s@.subrange(pos as int, i as int)) > u64::MAX,
        decreases slen - i,
    {
        proof {
            if i == slen {
                assert(s@.skip(i as int).len() == 0);
                assert(take_digits(s@.skip(i as int)) == (Seq::<char>::empty(), s@.skip(i as int)));
                assert(s@.subrange(pos as int, i as int) + Seq::<char>::empty() =~= s@.subrange(
                    pos as int,
                    i as int,
                ));
            }
        }
        if i >= slen {
            break;
        }
        let c = s.get_char(i);
        match digit_of(c) {
            Option::None => {
                proof {
                    assert(s@.skip(i as int)[0] == s@[i as int]);
                    assert(take_digits(s@.skip(i as int)) == (
                        Seq::<char>::empty(),
                        s@.skip(i as int),
                    ));
                    assert(s@.subrange(pos as int, i as int) + Seq::<char>::empty() =~= s@.subrange(
                        pos as int,
                        i as int,
                    ));
                }
                break;
            },
            Option::Some(d) => {
                proof {
                    assert(s@.skip(i as int)[0] == s@[i as int]);
                    assert(s@.subrange(pos as int, i as int + 1).drop_last() =~= s@.subrange(
                        pos as int,
                        i as int,
                    ));
                    assert(s@.subrange(pos as int, i as int + 1).last() == s@[i as int]);
                    assert(digits_val(s@.subrange(pos as int, i as int + 1)) == digits_val(
                        s@.subrange(pos as int, i as int),
                    ) * 10 + digit_val(s@[i as int]));
                    assert(s@.skip(i as int).skip(1) =~= s@.skip(i as int + 1));
                    assert(take_digits(s@.skip(i as int)) == (
                        seq![s@[i as int]] + take_digits(s@.skip(i as int + 1)).0,
                        take_digits(s@.skip(i as int + 1)).1,
                    ));
                    assert(s@.subrange(pos as int, i as int) + (seq![s@[i as int]] + take_digits(
                        s@.skip(i as int + 1),
                    ).0) =~= s@.subrange(pos as int, i as int + 1) + take_digits(
                        s@.skip(i as int + 1),
                    ).0);
                }
                if over {
                    proof {
                        let v = digits_val(s@.subrange(pos as int, i as int));
                        assert(v * 10 + digit_val(s@[i as int]) > u64::MAX);
                    }
                } else if acc > u64::MAX / 10 || (acc == u64::MAX / 10 && d > u64::MAX % 10) {
                    over = true;
                } else {
                    acc = acc * 10 + d;
                }
                i = i + 1;
            },
        }
    }
    let ghost whole = s@.skip(pos as int);
    if i == pos {
        proof {
            assert(s@.subrange(pos as int, i as int).len() == 0);
        }
        return Option::None;
    }
    if over {
        return Option::None;
    }
    proof {
        assert(take_digits(whole).0.len() > 0);
    }
    Option::Some((acc, i))
}

/// Parses a signed decimal number starting at `pos`, exactly as [`sp_i64`]
/// describes.
pub fn p_i64(s: &str, pos: usize) -> (r: Option<(i64, usize)>)
    requires
        pos <= s@.len(),
    ensures
        r is Some <==> sp_i64(s@.skip(pos as int)) is Some,
        r matches Option::Some(p) ==> pos <= p.1 <= s@.len() && sp_i64(s@.skip(pos as int))
            == Option::Some((p.0 as int, s@.skip(p.1 as int))),
{
    let slen = s.unicode_len();
    if pos < slen && s.get_char(pos) == '-' {
        proof {
            assert(s@.skip(pos as int)[0] == s@[pos as int]);
            assert(s@.skip(pos as int).skip(1) =~= s@.skip(pos as int + 1));
        }
        match p_u64(s, pos + 1) {
            Option::None => Option::None,
            Option::Some((v, np)) => {
                if v > 0x8000000000000000u64 {
                    Option::None
                } else if v == 0x8000000000000000u64 {
                    Option::Some((i64::MIN, np))
                } else {
                    Option::Some((-(v as i64), np))
                }
            },
        }
    } else {
        proof {
            if pos < slen {
                assert(s@.skip(pos as int)[0] == s@[pos as int]);
            }
        }
        match p_u64(s, pos) {
            Option::None => Option::None,
            Option::Some((v, np)) => {
                if v > 0x7fffffffffffffffu64 {
                    Option::None
                } else {
                    Option::Some((v as i64, np))
                }
            },
        }
    }
}


/// The digit prefix and the remainder partition the input.
pub proof fn lemma_take_digits_len(s: Seq<char>)
    ensures
        take_digits(s).0.len() + take_digits(s).1.len() == s.len(),
    decreases s.len(),
{
    if s.len() > 0 && is_digit(s[0]) {
        lemma_take_digits_len(s.skip(1));
    }
}

/// A successful number parse always consumes at least one character.
pub proof fn lemma_sp_i64_shrinks(s: Seq<char>)
    ensures
        sp_i64(s) matches Option::Some(p) ==> p.1.len() < s.len(),
{
    if s.len() > 0 && s[0] == '-' {
        lemma_take_digits_len(s.skip(1));
    } else {
        lemma_take_digits_len(s);
    }
}

} // verus!
