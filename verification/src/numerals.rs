use vstd::prelude::*;
use vstd::string::*;

verus! {

/// Decimal digit predicate over characters.
pub open spec fn is_digit(c: char) -> bool {
    48 <= c as int && c as int <= 57
}

/// Numeric value of a digit character.
pub open spec fn digit_val(c: char) -> nat {
    (c as int - 48) as nat
}

/// The digit character for a value below ten.
pub open spec fn digit_char(d: nat) -> char
    recommends
        d < 10,
{
    ((d + 48) as u8) as char
}

/// Every character of `s` is a decimal digit.
pub open spec fn all_digits(s: Seq<char>) -> bool {
    forall|i: int| 0 <= i < s.len() ==> is_digit(s[i])
}

/// The value of a digit string, most significant digit first.
pub open spec fn digits_val(s: Seq<char>) -> nat
    decreases s.len(),
{
    if s.len() == 0 {
        0
    } else {
        digits_val(s.drop_last()) * 10 + digit_val(s.last())
    }
}

/// The canonical decimal numeral of a natural number: no sign, no leading
/// zeros.
pub open spec fn dec_nat(n: nat) -> Seq<char>
    decreases n,
{
    if n < 10 {
        seq![digit_char(n)]
    } else {
        dec_nat(n / 10).push(digit_char(n % 10))
    }
}

/// The canonical decimal numeral of an integer: a leading minus sign for
/// negative values.
pub open spec fn dec_int(v: int) -> Seq<char> {
    if v < 0 {
        seq!['-'] + dec_nat((-v) as nat)
    } else {
        dec_nat(v as nat)
    }
}

/// What parsing a signed decimal numeral yields: an optional single sign,
/// at least one digit, nothing else, and a value within the 64-bit signed
/// range; anything else yields nothing.
pub open spec fn parse_i64_spec(s: Seq<char>) -> Option<i64> {
    if s.len() >= 2 && (s[0] == '-' || s[0] == '+') {
        if all_digits(s.skip(1)) {
            let sv = if s[0] == '-' {
                -(digits_val(s.skip(1)) as int)
            } else {
                digits_val(s.skip(1)) as int
            };
            if i64::MIN <= sv && sv <= i64::MAX {
                Some(sv as i64)
            } else {
                None
            }
        } else {
            None
        }
    } else if s.len() >= 1 && all_digits(s) {
        if digits_val(s) <= i64::MAX {
            Some(digits_val(s) as i64)
        } else {
            None
        }
    } else {
        None
    }
}

proof fn lemma_digits_val_mono(s: Seq<char>, i: int)
    requires
        0 <= i <= s.len(),
    ensures
        digits_val(s.take(i)) <= digits_val(s),
    decreases s.len() - i,
{
    if i < s.len() {
        lemma_digits_val_mono(s, i + 1);
        assert(s.take(i + 1).drop_last() =~= s.take(i));
        assert(s.take(i + 1).last() == s[i]);
        assert(digits_val(s.take(i + 1)) == digits_val(s.take(i)) * 10 + digit_val(s[i]));
        assert(digits_val(s.take(i)) <= digits_val(s.take(i)) * 10) by (nonlinear_arith);
    } else {
        assert(s.take(i) =~= s);
    }
}

proof fn lemma_digits_val_grows(s: Seq<char>, i: int)
    requires
        0 <= i < s.len(),
    ensures
        digits_val(s.take(i)) * 10 <= digits_val(s),
    decreases s.len() - i,
{
    lemma_digits_val_mono(s, i + 1);
    assert(s.take(i + 1).drop_last() =~= s.take(i));
    assert(digits_val(s.take(i + 1)) == digits_val(s.take(i)) * 10 + digit_val(s.take(i + 1).last()));
}

/// Parse a signed decimal numeral exactly as `parse_i64_spec` describes.
pub fn parse_i64(s: &str) -> (r: Option<i64>)
    ensures
        r == parse_i64_spec(s@),
{
    let n = s.unicode_len();
    if n == 0 {
        return None;
    }
    let c0 = s.get_char(0);
    let u0 = c0 as u32;
    let neg = u0 == 45;
    let signed = neg || u0 == 43;
    let start: usize = if signed { 1 } else { 0 };
    if signed && n == 1 {
        proof {
            assert(!is_digit(s@[0]));
        }
        return None;
    }
    let ghost digs: Seq<char> = s@.subrange(start as int, n as int);
    let mut i: usize = start;
    let mut acc: u64 = 0;
    while i < n
        invariant
            start <= i <= n,
            n == s@.len(),
            start == (if signed { 1int } else { 0int }),
            signed ==> (s@[0] == '-' || s@[0] == '+'),
            neg <==> s@[0] == '-',
            !signed && n >= 1 ==> !(s@[0] == '-' || s@[0] == '+'),
            n >= 1 + start,
            digs == s@.subrange(start as int, n as int),
            forall|j: int| start <= j < i ==> is_digit(s@[j]),
            acc == digits_val(s@.subrange(start as int, i as int)),
            acc <= 9223372036854775808u64,
        decreases n - i,
    {
        let c = s.get_char(i);
        let u = c as u32;
        if u < 48 || u > 57 {
            proof {
                assert(!is_digit(digs[i - start]));
            }
            return None;
        }
        let d: u64 = (u - 48) as u64;
        if acc > 922337203685477580u64 {
            proof {
                assert(digs.take(i - start) =~= s@.subrange(start as int, i as int));
                lemma_digits_val_grows(digs, i - start);
                assert(digits_val(digs) >= acc * 10);
                if signed {
                    assert(digs =~= s@.skip(1));
                } else {
                    assert(digs =~= s@);
                }
            }
            return None;
        }
        acc = acc * 10 + d;
        proof {
            let pre = s@.subrange(start as int, i as int);
            let cur = s@.subrange(start as int, i + 1 as int);
            assert(cur.drop_last() =~= pre);
            assert(cur.last() == s@[i as int]);
            assert(digit_val(s@[i as int]) == d);
        }
        if acc > 9223372036854775808u64 {
            proof {
                assert(digs.take(i + 1 - start) =~= s@.subrange(start as int, i + 1 as int));
                lemma_digits_val_mono(digs, i + 1 - start);
                assert(digits_val(digs) >= acc);
                if signed {
                    assert(digs =~= s@.skip(1));
                } else {
                    assert(digs =~= s@);
                }
            }
            return None;
        }
        i += 1;
    }
    proof {
        assert(s@.subrange(start as int, i as int) =~= digs);
        assert(acc == digits_val(digs));
        if signed {
            assert(digs =~= s@.skip(1));
        } else {
            assert(digs =~= s@);
        }
    }
    if neg {
        let v: i64 = (-(acc as i128)) as i64;
        Some(v)
    } else {
        if acc > 9223372036854775807u64 {
            return None;
        }
        Some(acc as i64)
    }
}

/// The canonical decimal numeral of an unsigned 64-bit value, as characters.
pub fn format_u64(n: u64) -> (v: Vec<char>)
    ensures
        v@ == dec_nat(n as nat),
    decreases n,
{
    if n < 10 {
        let c: char = ((n as u8) + 48) as char;
        let mut v: Vec<char> = Vec::new();
        v.push(c);
        proof {
            assert(v@ =~= dec_nat(n as nat));
        }
        v
    } else {
        let mut v = format_u64(n / 10);
        let c: char = (((n % 10) as u8) + 48) as char;
        v.push(c);
        v
    }
}

/// The canonical decimal numeral of a signed 64-bit value, as characters.
pub fn format_i64(x: i64) -> (v: Vec<char>)
    ensures
        v@ == dec_int(x as int),
{
    if x >= 0 {
        format_u64(x as u64)
    } else {
        let m: u64 = (-(x as i128)) as u64;
        let mut v: Vec<char> = Vec::new();
        v.push('-');
        let mut rest = format_u64(m);
        v.append(&mut rest);
        proof {
            assert(v@ =~= seq!['-'] + dec_nat(m as nat));
        }
        v
    }
}

proof fn lemma_dec_nat_digits(n: nat)
    ensures
        dec_nat(n).len() >= 1,
        all_digits(dec_nat(n)),
        digits_val(dec_nat(n)) == n,
        is_digit(dec_nat(n)[0]),
    decreases n,
{
    if n < 10 {
        let s = dec_nat(n);
        assert(s =~= seq![digit_char(n)]);
        assert(is_digit(digit_char(n)));
        assert(digits_val(s) == digits_val(s.drop_last()) * 10 + digit_val(s.last()));
        assert(s.drop_last() =~= Seq::<char>::empty());
        assert(digit_val(digit_char(n)) == n);
    } else {
        lemma_dec_nat_digits(n / 10);
        let s = dec_nat(n);
        assert(s == dec_nat(n / 10).push(digit_char(n % 10)));
        assert(s.drop_last() =~= dec_nat(n / 10));
        assert(s.last() == digit_char(n % 10));
        assert(digit_val(digit_char(n % 10)) == n % 10);
        assert(forall|i: int| 0 <= i < s.len() - 1 ==> s[i] == dec_nat(n / 10)[i]);
        assert(all_digits(s));
        assert(digits_val(s) == (n / 10) * 10 + n % 10);
        assert((n / 10) * 10 + n % 10 == n) by (nonlinear_arith);
    }
}

/// Round trip: parsing the canonical numeral of any 64-bit signed value
/// yields that value back.
pub proof fn lemma_parse_format_roundtrip(x: i64)
    ensures
        parse_i64_spec(dec_int(x as int)) == Some(x),
{
    if x >= 0 {
        let s = dec_int(x as int);
        assert(s == dec_nat(x as nat));
        lemma_dec_nat_digits(x as nat);
        assert(!(s[0] == '-' || s[0] == '+'));
        assert(digits_val(s) == x as nat);
    } else {
        let m = (-(x as int)) as nat;
        let s = dec_int(x as int);
        assert(s == seq!['-'] + dec_nat(m));
        lemma_dec_nat_digits(m);
        assert(s.len() >= 2);
        assert(s[0] == '-');
        assert(s.skip(1) =~= dec_nat(m));
        assert(all_digits(s.skip(1)));
        assert(digits_val(s.skip(1)) == m);
        assert(-(m as int) == x as int);
    }
}

} // verus!
