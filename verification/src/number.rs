//! Numbers as decimal text.

use vstd::prelude::*;

verus! {

/// The decimal digit of `d`, for `d` below ten.
pub open spec fn digit(d: nat) -> char {
    (('0' as u8) + d) as char
}

/// `n` in decimal, without leading zeros.
pub open spec fn dec(n: nat) -> Seq<char>
    decreases n,
{
    if n < 10 {
        seq![digit(n)]
    } else {
        dec(n / 10).push(digit(n % 10))
    }
}

/// `n` in decimal.
pub fn dec_string(n: u128) -> (r: String)
    ensures
        r@ == dec(n as nat),
    decreases n,
{
    let mut r = if n < 10 {
        String::new()
    } else {
        dec_string(n / 10)
    };
    r.push(((n % 10) as u8 + '0' as u8) as char);
    assert(r@ =~= dec(n as nat));
    r
}

/// `n` in decimal, with a leading zero when it has a single digit.
pub open spec fn dec2(n: nat) -> Seq<char> {
    if n < 10 {
        seq!['0', digit(n)]
    } else {
        dec(n)
    }
}

/// `n` in decimal, at least two digits wide.
pub fn dec2_string(n: u128) -> (r: String)
    ensures
        r@ == dec2(n as nat),
{
    let mut r = String::new();
    if n < 10 {
        r.push('0');
    }
    let d = dec_string(n);
    r.append(d.as_str());
    assert(r@ =~= dec2(n as nat));
    r
}

/// Whether `c` is an ASCII digit.
pub open spec fn is_digit(c: char) -> bool {
    '0' <= c && c <= '9'
}

/// The value of an ASCII digit.
pub open spec fn digit_value(c: char) -> nat {
    (c as int - '0' as int) as nat
}

/// The number that a run of digits spells in decimal.
pub open spec fn value(s: Seq<char>) -> nat
    decreases s.len(),
{
    if s.len() == 0 {
        0
    } else {
        value(s.drop_last()) * 10 + digit_value(s.last())
    }
}

/// The digits of a number literal: what follows an optional plus sign.
pub open spec fn unsigned_digits(s: Seq<char>) -> Seq<char> {
    if s.len() > 0 && s[0] == '+' {
        s.drop_first()
    } else {
        s
    }
}

/// Whether `s` spells a number that a `usize` can hold: an optional plus sign,
/// then one or more digits.
pub open spec fn is_usize_literal(s: Seq<char>) -> bool {
    let d = unsigned_digits(s);
    &&& d.len() > 0
    &&& forall|i: int| 0 <= i < d.len() ==> is_digit(#[trigger] d[i])
    &&& value(d) <= usize::MAX
}

/// A longer run of digits spells no smaller number.
proof fn lemma_value_grows(s: Seq<char>, n: int)
    requires
        0 <= n <= s.len(),
    ensures
        value(s.take(n)) <= value(s),
    decreases s.len() - n,
{
    if n < s.len() {
        lemma_value_grows(s, n + 1);
        assert(s.take(n + 1).drop_last() =~= s.take(n));
    } else {
        assert(s.take(n) =~= s);
    }
}

/// The number that `s` spells; `None` when it spells none or one too large.
pub fn parse_usize(s: &Vec<char>) -> (r: Option<usize>)
    ensures
        match r {
            Some(n) => is_usize_literal(s@) && n == value(unsigned_digits(s@)),
            None => !is_usize_literal(s@),
        },
{
    let from: usize = if s.len() > 0 && s[0] == '+' {
        1
    } else {
        0
    };
    let ghost d = unsigned_digits(s@);
    assert(d =~= s@.skip(from as int));
    if s.len() == from {
        return None;
    }
    let mut n: usize = 0;
    let mut i: usize = from;
    while i < s.len()
        invariant
            from <= i <= s.len(),
            d == unsigned_digits(s@),
            d == s@.skip(from as int),
            n == value(d.take(i - from)),
            forall|j: int| 0 <= j < i - from ==> is_digit(#[trigger] d[j]),
        decreases s.len() - i,
    {
        let c = s[i];
        assert(d[i - from] == c);
        if c < '0' || c > '9' {
            return None;
        }
        proof {
            assert(d.take(i - from + 1).drop_last() =~= d.take(i - from));
            assert(d.take(i - from + 1).last() == c);
            lemma_value_grows(d, i - from + 1);
        }
        let v: usize = (c as u8 - '0' as u8) as usize;
        match n.checked_mul(10) {
            None => {
                return None;
            },
            Some(m) => match m.checked_add(v) {
                None => {
                    return None;
                },
                Some(k) => {
                    n = k;
                },
            },
        }
        i += 1;
    }
    assert(d.take(s.len() - from) =~= d);
    Some(n)
}

/// A number in decimal is written in digits alone, without a zero in front unless it is
/// zero, and reads as that number again.
pub proof fn law_decimal_reads_back(n: nat)
    ensures
        dec(n).len() > 0,
        forall|i: int| 0 <= i < dec(n).len() ==> '0' <= #[trigger] dec(n)[i] && dec(n)[i] <= '9',
        n > 0 ==> dec(n)[0] != '0',
        n == 0 ==> dec(n) == seq!['0'],
        value(dec(n)) == n,
        is_usize_literal(dec(n)) <==> n <= usize::MAX,
    decreases n,
{
    if n < 10 {
        assert(dec(n).drop_last() =~= Seq::<char>::empty());
        assert(value(dec(n).drop_last()) == 0);
        assert(dec(n).last() == digit(n));
        assert(digit_value(digit(n)) == n);
    } else {
        law_decimal_reads_back(n / 10);
        assert(dec(n).drop_last() =~= dec(n / 10));
        assert(digit_value(digit(n % 10)) == n % 10);
        assert(dec(n)[0] == dec(n / 10)[0]);
    }
    assert('0' <= dec(n)[0]);
    assert(unsigned_digits(dec(n)) == dec(n));
}

/// What digits spell: each one counts ten times the one behind it.
pub proof fn law_value_of_digits(s: Seq<char>, c: char)
    requires
        '0' <= c && c <= '9',
    ensures
        value(s.push(c)) == 10 * value(s) + (c as int - '0' as int),
        value(Seq::empty()) == 0,
        is_usize_literal(seq!['+'] + s) <==> is_usize_literal(s) && s[0] != '+',
{
    assert(s.push(c).drop_last() =~= s);
    assert((seq!['+'] + s).drop_first() =~= s);
    if s.len() > 0 && s[0] == '+' {
        assert(!is_digit(s[0]));
    }
}

/// Two digits at least: the number itself, with a zero in front of a single digit.
pub proof fn law_two_digits(n: nat)
    ensures
        dec2(n).len() >= 2,
        value(dec2(n)) == n,
        n >= 10 ==> dec2(n) == dec(n),
{
    law_decimal_reads_back(n);
    if n < 10 {
        assert(dec2(n).drop_last() =~= seq!['0']);
        assert(seq!['0'].drop_last() =~= Seq::<char>::empty());
        assert(value(seq!['0']) == 0) by {
            reveal_with_fuel(value, 2);
        }
        assert(digit_value(digit(n)) == n);
    } else {
        law_decimal_reads_back(n / 10);
    }
}

/// A number that is written is read as that number again, and what spells no number is read as
/// none.
pub proof fn law_written_number_is_read(n: u128, text: String, wide: String, given: Vec<char>, r: Option<usize>)
    requires
        call_ensures(dec_string, (n,), text),
        call_ensures(dec2_string, (n,), wide),
        call_ensures(parse_usize, (&given,), r),
    ensures
        value(text@) == n,
        value(wide@) == n,
        wide@.len() >= 2,
        given@ == text@ && n <= usize::MAX ==> r == Some(n as usize),
        given@ == text@ && n > usize::MAX ==> r is None,
        given@.len() == 0 ==> r is None,
        (exists|i: int| 0 <= i < given@.len() && i > 0 && !('0' <= #[trigger] given@[i] && given@[i] <= '9'))
            ==> r is None,
{
    law_decimal_reads_back(n as nat);
    law_two_digits(n as nat);
    let d = unsigned_digits(given@);
    if given@ == text@ {
        assert('0' <= given@[0]);
        assert(d == given@);
    }
    if exists|i: int| 0 <= i < given@.len() && i > 0 && !('0' <= #[trigger] given@[i] && given@[i] <= '9') {
        let i = choose|i: int|
            0 <= i < given@.len() && i > 0 && !('0' <= #[trigger] given@[i] && given@[i] <= '9');
        if given@[0] == '+' {
            assert(d[i - 1] == given@[i]);
            assert(!is_digit(d[i - 1]));
        } else {
            assert(d[i] == given@[i]);
            assert(!is_digit(d[i]));
        }
    }
}

} // verus!
