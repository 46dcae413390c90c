//! Numbers written in decimal, and byte strings held against literals.

use crate::buf;
use vstd::prelude::*;
use vstd::string::*;
use vstd::utf8::*;

verus! {

/// The character of the digit `d`.
pub open spec fn digit(d: nat) -> char {
    (0x30 + d) as char
}

/// `n` written in decimal without leading zeros.
pub open spec fn digits(n: nat) -> Seq<char>
    decreases n,
{
    if n < 10 {
        seq![digit(n)]
    } else {
        digits(n / 10).push(digit(n % 10))
    }
}

fn digit_str(d: u64) -> (s: &'static str)
    requires
        d < 10,
    ensures
        s@ == seq![digit(d as nat)],
{
    proof {
        reveal_strlit("0");
        reveal_strlit("1");
        reveal_strlit("2");
        reveal_strlit("3");
        reveal_strlit("4");
        reveal_strlit("5");
        reveal_strlit("6");
        reveal_strlit("7");
        reveal_strlit("8");
        reveal_strlit("9");
    }
    let s = if d == 0 {
        "0"
    } else if d == 1 {
        "1"
    } else if d == 2 {
        "2"
    } else if d == 3 {
        "3"
    } else if d == 4 {
        "4"
    } else if d == 5 {
        "5"
    } else if d == 6 {
        "6"
    } else if d == 7 {
        "7"
    } else if d == 8 {
        "8"
    } else {
        "9"
    };
    assert(s@ =~= seq![digit(d as nat)]);
    s
}

/// Writes `n` in decimal.
pub fn decimal(n: u64) -> (s: String)
    ensures
        s@ == digits(n as nat),
    decreases n,
{
    if n < 10 {
        digit_str(n).to_owned()
    } else {
        let s = decimal(n / 10).concat(digit_str(n % 10));
        assert(s@ =~= digits(n as nat));
        s
    }
}

/// Whether `b` is an ASCII digit.
pub open spec fn is_digit(b: u8) -> bool {
    0x30 <= b <= 0x39
}

/// The number that a run of ASCII digits stands for.
pub open spec fn value(d: Seq<u8>) -> nat
    decreases d.len(),
{
    if d.len() == 0 {
        0
    } else {
        value(d.drop_last()) * 10 + (d.last() - 0x30) as nat
    }
}

/// The digits of a number that may be written with a plus sign in front.
pub open spec fn unsigned_part(s: Seq<u8>) -> Seq<u8> {
    if s.len() > 0 && s[0] == 0x2b {
        s.skip(1)
    } else {
        s
    }
}

/// The number that a byte string spells: an optional plus sign and at least one
/// digit. `None` where it spells none.
pub open spec fn number(s: Seq<u8>) -> Option<nat> {
    let d = unsigned_part(s);
    if d.len() > 0 && forall|i: int| 0 <= i < d.len() ==> is_digit(d[i]) {
        Some(value(d))
    } else {
        None
    }
}

/// The number that `s` spells, where it is at most `max`.
pub open spec fn bounded_number(s: Seq<u8>, max: nat) -> Option<nat> {
    match number(s) {
        Some(n) => if n <= max {
            Some(n)
        } else {
            None
        },
        None => None,
    }
}

/// The number that `s` spells, unless it spells none or one beyond `max`.
fn parse_bounded(s: &[u8], max: u64) -> (r: Option<u64>)
    ensures
        match r {
            Some(n) => bounded_number(s@, max as nat) == Some(n as nat),
            None => bounded_number(s@, max as nat) is None,
        },
{
    let start: usize = if s.len() > 0 && s[0] == 0x2b {
        1
    } else {
        0
    };
    let ghost d = unsigned_part(s@);
    if start == s.len() {
        return None;
    }
    let mut acc: u64 = 0;
    let mut over: bool = false;
    let mut i: usize = start;
    while i < s.len()
        invariant
            start <= i <= s@.len(),
            start <= 1,
            d == s@.skip(start as int),
            d == unsigned_part(s@),
            forall|j: int| 0 <= j < i - start ==> is_digit(d[j]),
            !over ==> acc == value(d.take(i - start)) && acc <= max,
            over ==> value(d.take(i - start)) > max,
        decreases s@.len() - i,
    {
        let b: u8 = s[i];
        assert(d[i - start] == b);
        if b < 0x30 || b > 0x39 {
            return None;
        }
        proof {
            assert(d.take(i - start + 1).drop_last() =~= d.take(i - start));
            assert(value(d.take(i - start + 1)) == value(d.take(i - start)) * 10 + (b - 0x30));
        }
        if !over {
            let wide: u128 = (acc as u128) * 10 + ((b - 0x30) as u128);
            if wide > max as u128 {
                over = true;
            } else {
                acc = wide as u64;
            }
        }
        i = i + 1;
    }
    assert(d.take(i - start) =~= d);
    if over {
        None
    } else {
        Some(acc)
    }
}

/// Reads a `u64` in decimal.
pub fn parse_u64(s: &[u8]) -> (r: Option<u64>)
    ensures
        match r {
            Some(n) => bounded_number(s@, u64::MAX as nat) == Some(n as nat),
            None => bounded_number(s@, u64::MAX as nat) is None,
        },
{
    parse_bounded(s, u64::MAX)
}

/// Reads a `u16` in decimal.
pub fn parse_u16(s: &[u8]) -> (r: Option<u16>)
    ensures
        match r {
            Some(n) => bounded_number(s@, u16::MAX as nat) == Some(n as nat),
            None => bounded_number(s@, u16::MAX as nat) is None,
        },
{
    match parse_bounded(s, 0xffff) {
        Some(n) => Some(n as u16),
        None => None,
    }
}

/// Whether `s` consists of the bytes of `literal`.
pub fn is_text(s: &[u8], literal: &str) -> (r: bool)
    ensures
        r == (s@ == literal.spec_bytes()),
{
    buf::same_bytes(s, literal.as_bytes())
}

proof fn lemma_digits_are_digits(n: nat)
    ensures
        digits(n).len() > 0,
        forall|i: int| 0 <= i < digits(n).len() ==> '0' <= #[trigger] digits(n)[i] <= '9',
    decreases n,
{
    if n >= 10 {
        lemma_digits_are_digits(n / 10);
    }
}

proof fn lemma_digits_value(n: nat)
    ensures
        value(digits(n).map_values(|c: char| c as u8)) == n,
    decreases n,
{
    let f = |c: char| c as u8;
    let d = digits(n).map_values(f);
    if n < 10 {
        assert(d.drop_last() =~= Seq::empty());
        assert(value(d.drop_last()) == 0);
        assert(d.last() == (0x30 + n) as char as u8);
    } else {
        lemma_digits_value(n / 10);
        assert(d.drop_last() =~= digits(n / 10).map_values(f));
        assert(d.last() == (0x30 + n % 10) as char as u8);
    }
}

/// A number that was written in decimal reads back.
pub proof fn lemma_decimal_reads_back(n: nat, max: nat)
    requires
        n <= max,
    ensures
        bounded_number(encode_utf8(digits(n)), max) == Some(n),
{
    let c = digits(n);
    let d = encode_utf8(c);
    lemma_digits_are_digits(n);
    lemma_digits_value(n);
    assert(is_ascii_chars(c));
    is_ascii_chars_encode_utf8(c);
    assert(d =~= c.map_values(|c: char| c as u8));
    assert(forall|i: int| 0 <= i < d.len() ==> is_digit(d[i]));
    assert(unsigned_part(d) =~= d);
}

/// A number is a row of digits, at least one, perhaps behind a plus sign: each further digit
/// makes ten times as much of what stands before it. Anything else is none.
pub proof fn lemma_numbers_are_decimal(s: Seq<u8>, b: u8, i: int)
    ensures
        number(Seq::empty()) is None,
        s.len() > 0 && (forall|j: int| 0 <= j < s.len() ==> is_digit(#[trigger] s[j])) && is_digit(b)
            ==> (number(s) matches Some(n) && number(s.push(b)) == Some(
            n * 10 + (b - 0x30) as nat,
        ) && number(seq![0x2bu8] + s) == Some(n)),
        is_digit(b) ==> number(seq![b]) == Some((b - 0x30) as nat),
        0 < i < s.len() && !is_digit(s[i]) ==> number(s) is None,
        s.len() > 0 && !is_digit(s[0]) && s[0] != 0x2b ==> number(s) is None,
{
    reveal_with_fuel(value, 2);
    if s.len() > 0 && (forall|j: int| 0 <= j < s.len() ==> is_digit(#[trigger] s[j])) && is_digit(
        b,
    ) {
        assert(is_digit(s[0]));
        assert(unsigned_part(s) == s);
        assert(unsigned_part(s.push(b)) == s.push(b));
        assert(s.push(b).drop_last() =~= s);
        assert((seq![0x2bu8] + s).skip(1) =~= s);
        assert forall|j: int| 0 <= j < s.push(b).len() implies is_digit(#[trigger] s.push(b)[j]) by {
            if j < s.len() {
                assert(s.push(b)[j] == s[j]);
            }
        }
    }
    if is_digit(b) {
        assert(unsigned_part(seq![b]) == seq![b]);
        assert(seq![b].drop_last() =~= Seq::empty());
    }
    if 0 < i < s.len() && !is_digit(s[i]) {
        if s[0] == 0x2b {
            assert(unsigned_part(s)[i - 1] == s[i]);
        } else {
            assert(unsigned_part(s)[i] == s[i]);
        }
    }
}

} // verus!
