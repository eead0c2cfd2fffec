//! Unsigned integers in text: parsing as `str::parse` / `from_str_radix`
//! accept them, and rendering in decimal.
use vstd::prelude::*;

verus! {

/// The value of `c` as a digit in `radix` (as `char::to_digit` gives it).
pub open spec fn digit_value(c: char, radix: nat) -> Option<nat> {
    let v: int = if '0' <= c && c <= '9' {
        c as int - '0' as int
    } else if 'a' <= c && c <= 'z' {
        c as int - 'a' as int + 10
    } else if 'A' <= c && c <= 'Z' {
        c as int - 'A' as int + 10
    } else {
        radix as int
    };
    if v < radix {
        Some(v as nat)
    } else {
        None
    }
}

/// The value of a string of digits in `radix`; `None` when a character is
/// not a digit. The empty string has value 0.
pub open spec fn digits_value(d: Seq<char>, radix: nat) -> Option<nat>
    decreases d.len(),
{
    if d.len() == 0 {
        Some(0)
    } else {
        match (digits_value(d.drop_last(), radix), digit_value(d.last(), radix)) {
            (Some(v), Some(x)) => Some(v * radix + x),
            _ => None,
        }
    }
}

/// What `from_str_radix` (and `str::parse` in radix 10) gives for an
/// unsigned integer type whose largest value is `max`: an optional leading
/// `+`, then at least one digit; `None` on any other character or when the
/// value exceeds `max`.
pub open spec fn parse_unsigned(s: Seq<char>, radix: nat, max: nat) -> Option<nat> {
    let d = if s.len() > 0 && s[0] == '+' {
        s.drop_first()
    } else {
        s
    };
    if d.len() == 0 {
        None
    } else {
        match digits_value(d, radix) {
            Some(v) => if v <= max {
                Some(v)
            } else {
                None
            },
            None => None,
        }
    }
}

/// `u16` parsing of `s` in `radix`.
pub open spec fn parse_u16_spec(s: Seq<char>, radix: nat) -> Option<u16> {
    match parse_unsigned(s, radix, u16::MAX as nat) {
        Some(v) => Some(v as u16),
        None => None,
    }
}

/// `u32` parsing of `s` in radix 10.
pub open spec fn parse_u32_spec(s: Seq<char>) -> Option<u32> {
    match parse_unsigned(s, 10, u32::MAX as nat) {
        Some(v) => Some(v as u32),
        None => None,
    }
}

/// `u64` parsing of `s` in radix 10.
pub open spec fn parse_u64_spec(s: Seq<char>) -> Option<u64> {
    match parse_unsigned(s, 10, u64::MAX as nat) {
        Some(v) => Some(v as u64),
        None => None,
    }
}

proof fn lemma_prefix_invalid(d: Seq<char>, radix: nat, m: int)
    requires
        0 <= m <= d.len(),
        digits_value(d.take(m), radix) is None,
    ensures
        digits_value(d, radix) is None,
    decreases d.len(),
{
    if m < d.len() {
        assert(d.drop_last().take(m) =~= d.take(m));
        lemma_prefix_invalid(d.drop_last(), radix, m);
    } else {
        assert(d.take(m) =~= d);
    }
}

proof fn lemma_prefix_smaller(d: Seq<char>, radix: nat, m: int)
    requires
        0 <= m <= d.len(),
        radix >= 1,
        digits_value(d.take(m), radix) is Some,
        digits_value(d, radix) is Some,
    ensures
        digits_value(d.take(m), radix).unwrap() <= digits_value(d, radix).unwrap(),
    decreases d.len(),
{
    if m < d.len() {
        assert(d.drop_last().take(m) =~= d.take(m));
        lemma_prefix_smaller(d.drop_last(), radix, m);
        let a = digits_value(d.drop_last(), radix).unwrap();
        let x = digit_value(d.last(), radix).unwrap();
        assert(a * radix + x >= a) by (nonlinear_arith)
            requires
                radix >= 1,
        ;
    } else {
        assert(d.take(m) =~= d);
    }
}

fn digit_of(c: char, radix: u32) -> (r: Option<u32>)
    requires
        2 <= radix <= 36,
    ensures
        match r {
            Some(v) => digit_value(c, radix as nat) == Some(v as nat),
            None => digit_value(c, radix as nat) is None,
        },
{
    let v: u32 = if '0' <= c && c <= '9' {
        (c as u32) - ('0' as u32)
    } else if 'a' <= c && c <= 'z' {
        (c as u32) - ('a' as u32) + 10
    } else if 'A' <= c && c <= 'Z' {
        (c as u32) - ('A' as u32) + 10
    } else {
        radix
    };
    if v < radix {
        Some(v)
    } else {
        None
    }
}

/// Parses an unsigned integer in `radix` with largest accepted value `max`.
pub fn parse_radix(s: &Vec<char>, radix: u32, max: u64) -> (r: Option<u64>)
    requires
        2 <= radix <= 36,
    ensures
        match r {
            Some(v) => parse_unsigned(s@, radix as nat, max as nat) == Some(v as nat),
            None => parse_unsigned(s@, radix as nat, max as nat) is None,
        },
{
    let start: usize = if s.len() > 0 && s[0] == '+' {
        1
    } else {
        0
    };
    let ghost d = if s@.len() > 0 && s@[0] == '+' {
        s@.drop_first()
    } else {
        s@
    };
    assert(d =~= s@.subrange(start as int, s@.len() as int));
    if start == s.len() {
        return None;
    }
    let mut acc: u128 = 0;
    let mut k = start;
    assert(d.take(0) =~= Seq::<char>::empty());
    while k < s.len()
        invariant
            start <= k <= s.len(),
            d == s@.subrange(start as int, s@.len() as int),
            2 <= radix <= 36,
            d == (if s@.len() > 0 && s@[0] == '+' {
                s@.drop_first()
            } else {
                s@
            }),
            d.len() > 0,
            digits_value(d.take(k - start), radix as nat) == Some(acc as nat),
            acc <= max,
        decreases s.len() - k,
    {
        let ghost pre = d.take(k - start);
        let ghost next = d.take(k + 1 - start);
        assert(next.drop_last() =~= pre);
        assert(next.last() == s@[k as int]);
        match digit_of(s[k], radix) {
            None => {
                proof {
                    lemma_prefix_invalid(d, radix as nat, k + 1 - start);
                }
                return None;
            },
            Some(x) => {
                assert(acc * (radix as u128) + (x as u128) <= (u64::MAX as u128) * 36 + 36)
                    by (nonlinear_arith)
                    requires
                        acc <= u64::MAX,
                        radix <= 36,
                        x < 36,
                ;
                acc = acc * (radix as u128) + (x as u128);
                if acc > max as u128 {
                    proof {
                        if digits_value(d, radix as nat) is Some {
                            lemma_prefix_smaller(d, radix as nat, k + 1 - start);
                        }
                    }
                    return None;
                }
                k = k + 1;
            },
        }
    }
    assert(d.take(k - start) =~= d);
    Some(acc as u64)
}

/// `s.parse::<u16>()`, as an option.
pub fn parse_u16(s: &Vec<char>) -> (r: Option<u16>)
    ensures
        r == parse_u16_spec(s@, 10),
{
    match parse_radix(s, 10, 0xffff) {
        Some(v) => Some(v as u16),
        None => None,
    }
}

/// `u16::from_str_radix(s, 16)`, as an option.
pub fn parse_hex_u16(s: &Vec<char>) -> (r: Option<u16>)
    ensures
        r == parse_u16_spec(s@, 16),
{
    match parse_radix(s, 16, 0xffff) {
        Some(v) => Some(v as u16),
        None => None,
    }
}

/// `s.parse::<u32>()`, as an option.
pub fn parse_u32(s: &Vec<char>) -> (r: Option<u32>)
    ensures
        r == parse_u32_spec(s@),
{
    match parse_radix(s, 10, 0xffff_ffff) {
        Some(v) => Some(v as u32),
        None => None,
    }
}

/// `s.parse::<u64>()`, as an option.
pub fn parse_u64(s: &Vec<char>) -> (r: Option<u64>)
    ensures
        r == parse_u64_spec(s@),
{
    parse_radix(s, 10, 0xffff_ffff_ffff_ffff)
}

/// The decimal digit for `d < 10`.
pub open spec fn digit_char(d: nat) -> char {
    (48 + d) as char
}

/// The decimal representation of `n`, without leading zeros.
pub open spec fn decimal(n: nat) -> Seq<char>
    decreases n,
{
    if n < 10 {
        seq![digit_char(n)]
    } else {
        decimal(n / 10) + seq![digit_char(n % 10)]
    }
}

/// Reading back the decimal representation of `n` gives `n`.
pub proof fn lemma_decimal_digits(n: nat)
    ensures
        digits_value(decimal(n), 10) == Some(n),
        decimal(n).len() > 0,
        decimal(n)[0] != '+',
    decreases n,
{
    let c = digit_char(n % 10);
    assert(c as int == 48 + n % 10);
    assert(digit_value(c, 10) == Some(n % 10));
    assert(decimal(n).last() == c);
    if n < 10 {
        assert(decimal(n).drop_last() =~= Seq::<char>::empty());
        assert(digits_value(Seq::<char>::empty(), 10) == Some(0nat));
    } else {
        lemma_decimal_digits(n / 10);
        assert(decimal(n).drop_last() =~= decimal(n / 10));
        assert((n / 10) * 10 + n % 10 == n);
    }
}

/// Any `u16` read back from its decimal representation is itself.
pub proof fn lemma_parse_decimal_u16(n: u16)
    ensures
        parse_u16_spec(decimal(n as nat), 10) == Some(n),
{
    lemma_decimal_digits(n as nat);
}

fn digit_str(d: u16) -> (r: &'static str)
    requires
        d < 10,
    ensures
        r@ == seq![digit_char(d as nat)],
{
    proof {
        reveal_strlit("0");
        reveal_strlit("1");
        reveal_strlit("2");
        reveal_strlit("3");
        reveal_strlit("4");
        reveal_strlit("5");
        reveal_strlit("6");
        reveal_strlit("7");
        reveal_strlit("8");
        reveal_strlit("9");
    }
    let r = if d == 0 {
        "0"
    } else if d == 1 {
        "1"
    } else if d == 2 {
        "2"
    } else if d == 3 {
        "3"
    } else if d == 4 {
        "4"
    } else if d == 5 {
        "5"
    } else if d == 6 {
        "6"
    } else if d == 7 {
        "7"
    } else if d == 8 {
        "8"
    } else {
        "9"
    };
    assert(r@ =~= seq![digit_char(d as nat)]);
    r
}

/// Appends the decimal representation of `n` to `s`.
pub fn push_decimal(s: &mut String, n: u16)
    ensures
        final(s)@ == old(s)@ + decimal(n as nat),
    decreases n,
{
    if n < 10 {
        s.append(digit_str(n));
    } else {
        push_decimal(s, n / 10);
        s.append(digit_str(n % 10));
        assert(final(s)@ =~= old(s)@ + decimal(n as nat));
    }
}

} // verus!
