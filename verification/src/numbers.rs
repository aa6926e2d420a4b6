//! Integer parsing and formatting over character sequences, with the
//! semantics of std's `from_str_radix` and of the `{}` and `{:X}` formats.

use vstd::prelude::*;


verus! {

/// Why a text is not an integer of the requested type (the kinds of std's
/// `ParseIntError`).
#[derive(Debug, Clone, Copy, PartialEq, Eq, Structural)]
pub enum IntErrorKind {
    Empty,
    InvalidDigit,
    PosOverflow,
    NegOverflow,
}

impl IntErrorKind {
    /// The description std prints for this kind of error.
    pub open spec fn spec_message(self) -> Seq<char> {
        match self {
            IntErrorKind::Empty => "cannot parse integer from empty string"@,
            IntErrorKind::InvalidDigit => "invalid digit found in string"@,
            IntErrorKind::PosOverflow => "number too large to fit in target type"@,
            IntErrorKind::NegOverflow => "number too small to fit in target type"@,
        }
    }

    /// The description std prints for this kind of error.
    pub fn message(&self) -> (r: String)
        ensures
            r@ == self.spec_message(),
    {
        match self {
            IntErrorKind::Empty => String::from_str("cannot parse integer from empty string"),
            IntErrorKind::InvalidDigit => String::from_str("invalid digit found in string"),
            IntErrorKind::PosOverflow => String::from_str("number too large to fit in target type"),
            IntErrorKind::NegOverflow => String::from_str("number too small to fit in target type"),
        }
    }
}

/// The value of `c` as a digit in base `radix` (10 or 16), as `char::to_digit`
/// gives it.
pub open spec fn digit_value(c: char, radix: nat) -> Option<nat> {
    let v = c as u32;
    if 0x30 <= v <= 0x39 && v - 0x30 < radix {
        Some((v - 0x30) as nat)
    } else if 0x61 <= v <= 0x7a && v - 0x61 + 10 < radix {
        Some((v - 0x61 + 10) as nat)
    } else if 0x41 <= v <= 0x5a && v - 0x41 + 10 < radix {
        Some((v - 0x41 + 10) as nat)
    } else {
        None
    }
}

/// Reads the digits `ds` onto `acc`, from the most significant one, failing
/// on the first character that is no digit or on the first value out of
/// `lo..=hi`. Negative numbers subtract each digit.
pub open spec fn accumulate(
    ds: Seq<char>,
    radix: nat,
    acc: int,
    lo: int,
    hi: int,
    negative: bool,
) -> Result<int, IntErrorKind>
    decreases ds.len(),
{
    if ds.len() == 0 {
        Ok(acc)
    } else {
        match digit_value(ds[0], radix) {
            None => Err(IntErrorKind::InvalidDigit),
            Some(d) => {
                let a = if negative {
                    acc * radix - d
                } else {
                    acc * radix + d
                };
                if a > hi {
                    Err(IntErrorKind::PosOverflow)
                } else if a < lo {
                    Err(IntErrorKind::NegOverflow)
                } else {
                    accumulate(ds.drop_first(), radix, a, lo, hi, negative)
                }
            },
        }
    }
}

/// What `from_str_radix` gives for the text `s` and an integer type with the
/// range `lo..=hi`; only a signed type takes a leading `-`.
pub open spec fn parse_int_spec(s: Seq<char>, radix: nat, lo: int, hi: int, signed: bool) -> Result<
    int,
    IntErrorKind,
> {
    if s.len() == 0 {
        Err(IntErrorKind::Empty)
    } else if (s[0] == '+' || s[0] == '-') && s.len() == 1 {
        Err(IntErrorKind::InvalidDigit)
    } else if s[0] == '+' {
        accumulate(s.drop_first(), radix, 0, lo, hi, false)
    } else if s[0] == '-' && signed {
        accumulate(s.drop_first(), radix, 0, lo, hi, true)
    } else {
        accumulate(s, radix, 0, lo, hi, false)
    }
}

/// The digit value of `c` in base `radix`.
fn digit_of(c: char, radix: u32) -> (r: Option<u32>)
    requires
        radix == 10 || radix == 16,
    ensures
        r matches Some(d) ==> digit_value(c, radix as nat) == Some(d as nat) && d < radix,
        r is None ==> digit_value(c, radix as nat) is None,
{
    let v = c as u32;
    if 0x30 <= v && v <= 0x39 && v - 0x30 < radix {
        Some(v - 0x30)
    } else if 0x61 <= v && v <= 0x7a && v - 0x61 + 10 < radix {
        Some(v - 0x61 + 10)
    } else if 0x41 <= v && v <= 0x5a && v - 0x41 + 10 < radix {
        Some(v - 0x41 + 10)
    } else {
        None
    }
}

/// Parses `s` as an integer of the range `lo..=hi` in base `radix`, as
/// `from_str_radix` does.
pub fn parse_int(s: &Vec<char>, radix: u32, lo: i128, hi: i128, signed: bool) -> (r: Result<
    i128,
    IntErrorKind,
>)
    requires
        radix == 10 || radix == 16,
        -0x1_0000_0000_0000_0000 <= lo <= 0 <= hi <= 0x1_0000_0000_0000_0000,
    ensures
        r matches Ok(v) ==> parse_int_spec(s@, radix as nat, lo as int, hi as int, signed)
            == Ok::<int, IntErrorKind>(v as int),
        r matches Ok(v) ==> lo <= v <= hi,
        r matches Err(e) ==> parse_int_spec(s@, radix as nat, lo as int, hi as int, signed)
            == Err::<int, IntErrorKind>(e),
{
    let n = s.len();
    if n == 0 {
        return Err(IntErrorKind::Empty);
    }
    if (s[0] == '+' || s[0] == '-') && n == 1 {
        return Err(IntErrorKind::InvalidDigit);
    }
    let negative = s[0] == '-' && signed;
    let start: usize = if s[0] == '+' || negative {
        1
    } else {
        0
    };
    let ghost ds = s@.skip(start as int);
    assert(start == 1 ==> ds =~= s@.drop_first());
    assert(start == 0 ==> ds =~= s@);
    assert(parse_int_spec(s@, radix as nat, lo as int, hi as int, signed) == accumulate(
        ds,
        radix as nat,
        0,
        lo as int,
        hi as int,
        negative,
    ));
    let mut acc: i128 = 0;
    let mut i: usize = start;
    while i < n
        invariant
            n == s.len(),
            start <= i <= n,
            lo <= acc <= hi,
            -0x1_0000_0000_0000_0000 <= lo <= 0 <= hi <= 0x1_0000_0000_0000_0000,
            radix == 10 || radix == 16,
            accumulate(ds, radix as nat, 0, lo as int, hi as int, negative) == accumulate(
                s@.skip(i as int),
                radix as nat,
                acc as int,
                lo as int,
                hi as int,
                negative,
            ),
            ds == s@.skip(start as int),
            parse_int_spec(s@, radix as nat, lo as int, hi as int, signed) == accumulate(
                ds,
                radix as nat,
                0,
                lo as int,
                hi as int,
                negative,
            ),
        decreases n - i,
    {
        assert(s@.skip(i as int)[0] == s@[i as int]);
        assert(s@.skip(i as int).drop_first() =~= s@.skip(i + 1));
        match digit_of(s[i], radix) {
            None => {
                return Err(IntErrorKind::InvalidDigit);
            },
            Some(d) => {
                let a: i128 = if negative {
                    acc * (radix as i128) - (d as i128)
                } else {
                    acc * (radix as i128) + (d as i128)
                };
                if a > hi {
                    return Err(IntErrorKind::PosOverflow);
                }
                if a < lo {
                    return Err(IntErrorKind::NegOverflow);
                }
                acc = a;
            },
        }
        i = i + 1;
    }
    assert(s@.skip(n as int) =~= Seq::<char>::empty());
    Ok(acc)
}

/// The uppercase hexadecimal digit for `d < 16`.
pub open spec fn hex_char(d: nat) -> char {
    if d < 10 {
        (0x30 + d) as char
    } else {
        (0x41 + d - 10) as char
    }
}

/// The decimal digit for `d < 10`.
pub open spec fn dec_char(d: nat) -> char {
    (0x30 + d) as char
}

/// `n` written in uppercase hexadecimal without leading zeros (`{:X}`).
pub open spec fn hex_digits(n: nat) -> Seq<char>
    decreases n,
{
    if n < 16 {
        seq![hex_char(n)]
    } else {
        hex_digits(n / 16).push(hex_char(n % 16))
    }
}

/// `n` written in decimal without leading zeros (`{}`).
pub open spec fn dec_digits(n: nat) -> Seq<char>
    decreases n,
{
    if n < 10 {
        seq![dec_char(n)]
    } else {
        dec_digits(n / 10).push(dec_char(n % 10))
    }
}

fn hex_char_exec(d: u64) -> (c: char)
    requires
        d < 16,
    ensures
        c == hex_char(d as nat),
{
    if d < 10 {
        ((0x30 + d) as u8) as char
    } else {
        ((0x41 + d - 10) as u8) as char
    }
}

/// `n` in uppercase hexadecimal, as `format!("{:X}", n)` writes it.
pub fn format_hex(n: u64) -> (r: Vec<char>)
    ensures
        r@ == hex_digits(n as nat),
    decreases n,
{
    if n < 16 {
        let mut v: Vec<char> = Vec::new();
        v.push(hex_char_exec(n));
        assert(v@ =~= seq![hex_char(n as nat)]);
        v
    } else {
        let mut v = format_hex(n / 16);
        v.push(hex_char_exec(n % 16));
        v
    }
}

/// `n` in decimal, as `format!("{}", n)` writes it.
pub fn format_dec(n: u64) -> (r: Vec<char>)
    ensures
        r@ == dec_digits(n as nat),
    decreases n,
{
    if n < 10 {
        let mut v: Vec<char> = Vec::new();
        v.push(((0x30 + n) as u8) as char);
        assert(v@ =~= seq![dec_char(n as nat)]);
        v
    } else {
        let mut v = format_dec(n / 10);
        v.push(((0x30 + n % 10) as u8) as char);
        v
    }
}

/// Appending one more digit to the text: the value read so far is scaled
/// and the digit added.
proof fn lemma_accumulate_push(ds: Seq<char>, c: char, radix: nat, acc: int, hi: int)
    requires
        acc >= 0,
    ensures
        accumulate(ds.push(c), radix, acc, 0, hi, false) == (match accumulate(
            ds,
            radix,
            acc,
            0,
            hi,
            false,
        ) {
            Ok(a) => accumulate(seq![c], radix, a, 0, hi, false),
            Err(e) => Err(e),
        }),
    decreases ds.len(),
{
    if ds.len() == 0 {
        assert(ds.push(c) =~= seq![c]);
    } else {
        assert(ds.push(c)[0] == ds[0]);
        assert(ds.push(c).drop_first() =~= ds.drop_first().push(c));
        match digit_value(ds[0], radix) {
            None => {},
            Some(d) => {
                let a = acc * radix + d;
                assert(a >= 0) by (nonlinear_arith)
                    requires
                        acc >= 0,
                        radix >= 0,
                        d >= 0,
                        a == acc * radix + d,
                ;
                if a <= hi {
                    lemma_accumulate_push(ds.drop_first(), c, radix, a, hi);
                }
            },
        }
    }
}

/// Reading back the uppercase hexadecimal text of `n` gives `n`, for any
/// unsigned range that holds `n`.
pub proof fn lemma_hex_roundtrip(n: nat, hi: int)
    requires
        n <= hi,
    ensures
        parse_int_spec(hex_digits(n), 16, 0, hi, false) == Ok::<int, IntErrorKind>(n as int),
    decreases n,
{
    lemma_hex_digits_shape(n);
    if n < 16 {
        let ds = hex_digits(n);
        assert(ds.drop_first() =~= Seq::<char>::empty());
        assert(accumulate(Seq::<char>::empty(), 16, n as int, 0, hi, false) == Ok::<
            int,
            IntErrorKind,
        >(n as int));
    } else {
        lemma_hex_roundtrip(n / 16, hi);
        lemma_hex_digits_shape(n / 16);
        let c = hex_char(n % 16);
        let front = hex_digits(n / 16);
        assert(hex_digits(n) == front.push(c));
        lemma_accumulate_push(front, c, 16, 0, hi);
        assert(accumulate(front, 16, 0, 0, hi, false) == Ok::<int, IntErrorKind>((n / 16) as int));
        assert(seq![c].drop_first() =~= Seq::<char>::empty());
        assert((n / 16) * 16 + n % 16 == n) by (nonlinear_arith);
        assert(accumulate(Seq::<char>::empty(), 16, n as int, 0, hi, false) == Ok::<
            int,
            IntErrorKind,
        >(n as int));
        assert(seq![c][0] == c);
        assert(accumulate(seq![c], 16, (n / 16) as int, 0, hi, false) == Ok::<int, IntErrorKind>(
            n as int,
        ));
        assert(front.push(c)[0] == front[0]);
    }
}

/// A hexadecimal text starts with a digit and each of its characters has
/// its digit value.
proof fn lemma_hex_digits_shape(n: nat)
    ensures
        hex_digits(n).len() >= 1,
        hex_digits(n)[0] != '+' && hex_digits(n)[0] != '-',
        n < 16 ==> digit_value(hex_char(n), 16) == Some(n),
        digit_value(hex_char(n % 16), 16) == Some(n % 16),
    decreases n,
{
    if n >= 16 {
        lemma_hex_digits_shape(n / 16);
    }
}

} // verus!
