use vstd::prelude::*;
use vstd::string::{StrSliceExecFns, StringExecFns};

verus! {

/// The ASCII character of a decimal digit.
pub open spec fn digit_char(d: nat) -> char {
    seq!['0', '1', '2', '3', '4', '5', '6', '7', '8', '9'][d as int]
}

/// The decimal digits of a natural number, most significant first.
pub open spec fn digits_of(n: nat) -> Seq<char>
    decreases n,
{
    if n < 10 {
        seq![digit_char(n)]
    } else {
        digits_of(n / 10).push(digit_char(n % 10))
    }
}

/// The decimal text of an integer, with a leading `-` when negative.
pub open spec fn decimal_text(v: int) -> Seq<char> {
    if v < 0 {
        seq!['-'] + digits_of((-v) as nat)
    } else {
        digits_of(v as nat)
    }
}

/// The lower-case hexadecimal character of a nibble.
pub open spec fn hex_char(d: nat) -> char {
    seq!['0', '1', '2', '3', '4', '5', '6', '7', '8', '9', 'a', 'b', 'c', 'd', 'e', 'f'][d as int]
}

/// The decimal digits of `n`.
fn digits_text(n: u64) -> (r: String)
    ensures
        r@ == digits_of(n as nat),
    decreases n,
{
    let digits = "0123456789";
    proof {
        reveal_strlit("0123456789");
    }
    let d = (n % 10) as usize;
    let last = digits.substring_ascii(d, d + 1);
    proof {
        assert(last@ =~= seq![digit_char((n % 10) as nat)]);
    }
    if n < 10 {
        String::from_str(last)
    } else {
        let mut s = digits_text(n / 10);
        s.append(last);
        proof {
            assert(s@ =~= digits_of(n as nat));
        }
        s
    }
}

/// The decimal text of `v`, with a leading `-` when negative.
pub fn i32_text(v: i32) -> (r: String)
    ensures
        r@ == decimal_text(v as int),
{
    if v < 0 {
        proof {
            reveal_strlit("-");
        }
        let mut s = String::from_str("-");
        let magnitude = (0i64 - v as i64) as u64;
        s.append(digits_text(magnitude).as_str());
        proof {
            assert(s@ =~= decimal_text(v as int));
        }
        s
    } else {
        digits_text(v as u64)
    }
}

/// Two lower-case hexadecimal digits of a byte.
pub fn hex_byte(b: u8) -> (r: String)
    ensures
        r@ == seq![hex_char((b / 16) as nat), hex_char((b % 16) as nat)],
{
    let digits = "0123456789abcdef";
    proof {
        reveal_strlit("0123456789abcdef");
    }
    let hi = digits.substring_ascii((b / 16) as usize, (b / 16) as usize + 1);
    let lo = digits.substring_ascii((b % 16) as usize, (b % 16) as usize + 1);
    let mut r = String::from_str(hi);
    r.append(lo);
    proof {
        assert(r@ =~= seq![hex_char((b / 16) as nat), hex_char((b % 16) as nat)]);
    }
    r
}

/// `n` divided by one of the bases 2, 8, 10 and 16 (any other counts as 2).
pub open spec fn div_base(n: nat, base: nat) -> nat {
    if base == 16 {
        n / 16
    } else if base == 10 {
        n / 10
    } else if base == 8 {
        n / 8
    } else {
        n / 2
    }
}

pub open spec fn is_radix(base: nat) -> bool {
    base == 2 || base == 8 || base == 10 || base == 16
}

/// The digits of `n` in base `base` (2, 8, 10 or 16), most significant
/// first, lower-case beyond nine.
pub open spec fn radix_digits(n: nat, base: nat) -> Seq<char>
    decreases n,
{
    if base < 2 || n < base {
        seq![hex_char(n % 16)]
    } else {
        radix_digits(div_base(n, base), base).push(hex_char(n % base))
    }
}

/// `s` left-padded with `fill` to at least `width` characters.
pub open spec fn pad_left(s: Seq<char>, width: nat, fill: char) -> Seq<char> {
    if s.len() < width {
        Seq::new((width - s.len()) as nat, |i: int| fill) + s
    } else {
        s
    }
}

/// The digits of `n` in base `base`.
pub fn radix_text(n: u32, base: u32) -> (r: String)
    requires
        is_radix(base as nat),
    ensures
        r@ == radix_digits(n as nat, base as nat),
    decreases n,
{
    let digits = "0123456789abcdef";
    proof {
        reveal_strlit("0123456789abcdef");
    }
    let d = (n % base) as usize;
    let last = digits.substring_ascii(d, d + 1);
    proof {
        assert(last@ =~= seq![hex_char((n % base) as nat)]);
    }
    if n < base {
        proof {
            assert(n % base == n % 16);
        }
        String::from_str(last)
    } else {
        let mut s = radix_text(n / base, base);
        proof {
            assert((n / base) as nat == div_base(n as nat, base as nat));
        }
        s.append(last);
        proof {
            assert(s@ =~= radix_digits(n as nat, base as nat));
        }
        s
    }
}

/// `s` left-padded with `fill`, a single character, to at least `width`.
pub fn pad_text(s: &String, width: usize, fill: &str) -> (r: String)
    requires
        fill@.len() == 1,
    ensures
        r@ == pad_left(s@, width as nat, fill@[0]),
{
    let n = s.as_str().unicode_len();
    let mut r = String::new();
    let mut i: usize = n;
    while i < width
        invariant
            n == s@.len(),
            n <= i,
            i <= width || n >= width,
            n >= width ==> i == n,
            fill@.len() == 1,
            r@ == Seq::new((i - n) as nat, |k: int| fill@[0]),
        decreases width - i,
    {
        r.append(fill);
        proof {
            assert(r@ =~= Seq::new((i + 1 - n) as nat, |k: int| fill@[0]));
        }
        i = i + 1;
    }
    let ghost pre = r@;
    r.append(s.as_str());
    proof {
        if n < width {
            assert(r@ =~= pad_left(s@, width as nat, fill@[0]));
        } else {
            assert(pre =~= Seq::<char>::empty());
            assert(r@ =~= s@);
        }
    }
    r
}

} // verus!
