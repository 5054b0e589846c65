//! Text helpers: decimal rendering of numbers and the `#RRGGBB` colour format check.
use vstd::prelude::*;
use vstd::utf8::*;

verus! {

/// The character of the decimal digit `d`.
pub open spec fn digit_char(d: int) -> char {
    ('0' as int + d) as char
}

/// The decimal text of a number: its digits, most significant first, with no
/// sign, padding or leading zero (`0` for zero).
pub open spec fn decimal(n: u128) -> Seq<char>
    decreases n,
{
    if n < 10 {
        seq![digit_char(n as int)]
    } else {
        decimal(n / 10).push(digit_char((n % 10) as int))
    }
}

/// A digit's character stands for the digit.
proof fn lemma_digit_char(d: int)
    requires
        0 <= d < 10,
    ensures
        digit_char(d) as int == 48 + d,
{
    assert(('0' as int) == 48);
}

/// Whether a character is a decimal digit.
pub open spec fn is_digit(c: char) -> bool {
    48 <= c as int <= 57
}

/// The decimal text of a number holds at least one character, all digits.
pub proof fn lemma_decimal_digits(n: u128)
    ensures
        decimal(n).len() >= 1,
        forall|i: int| 0 <= i < decimal(n).len() ==> is_digit(#[trigger] decimal(n)[i]),
    decreases n,
{
    if n < 10 {
        lemma_digit_char(n as int);
    } else {
        lemma_decimal_digits(n / 10);
        lemma_digit_char((n % 10) as int);
        let t = decimal(n / 10);
        assert forall|i: int| 0 <= i < decimal(n).len() implies is_digit(#[trigger] decimal(n)[i]) by {
            if i < t.len() {
                assert(decimal(n)[i] == t[i]);
            }
        }
    }
}

/// Distinct numbers have distinct decimal texts.
pub proof fn lemma_decimal_injective(a: u128, b: u128)
    requires
        decimal(a) == decimal(b),
    ensures
        a == b,
    decreases a,
{
    lemma_decimal_digits(a);
    lemma_decimal_digits(b);
    if a < 10 && b < 10 {
        lemma_digit_char(a as int);
        lemma_digit_char(b as int);
        assert(decimal(a)[0] == digit_char(a as int));
        assert(decimal(b)[0] == digit_char(b as int));
    } else if a < 10 {
        lemma_decimal_digits(b / 10);
        assert(decimal(b).len() == decimal(b / 10).len() + 1);
    } else if b < 10 {
        lemma_decimal_digits(a / 10);
        assert(decimal(a).len() == decimal(a / 10).len() + 1);
    } else {
        let la = decimal(a).len() - 1;
        assert(decimal(a)[la] == digit_char((a % 10) as int));
        assert(decimal(b)[la] == digit_char((b % 10) as int));
        lemma_digit_char((a % 10) as int);
        lemma_digit_char((b % 10) as int);
        assert(decimal(a).drop_last() == decimal(a / 10));
        assert(decimal(b).drop_last() == decimal(b / 10));
        lemma_decimal_injective(a / 10, b / 10);
    }
}

/// The one-character text of the decimal digit `d`.
fn digit_text(d: u128) -> (t: &'static str)
    requires
        d < 10,
    ensures
        t@ == seq![digit_char(d as int)],
{
    proof {
        assert(('0' as int) == 48);
    }
    if d == 0 {
        proof { reveal_strlit("0"); }
        assert("0"@ =~= seq![digit_char(0)]);
        "0"
    } else if d == 1 {
        proof { reveal_strlit("1"); }
        assert("1"@ =~= seq![digit_char(1)]);
        "1"
    } else if d == 2 {
        proof { reveal_strlit("2"); }
        assert("2"@ =~= seq![digit_char(2)]);
        "2"
    } else if d == 3 {
        proof { reveal_strlit("3"); }
        assert("3"@ =~= seq![digit_char(3)]);
        "3"
    } else if d == 4 {
        proof { reveal_strlit("4"); }
        assert("4"@ =~= seq![digit_char(4)]);
        "4"
    } else if d == 5 {
        proof { reveal_strlit("5"); }
        assert("5"@ =~= seq![digit_char(5)]);
        "5"
    } else if d == 6 {
        proof { reveal_strlit("6"); }
        assert("6"@ =~= seq![digit_char(6)]);
        "6"
    } else if d == 7 {
        proof { reveal_strlit("7"); }
        assert("7"@ =~= seq![digit_char(7)]);
        "7"
    } else if d == 8 {
        proof { reveal_strlit("8"); }
        assert("8"@ =~= seq![digit_char(8)]);
        "8"
    } else {
        proof { reveal_strlit("9"); }
        assert("9"@ =~= seq![digit_char(9)]);
        "9"
    }
}

/// Renders a number in decimal.
pub fn decimal_text(n: u128) -> (s: String)
    ensures
        s@ == decimal(n),
{
    let mut rest: u128 = n;
    let mut s = "".to_owned();
    proof {
        reveal_strlit("");
        assert(decimal(n) =~= decimal(rest) + s@);
    }
    loop
        invariant
            decimal(n) == decimal(rest) + s@,
        decreases rest,
    {
        let d = digit_text(rest % 10);
        let t = concat(d, s.as_str());
        if rest < 10 {
            assert(decimal(n) =~= t@);
            return t;
        }
        proof {
            assert(decimal(rest) == decimal(rest / 10).push(digit_char((rest % 10) as int)));
            assert(decimal(n) =~= decimal(rest / 10) + t@);
        }
        s = t;
        rest = rest / 10;
    }
}

/// Concatenation of two texts.
pub fn concat(a: &str, b: &str) -> (s: String)
    ensures
        s@ == a@ + b@,
{
    let mut s = a.to_owned();
    s.append(b);
    s
}

/// Whether a text is written as `#` followed by six more bytes: its UTF-8
/// encoding is seven bytes long and its first character is `#`.
pub open spec fn is_hex_color_format(s: Seq<char>) -> bool {
    &&& s.len() > 0
    &&& s[0] == '#'
    &&& encode_utf8(s).len() == 7
}

proof fn lemma_first_byte_is_hash(s: Seq<char>)
    requires
        s.len() > 0,
    ensures
        (encode_utf8(s)[0] == 0x23u8) == (s[0] == '#'),
{
    let c = #[verifier::truncate] (s[0] as u32);
    char_is_scalar(s[0]);
    let first = encode_scalar(c);
    assert(encode_utf8(s) == first + encode_utf8(s.drop_first()));
    assert(first.len() > 0);
    assert(encode_utf8(s)[0] == first[0]);
    assert(('#' as u32) == 0x23u32);
    assert((s[0] == '#') ==> (c == 0x23u32));
    char_u32_cast(s[0], c);
    char_u32_cast('#', 0x23u32);
    assert((c == 0x23u32) ==> (s[0] == '#'));
    if has_width_1_encoding(c) {
        assert(first[0] == leading_byte_width_1(c));
        assert(((c & 0x7F) as u8 == 0x23u8) == (c == 0x23u32)) by (bit_vector)
            requires
                c <= 0x7F,
        ;
    } else if has_width_2_encoding(c) {
        assert(first[0] == leading_byte_width_2(c));
        assert((0xC0u8 | ((c >> 6) & 0x1F) as u8) != 0x23u8) by (bit_vector);
    } else if has_width_3_encoding(c) {
        assert(first[0] == leading_byte_width_3(c));
        assert((0xE0u8 | ((c >> 12) & 0x0F) as u8) != 0x23u8) by (bit_vector);
    } else {
        assert(first[0] == leading_byte_width_4(c));
        assert((0xF0u8 | ((c >> 18) & 0x7) as u8) != 0x23u8) by (bit_vector);
    }
}

/// Whether `color` starts with `#` and is seven bytes long.
pub fn is_hex_color(color: &str) -> (b: bool)
    ensures
        b == is_hex_color_format(color@),
{
    let bytes = color.as_bytes();
    if bytes.len() != 7 {
        return false;
    }
    proof {
        if color@.len() == 0 {
            assert(encode_utf8(color@).len() == 0);
        }
        lemma_first_byte_is_hash(color@);
    }
    bytes[0] == 0x23u8
}

} // verus!
