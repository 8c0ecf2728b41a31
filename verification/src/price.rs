//! Prices as decimal numerals.
//!
//! The feed hands prices over as text. A [`Price`] is such a text that has
//! been checked to be a plain decimal numeral; its view is the number that
//! the numeral denotes.

use vstd::prelude::*;
use vstd::string::*;

verus! {

/// The bytes of the characters that a numeral is made of.
const PLUS: u8 = 43;

const MINUS: u8 = 45;

const POINT: u8 = 46;

const ZERO: u8 = 48;

const NINE: u8 = 57;

/// The number a decimal numeral denotes: `mantissa / 10^scale`, negated
/// where `negative` is set.
pub ghost struct Decimal {
    pub negative: bool,
    pub mantissa: nat,
    pub scale: nat,
}

pub open spec fn is_digit(c: char) -> bool {
    '0' <= c <= '9'
}

pub open spec fn is_sign(c: char) -> bool {
    c == '+' || c == '-'
}

/// The numeral without its leading sign, if it has one.
pub open spec fn unsigned_part(s: Seq<char>) -> Seq<char> {
    if s.len() > 0 && is_sign(s[0]) {
        s.drop_first()
    } else {
        s
    }
}

/// A decimal numeral: an optional sign, then digits with at most one
/// decimal point among them, and at least one digit.
pub open spec fn is_decimal(s: Seq<char>) -> bool {
    let b = unsigned_part(s);
    &&& forall|i: int| 0 <= i < b.len() ==> is_digit(#[trigger] b[i]) || b[i] == '.'
    &&& forall|i: int, j: int|
        #![trigger b[i], b[j]]
        0 <= i < j < b.len() ==> !(b[i] == '.' && b[j] == '.')
    &&& exists|i: int| 0 <= i < b.len() && is_digit(#[trigger] b[i])
}

/// The value of the digits of `s`, read as one base-ten number; any other
/// character is passed over.
pub open spec fn digits_value(s: Seq<char>) -> nat
    decreases s.len(),
{
    if s.len() == 0 {
        0
    } else if is_digit(s.last()) {
        (digits_value(s.drop_last()) * 10 + (s.last() as int - '0' as int)) as nat
    } else {
        digits_value(s.drop_last())
    }
}

/// How many digits follow the decimal point.
pub open spec fn fraction_len(s: Seq<char>) -> nat {
    let b = unsigned_part(s);
    if b.contains('.') {
        (b.len() - 1 - b.index_of('.')) as nat
    } else {
        0
    }
}

/// The number that the decimal numeral `s` denotes.
pub open spec fn decimal_of(s: Seq<char>) -> Decimal {
    Decimal {
        negative: s.len() > 0 && s[0] == '-',
        mantissa: digits_value(unsigned_part(s)),
        scale: fraction_len(s),
    }
}

/// A price: a decimal numeral, kept as the text it was read from.
#[derive(Debug)]
pub struct Price {
    text: String,
}

impl View for Price {
    type V = Decimal;

    open spec fn view(&self) -> Decimal {
        decimal_of(self.text())
    }
}

impl Price {
    /// The numeral as written.
    pub closed spec fn text(&self) -> Seq<char> {
        self.text@
    }

    #[verifier::type_invariant]
    spec fn well_formed(&self) -> bool {
        is_decimal(self.text@)
    }

    /// The numeral as written.
    pub fn as_str(&self) -> (s: &str)
        ensures
            s@ == self.text(),
            is_decimal(s@),
    {
        proof {
            use_type_invariant(self);
        }
        self.text.as_str()
    }

    /// A copy of this price.
    pub fn duplicate(&self) -> (p: Price)
        ensures
            p.text() == self.text(),
    {
        proof {
            use_type_invariant(self);
        }
        Price { text: self.text.clone() }
    }
}

/// The price text that stands in for a price the feed left out.
pub fn get_default_price() -> (s: String)
    ensures
        s@ == "0.00"@,
{
    "0.00".to_owned()
}

/// The default price text is a decimal numeral, and the number it denotes
/// is zero with two fraction digits.
pub proof fn lemma_default_price_is_zero()
    ensures
        is_decimal("0.00"@),
        decimal_of("0.00"@) == (Decimal { negative: false, mantissa: 0, scale: 2 }),
{
    reveal_strlit("0.00");
    let s = "0.00"@;
    assert(s =~= seq!['0', '.', '0', '0']);
    reveal_with_fuel(digits_value, 5);
    assert(s[1] == '.');
    assert(s.index_of('.') == 1);
}

/// Reads a price from text: `Some` exactly for a decimal numeral, and then
/// the price keeps the text as it was written.
pub fn parse_price(s: &str) -> (r: Option<Price>)
    ensures
        r is Some <==> is_decimal(s@),
        r matches Some(p) ==> p.text() == s@ && p@ == decimal_of(s@),
{
    if !s.is_ascii() {
        proof {
            let k = choose|k: int| 0 <= k < s@.len() && !('\0' <= #[trigger] s@[k] <= '\u{7f}');
            let b = unsigned_part(s@);
            if b.len() == s@.len() {
                assert(b[k] == s@[k]);
            } else if k > 0 {
                assert(b[k - 1] == s@[k]);
            }
        }
        return None;
    }
    proof {
        is_ascii_spec_bytes(s);
    }
    let bytes = s.as_bytes();
    let n: usize = bytes.len();
    let mut start: usize = 0;
    if n > 0 {
        let c: u8 = bytes[0];
        if c == PLUS || c == MINUS {
            start = 1;
        }
    }
    let ghost b = unsigned_part(s@);
    let mut i: usize = start;
    let mut seen_point: bool = false;
    let mut seen_digit: bool = false;
    let ghost mut point_at: int = 0;
    let ghost mut digit_at: int = 0;
    while i < n
        invariant
            s.is_ascii(),
            n == s@.len(),
            n == bytes@.len(),
            forall|j: int| 0 <= j < n ==> #[trigger] bytes@[j] == s@[j] as u8,
            start <= i <= n,
            b == unsigned_part(s@),
            b.len() == n - start,
            forall|j: int| 0 <= j < b.len() ==> b[j] == s@[j + start],
            forall|j: int| 0 <= j < i - start ==> is_digit(#[trigger] b[j]) || b[j] == '.',
            forall|j: int, k: int|
                #![trigger b[j], b[k]]
                0 <= j < k < i - start ==> !(b[j] == '.' && b[k] == '.'),
            seen_point ==> 0 <= point_at < i - start && b[point_at] == '.',
            !seen_point ==> forall|j: int| 0 <= j < i - start ==> #[trigger] b[j] != '.',
            seen_digit ==> 0 <= digit_at < i - start && is_digit(b[digit_at]),
            !seen_digit ==> forall|j: int| 0 <= j < i - start ==> !is_digit(#[trigger] b[j]),
        decreases n - i,
    {
        let c: u8 = bytes[i];
        let ghost ch = s@[i as int];
        assert(ch == b[i - start]);
        if ZERO <= c && c <= NINE {
            seen_digit = true;
            proof {
                digit_at = i - start;
            }
        } else if c == POINT {
            if seen_point {
                return None;
            }
            seen_point = true;
            proof {
                point_at = i - start;
            }
        } else {
            return None;
        }
        i = i + 1;
    }
    if !seen_digit {
        return None;
    }
    Some(Price { text: s.to_owned() })
}

} // verus!
