//! Exact decimal amounts.
//!
//! A [`Decimal`] is an integer mantissa together with a scale, the number of
//! digits after the decimal point: mantissa 100050 at scale 2 is `1000.50`.
//! The scale is part of the value's identity, so `1000.50` is rendered with
//! both fractional digits, but two amounts compare equal when they denote
//! the same number.  Parsing, rendering and comparison are done by
//! `rust_decimal`.

use vstd::prelude::*;
use vstd::std_specs::cmp::PartialEqSpecImpl;

verus! {

/// The largest scale a decimal can have.
pub const MAX_SCALE: u32 = 28;

/// The largest magnitude a mantissa can have: 2^96 - 1.
pub const MAX_MANTISSA: i128 = 79_228_162_514_264_337_593_543_950_335;

/// A decimal as the contracts speak of it.
pub struct DecimalView {
    pub mantissa: int,
    pub scale: nat,
}

/// The mantissa and scale pairs that denote a representable decimal.
pub open spec fn valid_decimal(d: DecimalView) -> bool {
    -MAX_MANTISSA <= d.mantissa <= MAX_MANTISSA && d.scale <= MAX_SCALE
}

/// Ten to the power `n`.
pub open spec fn pow10(n: nat) -> int
    decreases n,
{
    if n == 0 {
        1
    } else {
        10 * pow10((n - 1) as nat)
    }
}

/// Whether two decimals denote the same number, whatever their scales.
pub open spec fn same_number(a: DecimalView, b: DecimalView) -> bool {
    a.mantissa * pow10(b.scale) == b.mantissa * pow10(a.scale)
}

/// What parsing `s` as a decimal yields: the decimal, or the parser's error
/// message.
pub uninterp spec fn decimal_from_text(s: Seq<char>) -> Result<DecimalView, Seq<char>>;

/// The canonical rendering of a decimal: sign, whole digits and, where the
/// scale is not zero, a point followed by exactly `scale` digits.
pub uninterp spec fn decimal_text(d: DecimalView) -> Seq<char>;

/// A parser's outcome as the contracts speak of it.
pub open spec fn parsed_decimal_view(r: Result<(i128, u32), String>) -> Result<
    DecimalView,
    Seq<char>,
> {
    match r {
        Ok(parts) => Ok(DecimalView { mantissa: parts.0 as int, scale: parts.1 as nat }),
        Err(msg) => Err(msg@),
    }
}

/// Whether a parser's outcome is success with the decimal `d`.
pub open spec fn yields_decimal(outcome: Result<DecimalView, Seq<char>>, d: DecimalView) -> bool {
    outcome matches Ok(x) && x == d
}

/// The characters a decimal is rendered with: digits, the point and the minus
/// sign.
pub open spec fn is_decimal_char(c: char) -> bool {
    ('0' <= c <= '9') || c == '.' || c == '-'
}

/// The longest rendering of a decimal.
pub const MAX_TEXT_LEN: usize = 33;

/// A text that may be the rendering of a decimal: not empty, of at most 33
/// characters, all of them digits, points or minus signs.
pub open spec fn decimal_shaped(text: Seq<char>) -> bool {
    &&& 0 < text.len() <= MAX_TEXT_LEN
    &&& forall|i: int| 0 <= i < text.len() ==> is_decimal_char(#[trigger] text[i])
}

/// Whether the rendering of `d` is decimal-shaped and parses back to `d`.
/// This holds of every decimal that has been rendered.
pub open spec fn renders_faithfully(d: DecimalView) -> bool {
    decimal_shaped(decimal_text(d)) && yields_decimal(decimal_from_text(decimal_text(d)), d)
}

/// Calls `rust_decimal::Decimal::from_str` and hands back the mantissa and
/// scale of the parsed decimal, or the text of the parse error.  Trusted: the
/// outcome depends on the input text alone, and a parsed decimal has a
/// mantissa of at most 96 bits and a scale of at most 28.
#[verifier::external_body]
fn rust_decimal_parse(s: &str) -> (r: Result<(i128, u32), String>)
    ensures
        parsed_decimal_view(r) == decimal_from_text(s@),
        r is Ok ==> valid_decimal(parsed_decimal_view(r)->Ok_0),
{
    match s.parse::<rust_decimal::Decimal>() {
        Ok(d) => Ok((d.mantissa(), d.scale())),
        Err(e) => Err(e.to_string()),
    }
}

/// Rebuilds the `rust_decimal::Decimal` with the given mantissa and scale and
/// renders it with `to_string`.  Trusted: the rendering depends on mantissa
/// and scale alone; it is made of digits, at most one point and at most one
/// minus sign, in a buffer of 32 characters plus the sign; and `rust_decimal`
/// parses it back to the same mantissa and scale.
#[verifier::external_body]
fn rust_decimal_format(mantissa: i128, scale: u32) -> (s: String)
    requires
        valid_decimal(DecimalView { mantissa: mantissa as int, scale: scale as nat }),
    ensures
        s@ == decimal_text(DecimalView { mantissa: mantissa as int, scale: scale as nat }),
        decimal_shaped(s@),
        yields_decimal(
            decimal_from_text(s@),
            DecimalView { mantissa: mantissa as int, scale: scale as nat },
        ),
{
    rust_decimal::Decimal::from_i128_with_scale(mantissa, scale).to_string()
}

/// Rebuilds two `rust_decimal::Decimal` values and compares them with `==`.
/// Trusted: `rust_decimal` holds two decimals equal exactly when they denote
/// the same number.
#[verifier::external_body]
fn rust_decimal_equal(a_mantissa: i128, a_scale: u32, b_mantissa: i128, b_scale: u32) -> (r: bool)
    requires
        valid_decimal(DecimalView { mantissa: a_mantissa as int, scale: a_scale as nat }),
        valid_decimal(DecimalView { mantissa: b_mantissa as int, scale: b_scale as nat }),
    ensures
        r == same_number(
            DecimalView { mantissa: a_mantissa as int, scale: a_scale as nat },
            DecimalView { mantissa: b_mantissa as int, scale: b_scale as nat },
        ),
{
    rust_decimal::Decimal::from_i128_with_scale(a_mantissa, a_scale)
        == rust_decimal::Decimal::from_i128_with_scale(b_mantissa, b_scale)
}

/// An exact decimal number.
#[derive(Debug, Clone, Copy)]
pub struct Decimal {
    mantissa: i128,
    scale: u32,
}

impl View for Decimal {
    type V = DecimalView;

    closed spec fn view(&self) -> DecimalView {
        DecimalView { mantissa: self.mantissa as int, scale: self.scale as nat }
    }
}

impl Decimal {
    /// What every value of this type satisfies.
    #[verifier::type_invariant]
    pub open spec fn in_range(self) -> bool {
        valid_decimal(self@)
    }

    /// Zero at scale 0.
    pub fn zero() -> (d: Decimal)
        ensures
            d@ == (DecimalView { mantissa: 0, scale: 0 }),
    {
        Decimal { mantissa: 0, scale: 0 }
    }

    /// The decimal with the given mantissa and scale, if it is representable.
    pub fn try_new(mantissa: i128, scale: u32) -> (r: Option<Decimal>)
        ensures
            r is Some <==> valid_decimal(
                DecimalView { mantissa: mantissa as int, scale: scale as nat },
            ),
            r matches Some(d) ==> d@ == (DecimalView {
                mantissa: mantissa as int,
                scale: scale as nat,
            }),
    {
        if -MAX_MANTISSA <= mantissa && mantissa <= MAX_MANTISSA && scale <= MAX_SCALE {
            Some(Decimal { mantissa, scale })
        } else {
            None
        }
    }

    /// The mantissa: the number without its decimal point.
    pub fn mantissa(&self) -> (m: i128)
        ensures
            m == self@.mantissa,
            valid_decimal(self@),
    {
        proof {
            use_type_invariant(self);
        }
        self.mantissa
    }

    /// The number of digits after the decimal point.
    pub fn scale(&self) -> (s: u32)
        ensures
            s == self@.scale,
    {
        self.scale
    }

    /// Parses a decimal.  On failure the error is the parser's message.
    pub fn from_str(s: &str) -> (r: Result<Decimal, String>)
        ensures
            match decimal_from_text(s@) {
                Ok(d) => r matches Ok(x) && x@ == d && valid_decimal(d),
                Err(msg) => r matches Err(m) && m@ == msg,
            },
    {
        match rust_decimal_parse(s) {
            Ok(parts) => Ok(Decimal { mantissa: parts.0, scale: parts.1 }),
            Err(msg) => Err(msg),
        }
    }

    /// The canonical rendering, which parses back to this decimal.
    pub fn to_string(&self) -> (s: String)
        ensures
            s@ == decimal_text(self@),
            renders_faithfully(self@),
    {
        proof {
            use_type_invariant(self);
        }
        rust_decimal_format(self.mantissa, self.scale)
    }
}

impl PartialEq for Decimal {
    fn eq(&self, other: &Decimal) -> (r: bool) {
        proof {
            use_type_invariant(self);
            use_type_invariant(other);
        }
        rust_decimal_equal(self.mantissa, self.scale, other.mantissa, other.scale)
    }
}

impl PartialEqSpecImpl for Decimal {
    open spec fn obeys_eq_spec() -> bool {
        true
    }

    open spec fn eq_spec(&self, other: &Decimal) -> bool {
        same_number(self@, other@)
    }
}

} // verus!
