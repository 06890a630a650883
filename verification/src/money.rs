//! Monetary amounts.
//!
//! Money is base-10 fixed point, and the arithmetic is that of
//! [`rust_decimal::Decimal`]. Binary floating point cannot represent values like
//! `0.1` exactly, so a long run of deposits and withdrawals would slowly drift
//! away from the true balance; an exact decimal keeps every intermediate balance
//! equal to the sum of its inputs.
//!
//! An [`Amount`] holds the three parts of a decimal as plain values, and a
//! [`Figure`] is the same number as mathematics sees it.
use rust_decimal::Decimal;
use vstd::prelude::*;
use vstd::std_specs::cmp::PartialEqSpecImpl;
use vstd::std_specs::ops::AddSpecImpl;

use crate::text;

verus! {

/// One more than the largest magnitude an amount can carry: two to the
/// ninety-sixth power.
pub const MAGNITUDE_LIMIT: u128 = 79228162514264337593543950336;

/// The largest number of decimal places an amount can carry.
pub const MAX_SCALE: u32 = 28;

/// Decimal places the engine keeps.
pub const SCALE: u32 = 4;

/// A decimal number: `magnitude` divided by ten to the power of `scale`, with a
/// sign.
pub struct Figure {
    pub negative: bool,
    pub magnitude: nat,
    pub scale: nat,
}

impl Figure {
    /// Whether the magnitude fits in ninety-six bits and the scale is one a
    /// decimal can have.
    pub open spec fn valid(self) -> bool {
        self.magnitude < MAGNITUDE_LIMIT && self.scale <= MAX_SCALE
    }

    /// Whether the number fits and carries a sign only if it is not zero.
    pub open spec fn written_plainly(self) -> bool {
        self.valid() && (self.is_zero() ==> !self.negative)
    }

    pub open spec fn is_zero(self) -> bool {
        self.magnitude == 0
    }

    /// The magnitude with its sign.
    pub open spec fn signed(self) -> int {
        if self.negative {
            -(self.magnitude as int)
        } else {
            self.magnitude as int
        }
    }

    /// The number, counted in units of the last of `scale` decimal places.
    pub open spec fn at_scale(self, scale: nat) -> int
        recommends
            self.scale <= scale,
    {
        self.signed() * text::pow10((scale - self.scale) as nat)
    }

    /// The number, counted in units of the last decimal place there can be. Two
    /// figures are the same number exactly when their units are equal.
    pub open spec fn units(self) -> int {
        self.at_scale(MAX_SCALE as nat)
    }

    /// The number with its sign turned round.
    pub open spec fn negated(self) -> Figure {
        Figure { negative: !self.negative, ..self }
    }

    /// The number rounded to `places` decimal places, a tie going to the even
    /// neighbour. A number with no more places than that stays as it is.
    pub open spec fn rounded(self, places: nat) -> Figure {
        if self.scale <= places {
            self
        } else if self.is_zero() {
            Figure { scale: places, ..self }
        } else {
            let unit = text::pow10((self.scale - places) as nat);
            let whole = self.magnitude / unit;
            let rest = self.magnitude % unit;
            let magnitude = if 2 * rest > unit || (2 * rest == unit && whole % 2 == 1) {
                whole + 1
            } else {
                whole
            };
            Figure { negative: self.negative && magnitude != 0, magnitude, scale: places }
        }
    }

    /// The number without trailing zeros among its decimal places. Zero loses its
    /// scale and its sign.
    pub open spec fn normalized(self) -> Figure
        decreases self.scale,
    {
        if self.is_zero() {
            Figure { negative: false, magnitude: 0, scale: 0 }
        } else if self.scale > 0 && self.magnitude % 10 == 0 {
            Figure {
                magnitude: self.magnitude / 10,
                scale: (self.scale - 1) as nat,
                ..self
            }.normalized()
        } else {
            self
        }
    }

    /// The number written out: a minus sign if it has one, the digits before the
    /// decimal point, and then as many digits after it as the scale says.
    pub open spec fn text(self) -> Seq<char> {
        let sign = if self.negative {
            seq!['-']
        } else {
            seq![]
        };
        let places = if self.scale > 0 {
            seq!['.'] + text::padded_digits(self.magnitude % text::pow10(self.scale), self.scale)
        } else {
            seq![]
        };
        sign + text::decimal_digits(self.magnitude / text::pow10(self.scale)) + places
    }

    /// How the output table shows the number.
    pub open spec fn rendered(self) -> Seq<char> {
        self.rounded(SCALE as nat).normalized().text()
    }
}

/// The figure zero, with no decimal places.
pub open spec fn zero_figure() -> Figure {
    Figure { negative: false, magnitude: 0, scale: 0 }
}

/// The figure that counts `value` units of the last of `scale` decimal places.
pub open spec fn fixed(value: int, scale: nat) -> Figure {
    Figure {
        negative: value < 0,
        magnitude: if value < 0 {
            (-value) as nat
        } else {
            value as nat
        },
        scale,
    }
}

/// The scale of whichever of two figures has more decimal places.
pub open spec fn wider_scale(left: Figure, right: Figure) -> nat {
    if left.scale >= right.scale {
        left.scale
    } else {
        right.scale
    }
}

/// The sum of two figures with every decimal place of both kept, where that fits
/// a decimal. Adding zero, whatever its scale, leaves the other figure as it is.
pub open spec fn exact_sum(left: Figure, right: Figure) -> Option<Figure> {
    let scale = wider_scale(left, right);
    let sum = fixed(left.at_scale(scale) + right.at_scale(scale), scale);
    if left.is_zero() {
        Some(right)
    } else if right.is_zero() {
        Some(left)
    } else if sum.magnitude < MAGNITUDE_LIMIT {
        Some(sum)
    } else {
        None
    }
}

/// `left` less `right` with every decimal place of both kept, where that fits a
/// decimal. Subtracting zero, whatever its scale, changes nothing, and
/// subtracting from zero turns the sign round.
pub open spec fn exact_difference(left: Figure, right: Figure) -> Option<Figure> {
    let scale = wider_scale(left, right);
    let difference = fixed(left.at_scale(scale) - right.at_scale(scale), scale);
    if left.is_zero() {
        Some(
            if right.is_zero() {
                right
            } else {
                right.negated()
            },
        )
    } else if right.is_zero() {
        Some(left)
    } else if difference.magnitude < MAGNITUDE_LIMIT {
        Some(difference)
    } else {
        None
    }
}

/// The decimal that a text writes out: a sign or none, digits, and perhaps a point
/// with up to as many digits after it as a decimal has places. There is at least
/// one digit, leading zeros do not count, and a zero has no sign. Texts of other
/// forms, and digits that do not fit, write out none.
pub open spec fn decimal_in(text: Seq<char>) -> Option<Figure> {
    let negative = text.len() > 0 && text[0] == '-';
    let signed = negative || (text.len() > 0 && text[0] == '+');
    let number = if signed {
        text.skip(1)
    } else {
        text
    };
    let (whole, places) = match number.index_of_first('.') {
        Some(point) => (number.take(point), number.skip(point + 1)),
        None => (number, seq![]),
    };
    let digits = whole + places;
    match text::digits_value(digits, 10) {
        Some(magnitude) => {
            let figure = Figure {
                negative: negative && magnitude != 0,
                magnitude,
                scale: places.len(),
            };
            if digits.len() > 0 && figure.valid() {
                Some(figure)
            } else {
                None
            }
        },
        None => None,
    }
}

/// Whether a text that writes out a decimal is read as exactly that decimal.
pub open spec fn reads_as_written(text: Seq<char>) -> bool {
    decimal_in(text) matches Some(figure) ==> decimal_from_str(text) == Ok::<
        (bool, nat, nat),
        Seq<char>,
    >((figure.negative, figure.magnitude, figure.scale))
}

/// What `Decimal::from_str` makes of a text: the sign, magnitude and scale of the
/// number it reads, or the wording of its complaint.
pub uninterp spec fn decimal_from_str(text: Seq<char>) -> Result<(bool, nat, nat), Seq<char>>;

/// An amount of the single asset the engine tracks.
#[derive(Clone, Copy, Debug)]
pub struct Amount {
    negative: bool,
    magnitude: u128,
    scale: u32,
}

impl View for Amount {
    type V = Figure;

    closed spec fn view(&self) -> Figure {
        Figure {
            negative: self.negative,
            magnitude: self.magnitude as nat,
            scale: self.scale as nat,
        }
    }
}

impl Amount {
    #[verifier::type_invariant]
    pub open spec fn in_range(self) -> bool {
        self@.valid()
    }

    /// The amount zero.
    pub fn zero() -> (zero: Amount)
        ensures
            zero@ == zero_figure(),
    {
        Amount { negative: false, magnitude: 0, scale: 0 }
    }

    /// The amount that counts `number` units of the last of `scale` decimal places,
    /// or `None` if that is more digits or more places than an amount can carry.
    pub fn from_i128_with_scale(number: i128, scale: u32) -> (amount: Option<Amount>)
        ensures
            figure_in(amount) == (if fixed(number as int, scale as nat).valid() {
                Some(fixed(number as int, scale as nat))
            } else {
                None
            }),
    {
        let limit: i128 = MAGNITUDE_LIMIT as i128;
        if scale <= MAX_SCALE && -limit < number && number < limit {
            let magnitude: u128 = if number < 0 {
                (-number) as u128
            } else {
                number as u128
            };
            Some(Amount { negative: number < 0, magnitude, scale })
        } else {
            None
        }
    }

    pub fn is_zero(&self) -> (zero: bool)
        ensures
            zero == self@.is_zero(),
    {
        self.magnitude == 0
    }

    /// How many decimal places the amount carries.
    pub fn scale(&self) -> (scale: u32)
        ensures
            scale == self@.scale,
    {
        self.scale
    }

    /// The amount written out with all its decimal places.
    pub fn text(&self) -> (text: String)
        ensures
            text@ == self@.text(),
    {
        decimal_text(*self)
    }

    /// Whether this is the smaller number of the two.
    pub fn is_less_than(&self, other: Amount) -> (less: bool)
        ensures
            less == (self@.units() < other@.units()),
    {
        less_than(*self, other)
    }

    /// Reads a decimal number. One that is written out is read as exactly the value
    /// written, and so what [`render`] shows reads back as the rounded amount.
    pub fn from_str(text: &str) -> (amount: Result<Amount, String>)
        ensures
            match amount {
                Ok(amount) => decimal_from_str(text@) == Ok::<(bool, nat, nat), Seq<char>>(
                    (amount@.negative, amount@.magnitude, amount@.scale),
                ),
                Err(complaint) => decimal_from_str(text@) == Err::<(bool, nat, nat), Seq<char>>(
                    complaint@,
                ),
            },
            reads_as_written(text@),
            decimal_in(text@) matches Some(figure) ==> amount is Ok && amount->Ok_0@ == figure,
            forall|figure: Figure|
                figure.written_plainly() && text@ == #[trigger] figure.text() ==> amount is Ok
                    && amount->Ok_0@ == figure,
            forall|figure: Figure|
                figure.valid() && text@ == #[trigger] figure.rendered() ==> amount is Ok
                    && amount->Ok_0@ == figure.rounded(SCALE as nat).normalized()
                    && amount->Ok_0@.units() == figure.rounded(SCALE as nat).units(),
    {
        let amount = parse_decimal(text);
        proof {
            assert forall|figure: Figure|
                figure.written_plainly() && text@ == #[trigger] figure.text() implies amount is Ok
                && amount->Ok_0@ == figure by {
                what_is_written_out_is_that_decimal(figure);
            }
            assert forall|figure: Figure|
                figure.valid() && text@ == #[trigger] figure.rendered() implies amount is Ok
                && amount->Ok_0@ == figure.rounded(SCALE as nat).normalized()
                && amount->Ok_0@.units() == figure.rounded(SCALE as nat).units() by {
                rounding_limits_the_places(figure, SCALE as nat);
                trimming_zeros_keeps_the_number(figure.rounded(SCALE as nat));
                assert(text@ == figure.rounded(SCALE as nat).normalized().text());
            }
        }
        amount
    }
}

/// `Decimal::from_str`. A decimal written out, with a sign or none, with or without
/// leading zeros, digits before the point or digits after it, is read as exactly
/// that decimal, and a zero loses its sign. Of other texts (underscores, an
/// exponent, more digits than fit) the claim is only that what it reads, or how it
/// words its complaint, depends on nothing but the text.
#[verifier::external_body]
fn parse_decimal(text: &str) -> (amount: Result<Amount, String>)
    ensures
        match amount {
            Ok(amount) => decimal_from_str(text@) == Ok::<(bool, nat, nat), Seq<char>>(
                (amount@.negative, amount@.magnitude, amount@.scale),
            ),
            Err(complaint) => decimal_from_str(text@) == Err::<(bool, nat, nat), Seq<char>>(
                complaint@,
            ),
        },
        decimal_in(text@) matches Some(figure) ==> amount is Ok && amount->Ok_0@ == figure,
{
    match text.parse::<Decimal>() {
        Ok(read) => Ok(
            Amount {
                negative: read.is_sign_negative(),
                magnitude: read.mantissa().unsigned_abs(),
                scale: read.scale(),
            },
        ),
        Err(error) => Err(error.to_string()),
    }
}

/// `Decimal::checked_add`. Where the sum fits with every decimal place of both
/// operands kept, that sum is what comes back, and a zero operand hands back the
/// other one as it is. Where it does not fit, `Decimal` either gives up or rounds
/// the sum to fewer places than its wider operand has; how it rounds is left
/// unsaid, because nothing keeps such a result.
#[verifier::external_body]
fn checked_add(left: Amount, right: Amount) -> (sum: Option<Amount>)
    ensures
        exact_sum(left@, right@) matches Some(exact) ==> sum is Some && sum->0@ == exact,
        exact_sum(left@, right@) is None && sum is Some ==> !sum->0@.is_zero() && sum->0@.scale
            < wider_scale(left@, right@),
{
    let mut l = Decimal::from_i128_with_scale(left.magnitude as i128, left.scale);
    l.set_sign_negative(left.negative);
    let mut r = Decimal::from_i128_with_scale(right.magnitude as i128, right.scale);
    r.set_sign_negative(right.negative);
    l.checked_add(r).map(|sum| Amount {
        negative: sum.is_sign_negative(),
        magnitude: sum.mantissa().unsigned_abs(),
        scale: sum.scale(),
    })
}

/// `Decimal::checked_sub`, on the same terms as [`checked_add`]: exact where
/// every decimal place of both operands fits, and otherwise either nothing or a
/// difference rounded to fewer places than the wider operand has.
#[verifier::external_body]
fn checked_sub(left: Amount, right: Amount) -> (difference: Option<Amount>)
    ensures
        exact_difference(left@, right@) matches Some(exact) ==> difference is Some
            && difference->0@ == exact,
        exact_difference(left@, right@) is None && difference is Some
            ==> !difference->0@.is_zero() && difference->0@.scale < wider_scale(left@, right@),
{
    let mut l = Decimal::from_i128_with_scale(left.magnitude as i128, left.scale);
    l.set_sign_negative(left.negative);
    let mut r = Decimal::from_i128_with_scale(right.magnitude as i128, right.scale);
    r.set_sign_negative(right.negative);
    l.checked_sub(r).map(|difference| Amount {
        negative: difference.is_sign_negative(),
        magnitude: difference.mantissa().unsigned_abs(),
        scale: difference.scale(),
    })
}

/// `Decimal`'s `+`, which panics where [`checked_add`] has nothing to give. It is
/// only asked for sums that fit exactly.
#[verifier::external_body]
fn plus(left: Amount, right: Amount) -> (sum: Amount)
    requires
        exact_sum(left@, right@) is Some,
    ensures
        Some(sum@) == exact_sum(left@, right@),
{
    let mut l = Decimal::from_i128_with_scale(left.magnitude as i128, left.scale);
    l.set_sign_negative(left.negative);
    let mut r = Decimal::from_i128_with_scale(right.magnitude as i128, right.scale);
    r.set_sign_negative(right.negative);
    let sum = l + r;
    Amount {
        negative: sum.is_sign_negative(),
        magnitude: sum.mantissa().unsigned_abs(),
        scale: sum.scale(),
    }
}

/// `Decimal`'s `<`, which orders by the number and not by how it is written.
#[verifier::external_body]
fn less_than(left: Amount, right: Amount) -> (less: bool)
    ensures
        less == (left@.units() < right@.units()),
{
    let mut l = Decimal::from_i128_with_scale(left.magnitude as i128, left.scale);
    l.set_sign_negative(left.negative);
    let mut r = Decimal::from_i128_with_scale(right.magnitude as i128, right.scale);
    r.set_sign_negative(right.negative);
    l < r
}

/// `Decimal`'s `==`, which compares the numbers and not how they are written.
#[verifier::external_body]
fn same_number(left: &Amount, right: &Amount) -> (same: bool)
    ensures
        same == (left@.units() == right@.units()),
{
    let mut l = Decimal::from_i128_with_scale(left.magnitude as i128, left.scale);
    l.set_sign_negative(left.negative);
    let mut r = Decimal::from_i128_with_scale(right.magnitude as i128, right.scale);
    r.set_sign_negative(right.negative);
    l == r
}

/// `Decimal::round_dp`: at most `places` decimal places, a tie going to the even
/// neighbour.
#[verifier::external_body]
fn round_dp(amount: Amount, places: u32) -> (rounded: Amount)
    ensures
        rounded@ == amount@.rounded(places as nat),
{
    let mut exact = Decimal::from_i128_with_scale(amount.magnitude as i128, amount.scale);
    exact.set_sign_negative(amount.negative);
    let rounded = exact.round_dp(places);
    Amount {
        negative: rounded.is_sign_negative(),
        magnitude: rounded.mantissa().unsigned_abs(),
        scale: rounded.scale(),
    }
}

/// `Decimal::normalize`: no trailing zeros, and no sign or scale on a zero.
#[verifier::external_body]
fn normalize(amount: Amount) -> (normal: Amount)
    ensures
        normal@ == amount@.normalized(),
{
    let mut given = Decimal::from_i128_with_scale(amount.magnitude as i128, amount.scale);
    given.set_sign_negative(amount.negative);
    let normal = given.normalize();
    Amount {
        negative: normal.is_sign_negative(),
        magnitude: normal.mantissa().unsigned_abs(),
        scale: normal.scale(),
    }
}

/// `Decimal`'s `to_string`: the number with all the decimal places of its scale.
#[verifier::external_body]
fn decimal_text(amount: Amount) -> (text: String)
    ensures
        text@ == amount@.text(),
{
    let mut given = Decimal::from_i128_with_scale(amount.magnitude as i128, amount.scale);
    given.set_sign_negative(amount.negative);
    given.to_string()
}

impl PartialEq for Amount {
    fn eq(&self, other: &Amount) -> (same: bool) {
        same_number(self, other)
    }
}

impl PartialEqSpecImpl for Amount {
    open spec fn obeys_eq_spec() -> bool {
        true
    }

    open spec fn eq_spec(&self, other: &Amount) -> bool {
        self@.units() == other@.units()
    }
}

impl Eq for Amount {

}

impl std::ops::Add for Amount {
    type Output = Amount;

    fn add(self, other: Amount) -> (sum: Amount)
        ensures
            Some(sum@) == exact_sum(self@, other@),
    {
        plus(self, other)
    }
}

impl AddSpecImpl for Amount {
    open spec fn obeys_add_spec() -> bool {
        false
    }

    open spec fn add_req(self, other: Amount) -> bool {
        exact_sum(self@, other@) is Some
    }

    open spec fn add_spec(self, other: Amount) -> Amount {
        choose|sum: Amount| Some(#[trigger] sum@) == exact_sum(self@, other@)
    }
}

/// The figure in an optional amount.
pub open spec fn figure_in(amount: Option<Amount>) -> Option<Figure> {
    match amount {
        Some(amount) => Some(amount@),
        None => None,
    }
}

/// Rounds an incoming amount to the engine's working precision.
///
/// Amounts are expected to have at most four decimal places. Rounding anything
/// longer (half to even, the usual choice in finance because it does not bias
/// repeated roundings upward) is more forgiving than rejecting the row outright.
pub fn to_engine_scale(amount: Amount) -> (rounded: Amount)
    ensures
        rounded@ == amount@.rounded(SCALE as nat),
{
    round_dp(amount, SCALE)
}

/// Renders an amount for the output CSV, trimming trailing zeros so that round
/// values print as `2` rather than `2.0000`.
pub fn render(amount: Amount) -> (text: String)
    ensures
        text@ == amount@.rendered(),
{
    decimal_text(normalize(to_engine_scale(amount)))
}

/// Adds two amounts, or `None` if no decimal holds the sum with every decimal place
/// of the wider operand.
pub fn exact_add(left: Amount, right: Amount) -> (sum: Option<Amount>)
    ensures
        figure_in(sum) == exact_sum(left@, right@),
{
    match checked_add(left, right) {
        Some(sum) => exact(sum, left, right),
        None => None,
    }
}

/// Subtracts `right` from `left`, or `None` if no decimal holds the difference with
/// every decimal place of the wider operand.
pub fn exact_sub(left: Amount, right: Amount) -> (difference: Option<Amount>)
    ensures
        figure_in(difference) == exact_difference(left@, right@),
{
    match checked_sub(left, right) {
        Some(difference) => exact(difference, left, right),
        None => None,
    }
}

/// Rejects a result that `Decimal` rounded rather than computed exactly.
///
/// `Decimal` reports overflow only when a result is too large in magnitude. When
/// it merely needs more significant digits than the 96-bit magnitude holds — a
/// balance above roughly 7.9e24 combined with a four-decimal amount — it silently
/// rescales and rounds instead, which in a ledger means quietly creating or
/// destroying money.
///
/// An exact sum or difference of two amounts carries the scale of its wider
/// operand, so a narrower result is proof that digits were dropped. Zero is the
/// exception on both sides: as a result it may come back with any scale, and as
/// an operand its scale does not count, because the other operand is handed back
/// as it is.
fn exact(result: Amount, left: Amount, right: Amount) -> (kept: Option<Amount>)
    ensures
        kept == (if result@.is_zero() || left@.is_zero() || right@.is_zero()
            || result@.scale >= wider_scale(left@, right@) {
            Some(result)
        } else {
            None
        }),
{
    let wider: u32 = if left.scale() >= right.scale() {
        left.scale()
    } else {
        right.scale()
    };
    if result.is_zero() || left.is_zero() || right.is_zero() || result.scale() >= wider {
        Some(result)
    } else {
        None
    }
}

/// Ten to a sum of powers is the product of the two powers of ten, and no power
/// of ten is zero.
pub proof fn lemma_pow10(left: nat, right: nat)
    ensures
        text::pow10(left + right) == text::pow10(left) * text::pow10(right),
        text::pow10(left) > 0,
    decreases left,
{
    if left > 0 {
        lemma_pow10((left - 1) as nat, right);
        let short = text::pow10((left - 1) as nat);
        let other = text::pow10(right);
        assert((left - 1) as nat + right == (left + right - 1) as nat);
        assert(text::pow10(left + right) == 10 * (short * other));
        assert(text::pow10(left) == 10 * short);
        assert((10 * short) * other == 10 * (short * other)) by (nonlinear_arith);
    } else {
        assert(text::pow10(0) == 1);
        assert(left + right == right);
    }
}

/// Counting in units of a finer scale multiplies by a power of ten.
pub proof fn lemma_rescale(figure: Figure, scale: nat, finer: nat)
    requires
        figure.scale <= scale <= finer,
    ensures
        figure.at_scale(finer) == figure.at_scale(scale) * text::pow10((finer - scale) as nat),
{
    let near = text::pow10((scale - figure.scale) as nat) as int;
    let far = text::pow10((finer - scale) as nat) as int;
    lemma_pow10((scale - figure.scale) as nat, (finer - scale) as nat);
    assert((scale - figure.scale) as nat + (finer - scale) as nat == (finer - figure.scale) as nat);
    let signed = figure.signed();
    assert(signed * (near * far) == (signed * near) * far) by (nonlinear_arith);
}

/// A figure fixed at a scale counts that many units of it.
pub proof fn lemma_fixed(value: int, scale: nat)
    ensures
        fixed(value, scale).signed() == value,
        fixed(value, scale).at_scale(scale) == value,
{
    assert(value * 1 == value) by (nonlinear_arith);
}

/// Zero is zero at any scale, and nothing else is.
pub proof fn lemma_zero(figure: Figure, scale: nat)
    ensures
        figure.is_zero() <==> figure.at_scale(scale) == 0,
{
    lemma_pow10((scale - figure.scale) as nat, 0);
    let power = text::pow10((scale - figure.scale) as nat) as int;
    let signed = figure.signed();
    assert(power > 0 ==> (signed == 0 <==> signed * power == 0)) by (nonlinear_arith);
}

/// An exact sum is the sum: the number that comes out is the two that went in
/// added up, to the last decimal place, and it is again one that fits.
pub proof fn exact_sums_never_round(left: Figure, right: Figure)
    requires
        left.valid(),
        right.valid(),
        exact_sum(left, right) is Some,
    ensures
        exact_sum(left, right)->0.valid(),
        exact_sum(left, right)->0.units() == left.units() + right.units(),
{
    let scale = wider_scale(left, right);
    let top = MAX_SCALE as nat;
    lemma_zero(left, top);
    lemma_zero(right, top);
    if !left.is_zero() && !right.is_zero() {
        let value = left.at_scale(scale) + right.at_scale(scale);
        lemma_fixed(value, scale);
        lemma_rescale(left, scale, top);
        lemma_rescale(right, scale, top);
        lemma_rescale(fixed(value, scale), scale, top);
        let l = left.at_scale(scale);
        let r = right.at_scale(scale);
        let power = text::pow10((top - scale) as nat) as int;
        assert((l + r) * power == l * power + r * power) by (nonlinear_arith);
    }
}

/// An exact difference is the difference, to the last decimal place, and it is
/// again a number that fits.
pub proof fn exact_differences_never_round(left: Figure, right: Figure)
    requires
        left.valid(),
        right.valid(),
        exact_difference(left, right) is Some,
    ensures
        exact_difference(left, right)->0.valid(),
        exact_difference(left, right)->0.units() == left.units() - right.units(),
{
    let scale = wider_scale(left, right);
    let top = MAX_SCALE as nat;
    lemma_zero(left, top);
    lemma_zero(right, top);
    if left.is_zero() {
        let power = text::pow10((top - right.scale) as nat) as int;
        let signed = right.signed();
        assert((-signed) * power == -(signed * power)) by (nonlinear_arith);
    } else if !right.is_zero() {
        let value = left.at_scale(scale) - right.at_scale(scale);
        lemma_fixed(value, scale);
        lemma_rescale(left, scale, top);
        lemma_rescale(right, scale, top);
        lemma_rescale(fixed(value, scale), scale, top);
        let l = left.at_scale(scale);
        let r = right.at_scale(scale);
        let power = text::pow10((top - scale) as nat) as int;
        assert((l - r) * power == l * power - r * power) by (nonlinear_arith);
    }
}

/// The size of a number, counted as [`Figure::units`] counts.
pub open spec fn size(units: int) -> int {
    if units < 0 {
        -units
    } else {
        units
    }
}

/// What is no larger than a figure that fits, and needs no finer scale, fits too.
proof fn lemma_bounded(value: int, scale: nat, figure: Figure)
    requires
        figure.valid(),
        scale <= figure.scale,
        size(value * text::pow10((MAX_SCALE - scale) as nat)) <= size(figure.units()),
    ensures
        fixed(value, scale).magnitude < MAGNITUDE_LIMIT,
{
    let top = MAX_SCALE as nat;
    let near = text::pow10((figure.scale - scale) as nat) as int;
    let far = text::pow10((top - figure.scale) as nat) as int;
    lemma_pow10((figure.scale - scale) as nat, (top - figure.scale) as nat);
    lemma_pow10((top - figure.scale) as nat, 0);
    assert((figure.scale - scale) as nat + (top - figure.scale) as nat == (top - scale) as nat);
    lemma_fixed(value, scale);
    let given = fixed(value, scale).magnitude as int;
    let bound = figure.magnitude as int;
    assert(size(value * (near * far)) == given * (near * far)) by (nonlinear_arith)
        requires
            near > 0,
            far > 0,
            given == size(value),
    ;
    assert(size(figure.signed() * far) == bound * far) by (nonlinear_arith)
        requires
            far > 0,
            bound == size(figure.signed()),
    ;
    assert(given <= bound) by (nonlinear_arith)
        requires
            given * (near * far) <= bound * far,
            near >= 1,
            far > 0,
            given >= 0,
    ;
}

/// A sum is accepted where a figure that fits is at least as large and has at least
/// as many decimal places as either operand.
pub proof fn sums_no_larger_than_a_figure_are_accepted(left: Figure, right: Figure, figure: Figure)
    requires
        left.valid(),
        right.valid(),
        figure.valid(),
        figure.scale >= wider_scale(left, right),
        size(left.units() + right.units()) <= size(figure.units()),
    ensures
        exact_sum(left, right) is Some,
{
    let scale = wider_scale(left, right);
    let top = MAX_SCALE as nat;
    lemma_rescale(left, scale, top);
    lemma_rescale(right, scale, top);
    let l = left.at_scale(scale);
    let r = right.at_scale(scale);
    let power = text::pow10((top - scale) as nat) as int;
    assert((l + r) * power == l * power + r * power) by (nonlinear_arith);
    lemma_bounded(l + r, scale, figure);
}

/// A difference is accepted where a figure that fits is at least as large and has
/// at least as many decimal places as either operand.
pub proof fn differences_no_larger_than_a_figure_are_accepted(
    left: Figure,
    right: Figure,
    figure: Figure,
)
    requires
        left.valid(),
        right.valid(),
        figure.valid(),
        figure.scale >= wider_scale(left, right),
        size(left.units() - right.units()) <= size(figure.units()),
    ensures
        exact_difference(left, right) is Some,
{
    let scale = wider_scale(left, right);
    let top = MAX_SCALE as nat;
    lemma_rescale(left, scale, top);
    lemma_rescale(right, scale, top);
    let l = left.at_scale(scale);
    let r = right.at_scale(scale);
    let power = text::pow10((top - scale) as nat) as int;
    assert((l - r) * power == l * power - r * power) by (nonlinear_arith);
    lemma_bounded(l - r, scale, figure);
}

/// A sum is refused only where no decimal with all the places of both operands
/// holds it.
pub proof fn only_sums_that_do_not_fit_are_refused(left: Figure, right: Figure, figure: Figure)
    requires
        left.valid(),
        right.valid(),
        figure.valid(),
        figure.scale >= wider_scale(left, right),
        figure.units() == left.units() + right.units(),
    ensures
        exact_sum(left, right) is Some,
{
    sums_no_larger_than_a_figure_are_accepted(left, right, figure);
}

/// A difference is refused only where no decimal with all the places of both
/// operands holds it.
pub proof fn only_differences_that_do_not_fit_are_refused(
    left: Figure,
    right: Figure,
    figure: Figure,
)
    requires
        left.valid(),
        right.valid(),
        figure.valid(),
        figure.scale >= wider_scale(left, right),
        figure.units() == left.units() - right.units(),
    ensures
        exact_difference(left, right) is Some,
{
    differences_no_larger_than_a_figure_are_accepted(left, right, figure);
}

/// Rounding leaves at most the wanted number of decimal places, and a figure that
/// fits still fits.
pub proof fn rounding_limits_the_places(figure: Figure, places: nat)
    requires
        figure.valid(),
    ensures
        figure.rounded(places).valid(),
        figure.rounded(places).scale <= places,
{
    if figure.scale > places && !figure.is_zero() {
        let short = (figure.scale - places) as nat;
        lemma_pow10((short - 1) as nat, 0);
        let unit = text::pow10(short);
        let whole = figure.magnitude / unit;
        assert(unit >= 10);
        let magnitude = figure.magnitude;
        assert(whole + 1 <= magnitude || magnitude < 2) by (nonlinear_arith)
            requires
                whole == magnitude / unit,
                unit >= 10,
        ;
    }
}

/// Rounding moves a figure by at most half a unit of the last place kept.
pub proof fn rounding_goes_to_a_nearest_neighbour(figure: Figure, places: nat)
    requires
        figure.valid(),
        places <= MAX_SCALE,
    ensures
        -text::pow10((MAX_SCALE - places) as nat) <= 2 * (figure.rounded(places).units()
            - figure.units()) <= text::pow10((MAX_SCALE - places) as nat),
{
    let top = MAX_SCALE as nat;
    let rounded = figure.rounded(places);
    lemma_pow10((top - places) as nat, 0);
    if figure.scale > places {
        if figure.is_zero() {
            lemma_zero(figure, top);
            lemma_zero(rounded, top);
        } else {
            let short = (figure.scale - places) as nat;
            let fine = (top - figure.scale) as nat;
            lemma_pow10(short, fine);
            lemma_pow10(fine, 0);
            assert(short + fine == (top - places) as nat);
            let unit = text::pow10(short) as int;
            let power = text::pow10(fine) as int;
            let magnitude = figure.magnitude as int;
            let kept = rounded.magnitude as int;
            lemma_pow10(short, 0);
            let whole = magnitude / unit;
            let rest = magnitude % unit;
            assert(magnitude == whole * unit + rest && 0 <= rest < unit) by (nonlinear_arith)
                requires
                    unit > 0,
                    whole == magnitude / unit,
                    rest == magnitude % unit,
            ;
            assert((whole + 1) * unit == whole * unit + unit) by (nonlinear_arith);
            assert(-unit <= 2 * (kept * unit - magnitude) <= unit);
            let off = kept * unit - magnitude;
            assert(-(unit * power) <= 2 * (off * power) <= unit * power) by (nonlinear_arith)
                requires
                    -unit <= 2 * off <= unit,
                    power > 0,
            ;
            assert(off * power == kept * (unit * power) - magnitude * power) by (nonlinear_arith)
                requires
                    off == kept * unit - magnitude,
            ;
            if figure.negative {
                assert(-kept * (unit * power) == -(kept * (unit * power))) by (nonlinear_arith);
                assert(-magnitude * power == -(magnitude * power)) by (nonlinear_arith);
            }
        }
    }
}

/// A figure rounds to something above zero exactly when it is more than half a unit
/// of the last place kept: half a unit goes to the even neighbour, which is zero.
pub proof fn rounding_to_nothing(figure: Figure, places: nat)
    requires
        figure.valid(),
        places <= MAX_SCALE,
    ensures
        figure.rounded(places).units() > 0 <==> 2 * figure.units() > text::pow10(
            (MAX_SCALE - places) as nat,
        ),
{
    let top = MAX_SCALE as nat;
    let rounded = figure.rounded(places);
    let step = text::pow10((top - places) as nat) as int;
    lemma_pow10((top - places) as nat, 0);
    lemma_zero(figure, top);
    lemma_zero(rounded, top);
    let fine = text::pow10((top - figure.scale) as nat) as int;
    lemma_pow10((top - figure.scale) as nat, 0);
    let signed = figure.signed();
    if figure.scale <= places {
        let lift = text::pow10((places - figure.scale) as nat) as int;
        lemma_pow10((places - figure.scale) as nat, (top - places) as nat);
        lemma_pow10((places - figure.scale) as nat, 0);
        assert((places - figure.scale) as nat + (top - places) as nat == (top
            - figure.scale) as nat);
        assert(signed * (lift * step) > 0 <==> 2 * (signed * (lift * step)) > step)
            by (nonlinear_arith)
            requires
                lift >= 1,
                step >= 1,
        ;
    } else if !figure.is_zero() {
        let unit = text::pow10((figure.scale - places) as nat) as int;
        lemma_pow10((figure.scale - places) as nat, (top - figure.scale) as nat);
        lemma_pow10((figure.scale - places) as nat, 0);
        assert((figure.scale - places) as nat + (top - figure.scale) as nat == (top
            - places) as nat);
        assert(step == unit * fine);
        let magnitude = figure.magnitude as int;
        let whole = magnitude / unit;
        let rest = magnitude % unit;
        assert(magnitude == whole * unit + rest && 0 <= rest < unit && whole >= 0)
            by (nonlinear_arith)
            requires
                unit > 0,
                magnitude >= 0,
                whole == magnitude / unit,
                rest == magnitude % unit,
        ;
        assert(whole >= 1 ==> whole * unit >= unit) by (nonlinear_arith)
            requires
                unit > 0,
        ;
        assert(whole == 0 ==> whole * unit == 0) by (nonlinear_arith);
        assert(rounded.magnitude > 0 <==> 2 * magnitude > unit);
        assert(2 * magnitude > unit <==> 2 * (magnitude * fine) > unit * fine) by (nonlinear_arith)
            requires
                fine > 0,
        ;
        assert(-magnitude * fine <= 0) by (nonlinear_arith)
            requires
                magnitude >= 0,
                fine > 0,
        ;
        let kept = rounded.magnitude as int;
        assert(kept > 0 <==> kept * step > 0) by (nonlinear_arith)
            requires
                kept >= 0,
                step > 0,
        ;
        assert(-kept * step <= 0) by (nonlinear_arith)
            requires
                kept >= 0,
                step > 0,
        ;
    }
}

/// A figure that has been rounded stays as it is when it is rounded again.
pub proof fn rounding_twice_is_rounding_once(figure: Figure, places: nat)
    ensures
        figure.rounded(places).rounded(places) == figure.rounded(places),
{
}

/// Trimming trailing zeros keeps the number and leaves none of them: the last of
/// the decimal places that remain, if any remains, is not a zero.
pub proof fn trimming_zeros_keeps_the_number(figure: Figure)
    requires
        figure.valid(),
    ensures
        figure.normalized().valid(),
        figure.normalized().units() == figure.units(),
        figure.normalized().scale <= figure.scale,
        figure.normalized().scale > 0 ==> figure.normalized().magnitude % 10 != 0,
        figure.is_zero() ==> figure.normalized() == zero_figure(),
        !figure.is_zero() ==> !figure.normalized().is_zero() && figure.normalized().negative
            == figure.negative,
    decreases figure.scale,
{
    let top = MAX_SCALE as nat;
    lemma_zero(figure, top);
    lemma_zero(zero_figure(), top);
    if !figure.is_zero() && figure.scale > 0 && figure.magnitude % 10 == 0 {
        let shorter = Figure {
            magnitude: figure.magnitude / 10,
            scale: (figure.scale - 1) as nat,
            ..figure
        };
        trimming_zeros_keeps_the_number(shorter);
        let power = text::pow10((top - figure.scale) as nat) as int;
        assert((top - shorter.scale) as nat == (top - figure.scale) as nat + 1);
        assert(text::pow10((top - shorter.scale) as nat) == 10 * power);
        let signed = shorter.signed();
        assert(figure.signed() == 10 * signed);
        assert(signed * (10 * power) == (10 * signed) * power) by (nonlinear_arith);
    }
}

/// Two figures that are the same number, one with more decimal places, differ by
/// trailing zeros.
proof fn lemma_same_number(short: Figure, long: Figure)
    requires
        short.valid(),
        long.valid(),
        short.units() == long.units(),
        short.scale <= long.scale,
    ensures
        long.magnitude == short.magnitude * text::pow10((long.scale - short.scale) as nat),
        !short.is_zero() ==> short.negative == long.negative,
{
    let top = MAX_SCALE as nat;
    let gap = (long.scale - short.scale) as nat;
    let fine = (top - long.scale) as nat;
    lemma_rescale(short, long.scale, top);
    lemma_pow10(fine, 0);
    lemma_pow10(gap, 0);
    assert(long.at_scale(top) == long.signed() * text::pow10(fine));
    let near = short.at_scale(long.scale);
    let far = text::pow10(fine) as int;
    let signed = long.signed();
    assert(near == signed) by (nonlinear_arith)
        requires
            near * far == signed * far,
            far > 0,
    ;
    let factor = text::pow10(gap) as int;
    let magnitude = short.magnitude as int;
    assert(short.signed() * factor == signed);
    assert(-magnitude * factor == -(magnitude * factor)) by (nonlinear_arith);
    assert(magnitude * factor >= 0) by (nonlinear_arith)
        requires
            magnitude >= 0,
            factor > 0,
    ;
    assert(magnitude > 0 ==> magnitude * factor > 0) by (nonlinear_arith)
        requires
            factor > 0,
    ;
}

/// Trailing zeros make no difference to rounding.
proof fn lemma_rounding_ignores_zeros(short: Figure, long: Figure, places: nat)
    requires
        short.valid(),
        long.valid(),
        places <= MAX_SCALE,
        short.units() == long.units(),
        short.scale <= long.scale,
    ensures
        short.rounded(places).units() == long.rounded(places).units(),
{
    let top = MAX_SCALE as nat;
    lemma_zero(short, top);
    lemma_zero(long, top);
    if short.is_zero() {
        lemma_zero(short.rounded(places), top);
        lemma_zero(long.rounded(places), top);
    } else if long.scale > places {
        lemma_same_number(short, long);
        let gap = (long.scale - short.scale) as nat;
        let factor = text::pow10(gap);
        let unit = text::pow10((long.scale - places) as nat);
        lemma_pow10(gap, 0);
        lemma_pow10((long.scale - places) as nat, 0);
        let magnitude = short.magnitude;
        if short.scale <= places {
            let lift = text::pow10((places - short.scale) as nat);
            lemma_pow10((places - short.scale) as nat, (long.scale - places) as nat);
            assert((places - short.scale) as nat + (long.scale - places) as nat == gap);
            let whole = magnitude * lift;
            assert(magnitude * (lift * unit) == whole * unit) by (nonlinear_arith)
                requires
                    whole == magnitude * lift,
            ;
            assert((whole * unit) / unit == whole && (whole * unit) % unit == 0)
                by (nonlinear_arith)
                requires
                    unit > 0,
            ;
            let rounded = long.rounded(places);
            lemma_pow10((places - short.scale) as nat, 0);
            assert(whole > 0) by (nonlinear_arith)
                requires
                    whole == magnitude * lift,
                    magnitude > 0,
                    lift > 0,
            ;
            assert(rounded.magnitude == whole);
            assert(rounded.signed() == short.at_scale(places)) by {
                let m = magnitude as int;
                let l = lift as int;
                assert(-m * l == -(m * l)) by (nonlinear_arith);
            }
            lemma_rescale(short, places, top);
            assert(rounded.at_scale(top) == rounded.signed() * text::pow10((top - places) as nat));
        } else {
            let small = text::pow10((short.scale - places) as nat);
            lemma_pow10((short.scale - places) as nat, gap);
            lemma_pow10((short.scale - places) as nat, 0);
            assert((short.scale - places) as nat + gap == (long.scale - places) as nat);
            let whole = magnitude / small;
            let rest = magnitude % small;
            assert(magnitude == whole * small + rest && 0 <= rest < small) by (nonlinear_arith)
                requires
                    small > 0,
                    whole == magnitude / small,
                    rest == magnitude % small,
            ;
            assert(magnitude * factor == whole * unit + rest * factor) by (nonlinear_arith)
                requires
                    magnitude == whole * small + rest,
                    unit == small * factor,
            ;
            assert(rest * factor < unit) by (nonlinear_arith)
                requires
                    rest < small,
                    unit == small * factor,
                    factor > 0,
            ;
            let scaled = rest * factor;
            assert((whole * unit + scaled) / unit == whole && (whole * unit + scaled) % unit
                == scaled) by (nonlinear_arith)
                requires
                    0 <= scaled < unit,
            ;
            assert(2 * scaled > unit <==> 2 * rest > small) by (nonlinear_arith)
                requires
                    scaled == rest * factor,
                    unit == small * factor,
                    factor > 0,
            ;
            assert(2 * scaled == unit <==> 2 * rest == small) by (nonlinear_arith)
                requires
                    scaled == rest * factor,
                    unit == small * factor,
                    factor > 0,
            ;
            assert(short.rounded(places) == long.rounded(places));
        }
    }
}

/// A number without trailing zeros can be written in one way only.
proof fn lemma_trimmed_form_is_unique(left: Figure, right: Figure)
    requires
        left.valid(),
        right.valid(),
        left.units() == right.units(),
        left.scale <= right.scale,
        right.scale > 0 ==> right.magnitude % 10 != 0,
        left.is_zero() ==> left == zero_figure(),
        right.is_zero() ==> right == zero_figure(),
    ensures
        left == right,
{
    lemma_same_number(left, right);
    lemma_zero(left, MAX_SCALE as nat);
    lemma_zero(right, MAX_SCALE as nat);
    if left.scale < right.scale {
        let gap = (right.scale - left.scale) as nat;
        let rest = text::pow10((gap - 1) as nat);
        let magnitude = left.magnitude;
        assert(text::pow10(gap) == 10 * rest);
        assert(magnitude * (10 * rest) == 10 * (magnitude * rest)) by (nonlinear_arith);
        assert(right.magnitude % 10 == 0);
    } else {
        assert(text::pow10(0) == 1);
        assert(left.magnitude * 1 == left.magnitude) by (nonlinear_arith);
    }
}

/// What the output shows depends on the number alone, not on how many trailing
/// zeros it has picked up: equal amounts print alike, without trailing zeros and
/// with at most four decimal places.
pub proof fn equal_amounts_print_alike(left: Figure, right: Figure)
    requires
        left.valid(),
        right.valid(),
        left.units() == right.units(),
    ensures
        left.rendered() == right.rendered(),
        left.rounded(SCALE as nat).normalized().scale <= SCALE,
        left.rounded(SCALE as nat).normalized().scale > 0 ==> left.rounded(
            SCALE as nat,
        ).normalized().magnitude % 10 != 0,
{
    let places = SCALE as nat;
    rounding_limits_the_places(left, places);
    rounding_limits_the_places(right, places);
    trimming_zeros_keeps_the_number(left.rounded(places));
    trimming_zeros_keeps_the_number(right.rounded(places));
    let l = left.rounded(places).normalized();
    let r = right.rounded(places).normalized();
    if left.scale <= right.scale {
        lemma_rounding_ignores_zeros(left, right, places);
    } else {
        lemma_rounding_ignores_zeros(right, left, places);
    }
    if l.scale <= r.scale {
        lemma_trimmed_form_is_unique(l, r);
    } else {
        lemma_trimmed_form_is_unique(r, l);
    }
}

/// Whether a count of units of some scale is one a decimal of that scale can hold.
pub open spec fn countable(value: int) -> bool {
    -(MAGNITUDE_LIMIT as int) < value < MAGNITUDE_LIMIT
}

/// A sum that fits when it is counted in units of `places` decimal places is
/// accepted, and needs no more places than that.
pub proof fn sums_within_range_are_accepted(left: Figure, right: Figure, places: nat)
    requires
        left.valid(),
        right.valid(),
        left.scale <= places,
        right.scale <= places,
        countable(left.at_scale(places) + right.at_scale(places)),
    ensures
        exact_sum(left, right) matches Some(sum) && sum.scale <= places && sum.at_scale(places)
            == left.at_scale(places) + right.at_scale(places),
{
    let scale = wider_scale(left, right);
    lemma_zero(left, places);
    lemma_zero(right, places);
    lemma_rescale(left, scale, places);
    lemma_rescale(right, scale, places);
    let l = left.at_scale(scale);
    let r = right.at_scale(scale);
    let power = text::pow10((places - scale) as nat) as int;
    assert((l + r) * power == l * power + r * power) by (nonlinear_arith);
    lemma_countable_at_coarser_scale(l + r, scale, places);
}

/// A difference that fits when it is counted in units of `places` decimal places
/// is accepted, and needs no more places than that.
pub proof fn differences_within_range_are_accepted(left: Figure, right: Figure, places: nat)
    requires
        left.valid(),
        right.valid(),
        left.scale <= places,
        right.scale <= places,
        countable(left.at_scale(places) - right.at_scale(places)),
    ensures
        exact_difference(left, right) matches Some(difference) && difference.scale <= places
            && difference.at_scale(places) == left.at_scale(places) - right.at_scale(places),
{
    let scale = wider_scale(left, right);
    lemma_zero(left, places);
    lemma_zero(right, places);
    lemma_rescale(left, scale, places);
    lemma_rescale(right, scale, places);
    let l = left.at_scale(scale);
    let r = right.at_scale(scale);
    let power = text::pow10((places - scale) as nat) as int;
    assert((l - r) * power == l * power - r * power) by (nonlinear_arith);
    lemma_countable_at_coarser_scale(l - r, scale, places);
    let lift = text::pow10((places - right.scale) as nat) as int;
    let signed = right.signed();
    assert((-signed) * lift == -(signed * lift)) by (nonlinear_arith);
}

/// What fits when counted in finer units fits when counted in coarser ones.
proof fn lemma_countable_at_coarser_scale(value: int, scale: nat, places: nat)
    requires
        scale <= places,
        countable(value * text::pow10((places - scale) as nat)),
    ensures
        countable(value),
        fixed(value, scale).magnitude < MAGNITUDE_LIMIT,
        fixed(value, scale).at_scale(places) == value * text::pow10((places - scale) as nat),
{
    let power = text::pow10((places - scale) as nat) as int;
    let limit = MAGNITUDE_LIMIT as int;
    lemma_pow10((places - scale) as nat, 0);
    lemma_fixed(value, scale);
    assert(countable(value)) by (nonlinear_arith)
        requires
            countable(value) <==> -limit < value < limit,
            -limit < value * power < limit,
            power >= 1,
            limit > 0,
    ;
}

/// The last decimal place written is the last digit of the number.
proof fn lemma_last_place(number: nat, width: nat)
    requires
        width > 0,
    ensures
        text::padded_digits(number, width).len() == width,
        text::padded_digits(number, width).last() == text::digit_char(number % 10),
        forall|i: int|
            0 <= i < width ==> text::padded_digits(number, width)[i] != '.',
    decreases width,
{
    if width > 1 {
        lemma_last_place(number / 10, (width - 1) as nat);
    } else {
        assert(text::padded_digits(number / 10, 0) == Seq::<char>::empty());
    }
}

/// A whole number takes at least one digit to write, and no point is among them.
proof fn lemma_whole_digits(number: nat)
    ensures
        text::decimal_digits(number).len() > 0,
        forall|i: int|
            0 <= i < text::decimal_digits(number).len() ==> text::decimal_digits(number)[i] != '.',
    decreases number,
{
    let digits = text::decimal_digits(number);
    if number >= 10 {
        lemma_whole_digits(number / 10);
        assert(digits == text::decimal_digits(number / 10).push(text::digit_char(number % 10)));
    } else {
        assert(digits == seq![text::digit_char(number)]);
    }
}

/// A text without characters writes out no decimal.
pub proof fn lemma_no_text_is_no_decimal(text: Seq<char>)
    requires
        text.len() == 0,
    ensures
        decimal_in(text) is None,
{
    text.index_of_first_ensures('.');
}

/// The output shows an amount with at most four digits after the point, and where
/// there is a point, it is neither the last character nor followed by digits that
/// end in a zero.
pub proof fn shown_amounts_have_no_trailing_zeros(figure: Figure)
    requires
        figure.valid(),
    ensures
        ({
            let places = figure.rounded(SCALE as nat).normalized().scale;
            let shown = figure.rendered();
            &&& places <= SCALE
            &&& places > 0 ==> {
                &&& places + 1 < shown.len()
                &&& shown.last() != '0'
                &&& forall|i: int|
                    0 <= i < shown.len() ==> (#[trigger] shown[i] == '.' <==> i == shown.len()
                        - places - 1)
            }
            &&& places == 0 ==> forall|i: int| 0 <= i < shown.len() ==> #[trigger] shown[i] != '.'
        }),
{
    rounding_limits_the_places(figure, SCALE as nat);
    trimming_zeros_keeps_the_number(figure.rounded(SCALE as nat));
    let number = figure.rounded(SCALE as nat).normalized();
    let power = text::pow10(number.scale);
    lemma_whole_digits(number.magnitude / power);
    if number.scale > 0 {
        let rest = number.magnitude % power;
        lemma_last_place(rest, number.scale);
        let tenth = text::pow10((number.scale - 1) as nat);
        lemma_pow10((number.scale - 1) as nat, 0);
        let magnitude = number.magnitude;
        assert(rest % 10 == magnitude % 10) by (nonlinear_arith)
            requires
                rest == magnitude % power,
                power == 10 * tenth,
                tenth > 0,
        {
            let whole = magnitude / power;
            assert(magnitude == whole * (10 * tenth) + rest);
            assert(magnitude == 10 * (whole * tenth) + rest);
            assert((10 * (whole * tenth) + rest) % 10 == rest % 10);
        }
    }
}

/// Digits appended to digits: the value is that of both in a row.
proof fn lemma_digits_in_a_row(front: Seq<char>, number: nat, width: nat)
    requires
        text::digits_value(front, 10) is Some,
        number < text::pow10(width),
    ensures
        text::digits_value(front + text::padded_digits(number, width), 10) == Some(
            text::digits_value(front, 10)->0 * text::pow10(width) + number,
        ),
    decreases width,
{
    let places = text::padded_digits(number, width);
    let value = text::digits_value(front, 10)->0;
    if width == 0 {
        assert(front + places =~= front);
        assert(value * 1 == value) by (nonlinear_arith);
    } else {
        let short = (width - 1) as nat;
        let power = text::pow10(short);
        assert(text::pow10(width) == 10 * power);
        assert(number / 10 < power);
        lemma_digits_in_a_row(front, number / 10, short);
        let last = text::digit_char(number % 10);
        assert(places == text::padded_digits(number / 10, short).push(last));
        assert((front + places).drop_last() =~= front + text::padded_digits(number / 10, short));
        assert((front + places).last() == last);
        assert(text::digit_value(last, 10) == Some((number % 10) as nat));
        assert((value * power + number / 10) * 10 + number % 10 == value * (10 * power) + number)
            by (nonlinear_arith);
    }
}

/// The digits of a whole number have its value, and the first of them is no sign.
proof fn lemma_digits_value(number: nat)
    ensures
        text::digits_value(text::decimal_digits(number), 10) == Some(number),
        '0' <= text::decimal_digits(number)[0] <= '9',
    decreases number,
{
    let digits = text::decimal_digits(number);
    lemma_whole_digits(number);
    if number >= 10 {
        lemma_digits_value(number / 10);
        lemma_whole_digits(number / 10);
        let last = text::digit_char(number % 10);
        assert(digits == text::decimal_digits(number / 10).push(last));
        assert(digits.drop_last() =~= text::decimal_digits(number / 10));
        assert(text::digit_value(last, 10) == Some((number % 10) as nat));
    } else {
        let last = text::digit_char(number);
        assert(digits == seq![last]);
        assert(digits.drop_last() =~= Seq::<char>::empty());
        assert(digits.last() == last);
        assert(text::digit_value(last, 10) == Some(number));
        assert(text::digits_value(digits.drop_last(), 10) == Some(0nat));
    }
}

/// A decimal that is written out with all its places is the one the text writes
/// out.
pub proof fn what_is_written_out_is_that_decimal(figure: Figure)
    requires
        figure.written_plainly(),
    ensures
        decimal_in(figure.text()) == Some(figure),
{
    let power = text::pow10(figure.scale);
    lemma_pow10(figure.scale, 0);
    let magnitude = figure.magnitude;
    let front = text::decimal_digits(magnitude / power);
    let rest = magnitude % power;
    let places = text::padded_digits(rest, figure.scale);
    let written = figure.text();
    lemma_whole_digits(magnitude / power);
    lemma_digits_value(magnitude / power);
    assert(rest < power && (magnitude / power) * power + rest == magnitude) by (nonlinear_arith)
        requires
            power > 0,
            rest == magnitude % power,
    ;
    lemma_digits_in_a_row(front, rest, figure.scale);
    let number = if figure.negative {
        written.skip(1)
    } else {
        written
    };
    number.index_of_first_ensures('.');
    if figure.scale > 0 {
        lemma_last_place(rest, figure.scale);
        assert(number =~= front + seq!['.'] + places);
        assert(number[front.len() as int] == '.');
        let point = number.index_of_first('.')->0;
        assert(point == front.len()) by {
            if point < front.len() {
                assert(front[point] == '.');
            }
        }
        assert(number.take(point) =~= front);
        assert(number.skip(point + 1) =~= places);
    } else {
        assert(number =~= front);
        assert(places == Seq::<char>::empty());
        assert(front + Seq::<char>::empty() =~= front);
    }
    if !figure.negative {
        assert(written[0] == front[0]);
    }
}

/// Whether one figure is what another comes to with at most `places` decimal
/// places: the other itself if it has no more than that, and otherwise the count of
/// units of the last place kept that is nearest to it, the even one of the two if
/// both are equally near. What comes to nothing has no sign, unless it was nothing
/// with a sign before.
pub open spec fn rounds_to(figure: Figure, kept: Figure, places: nat) -> bool {
    let unit = text::pow10((MAX_SCALE - places) as nat);
    let twice_off = 2 * (kept.units() - figure.units());
    &&& kept.valid()
    &&& figure.scale <= places ==> kept == figure
    &&& figure.scale > places ==> kept.scale == places
    &&& -unit <= twice_off <= unit
    &&& twice_off == unit || twice_off == -unit ==> kept.signed() % 2 == 0
    &&& kept.is_zero() ==> kept.negative == (figure.is_zero() && figure.negative)
}

/// Rounding goes to the nearest neighbour, and to the even one in a tie.
pub proof fn rounding_goes_to_the_even_neighbour_in_a_tie(figure: Figure, places: nat)
    requires
        figure.valid(),
        places <= MAX_SCALE,
    ensures
        rounds_to(figure, figure.rounded(places), places),
{
    let top = MAX_SCALE as nat;
    let rounded = figure.rounded(places);
    rounding_limits_the_places(figure, places);
    rounding_goes_to_a_nearest_neighbour(figure, places);
    lemma_pow10((top - places) as nat, 0);
    if figure.scale > places {
        if figure.is_zero() {
            lemma_zero(figure, top);
            lemma_zero(rounded, top);
        } else {
            let short = (figure.scale - places) as nat;
            let fine = (top - figure.scale) as nat;
            lemma_pow10(short, fine);
            lemma_pow10(fine, 0);
            lemma_pow10(short, 0);
            assert(short + fine == (top - places) as nat);
            let unit = text::pow10(short) as int;
            let power = text::pow10(fine) as int;
            let magnitude = figure.magnitude as int;
            let kept = rounded.magnitude as int;
            let whole = magnitude / unit;
            let rest = magnitude % unit;
            assert(magnitude == whole * unit + rest && 0 <= rest < unit) by (nonlinear_arith)
                requires
                    unit > 0,
                    whole == magnitude / unit,
                    rest == magnitude % unit,
            ;
            assert((whole + 1) * unit == whole * unit + unit) by (nonlinear_arith);
            let off = kept * unit - magnitude;
            assert(2 * off == unit || 2 * off == -unit ==> kept % 2 == 0);
            assert(2 * (off * power) == unit * power ==> 2 * off == unit) by (nonlinear_arith)
                requires
                    power > 0,
            ;
            assert(2 * (off * power) == -(unit * power) ==> 2 * off == -unit) by (nonlinear_arith)
                requires
                    power > 0,
            ;
            assert(off * power == kept * (unit * power) - magnitude * power) by (nonlinear_arith)
                requires
                    off == kept * unit - magnitude,
            ;
            assert(-kept * (unit * power) == -(kept * (unit * power))) by (nonlinear_arith);
            assert(-magnitude * power == -(magnitude * power)) by (nonlinear_arith);
            assert(0 * (unit * power) == 0);
        }
    }
}

/// A sum is kept exactly where it fits. Adding zero gives the other figure; any
/// other sum has all the decimal places of its wider operand and a sign only if it
/// is negative; and where there is none, no decimal with those places is the sum.
pub proof fn a_sum_is_kept_exactly_where_it_fits(left: Figure, right: Figure)
    requires
        left.valid(),
        right.valid(),
    ensures
        left.is_zero() ==> exact_sum(left, right) == Some(right),
        right.is_zero() && !left.is_zero() ==> exact_sum(left, right) == Some(left),
        !left.is_zero() && !right.is_zero() ==> match exact_sum(left, right) {
            Some(sum) => {
                &&& sum.valid()
                &&& sum.units() == left.units() + right.units()
                &&& sum.scale == wider_scale(left, right)
                &&& sum.negative <==> sum.units() < 0
            },
            None => forall|figure: Figure|
                figure.valid() && figure.scale == wider_scale(left, right)
                    ==> #[trigger] figure.units() != left.units() + right.units(),
        },
{
    if exact_sum(left, right) is Some {
        exact_sums_never_round(left, right);
        lemma_sign(exact_sum(left, right)->0);
    } else {
        assert forall|figure: Figure|
            figure.valid() && figure.scale == wider_scale(left, right) implies
            #[trigger] figure.units() != left.units() + right.units() by {
            if figure.units() == left.units() + right.units() {
                only_sums_that_do_not_fit_are_refused(left, right, figure);
            }
        }
    }
}

/// A difference is kept exactly where it fits. Subtracting zero changes nothing, and
/// subtracting from zero turns the sign round; any other difference has all the
/// decimal places of its wider operand and a sign only if it is negative; and where
/// there is none, no decimal with those places is the difference.
pub proof fn a_difference_is_kept_exactly_where_it_fits(left: Figure, right: Figure)
    requires
        left.valid(),
        right.valid(),
    ensures
        right.is_zero() && !left.is_zero() ==> exact_difference(left, right) == Some(left),
        right.is_zero() && left.is_zero() ==> exact_difference(left, right) == Some(right),
        left.is_zero() && !right.is_zero() ==> exact_difference(left, right) == Some(
            Figure { negative: !right.negative, ..right },
        ),
        !left.is_zero() && !right.is_zero() ==> match exact_difference(left, right) {
            Some(difference) => {
                &&& difference.valid()
                &&& difference.units() == left.units() - right.units()
                &&& difference.scale == wider_scale(left, right)
                &&& difference.negative <==> difference.units() < 0
            },
            None => forall|figure: Figure|
                figure.valid() && figure.scale == wider_scale(left, right)
                    ==> #[trigger] figure.units() != left.units() - right.units(),
        },
{
    if exact_difference(left, right) is Some {
        exact_differences_never_round(left, right);
        lemma_sign(exact_difference(left, right)->0);
    } else {
        assert forall|figure: Figure|
            figure.valid() && figure.scale == wider_scale(left, right) implies
            #[trigger] figure.units() != left.units() - right.units() by {
            if figure.units() == left.units() - right.units() {
                only_differences_that_do_not_fit_are_refused(left, right, figure);
            }
        }
    }
}

/// A figure counts below zero exactly when it has a sign and is not zero.
proof fn lemma_sign(figure: Figure)
    ensures
        figure.units() < 0 <==> figure.signed() < 0,
{
    lemma_pow10((MAX_SCALE - figure.scale) as nat, 0);
    let power = text::pow10((MAX_SCALE - figure.scale) as nat) as int;
    let signed = figure.signed();
    assert(signed * power < 0 <==> signed < 0) by (nonlinear_arith)
        requires
            power > 0,
    ;
}

/// A figure is written without ornament: a minus sign exactly if it has a sign, no
/// plus sign, no leading zeros, and a point exactly if it has decimal places, with
/// one digit behind it for each of them.
pub proof fn figures_are_written_without_ornament(figure: Figure)
    ensures
        ({
            let written = figure.text();
            let number = if figure.negative {
                written.skip(1)
            } else {
                written
            };
            let whole = number.len() - if figure.scale > 0 {
                figure.scale + 1
            } else {
                0
            };
            &&& written[0] == '-' <==> figure.negative
            &&& whole > 0
            &&& forall|i: int|
                0 <= i < number.len() ==> if i == whole {
                    number[i] == '.'
                } else {
                    '0' <= #[trigger] number[i] && number[i] <= '9'
                }
            &&& number[0] == '0' ==> whole == 1
        }),
{
    let power = text::pow10(figure.scale);
    let front = text::decimal_digits(figure.magnitude / power);
    let places = text::padded_digits(figure.magnitude % power, figure.scale);
    let written = figure.text();
    let number = if figure.negative {
        written.skip(1)
    } else {
        written
    };
    text::a_number_reads_back_from_its_digits(figure.magnitude / power);
    lemma_places_are_digits(figure.magnitude % power, figure.scale);
    if figure.scale > 0 {
        assert(number =~= front + seq!['.'] + places);
    } else {
        assert(number =~= front);
    }
    if !figure.negative {
        assert(written[0] == front[0]);
    }
}

/// Decimal places are written as digits, as many of them as were asked for.
proof fn lemma_places_are_digits(number: nat, width: nat)
    ensures
        ({
            let places = text::padded_digits(number, width);
            &&& places.len() == width
            &&& forall|i: int|
                0 <= i < places.len() ==> '0' <= #[trigger] places[i] && places[i] <= '9'
        }),
    decreases width,
{
    if width > 0 {
        lemma_places_are_digits(number / 10, (width - 1) as nat);
    }
}

/// What the output shows of an amount reads back as the amount rounded to four
/// decimal places.
pub proof fn what_is_shown_reads_back(figure: Figure)
    requires
        figure.valid(),
    ensures
        decimal_in(figure.rendered()) matches Some(shown) && exists|kept: Figure|
            #[trigger] rounds_to(figure, kept, SCALE as nat) && shown.units() == kept.units(),
        decimal_in(figure.rendered()) matches Some(shown) && figure.rendered() == shown.text()
            && (shown.scale > 0 ==> shown.magnitude % 10 != 0),
{
    let kept = figure.rounded(SCALE as nat);
    rounding_goes_to_the_even_neighbour_in_a_tie(figure, SCALE as nat);
    rounding_limits_the_places(figure, SCALE as nat);
    trimming_zeros_keeps_the_number(kept);
    what_is_written_out_is_that_decimal(kept.normalized());
}

/// A figure can be made for any count of units of any scale: it has that scale and
/// that count, and a sign exactly where the count is negative.
pub proof fn a_fixed_figure_counts_its_units(value: int, scale: nat)
    ensures
        ({
            let figure = fixed(value, scale);
            &&& figure.scale == scale
            &&& figure.signed() == value
            &&& figure.negative <==> value < 0
            &&& figure.valid() <==> scale <= MAX_SCALE && countable(value)
        }),
{
    lemma_fixed(value, scale);
}

/// The figure zero counts nothing and has neither a sign nor decimal places.
pub proof fn zero_counts_nothing()
    ensures
        zero_figure().valid(),
        zero_figure().units() == 0,
        zero_figure().scale == 0,
        !zero_figure().negative,
        zero_figure().text() == seq!['0'],
{
    lemma_zero(zero_figure(), MAX_SCALE as nat);
    assert(text::pow10(0) == 1);
    assert(zero_figure().text() =~= seq!['0']);
}

/// An optional amount has a figure exactly where there is an amount, and that one's.
pub proof fn an_optional_amount_has_its_own_figure(amount: Option<Amount>)
    ensures
        figure_in(amount) is Some <==> amount is Some,
        amount matches Some(given) ==> figure_in(amount) == Some(given@),
{
}

} // verus!
