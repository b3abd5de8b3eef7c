//! Fixed-point amounts of money.
//!
//! An [`Amount`] is a sign, a magnitude of 96 bits and a scale: the number of
//! decimal places that the magnitude carries. Arithmetic, comparison, rounding
//! and text come from the `rust_decimal` crate; this module says what its
//! functions are relied on to do. [`Number`] is the mathematical value of an
//! amount, and every contract speaks of it.
use crate::text::{
    all_digits, all_zeros, decimal_digits, digits_value, law_digits_show_places, law_padded_digits_show_places,
    lemma_decimal_digits, lemma_digits_value_concat, lemma_digits_spell_nonnegative, lemma_padded_digits,
    lemma_padded_digits_shifted, padded_digits, plain_text,
};
use rust_decimal::Decimal;
use std::str::FromStr;
use vstd::arithmetic::power::{lemma_pow_adds, lemma_pow_positive, pow};
use vstd::prelude::*;
use vstd::std_specs::cmp::PartialEqSpec;

verus! {

/// The error of `rust_decimal`, carried through unread.
#[verifier::external_type_specification]
#[verifier::external_body]
pub struct ExDecimalError(rust_decimal::Error);

/// Most decimal places that an amount can carry.
pub const MAX_SCALE: u8 = 28;

/// Magnitudes are below this bound.
pub open spec fn magnitude_bound() -> nat {
    0x1_0000_0000_0000_0000_0000_0000
}

/// The mathematical value of an [`Amount`]: `magnitude / 10^scale`, with a
/// sign. Zero may carry either sign.
#[verifier::ext_equal]
pub struct Number {
    pub negative: bool,
    pub magnitude: nat,
    pub scale: nat,
}

impl Number {
    /// The value is one that an [`Amount`] can hold.
    pub open spec fn valid(self) -> bool {
        self.magnitude < magnitude_bound() && self.scale <= MAX_SCALE
    }

    pub open spec fn is_zero(self) -> bool {
        self.magnitude == 0
    }

    pub open spec fn mantissa(self) -> int {
        if self.negative {
            -self.magnitude
        } else {
            self.magnitude as int
        }
    }

    /// The mantissa of the same value at `scale` decimal places.
    pub open spec fn at(self, scale: nat) -> int {
        self.mantissa() * pow(10, (scale - self.scale) as nat)
    }

    /// The value counted in units of the smallest decimal place.
    pub open spec fn units(self) -> int {
        self.at(MAX_SCALE as nat)
    }

    pub open spec fn negated(self) -> Number {
        Number { negative: !self.negative, ..self }
    }
}

/// The number with this mantissa and this scale; zero is positive.
pub open spec fn number(mantissa: int, scale: nat) -> Number {
    Number {
        negative: mantissa < 0,
        magnitude: (if mantissa < 0 { -mantissa } else { mantissa }) as nat,
        scale,
    }
}

pub open spec fn wider_scale(a: Number, b: Number) -> nat {
    if a.scale < b.scale {
        b.scale
    } else {
        a.scale
    }
}

/// Whether a mantissa fits the 96 bits of a magnitude.
pub open spec fn fits(mantissa: int) -> bool {
    -magnitude_bound() < mantissa < magnitude_bound()
}

/// The sum at the larger of the two scales, where it fits. A zero operand
/// yields the other operand as it is. A sum of integers that does not fit
/// overflows; `rounded` is the outcome for other sums that need more digits
/// than a magnitude holds.
pub open spec fn sum_given(a: Number, b: Number, rounded: Option<Number>) -> Option<Number> {
    let scale = wider_scale(a, b);
    let mantissa = a.at(scale) + b.at(scale);
    if a.is_zero() {
        Some(b)
    } else if b.is_zero() {
        Some(a)
    } else if fits(mantissa) {
        Some(number(mantissa, scale))
    } else if scale == 0 {
        None
    } else {
        rounded
    }
}

/// The difference, in the manner of [`sum_given`].
pub open spec fn difference_given(a: Number, b: Number, rounded: Option<Number>) -> Option<Number> {
    let scale = wider_scale(a, b);
    let mantissa = a.at(scale) - b.at(scale);
    if a.is_zero() {
        Some(if b.is_zero() { b } else { b.negated() })
    } else if b.is_zero() {
        Some(a)
    } else if fits(mantissa) {
        Some(number(mantissa, scale))
    } else if scale == 0 {
        None
    } else {
        rounded
    }
}

/// What `Decimal::checked_add` gives for a sum with decimal places that does
/// not fit at the larger scale: a sum of fewer places, or nothing.
pub uninterp spec fn rounded_sum(a: Number, b: Number) -> Option<Number>;

/// What `Decimal::checked_sub` gives for a difference with decimal places that
/// does not fit at the larger scale.
pub uninterp spec fn rounded_difference(a: Number, b: Number) -> Option<Number>;

/// The sum of two amounts; `None` where it overflows.
pub open spec fn sum(a: Number, b: Number) -> Option<Number> {
    sum_given(a, b, rounded_sum(a, b))
}

/// The difference of two amounts; `None` where it overflows.
pub open spec fn difference(a: Number, b: Number) -> Option<Number> {
    difference_given(a, b, rounded_difference(a, b))
}

/// The smaller of two numbers; the first where they are equal.
pub open spec fn min_of(a: Number, b: Number) -> Number {
    if b.units() < a.units() {
        b
    } else {
        a
    }
}

/// `n / d` rounded to the nearest integer, ties to the even one.
pub open spec fn half_even(n: nat, d: nat) -> nat {
    let q = n / d;
    let r = n % d;
    if 2 * r > d || (2 * r == d && q % 2 == 1) {
        q + 1
    } else {
        q
    }
}

/// The number brought to at most `places` decimal places.
pub open spec fn rounded(n: Number, places: nat) -> Number {
    let q = half_even(n.magnitude, pow(10, (n.scale - places) as nat) as nat);
    if n.scale <= places {
        n
    } else if n.is_zero() {
        Number { scale: places, ..n }
    } else {
        Number { negative: n.negative && q != 0, magnitude: q, scale: places }
    }
}

/// The `len` low bytes of `n`, least significant first.
pub open spec fn le_bytes(n: nat, len: nat) -> Seq<u8>
    decreases len,
{
    if len == 0 {
        Seq::empty()
    } else {
        seq![(n % 256) as u8] + le_bytes(n / 256, (len - 1) as nat)
    }
}

/// The number that these bytes spell, least significant first.
pub open spec fn le_value(bytes: Seq<u8>) -> nat
    decreases bytes.len(),
{
    if bytes.len() == 0 {
        0
    } else {
        bytes[0] as nat + 256 * le_value(bytes.drop_first())
    }
}

/// The sixteen bytes of a stored amount: two unused bytes, the scale, the sign
/// and the magnitude.
pub open spec fn serialized(n: Number) -> Seq<u8> {
    seq![0u8, 0u8, n.scale as u8, if n.negative { 128u8 } else { 0u8 }] + le_bytes(n.magnitude, 12)
}

/// The amount that sixteen stored bytes hold. A scale beyond the largest is
/// brought down to it, and the magnitude goes up by one if five or more is cut
/// off.
pub open spec fn deserialized(bytes: Seq<u8>) -> Number {
    let negative = bytes[3] >= 128;
    let magnitude = le_value(bytes.subrange(4, 16));
    let scale = (bytes[2] % 32) as nat;
    let cut = pow(10, (scale - MAX_SCALE) as nat) as nat;
    if scale <= MAX_SCALE {
        Number { negative, magnitude, scale }
    } else {
        Number {
            negative,
            magnitude: if magnitude % cut >= 5 {
                magnitude / cut + 1
            } else {
                magnitude / cut
            },
            scale: MAX_SCALE as nat,
        }
    }
}

/// The number that a decimal in plain notation spells; zero is positive.
pub open spec fn plain_number(negative: bool, whole: Seq<char>, fraction: Seq<char>) -> Number {
    let magnitude = digits_value(whole + fraction) as nat;
    Number { negative: negative && magnitude != 0, magnitude, scale: fraction.len() }
}

/// A decimal in plain notation that an amount can hold as it stands.
pub open spec fn is_plain(whole: Seq<char>, fraction: Seq<char>) -> bool {
    &&& all_digits(whole)
    &&& all_digits(fraction)
    &&& whole.len() > 0
    &&& fraction.len() <= MAX_SCALE
    &&& digits_value(whole + fraction) < magnitude_bound()
}

/// A text of that form was read as that number. Zeros at the end of its
/// fraction, of which an amount may have no room for all, change the scale at
/// most.
pub open spec fn reads_plain_text(text: Seq<char>, read: Result<Amount, rust_decimal::Error>) -> bool {
    &&& forall|negative: bool, whole: Seq<char>, fraction: Seq<char>|
        text == #[trigger] plain_text(negative, whole, fraction) && is_plain(whole, fraction) ==> (read matches Ok(
            a,
        ) && a@ == plain_number(negative, whole, fraction))
    &&& forall|negative: bool, whole: Seq<char>, fraction: Seq<char>, zeros: Seq<char>|
        text == #[trigger] plain_text(negative, whole, fraction + zeros) && is_plain(whole, fraction) && all_zeros(
            zeros,
        ) ==> (read matches Ok(a) && a@.units() == plain_number(negative, whole, fraction).units())
}

/// What `Decimal::from_str` reads in a text; `None` where it fails.
pub uninterp spec fn number_of_text(text: Seq<char>) -> Option<Number>;

/// The number written with `places` decimal places.
pub open spec fn fixed_text(n: Number, places: nat) -> Seq<char> {
    let scaled = n.magnitude * pow(10, (places - n.scale) as nat);
    let one = pow(10, places);
    plain_text(
        n.negative,
        decimal_digits((scaled / one) as nat),
        padded_digits((scaled % one) as nat, places),
    )
}

/// Most characters of a number in text, without its sign.
pub const MAX_TEXT_LEN: u32 = 32;

/// The number needs no rounding to be written with `places` decimal places,
/// and its text is short enough.
pub open spec fn has_fixed_text(n: Number, places: nat) -> bool {
    &&& n.scale <= places
    &&& 1 <= places <= MAX_SCALE
    &&& n.magnitude * pow(10, (places - n.scale) as nat) < pow(10, (MAX_TEXT_LEN - 1) as nat)
}

/// The value of an optional amount.
pub open spec fn opt_number(amount: Option<Amount>) -> Option<Number> {
    match amount {
        Some(a) => Some(a@),
        None => None,
    }
}

/// A fixed-point amount.
#[derive(Clone, Copy, Debug)]
pub struct Amount {
    lo: u32,
    mid: u32,
    hi: u32,
    scale: u8,
    negative: bool,
}

impl View for Amount {
    type V = Number;

    closed spec fn view(&self) -> Number {
        Number {
            negative: self.negative,
            magnitude: (self.lo + self.mid * 0x1_0000_0000 + self.hi * 0x1_0000_0000_0000_0000) as nat,
            scale: self.scale as nat,
        }
    }
}

/// Calls `Decimal::checked_add`. The contract claims: a zero operand yields the
/// other operand; a sum whose mantissa at the larger of the two scales stays
/// within 96 bits is exact, at that scale; a sum of integers beyond 96 bits
/// overflows; any other outcome depends on the two operands alone.
#[verifier::external_body]
fn decimal_checked_add(a: Amount, b: Amount) -> (r: Option<Amount>)
    requires
        a@.valid(),
        b@.valid(),
    ensures
        opt_number(r) == sum_given(a@, b@, rounded_sum(a@, b@)),
{
    let mut x = Decimal::from_parts(a.lo, a.mid, a.hi, a.negative, u32::from(a.scale));
    x.set_sign_negative(a.negative);
    let mut y = Decimal::from_parts(b.lo, b.mid, b.hi, b.negative, u32::from(b.scale));
    y.set_sign_negative(b.negative);
    let u = x.checked_add(y)?.unpack();
    Some(Amount { lo: u.lo, mid: u.mid, hi: u.hi, scale: u.scale as u8, negative: u.negative })
}

/// Calls `Decimal::checked_sub`. The contract claims of the difference what
/// that of the addition claims of the sum; zero minus a number is that number
/// with the other sign.
#[verifier::external_body]
fn decimal_checked_sub(a: Amount, b: Amount) -> (r: Option<Amount>)
    requires
        a@.valid(),
        b@.valid(),
    ensures
        opt_number(r) == difference_given(a@, b@, rounded_difference(a@, b@)),
{
    let mut x = Decimal::from_parts(a.lo, a.mid, a.hi, a.negative, u32::from(a.scale));
    x.set_sign_negative(a.negative);
    let mut y = Decimal::from_parts(b.lo, b.mid, b.hi, b.negative, u32::from(b.scale));
    y.set_sign_negative(b.negative);
    let u = x.checked_sub(y)?.unpack();
    Some(Amount { lo: u.lo, mid: u.mid, hi: u.hi, scale: u.scale as u8, negative: u.negative })
}

/// Calls `<` of `Decimal`. The contract claims that it compares the values,
/// whatever the scales and the sign of a zero.
#[verifier::external_body]
fn decimal_lt(a: Amount, b: Amount) -> (r: bool)
    requires
        a@.valid(),
        b@.valid(),
    ensures
        r == (a@.units() < b@.units()),
{
    let x = Decimal::from_parts(a.lo, a.mid, a.hi, a.negative, u32::from(a.scale));
    let y = Decimal::from_parts(b.lo, b.mid, b.hi, b.negative, u32::from(b.scale));
    x < y
}

/// Calls `Decimal::round_dp`. The contract claims that it leaves numbers of few
/// enough places alone and otherwise rounds the magnitude to the nearest, ties
/// to even; a magnitude that rounds to zero loses its sign.
#[verifier::external_body]
fn decimal_round_dp(a: Amount, places: u32) -> (r: Amount)
    requires
        a@.valid(),
    ensures
        r@ == rounded(a@, places as nat),
{
    let mut x = Decimal::from_parts(a.lo, a.mid, a.hi, a.negative, u32::from(a.scale));
    x.set_sign_negative(a.negative);
    let u = x.round_dp(places).unpack();
    Amount { lo: u.lo, mid: u.mid, hi: u.hi, scale: u.scale as u8, negative: u.negative }
}

/// Calls `Decimal::serialize`. The contract claims the documented layout: four
/// bytes of flags, of which the third is the scale and the top bit of the
/// fourth the sign, then the magnitude from its lowest byte on.
#[verifier::external_body]
fn decimal_serialize(a: Amount) -> (r: [u8; 16])
    requires
        a@.valid(),
    ensures
        r@ == serialized(a@),
{
    let mut x = Decimal::from_parts(a.lo, a.mid, a.hi, a.negative, u32::from(a.scale));
    x.set_sign_negative(a.negative);
    x.serialize()
}

/// Calls `Decimal::deserialize`. The contract claims that it reads the layout
/// of `Decimal::serialize`, of the flags only the five low bits of the scale
/// byte and the sign bit; and that it divides the magnitude by the power of ten
/// by which the scale exceeds the largest, and adds one if the remainder is
/// five or more.
#[verifier::external_body]
fn decimal_deserialize(bytes: [u8; 16]) -> (r: Amount)
    ensures
        r@ == deserialized(bytes@),
{
    let u = Decimal::deserialize(bytes).unpack();
    Amount { lo: u.lo, mid: u.mid, hi: u.hi, scale: u.scale as u8, negative: u.negative }
}

/// Calls `Decimal::from_str`. The contract claims that the outcome depends on
/// the text alone; that a decimal in plain notation of at most 28 digits behind
/// the point, whose digits together stay within 96 bits, is read as it stands,
/// with one decimal place for each digit behind the point; and that any number
/// of zeros behind such a decimal's fraction leaves the value as it is.
#[verifier::external_body]
fn decimal_from_str(text: &str) -> (r: Result<Amount, rust_decimal::Error>)
    ensures
        number_of_text(text@) == (match r {
            Ok(a) => Some(a@),
            Err(_) => None,
        }),
        reads_plain_text(text@, r),
{
    let u = Decimal::from_str(text)?.unpack();
    Ok(Amount { lo: u.lo, mid: u.mid, hi: u.hi, scale: u.scale as u8, negative: u.negative })
}

/// Formats a `Decimal` with a precision. The contract claims, of a number that
/// has no more places than asked for and whose text fits the buffer of 32
/// characters that `Decimal` formats into: a minus sign if the sign is set, the
/// whole part without leading zeros, a point, and the fraction filled up with
/// zeros.
#[verifier::external_body]
fn decimal_to_text(a: Amount, places: usize) -> (r: String)
    requires
        a@.valid(),
        has_fixed_text(a@, places as nat),
    ensures
        r@ == fixed_text(a@, places as nat),
{
    let mut x = Decimal::from_parts(a.lo, a.mid, a.hi, a.negative, u32::from(a.scale));
    x.set_sign_negative(a.negative);
    format!("{:.1$}", x, places)
}

impl Amount {
    #[verifier::type_invariant]
    spec fn well_scaled(self) -> bool {
        self.scale <= MAX_SCALE
    }

    /// The amount with these parts: three words of the magnitude, the sign and
    /// the scale. `None` if the scale is too large.
    pub fn from_parts(lo: u32, mid: u32, hi: u32, negative: bool, scale: u32) -> (r: Option<Amount>)
        ensures
            r is Some <==> scale <= MAX_SCALE,
            r matches Some(a) ==> a@ == (Number {
                negative,
                magnitude: (lo + mid * 0x1_0000_0000 + hi * 0x1_0000_0000_0000_0000) as nat,
                scale: scale as nat,
            }) && a@.valid(),
    {
        if scale <= MAX_SCALE as u32 {
            Some(Amount { lo, mid, hi, scale: scale as u8, negative })
        } else {
            None
        }
    }

    /// Zero, with no decimal places.
    pub fn zero() -> (a: Amount)
        ensures
            a@ == number(0, 0),
    {
        Amount { lo: 0, mid: 0, hi: 0, scale: 0, negative: false }
    }

    /// The same amount, known to be valid.
    pub(crate) fn validated(self) -> (a: Amount)
        ensures
            a == self,
            a@.valid(),
    {
        proof {
            use_type_invariant(&self);
        }
        self
    }

    /// The sum, or `None` on overflow.
    pub fn checked_add(self, other: Amount) -> (r: Option<Amount>)
        ensures
            opt_number(r) == sum(self@, other@),
    {
        decimal_checked_add(self.validated(), other.validated())
    }

    /// The difference, or `None` on overflow.
    pub fn checked_sub(self, other: Amount) -> (r: Option<Amount>)
        ensures
            opt_number(r) == difference(self@, other@),
    {
        decimal_checked_sub(self.validated(), other.validated())
    }

    /// Whether this amount is less than the other one.
    pub fn is_less(self, other: Amount) -> (r: bool)
        ensures
            r == (self@.units() < other@.units()),
    {
        decimal_lt(self.validated(), other.validated())
    }

    /// The smaller of the two amounts; this one where they are equal.
    pub fn min(self, other: Amount) -> (r: Amount)
        ensures
            r@ == min_of(self@, other@),
    {
        if other.is_less(self) {
            other
        } else {
            self
        }
    }

    /// The amount rounded to at most `places` decimal places, ties to even.
    pub fn round_dp(self, places: u32) -> (r: Amount)
        ensures
            r@ == rounded(self@, places as nat),
    {
        decimal_round_dp(self.validated(), places)
    }

    /// The amount that a text spells.
    pub fn parse(text: &str) -> (r: Result<Amount, rust_decimal::Error>)
        ensures
            number_of_text(text@) == (match r {
                Ok(a) => Some(a@),
                Err(_) => None,
            }),
            reads_plain_text(text@, r),
    {
        decimal_from_str(text)
    }

    /// The amount written with `places` decimal places.
    pub fn to_fixed(self, places: usize) -> (r: String)
        requires
            has_fixed_text(self@, places as nat),
        ensures
            r@ == fixed_text(self@, places as nat),
    {
        decimal_to_text(self.validated(), places)
    }

    /// The sixteen bytes that store this amount.
    pub fn serialize(self) -> (r: [u8; 16])
        ensures
            r@ == serialized(self@),
    {
        decimal_serialize(self.validated())
    }

    /// The amount that sixteen bytes store.
    pub fn deserialize(bytes: [u8; 16]) -> (r: Amount)
        ensures
            r@ == deserialized(bytes@),
    {
        decimal_deserialize(bytes)
    }
}

impl vstd::std_specs::cmp::PartialEqSpecImpl for Amount {
    open spec fn obeys_eq_spec() -> bool {
        true
    }

    open spec fn eq_spec(&self, other: &Amount) -> bool {
        self@.units() == other@.units()
    }
}

impl PartialEq for Amount {
    fn eq(&self, other: &Amount) -> (r: bool) {
        !self.is_less(*other) && !other.is_less(*self)
    }
}

/// The sum exists and loses no digit.
pub open spec fn sum_is_exact(a: Number, b: Number) -> bool {
    sum(a, b) matches Some(r) && r.units() == a.units() + b.units()
}

/// The difference exists and loses no digit.
pub open spec fn difference_is_exact(a: Number, b: Number) -> bool {
    difference(a, b) matches Some(r) && r.units() == a.units() - b.units()
}

/// A value counts the same units at every scale that can hold it.
proof fn lemma_units_at(n: Number, scale: nat)
    requires
        n.scale <= scale <= MAX_SCALE,
    ensures
        n.at(scale) * pow(10, (MAX_SCALE - scale) as nat) == n.units(),
{
    let m = n.mantissa();
    let p = pow(10, (scale - n.scale) as nat);
    let q = pow(10, (MAX_SCALE - scale) as nat);
    lemma_pow_adds(10, (scale - n.scale) as nat, (MAX_SCALE - scale) as nat);
    assert((m * p) * q == m * (p * q)) by (nonlinear_arith);
}

proof fn lemma_number_units(mantissa: int, scale: nat)
    requires
        scale <= MAX_SCALE,
    ensures
        number(mantissa, scale).mantissa() == mantissa,
        number(mantissa, scale).units() == mantissa * pow(10, (MAX_SCALE - scale) as nat),
{
}

pub proof fn lemma_zero_units(n: Number)
    requires
        n.is_zero(),
    ensures
        n.units() == 0,
{
    let m = n.mantissa();
    let p = pow(10, (MAX_SCALE - n.scale) as nat);
    assert(m * p == 0) by (nonlinear_arith)
        requires
            m == 0,
    ;
}

proof fn lemma_negated_units(n: Number)
    ensures
        n.negated().units() == -n.units(),
{
    let m = n.mantissa();
    let p = pow(10, (MAX_SCALE - n.scale) as nat);
    assert((-m) * p == -(m * p)) by (nonlinear_arith);
    assert(n.negated().mantissa() == -m);
}

/// A sum that fits 96 bits at the larger scale, or has a zero operand, is
/// exact.
pub proof fn law_fitting_sum_is_exact(a: Number, b: Number)
    requires
        a.valid(),
        b.valid(),
        a.is_zero() || b.is_zero() || fits(a.at(wider_scale(a, b)) + b.at(wider_scale(a, b))),
    ensures
        sum_is_exact(a, b),
        sum(a, b)->0.valid(),
{
    let scale = wider_scale(a, b);
    let p = pow(10, (MAX_SCALE - scale) as nat);
    lemma_units_at(a, scale);
    lemma_units_at(b, scale);
    lemma_number_units(a.at(scale) + b.at(scale), scale);
    assert((a.at(scale) + b.at(scale)) * p == a.at(scale) * p + b.at(scale) * p) by (nonlinear_arith);
    if a.is_zero() {
        lemma_zero_units(a);
    }
    if b.is_zero() {
        lemma_zero_units(b);
    }
}

/// A difference that fits 96 bits at the larger scale, or has a zero operand,
/// is exact.
pub proof fn law_fitting_difference_is_exact(a: Number, b: Number)
    requires
        a.valid(),
        b.valid(),
        a.is_zero() || b.is_zero() || fits(a.at(wider_scale(a, b)) - b.at(wider_scale(a, b))),
    ensures
        difference_is_exact(a, b),
        difference(a, b)->0.valid(),
{
    let scale = wider_scale(a, b);
    let p = pow(10, (MAX_SCALE - scale) as nat);
    lemma_units_at(a, scale);
    lemma_units_at(b, scale);
    lemma_number_units(a.at(scale) - b.at(scale), scale);
    assert((a.at(scale) - b.at(scale)) * p == a.at(scale) * p - b.at(scale) * p) by (nonlinear_arith);
    if a.is_zero() {
        lemma_zero_units(a);
    }
    if b.is_zero() {
        lemma_zero_units(b);
    }
    lemma_negated_units(b);
}

pub proof fn lemma_le_bytes_len(n: nat, len: nat)
    ensures
        le_bytes(n, len).len() == len,
    decreases len,
{
    if len > 0 {
        lemma_le_bytes_len(n / 256, (len - 1) as nat);
    }
}

/// Bytes read back as the number they were written from.
pub proof fn lemma_le_bytes_read_back(n: nat, len: nat)
    requires
        n < pow(256, len),
    ensures
        le_value(le_bytes(n, len)) == n,
    decreases len,
{
    reveal(pow);
    if len > 0 {
        let rest = le_bytes(n / 256, (len - 1) as nat);
        assert(pow(256, len) == 256 * pow(256, (len - 1) as nat));
        lemma_le_bytes_read_back(n / 256, (len - 1) as nat);
        assert(le_bytes(n, len).drop_first() =~= rest);
    }
}

/// An amount reads back as what was written.
pub proof fn law_amount_reads_back(n: Number)
    requires
        n.valid(),
    ensures
        serialized(n).len() == 16,
        deserialized(serialized(n)) == n,
{
    let bytes = serialized(n);
    lemma_le_bytes_len(n.magnitude, 12);
    assert(pow(256, 12) == magnitude_bound()) by {
        reveal_with_fuel(pow, 13);
    }
    lemma_le_bytes_read_back(n.magnitude, 12);
    assert(bytes.subrange(4, 16) =~= le_bytes(n.magnitude, 12));
}

/// Amounts of few places and moderate size are added and subtracted exactly:
/// if, counted at `places` decimal places, the two together stay below 96
/// bits, no digit is lost.
pub proof fn law_moderate_amounts_are_exact(a: Number, b: Number, places: nat)
    requires
        a.valid(),
        b.valid(),
        a.scale <= places <= MAX_SCALE,
        b.scale <= places,
        size(a.at(places)) + size(b.at(places)) < magnitude_bound(),
    ensures
        sum_is_exact(a, b),
        difference_is_exact(a, b),
{
    let scale = wider_scale(a, b);
    lemma_at_smaller_scale(a, scale, places);
    lemma_at_smaller_scale(b, scale, places);
    law_fitting_sum_is_exact(a, b);
    law_fitting_difference_is_exact(a, b);
}

/// The magnitude of an integer.
pub open spec fn size(n: int) -> int {
    if n < 0 {
        -n
    } else {
        n
    }
}

proof fn lemma_at_smaller_scale(n: Number, scale: nat, places: nat)
    requires
        n.scale <= scale <= places,
    ensures
        size(n.at(scale)) <= size(n.at(places)),
{
    let m = n.mantissa();
    let p = pow(10, (scale - n.scale) as nat);
    let q = pow(10, (places - scale) as nat);
    lemma_pow_adds(10, (scale - n.scale) as nat, (places - scale) as nat);
    lemma_pow_positive(10, (places - scale) as nat);
    assert((m * p) * q == m * (p * q)) by (nonlinear_arith);
    let x = m * p;
    assert(size(x) <= size(x * q)) by (nonlinear_arith)
        requires
            q >= 1,
    ;
}

/// Comparing units is comparing magnitudes at any scale that can hold the
/// number.
pub proof fn lemma_units_bound(n: Number, places: nat, bound: int)
    requires
        n.scale <= places <= MAX_SCALE,
        bound >= 0,
    ensures
        (-(bound * pow(10, (MAX_SCALE - places) as nat)) < n.units() < bound * pow(
            10,
            (MAX_SCALE - places) as nat,
        )) <==> n.magnitude * pow(10, (places - n.scale) as nat) < bound,
{
    let p = pow(10, (places - n.scale) as nat);
    let q = pow(10, (MAX_SCALE - places) as nat);
    let x = n.magnitude as int * p;
    let m = n.mantissa();
    lemma_units_at(n, places);
    lemma_pow_positive(10, (places - n.scale) as nat);
    lemma_pow_positive(10, (MAX_SCALE - places) as nat);
    assert(x >= 0) by (nonlinear_arith)
        requires
            x == n.magnitude as int * p,
            p > 0,
    ;
    assert(n.units() == (if n.negative { -(x * q) } else { x * q })) by (nonlinear_arith)
        requires
            n.units() == (m * p) * q,
            m == (if n.negative { -n.magnitude } else { n.magnitude as int }),
            x == n.magnitude as int * p,
    ;
    assert(x * q < bound * q <==> x < bound) by (nonlinear_arith)
        requires
            q > 0,
    ;
    assert(x * q >= 0 && bound * q >= 0) by (nonlinear_arith)
        requires
            q > 0,
            x >= 0,
            bound >= 0,
    ;
}

/// Rounding leaves at most the places asked for, and rounding again changes
/// nothing.
pub proof fn law_rounding_is_idempotent(n: Number, places: nat)
    ensures
        rounded(n, places).scale <= places,
        rounded(rounded(n, places), places) == rounded(n, places),
{
}

/// A rounded amount is an amount.
pub proof fn law_rounding_keeps_range(n: Number, places: nat)
    requires
        n.valid(),
        places <= MAX_SCALE,
    ensures
        rounded(n, places).valid(),
{
    if n.scale > places {
        let cut = pow(10, (n.scale - places) as nat);
        assert(cut >= 10) by {
            reveal(pow);
            lemma_pow_positive(10, (n.scale - places - 1) as nat);
        }
        let m = n.magnitude as int;
        assert(m / cut <= m / 10) by (nonlinear_arith)
            requires
                cut >= 10,
                m >= 0,
        ;
    }
}

/// A value that has no more than `places` decimal places survives rounding to
/// them, whatever its scale.
pub proof fn lemma_rounding_keeps_value(n: Number, same: Number, places: nat)
    requires
        n.scale <= MAX_SCALE,
        same.scale <= places <= MAX_SCALE,
        n.units() == same.units(),
    ensures
        rounded(n, places).units() == n.units(),
{
    if n.scale > places && !n.is_zero() {
        let cut = pow(10, (n.scale - places) as nat);
        let a = pow(10, (MAX_SCALE - n.scale) as nat);
        let m = n.mantissa();
        let t = same.at(places);
        lemma_units_at(same, places);
        lemma_pow_adds(10, (MAX_SCALE - n.scale) as nat, (n.scale - places) as nat);
        lemma_pow_positive(10, (MAX_SCALE - n.scale) as nat);
        lemma_pow_positive(10, (n.scale - places) as nat);
        assert(m == t * cut) by (nonlinear_arith)
            requires
                m * a == t * (a * cut),
                a > 0,
        ;
        let size_t = size(t);
        assert(n.magnitude == size_t * cut) by (nonlinear_arith)
            requires
                m == t * cut,
                cut > 0,
                m == (if n.negative { -n.magnitude } else { n.magnitude as int }),
                n.magnitude >= 0,
                size_t == (if t < 0 { -t } else { t }),
        ;
        assert((size_t * cut) / cut == size_t && (size_t * cut) % cut == 0) by (nonlinear_arith)
            requires
                cut > 0,
        ;
        assert(t < 0 <==> n.negative) by (nonlinear_arith)
            requires
                m == t * cut,
                cut > 0,
                m == (if n.negative { -n.magnitude } else { n.magnitude as int }),
                n.magnitude > 0,
        ;
        assert(rounded(n, places).mantissa() == t);
    } else if n.is_zero() {
        lemma_zero_units(n);
        lemma_zero_units(rounded(n, places));
    }
}

/// The text of a number is a decimal in plain notation, with zeros behind it,
/// that spells the same value; so it is read back as an equal amount.
pub proof fn law_text_reads_back(n: Number, places: nat)
    requires
        n.valid(),
        has_fixed_text(n, places),
    ensures
        exists|whole: Seq<char>, fraction: Seq<char>, zeros: Seq<char>|
            fixed_text(n, places) == #[trigger] plain_text(n.negative, whole, fraction + zeros) && is_plain(
                whole,
                fraction,
            ) && all_zeros(zeros) && fraction.len() == n.scale && fraction.len() + zeros.len() == places
                && plain_number(n.negative, whole, fraction).units() == n.units(),
{
    let k = (places - n.scale) as nat;
    let p = pow(10, k);
    let unit = pow(10, n.scale);
    let one = pow(10, places);
    let m = n.magnitude as int;
    let quotient = m / unit;
    let rest = m % unit;
    lemma_pow_positive(10, k);
    lemma_pow_positive(10, n.scale);
    lemma_pow_adds(10, n.scale, k);
    assert(0 <= rest < unit && 0 <= quotient && quotient * unit + rest == m) by (nonlinear_arith)
        requires
            unit > 0,
            m >= 0,
            quotient == m / unit,
            rest == m % unit,
    ;
    assert(m * p == quotient * one + rest * p && 0 <= rest * p < one) by (nonlinear_arith)
        requires
            p > 0,
            one == unit * p,
            quotient * unit + rest == m,
            0 <= rest < unit,
    ;
    assert((m * p) / one == quotient && (m * p) % one == rest * p) by {
        vstd::arithmetic::div_mod::lemma_fundamental_div_mod_converse(m * p, one, quotient, rest * p);
    }
    let whole = decimal_digits(quotient as nat);
    let text = padded_digits((rest * p) as nat, places);
    lemma_decimal_digits(quotient as nat);
    lemma_padded_digits(rest as nat, n.scale);
    lemma_padded_digits_shifted(rest as nat, n.scale, k);
    let fraction = text.take(n.scale as int);
    let zeros = text.skip(n.scale as int);
    assert(fraction == padded_digits(rest as nat, n.scale));
    assert(fraction + zeros =~= text);
    lemma_digits_value_concat(whole, fraction);
    assert(digits_value(whole + fraction) == m);
    assert(fixed_text(n, places) == plain_text(n.negative, whole, fraction + zeros));
    if n.is_zero() {
        lemma_zero_units(n);
        lemma_zero_units(plain_number(n.negative, whole, fraction));
    } else {
        assert(plain_number(n.negative, whole, fraction) == n);
    }
}

/// The units of a number are its signed magnitude, divided by ten to its scale
/// and multiplied by ten to the largest scale.
pub proof fn law_units_are_the_value(n: Number)
    requires
        n.scale <= 28,
    ensures
        n.units() * pow(10, n.scale) == (if n.negative {
            -(n.magnitude as int)
        } else {
            n.magnitude as int
        }) * pow(10, 28),
{
    let m = n.mantissa();
    let p = pow(10, n.scale);
    let q = pow(10, (28 - n.scale) as nat);
    lemma_pow_adds(10, (28 - n.scale) as nat, n.scale);
    assert((m * q) * p == m * (q * p)) by (nonlinear_arith);
}

/// A number is valid exactly if its magnitude has 96 bits and its scale is 28 at
/// most; the number of a mantissa has its size, its sign and the scale given.
pub proof fn law_numbers_are_made_of_parts(n: Number, mantissa: int, scale: nat)
    ensures
        n.valid() <==> n.magnitude < 0x1_0000_0000_0000_0000_0000_0000 && n.scale <= 28,
        number(mantissa, scale).scale == scale,
        number(mantissa, scale).negative <==> mantissa < 0,
        number(mantissa, scale).magnitude == mantissa || number(mantissa, scale).magnitude == -mantissa,
{
}

/// The value of an amount is that of its words, its sign and its scale.
proof fn law_amount_value_is_its_parts(a: Amount)
    ensures
        a@.negative == a.negative,
        a@.scale == a.scale,
        a@.magnitude == a.lo + 0x1_0000_0000 * (a.mid + 0x1_0000_0000 * a.hi),
{
}

/// The sum of two numbers, counted at the larger of their scales, is exact where
/// it stays within 96 bits. A zero adds nothing. Integers beyond 96 bits have no
/// sum, and other sums beyond 96 bits the one that the operands alone decide.
pub proof fn law_sum_adds_at_larger_scale(a: Number, b: Number, scale: nat, x: int, y: int)
    requires
        a.scale <= scale,
        b.scale <= scale,
        a.scale == scale || b.scale == scale,
        x == (if a.negative {
            -(a.magnitude as int)
        } else {
            a.magnitude as int
        }) * pow(10, (scale - a.scale) as nat),
        y == (if b.negative {
            -(b.magnitude as int)
        } else {
            b.magnitude as int
        }) * pow(10, (scale - b.scale) as nat),
    ensures
        a.magnitude == 0 ==> sum(a, b) == Some(b),
        a.magnitude != 0 && b.magnitude == 0 ==> sum(a, b) == Some(a),
        a.magnitude != 0 && b.magnitude != 0 && -0x1_0000_0000_0000_0000_0000_0000 < x + y
            < 0x1_0000_0000_0000_0000_0000_0000 ==> (sum(a, b) matches Some(s) && s.scale == scale && (s.negative <==> x
            + y < 0) && (s.magnitude == x + y || s.magnitude == -(x + y))),
        a.magnitude != 0 && b.magnitude != 0 && scale == 0 && !(-0x1_0000_0000_0000_0000_0000_0000 < x + y
            < 0x1_0000_0000_0000_0000_0000_0000) ==> sum(a, b) is None,
        a.magnitude != 0 && b.magnitude != 0 && scale > 0 && !(-0x1_0000_0000_0000_0000_0000_0000 < x + y
            < 0x1_0000_0000_0000_0000_0000_0000) ==> sum(a, b) == rounded_sum(a, b),
{
}

/// The difference of two numbers, counted at the larger of their scales, is
/// exact where it stays within 96 bits. A zero takes nothing away, and a number
/// taken from zero changes its sign. Integers beyond 96 bits have no difference,
/// and other differences beyond 96 bits the one that the operands alone decide.
pub proof fn law_difference_subtracts_at_larger_scale(a: Number, b: Number, scale: nat, x: int, y: int)
    requires
        a.scale <= scale,
        b.scale <= scale,
        a.scale == scale || b.scale == scale,
        x == (if a.negative {
            -(a.magnitude as int)
        } else {
            a.magnitude as int
        }) * pow(10, (scale - a.scale) as nat),
        y == (if b.negative {
            -(b.magnitude as int)
        } else {
            b.magnitude as int
        }) * pow(10, (scale - b.scale) as nat),
    ensures
        a.magnitude == 0 && b.magnitude == 0 ==> difference(a, b) == Some(b),
        a.magnitude == 0 && b.magnitude != 0 ==> difference(a, b) == Some(
            Number { negative: !b.negative, magnitude: b.magnitude, scale: b.scale },
        ),
        a.magnitude != 0 && b.magnitude == 0 ==> difference(a, b) == Some(a),
        a.magnitude != 0 && b.magnitude != 0 && -0x1_0000_0000_0000_0000_0000_0000 < x - y
            < 0x1_0000_0000_0000_0000_0000_0000 ==> (difference(a, b) matches Some(d) && d.scale == scale && (d.negative
            <==> x - y < 0) && (d.magnitude == x - y || d.magnitude == -(x - y))),
        a.magnitude != 0 && b.magnitude != 0 && scale == 0 && !(-0x1_0000_0000_0000_0000_0000_0000 < x - y
            < 0x1_0000_0000_0000_0000_0000_0000) ==> difference(a, b) is None,
        a.magnitude != 0 && b.magnitude != 0 && scale > 0 && !(-0x1_0000_0000_0000_0000_0000_0000 < x - y
            < 0x1_0000_0000_0000_0000_0000_0000) ==> difference(a, b) == rounded_difference(a, b),
{
}

/// The smaller of two numbers is one of them and not greater than either; the
/// first of two equal ones.
pub proof fn law_smaller_is_one_of_two(a: Number, b: Number)
    ensures
        min_of(a, b) == a || min_of(a, b) == b,
        min_of(a, b).units() <= a.units(),
        min_of(a, b).units() <= b.units(),
        a.units() == b.units() ==> min_of(a, b) == a,
{
}

/// Rounding gives the nearest number of the places asked for, the even one of
/// two that are as near; a number of no more places stays as it is. A number
/// that rounds to zero loses its sign.
pub proof fn law_rounding_is_to_nearest(n: Number, places: nat, cut: int)
    requires
        n.scale > places ==> cut == pow(10, (n.scale - places) as nat),
    ensures
        n.scale <= places ==> rounded(n, places) == n,
        n.scale > places ==> {
            let error = rounded(n, places).magnitude * cut - n.magnitude;
            &&& rounded(n, places).scale == places
            &&& -cut <= 2 * error <= cut
            &&& 2 * error == cut || 2 * error == -cut ==> rounded(n, places).magnitude % 2 == 0
            &&& rounded(n, places).negative <==> n.negative && (n.magnitude == 0 || rounded(n, places).magnitude != 0)
        },
{
    if n.scale > places {
        lemma_pow_positive(10, (n.scale - places) as nat);
        let m = n.magnitude as int;
        let q = m / cut;
        let r = m % cut;
        assert(q * cut + r == m && 0 <= r < cut && q >= 0) by (nonlinear_arith)
            requires
                cut > 0,
                m >= 0,
                q == m / cut,
                r == m % cut,
        ;
        assert((q + 1) * cut == q * cut + cut) by (nonlinear_arith);
        if m == 0 {
            assert(q == 0 && r == 0) by (nonlinear_arith)
                requires
                    m == 0,
                    cut > 0,
                    q * cut + r == m,
                    0 <= r < cut,
                    q >= 0,
            ;
            assert(0 * cut == 0);
        }
    }
}

proof fn lemma_next_byte(n: nat, i: nat)
    ensures
        (n / 256) as int / pow(256, i) == n as int / pow(256, i + 1),
        pow(256, i + 1) == 256 * pow(256, i),
        pow(256, i) > 0,
{
    reveal(pow);
    lemma_pow_positive(256, i);
    vstd::arithmetic::div_mod::lemma_div_denominator(n as int, 256, pow(256, i));
}

/// Byte for byte, the bytes of a number are its places to the base of 256, the
/// lowest first.
pub proof fn law_bytes_show_places(n: nat, len: nat)
    ensures
        le_bytes(n, len).len() == len,
        forall|i: nat| i < len ==> (#[trigger] le_bytes(n, len)[i as int]) as int == (n as int / pow(256, i)) % 256,
    decreases len,
{
    reveal(pow);
    assert(pow(256, 0) == 1);
    if len > 0 {
        let rest = le_bytes(n / 256, (len - 1) as nat);
        law_bytes_show_places(n / 256, (len - 1) as nat);
        assert forall|i: nat| i < len implies (#[trigger] le_bytes(n, len)[i as int]) as int == (n as int / pow(256, i))
            % 256 by {
            if i > 0 {
                let j = (i - 1) as nat;
                lemma_next_byte(n, j);
                assert(rest[j as int] as int == ((n / 256) as int / pow(256, j)) % 256);
                assert(le_bytes(n, len)[i as int] == rest[j as int]);
            }
        }
    }
}

/// A stored amount is two zero bytes, the scale, the sign in the top bit, and the
/// magnitude from its lowest byte on.
pub proof fn law_stored_amount_has_this_layout(n: Number)
    requires
        n.valid(),
    ensures
        serialized(n).len() == 16,
        serialized(n)[0] == 0 && serialized(n)[1] == 0,
        serialized(n)[2] == n.scale,
        serialized(n)[3] == (if n.negative {
            128int
        } else {
            0
        }),
        forall|i: nat| #![trigger pow(256, i)]
            i < 12 ==> serialized(n)[4int + i] as int == (n.magnitude as int / pow(256, i)) % 256,
{
    law_bytes_show_places(n.magnitude, 12);
    assert forall|i: nat| #![trigger pow(256, i)] i < 12 implies serialized(n)[4int + i] as int == (n.magnitude as int
        / pow(256, i)) % 256 by {
        assert(serialized(n)[4int + i] == le_bytes(n.magnitude, 12)[i as int]);
    }
}

/// Stored bytes are read by the same layout, whatever the unused bits hold. Of a
/// scale beyond the largest the excess places are cut off, and one is added if
/// five or more was cut off.
pub proof fn law_stored_bytes_are_read_by_layout(bytes: Seq<u8>, magnitude: nat)
    requires
        bytes.len() == 16,
        magnitude < 0x1_0000_0000_0000_0000_0000_0000,
        forall|i: nat| #![trigger pow(256, i)]
            i < 12 ==> bytes[4int + i] as int == (magnitude as int / pow(256, i)) % 256,
    ensures
        deserialized(bytes).negative <==> bytes[3] >= 128,
        bytes[2] % 32 <= 28 ==> deserialized(bytes).magnitude == magnitude && deserialized(bytes).scale == bytes[2] % 32,
        bytes[2] % 32 > 28 ==> deserialized(bytes).scale == 28 && ({
            let cut = pow(10, (bytes[2] % 32 - 28) as nat);
            let kept = deserialized(bytes).magnitude as int;
            ||| magnitude as int % cut < 5 && kept == magnitude as int / cut
            ||| magnitude as int % cut >= 5 && kept == magnitude as int / cut + 1
        }),
{
    let stored = bytes.subrange(4, 16);
    law_bytes_show_places(magnitude, 12);
    assert forall|i: int| 0 <= i < 12 implies stored[i] == le_bytes(magnitude, 12)[i] by {
        let j = i as nat;
        assert(bytes[4int + j] as int == (magnitude as int / pow(256, j)) % 256);
        assert(le_bytes(magnitude, 12)[j as int] as int == (magnitude as int / pow(256, j)) % 256);
    }
    assert(stored =~= le_bytes(magnitude, 12));
    assert(pow(256, 12) == magnitude_bound()) by {
        reveal_with_fuel(pow, 13);
    }
    lemma_le_bytes_read_back(magnitude, 12);
    if bytes[2] % 32 > 28 {
        lemma_pow_positive(10, (bytes[2] % 32 - 28) as nat);
    }
}

/// The text of a number is a minus sign if the sign is set, the places of its
/// whole part without leading zeros, a point, and `places` places of its
/// fraction.
pub proof fn law_fixed_text_shows_places(n: Number, places: nat, whole: int, fraction: int, start: int)
    requires
        n.scale <= places,
        places >= 1,
        whole == (n.magnitude as int * pow(10, (places - n.scale) as nat)) / pow(10, places),
        fraction == (n.magnitude as int * pow(10, (places - n.scale) as nat)) % pow(10, places),
        start == (if n.negative {
            1int
        } else {
            0
        }),
    ensures
        ({
            let text = fixed_text(n, places);
            let digits = text.len() - start - 1 - places;
            &&& n.negative ==> text[0] == '-'
            &&& digits >= 1
            &&& whole < pow(10, digits as nat)
            &&& digits > 1 ==> pow(10, (digits - 1) as nat) <= whole
            &&& text[start + digits] == '.'
            &&& forall|i: nat| #![trigger pow(10, i)]
                i < digits ==> text[start + digits - 1 - i] as int == 48 + (whole / pow(10, i)) % 10
            &&& forall|i: nat| #![trigger pow(10, i)]
                i < places ==> text[text.len() - 1 - i] as int == 48 + (fraction / pow(10, i)) % 10
        }),
{
    let scaled = n.magnitude as int * pow(10, (places - n.scale) as nat);
    let one = pow(10, places);
    lemma_pow_positive(10, (places - n.scale) as nat);
    lemma_pow_positive(10, places);
    assert(scaled >= 0) by (nonlinear_arith)
        requires
            scaled == n.magnitude as int * pow(10, (places - n.scale) as nat),
            pow(10, (places - n.scale) as nat) > 0,
    ;
    assert(whole >= 0 && fraction >= 0) by (nonlinear_arith)
        requires
            scaled >= 0,
            one > 0,
            whole == scaled / one,
            fraction == scaled % one,
    ;
    let front = decimal_digits(whole as nat);
    let back = padded_digits(fraction as nat, places);
    law_digits_show_places(whole as nat);
    law_padded_digits_show_places(fraction as nat, places);
    let text = fixed_text(n, places);
    assert(text == plain_text(n.negative, front, back));
    let digits = text.len() - start - 1 - places;
    assert(digits == front.len());
    assert forall|i: nat| #![trigger pow(10, i)] i < digits implies text[start + digits - 1 - i] as int == 48 + (whole
        / pow(10, i)) % 10 by {
        assert(text[start + digits - 1 - i] == front[front.len() - 1 - i]);
    }
    assert forall|i: nat| #![trigger pow(10, i)] i < places implies text[text.len() - 1 - i] as int == 48 + (fraction
        / pow(10, i)) % 10 by {
        assert(text[text.len() - 1 - i] == back[places - 1 - i]);
    }
}

/// A number can be written with `places` places, from one to 28, exactly if it
/// has no more of them and its digits in text are 31 at most.
pub proof fn law_room_for_text(n: Number, places: nat)
    ensures
        has_fixed_text(n, places) <==> n.scale <= places && 1 <= places <= 28 && n.magnitude * pow(
            10,
            (places - n.scale) as nat,
        ) < pow(10, 31),
{
}

/// A decimal in plain notation spells its digits, with one decimal place for
/// each digit of the fraction; zero has no sign.
pub proof fn law_plain_number_spells_digits(negative: bool, whole: Seq<char>, fraction: Seq<char>)
    requires
        all_digits(whole),
        all_digits(fraction),
    ensures
        plain_number(negative, whole, fraction).scale == fraction.len(),
        plain_number(negative, whole, fraction).magnitude == digits_value(whole) * pow(10, fraction.len())
            + digits_value(fraction),
        plain_number(negative, whole, fraction).negative <==> negative && plain_number(
            negative,
            whole,
            fraction,
        ).magnitude > 0,
        plain_text(negative, whole, fraction) == (if negative {
            seq!['-']
        } else {
            Seq::<char>::empty()
        }) + whole + (if fraction.len() > 0 {
            seq!['.'] + fraction
        } else {
            Seq::<char>::empty()
        }),
{
    lemma_digits_value_concat(whole, fraction);
    lemma_digits_spell_nonnegative(whole);
    lemma_digits_spell_nonnegative(fraction);
    lemma_pow_positive(10, fraction.len());
    assert(digits_value(whole) * pow(10, fraction.len()) >= 0) by (nonlinear_arith)
        requires
            digits_value(whole) >= 0,
            pow(10, fraction.len()) > 0,
    ;
}

/// Two amounts are equal exactly if they have the same value, whatever their
/// scales and the sign of a zero.
pub proof fn law_equal_amounts_have_equal_value(a: Amount, b: Amount)
    ensures
        a.eq_spec(&b) <==> a@.units() == b@.units(),
{
}

/// The value of an optional amount is that of the amount.
pub proof fn law_optional_amount_value(amount: Option<Amount>)
    ensures
        amount is None <==> opt_number(amount) is None,
        amount matches Some(a) ==> opt_number(amount) == Some(a@),
{
}

} // verus!
