//! Transactions that come in and account snapshots that go out.
use crate::amount::{
    fixed_text, has_fixed_text, is_plain, law_plain_number_spells_digits, law_rounding_is_to_nearest,
    law_rounding_keeps_range, law_text_reads_back, lemma_rounding_keeps_value, lemma_units_bound, number_of_text,
    opt_number, plain_number, rounded, Amount, Number, MAX_SCALE, MAX_TEXT_LEN,
};
use crate::text::{
    all_digits, all_zeros, chars_of, digits_value, is_blank, is_digit, is_white_space, law_text_is_padded_trimmed_text,
    law_trimming_takes_off_outer_white_space, lemma_digits_value_concat, lemma_nothing_to_trim, plain_text, trim_bounds,
    trimmed,
};
use vstd::arithmetic::power::{lemma_pow_adds, lemma_pow_positive, pow};
use vstd::prelude::*;

verus! {

/// The five kinds of transaction.
#[derive(Debug, Clone, Copy, PartialEq, Eq, Structural)]
pub enum TransactionType {
    Deposit,
    Withdrawal,
    Dispute,
    Resolve,
    Chargeback,
}

/// One transaction row.
#[derive(Debug, Clone, Copy)]
pub struct TransactionInfo {
    pub type_tx: TransactionType,
    pub client: u16,
    pub tx: u32,
    pub amount: Option<Amount>,
}

/// The value of a [`TransactionInfo`].
pub struct Event {
    pub type_tx: TransactionType,
    pub client: u16,
    pub tx: u32,
    pub amount: Option<Number>,
}

impl View for TransactionInfo {
    type V = Event;

    open spec fn view(&self) -> Event {
        Event {
            type_tx: self.type_tx,
            client: self.client,
            tx: self.tx,
            amount: opt_number(self.amount),
        }
    }
}

/// The final state of one client's account.
#[derive(Debug, Clone, Copy)]
pub struct Account {
    pub client: u16,
    pub available: Amount,
    pub held: Amount,
    pub total: Amount,
    pub locked: bool,
}

/// The value of an [`Account`].
pub struct Snapshot {
    pub client: u16,
    pub available: Number,
    pub held: Number,
    pub total: Number,
    pub locked: bool,
}

impl View for Account {
    type V = Snapshot;

    open spec fn view(&self) -> Snapshot {
        Snapshot {
            client: self.client,
            available: self.available@,
            held: self.held@,
            total: self.total@,
            locked: self.locked,
        }
    }
}

/// Decimal places of amounts that come in and go out.
pub const AMOUNT_PLACES: u32 = 4;

/// A text that is no amount, and why.
#[derive(Debug)]
pub struct AmountError {
    pub text: String,
    pub source: rust_decimal::Error,
}

/// Bring an amount that was read to the engine's decimal places.
pub fn normalize(text: String, parsed: Result<Amount, rust_decimal::Error>) -> (r: Result<
    Option<Amount>,
    AmountError,
>)
    ensures
        match parsed {
            Ok(a) => r matches Ok(Some(b)) && b@ == rounded(a@, AMOUNT_PLACES as nat),
            Err(e) => r == Err::<Option<Amount>, AmountError>(AmountError { text, source: e }),
        },
{
    match parsed {
        Ok(a) => Ok(Some(a.round_dp(AMOUNT_PLACES))),
        Err(e) => Err(AmountError { text, source: e }),
    }
}

/// What the field of a transaction row holds: nothing if it is missing or
/// blank; otherwise the amount that its text spells without the white space
/// around it, rounded to the engine's decimal places, or an error. A decimal in
/// plain notation is no error; if it has no more places than the engine, zeros
/// at its end apart, its value is kept.
pub open spec fn is_field_amount(field: Option<Seq<char>>, r: Result<Option<Amount>, AmountError>) -> bool {
    match field {
        None => r matches Ok(None),
        Some(s) => if trimmed(s).len() == 0 {
            r matches Ok(None)
        } else {
            &&& match number_of_text(trimmed(s)) {
                Some(n) => r matches Ok(Some(a)) && a@ == rounded(n, AMOUNT_PLACES as nat),
                None => r matches Err(e) && e.text@ == s,
            }
            &&& forall|negative: bool, whole: Seq<char>, fraction: Seq<char>|
                trimmed(s) == #[trigger] plain_text(negative, whole, fraction) && is_plain(whole, fraction) ==> (
                r matches Ok(Some(a)) && a@ == rounded(
                    plain_number(negative, whole, fraction),
                    AMOUNT_PLACES as nat,
                ))
            &&& forall|negative: bool, whole: Seq<char>, fraction: Seq<char>, zeros: Seq<char>|
                trimmed(s) == #[trigger] plain_text(negative, whole, fraction + zeros) && is_plain(whole, fraction)
                    && all_zeros(zeros) && fraction.len() <= AMOUNT_PLACES ==> (r matches Ok(Some(a)) && a@.units()
                    == plain_number(negative, whole, fraction).units())
        },
    }
}

/// The text of an optional field.
pub open spec fn field_text(field: Option<String>) -> Option<Seq<char>> {
    match field {
        Some(s) => Some(s@),
        None => None,
    }
}

/// The amount in the field of a transaction row.
pub fn deserialize_decimal_4dp(field: Option<String>) -> (r: Result<Option<Amount>, AmountError>)
    ensures
        is_field_amount(field_text(field), r),
{
    let s = match field {
        None => return Ok(None),
        Some(s) => s,
    };
    let text = s.as_str();
    let chars = chars_of(text);
    let (from, to) = trim_bounds(&chars, 0, chars.len());
    assert(chars@.subrange(0, chars@.len() as int) =~= s@);
    if from == to {
        return Ok(None);
    }
    let parsed = match Amount::parse(text.substring_char(from, to)) {
        Ok(a) => Ok(a.validated()),
        Err(e) => Err(e),
    };
    let r = normalize(s, parsed);
    proof {
        assert forall|negative: bool, whole: Seq<char>, fraction: Seq<char>, zeros: Seq<char>|
            trimmed(s@) == #[trigger] plain_text(negative, whole, fraction + zeros) && is_plain(whole, fraction)
                && all_zeros(zeros) && fraction.len() <= AMOUNT_PLACES implies (r matches Ok(Some(a)) && a@.units()
            == plain_number(negative, whole, fraction).units()) by {
            lemma_rounding_keeps_value(
                parsed->Ok_0@,
                plain_number(negative, whole, fraction),
                AMOUNT_PLACES as nat,
            );
        }
    }
    r
}

/// Whether the amount can be written: its text has room for the whole part.
pub fn has_4dp_text(val: Amount) -> (r: bool)
    ensures
        r == has_fixed_text(rounded(val@, AMOUNT_PLACES as nat), AMOUNT_PLACES as nat),
{
    let n = val.round_dp(AMOUNT_PLACES);
    // 10^27
    let above = Amount::from_parts(0xe800_0000, 0x9fd0_803c, 0x033b_2e3c, false, 0).unwrap();
    let below = Amount::from_parts(0xe800_0000, 0x9fd0_803c, 0x033b_2e3c, true, 0).unwrap();
    proof {
        let places = AMOUNT_PLACES as nat;
        let bound = pow(10, (MAX_TEXT_LEN - 1) as nat);
        lemma_pow_positive(10, (MAX_TEXT_LEN - 1) as nat);
        lemma_units_bound(n@, places, bound);
        assert(pow(10, 27) == 1_000_000_000_000_000_000_000_000_000) by {
            reveal_with_fuel(pow, 28);
        }
        lemma_pow_adds(10, 27, MAX_SCALE as nat);
        lemma_pow_adds(10, (MAX_TEXT_LEN - 1) as nat, (MAX_SCALE - places) as nat);
        assert(above@.units() == bound * pow(10, (MAX_SCALE - places) as nat));
        assert(below@.units() == -above@.units()) by {
            let q = pow(10, MAX_SCALE as nat);
            assert((-pow(10, 27)) * q == -(pow(10, 27) * q)) by (nonlinear_arith);
        }
    }
    below.is_less(n) && n.is_less(above)
}

/// The amount as a report shows it.
pub fn serialize_decimal_4dp(val: Amount) -> (r: String)
    requires
        has_fixed_text(rounded(val@, AMOUNT_PLACES as nat), AMOUNT_PLACES as nat),
    ensures
        r@ == fixed_text(rounded(val@, AMOUNT_PLACES as nat), AMOUNT_PLACES as nat),
{
    val.round_dp(AMOUNT_PLACES).to_fixed(4)
}

/// A written amount reads back: the text that a report shows for an amount,
/// taken for the field of a transaction row, holds the amount rounded to the
/// engine's decimal places; so an amount that has no more places reads back as
/// an equal one.
pub proof fn law_written_amount_reads_back(val: Number, r: Result<Option<Amount>, AmountError>)
    requires
        val.valid(),
        has_fixed_text(rounded(val, AMOUNT_PLACES as nat), AMOUNT_PLACES as nat),
        is_field_amount(Some(fixed_text(rounded(val, AMOUNT_PLACES as nat), AMOUNT_PLACES as nat)), r),
    ensures
        r matches Ok(Some(a)) && a@.units() == rounded(val, AMOUNT_PLACES as nat).units(),
        val.scale <= AMOUNT_PLACES ==> rounded(val, AMOUNT_PLACES as nat) == val,
{
    let places = AMOUNT_PLACES as nat;
    let n = rounded(val, places);
    law_rounding_keeps_range(val, places);
    law_text_reads_back(n, places);
    let (whole, fraction, zeros) = choose|whole: Seq<char>, fraction: Seq<char>, zeros: Seq<char>|
        fixed_text(n, places) == #[trigger] plain_text(n.negative, whole, fraction + zeros) && is_plain(
            whole,
            fraction,
        ) && all_zeros(zeros) && fraction.len() == n.scale && fraction.len() + zeros.len() == places
            && plain_number(n.negative, whole, fraction).units() == n.units();
    let text = fixed_text(n, places);
    let decimals = fraction + zeros;
    assert(text.len() > 0 && (text[0] == '-' || text[0] == whole[0]) && text.last() == decimals.last());
    assert(is_digit(whole[0]));
    if zeros.len() > 0 {
        assert(decimals.last() == zeros[zeros.len() - 1]);
    } else {
        assert(decimals.last() == fraction[fraction.len() - 1]);
        assert(is_digit(fraction[fraction.len() - 1]));
    }
    lemma_nothing_to_trim(text);
}

/// The value of an event is that of its fields.
pub proof fn law_event_value_is_its_fields(event: TransactionInfo)
    ensures
        event@.type_tx == event.type_tx,
        event@.client == event.client,
        event@.tx == event.tx,
        event@.amount is Some <==> event.amount is Some,
        event.amount matches Some(a) ==> event@.amount == Some(a@),
{
}

/// The value of a reported row is that of its fields.
pub proof fn law_row_value_is_its_fields(row: Account)
    ensures
        row@.client == row.client,
        row@.available == row.available@,
        row@.held == row.held@,
        row@.total == row.total@,
        row@.locked == row.locked,
{
}

/// A missing field and a blank one hold nothing; a field that is not blank holds
/// an amount or is an error, which hands its text back.
pub proof fn law_blank_field_holds_nothing(field: Option<Seq<char>>, r: Result<Option<Amount>, AmountError>)
    requires
        is_field_amount(field, r),
    ensures
        field is None ==> (r is Ok && r->Ok_0 is None),
        field matches Some(s) ==> {
            &&& (r is Ok && r->Ok_0 is None) <==> is_blank(s)
            &&& r is Err ==> (r->Err_0).text@ == s
        },
{
    if let Some(s) = field {
        let none = Seq::<char>::empty();
        if is_blank(s) {
            assert(is_blank(none));
            assert(s + none + none =~= s);
            law_trimming_takes_off_outer_white_space(s, none, none);
        } else {
            law_text_is_padded_trimmed_text(s);
            let (before, after) = choose|before: Seq<char>, after: Seq<char>|
                #![trigger is_blank(before), is_blank(after)]
                is_blank(before) && is_blank(after) && s == before + trimmed(s) + after;
            if trimmed(s).len() == 0 {
                assert forall|i: int| 0 <= i < s.len() implies is_white_space(#[trigger] s[i]) by {
                    if i < before.len() {
                        assert(s[i] == before[i]);
                    } else {
                        assert(s[i] == after[i - before.len()]);
                    }
                }
            }
        }
    }
}

/// The amount that a field holds is what its text spells, with white space around
/// it or not, brought to the nearest number of four places, the even one of two
/// that are as near.
pub proof fn law_field_is_nearest_of_four_places(
    before: Seq<char>,
    text: Seq<char>,
    after: Seq<char>,
    r: Result<Option<Amount>, AmountError>,
)
    requires
        is_blank(before),
        is_blank(after),
        text.len() > 0,
        !is_white_space(text[0]),
        !is_white_space(text[text.len() - 1]),
        is_field_amount(Some(before + text + after), r),
    ensures
        number_of_text(text) is None <==> r is Err,
        number_of_text(text) matches Some(n) ==> (r matches Ok(Some(a)) && (n.scale <= 4 ==> a@ == n) && (n.scale > 4
            ==> {
            let cut = pow(10, (n.scale - 4) as nat);
            let error = a@.magnitude * cut - n.magnitude;
            &&& a@.scale == 4
            &&& -cut <= 2 * error <= cut
            &&& 2 * error == cut || 2 * error == -cut ==> a@.magnitude % 2 == 0
            &&& a@.negative <==> n.negative && (n.magnitude == 0 || a@.magnitude != 0)
        })),
{
    law_trimming_takes_off_outer_white_space(before, text, after);
    if let Some(n) = number_of_text(text) {
        law_rounding_is_to_nearest(n, 4, pow(10, (n.scale - 4) as nat));
    }
}

/// A field that holds a decimal in plain notation, of four places or fewer and
/// with zeros behind it or not, holds exactly that decimal's value.
pub proof fn law_plain_field_holds_its_value(
    before: Seq<char>,
    negative: bool,
    whole: Seq<char>,
    fraction: Seq<char>,
    zeros: Seq<char>,
    after: Seq<char>,
    r: Result<Option<Amount>, AmountError>,
)
    requires
        is_blank(before),
        is_blank(after),
        whole.len() > 0,
        all_digits(whole),
        all_digits(fraction),
        all_zeros(zeros),
        fraction.len() <= 4,
        digits_value(whole) * pow(10, fraction.len()) + digits_value(fraction) < 0x1_0000_0000_0000_0000_0000_0000,
        is_field_amount(Some(before + plain_text(negative, whole, fraction + zeros) + after), r),
    ensures
        r matches Ok(Some(a)) && a@.units() == (if negative {
            -(digits_value(whole) * pow(10, fraction.len()) + digits_value(fraction))
        } else {
            digits_value(whole) * pow(10, fraction.len()) + digits_value(fraction)
        }) * pow(10, (28 - fraction.len()) as nat),
{
    let decimals = fraction + zeros;
    let text = plain_text(negative, whole, decimals);
    law_plain_number_spells_digits(negative, whole, fraction);
    lemma_digits_value_concat(whole, fraction);
    assert(is_digit(whole[0]) && is_digit(whole[whole.len() - 1]));
    assert(text[0] == '-' || text[0] == whole[0]);
    if decimals.len() > 0 {
        assert(text[text.len() - 1] == decimals[decimals.len() - 1]);
        if zeros.len() > 0 {
            assert(decimals[decimals.len() - 1] == zeros[zeros.len() - 1]);
        } else {
            assert(decimals[decimals.len() - 1] == fraction[fraction.len() - 1]);
            assert(is_digit(fraction[fraction.len() - 1]));
        }
    } else {
        assert(text[text.len() - 1] == whole[whole.len() - 1]);
    }
    law_trimming_takes_off_outer_white_space(before, text, after);
    assert(trimmed(before + text + after) == plain_text(negative, whole, fraction + zeros));
}

/// The text of an optional field is that of its string.
pub proof fn law_field_text_is_its_string(field: Option<String>)
    ensures
        field is None <==> field_text(field) is None,
        field matches Some(s) ==> field_text(field) == Some(s@),
{
}

/// A field that holds a decimal in plain notation of more than four places holds
/// the nearest number of four places, the even one of two that are as near.
pub proof fn law_long_plain_field_is_rounded(
    before: Seq<char>,
    negative: bool,
    whole: Seq<char>,
    fraction: Seq<char>,
    after: Seq<char>,
    r: Result<Option<Amount>, AmountError>,
    magnitude: int,
    cut: int,
)
    requires
        is_blank(before),
        is_blank(after),
        whole.len() > 0,
        all_digits(whole),
        all_digits(fraction),
        4 < fraction.len() <= 28,
        magnitude == digits_value(whole) * pow(10, fraction.len()) + digits_value(fraction),
        magnitude < 0x1_0000_0000_0000_0000_0000_0000,
        cut == pow(10, (fraction.len() - 4) as nat),
        is_field_amount(Some(before + plain_text(negative, whole, fraction) + after), r),
    ensures
        r matches Ok(Some(a)) && a@.scale == 4 && -cut <= 2 * (a@.magnitude * cut - magnitude) <= cut && (2 * (
        a@.magnitude * cut - magnitude) == cut || 2 * (a@.magnitude * cut - magnitude) == -cut ==> a@.magnitude % 2
            == 0) && (a@.negative <==> negative && a@.magnitude != 0),
{
    let text = plain_text(negative, whole, fraction);
    let n = plain_number(negative, whole, fraction);
    law_plain_number_spells_digits(negative, whole, fraction);
    lemma_digits_value_concat(whole, fraction);
    assert(is_digit(whole[0]) && is_digit(fraction[fraction.len() - 1]));
    assert(text[0] == '-' || text[0] == whole[0]);
    assert(text[text.len() - 1] == fraction[fraction.len() - 1]);
    law_trimming_takes_off_outer_white_space(before, text, after);
    law_rounding_is_to_nearest(n, 4, cut);
    assert(is_plain(whole, fraction));
}

} // verus!
