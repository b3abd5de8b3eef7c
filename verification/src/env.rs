//! Configuration that comes from environment variables.
//!
//! The caller reads the variables; this module says what their values mean.
use crate::text::{
    all_digits, chars_of, digits_value, is_blank, is_digit, is_white_space, law_digits_are_decimal,
    law_text_is_padded_trimmed_text, law_trimming_takes_off_outer_white_space, lemma_digits_spell_nonnegative,
    trim_bounds, trimmed, trimmed_start,
};
use vstd::prelude::*;

verus! {

/// Overrides the directory that hosts the spill store.
pub const LEDGER_DIR_ENV: &'static str = "PECRAB_LEDGER_DIR";

/// Caps the memory held in the buffers of all engines together, in the format
/// of [`parse_si_bytes`].
pub const GLOBAL_MEMORY_ENV: &'static str = "PECRAB_GLOBAL_MEMORY_LIMIT";

/// The cap when [`GLOBAL_MEMORY_ENV`] is unset (2 GB).
pub const DEFAULT_GLOBAL_MEMORY_LIMIT: usize = 2_000_000_000;

/// Where the spill store goes.
#[derive(Debug, Clone, Copy, PartialEq, Eq, Structural)]
pub enum LedgerDir {
    /// The directory that [`LEDGER_DIR_ENV`] names.
    Override,
    /// `/var/tmp`, which is backed by disk on most systems.
    VarTmp,
    /// The system's temporary directory, which may be backed by memory: worth
    /// a warning.
    TempDir,
}

/// Choose the directory of the spill store: the override, `/var/tmp` if it is
/// a directory, the system's temporary directory.
pub fn resolve_ledger_dir(override_set: bool, var_tmp_is_dir: bool) -> (dir: LedgerDir)
    ensures
        dir is Override <==> override_set,
        dir is VarTmp <==> !override_set && var_tmp_is_dir,
        dir is TempDir <==> !override_set && !var_tmp_is_dir,
{
    if override_set {
        LedgerDir::Override
    } else if var_tmp_is_dir {
        LedgerDir::VarTmp
    } else {
        LedgerDir::TempDir
    }
}

/// Why a text is no byte count.
#[derive(Debug)]
pub enum SiBytesError {
    /// The part before the suffix is no number, or none of 64 bits.
    InvalidNumber { prefix: String },
    /// The byte count needs more than 64 bits.
    Overflow,
}

/// The factor of an SI suffix.
pub open spec fn suffix_factor(c: char) -> Option<int> {
    if c == 'K' || c == 'k' {
        Some(1_000)
    } else if c == 'M' || c == 'm' {
        Some(1_000_000)
    } else if c == 'G' || c == 'g' {
        Some(1_000_000_000)
    } else if c == 'T' || c == 't' {
        Some(1_000_000_000_000)
    } else {
        None
    }
}

/// The text without one `B` or `b` at its end.
pub open spec fn without_unit(s: Seq<char>) -> Seq<char> {
    if s.len() > 0 && (s.last() == 'B' || s.last() == 'b') {
        s.drop_last()
    } else {
        s
    }
}

/// The factor that the suffix of a text stands for.
pub open spec fn factor(s: Seq<char>) -> int {
    if s.len() > 0 && suffix_factor(s.last()) is Some {
        suffix_factor(s.last())->0
    } else {
        1
    }
}

/// The text without its suffix.
pub open spec fn without_suffix(s: Seq<char>) -> Seq<char> {
    if s.len() > 0 && suffix_factor(s.last()) is Some {
        s.drop_last()
    } else {
        s
    }
}

/// The number that a text spells: digits, perhaps after a plus sign.
pub open spec fn unsigned(s: Seq<char>) -> Option<int> {
    let digits = if s.len() > 0 && s[0] == '+' {
        s.drop_first()
    } else {
        s
    };
    if digits.len() > 0 && all_digits(digits) {
        Some(digits_value(digits))
    } else {
        None
    }
}

/// The part of a byte count before its suffix.
pub open spec fn numeric_part(s: Seq<char>) -> Seq<char> {
    without_suffix(without_unit(trimmed(s)))
}

/// The factor of a byte count.
pub open spec fn byte_factor(s: Seq<char>) -> int {
    factor(without_unit(trimmed(s)))
}

/// The number of a byte count, if it is one of 64 bits.
pub open spec fn byte_number(s: Seq<char>) -> Option<int> {
    match unsigned(trimmed(numeric_part(s))) {
        Some(n) => if n <= u64::MAX {
            Some(n)
        } else {
            None
        },
        None => None,
    }
}

/// What a byte count comes to: `r` is the product of its number and its factor,
/// or the error.
pub open spec fn is_si_bytes(s: Seq<char>, r: Result<u64, SiBytesError>) -> bool {
    match byte_number(s) {
        None => r matches Err(SiBytesError::InvalidNumber { prefix }) && prefix@ == numeric_part(s),
        Some(n) => if n * byte_factor(s) <= u64::MAX {
            r matches Ok(bytes) && bytes == n * byte_factor(s)
        } else {
            r matches Err(SiBytesError::Overflow)
        },
    }
}

/// The number that the characters between `from` and `to` spell, if it has 64
/// bits.
fn parse_u64(v: &Vec<char>, from: usize, to: usize) -> (r: Option<u64>)
    requires
        from <= to <= v@.len(),
    ensures
        match unsigned(v@.subrange(from as int, to as int)) {
            Some(n) => if n <= u64::MAX {
                r matches Some(x) && x == n
            } else {
                r is None
            },
            None => r is None,
        },
{
    let ghost text = v@.subrange(from as int, to as int);
    let mut i: usize = from;
    if i < to && v[i] == '+' {
        i = i + 1;
    }
    let ghost start = i as int;
    let ghost digits = v@.subrange(start, to as int);
    assert(start == from ==> digits =~= text);
    assert(start != from ==> digits =~= text.drop_first());
    if i == to {
        return None;
    }
    let mut value: u64 = 0;
    while i < to
        invariant
            0 <= start <= i <= to <= v@.len(),
            start < to,
            unsigned(v@.subrange(from as int, to as int)) == (if all_digits(digits) {
                Some(digits_value(digits))
            } else {
                None
            }),
            digits == v@.subrange(start, to as int),
            all_digits(digits.take(i - start)),
            value == digits_value(digits.take(i - start)),
        decreases to - i,
    {
        let c = v[i];
        proof {
            assert(digits[i - start] == c);
        }
        if c < '0' || c > '9' {
            return None;
        }
        let d: u64 = c as u64 - '0' as u64;
        proof {
            let next = digits.take(i - start + 1);
            assert(next.drop_last() =~= digits.take(i - start));
            assert(digits_value(next) == value * 10 + d);
            lemma_digits_value_grows(digits, i - start + 1);
        }
        let tens: u64 = match value.checked_mul(10) {
            Some(tens) => tens,
            None => return None,
        };
        value = match tens.checked_add(d) {
            Some(value) => value,
            None => return None,
        };
        i = i + 1;
    }
    assert(digits.take(to - start) =~= digits);
    Some(value)
}

/// More digits never spell a smaller number.
proof fn lemma_digits_value_grows(s: Seq<char>, k: int)
    requires
        0 <= k <= s.len(),
    ensures
        all_digits(s) ==> 0 <= digits_value(s.take(k)) <= digits_value(s),
    decreases s.len(),
{
    if all_digits(s) {
        if k < s.len() {
            let rest = s.drop_last();
            assert forall|i: int| 0 <= i < rest.len() implies is_digit(#[trigger] rest[i]) by {
                assert(s[i] == rest[i]);
            }
            lemma_digits_value_grows(rest, k);
            assert(rest.take(k) =~= s.take(k));
            assert(is_digit(s[s.len() - 1]));
        } else {
            assert(s.take(k) =~= s);
            lemma_digits_value_nonnegative(s);
        }
    }
}

proof fn lemma_digits_value_nonnegative(s: Seq<char>)
    requires
        all_digits(s),
    ensures
        digits_value(s) >= 0,
{
    lemma_digits_spell_nonnegative(s);
}

/// The factor of an SI suffix, if the character is one.
fn suffix(c: char) -> (r: Option<u64>)
    ensures
        match r {
            Some(f) => suffix_factor(c) == Some(f as int),
            None => suffix_factor(c) is None,
        },
{
    match c {
        'K' | 'k' => Some(1_000),
        'M' | 'm' => Some(1_000_000),
        'G' | 'g' => Some(1_000_000_000),
        'T' | 't' => Some(1_000_000_000_000),
        _ => None,
    }
}

/// Read a byte count with an optional SI suffix of powers of 1 000.
///
/// | Suffix, in either case | Factor            |
/// |------------------------|-------------------|
/// | none, `B`              | 1                 |
/// | `K`, `KB`              | 1 000             |
/// | `M`, `MB`              | 1 000 000         |
/// | `G`, `GB`              | 1 000 000 000     |
/// | `T`, `TB`              | 1 000 000 000 000 |
pub fn parse_si_bytes(s: &str) -> (r: Result<u64, SiBytesError>)
    ensures
        is_si_bytes(s@, r),
{
    let v = chars_of(s);
    let (a, end) = trim_bounds(&v, 0, v.len());
    assert(v@.subrange(0, v@.len() as int) =~= s@);
    let ghost text = v@.subrange(a as int, end as int);
    let mut b: usize = end;
    if a < b && (v[b - 1] == 'B' || v[b - 1] == 'b') {
        b = b - 1;
    }
    let ghost body = v@.subrange(a as int, b as int);
    assert(body =~= without_unit(text));
    let mut multiplier: u64 = 1;
    let mut c: usize = b;
    if a < b {
        assert(body.last() == v@[b - 1]);
        if let Some(f) = suffix(v[b - 1]) {
            multiplier = f;
            c = b - 1;
        }
    }
    assert(v@.subrange(a as int, c as int) =~= without_suffix(body));
    let (from, to) = trim_bounds(&v, a, c);
    match parse_u64(&v, from, to) {
        None => Err(SiBytesError::InvalidNumber { prefix: s.substring_char(a, c).to_owned() }),
        Some(value) => match value.checked_mul(multiplier) {
            Some(bytes) => Ok(bytes),
            None => Err(SiBytesError::Overflow),
        },
    }
}

/// A variable of the environment.
#[derive(Debug)]
pub enum Setting {
    /// Not set.
    Unset,
    /// Set to something that is no Unicode text.
    NotUnicode,
    /// Set to a text.
    Text(String),
}

/// Why a setting is no memory limit.
#[derive(Debug)]
pub enum MemLimitError {
    /// No Unicode text.
    NotUnicode,
    /// No byte count.
    Invalid { value: String, cause: SiBytesError },
    /// More bytes than the machine can count.
    TooLarge,
}

/// The memory limit that a setting stands for; `default` if it is not set.
pub fn global_mem_limit_from_env(setting: Setting, default: usize) -> (r: Result<usize, MemLimitError>)
    ensures
        match setting {
            Setting::Unset => r matches Ok(limit) && limit == default,
            Setting::NotUnicode => r matches Err(MemLimitError::NotUnicode),
            Setting::Text(text) => match r {
                Ok(limit) => is_si_bytes(text@, Ok(limit as u64)) && limit <= u64::MAX,
                Err(MemLimitError::Invalid { value, cause }) => value == text && is_si_bytes(text@, Err(cause)),
                Err(MemLimitError::TooLarge) => exists|bytes: u64|
                    bytes > usize::MAX && #[trigger] is_si_bytes(text@, Ok(bytes)),
                Err(MemLimitError::NotUnicode) => false,
            },
        },
{
    let text = match setting {
        Setting::Unset => return Ok(default),
        Setting::NotUnicode => return Err(MemLimitError::NotUnicode),
        Setting::Text(text) => text,
    };
    let bytes = match parse_si_bytes(text.as_str()) {
        Ok(bytes) => bytes,
        Err(cause) => return Err(MemLimitError::Invalid { value: text, cause }),
    };
    if bytes > usize::MAX as u64 {
        assert(is_si_bytes(text@, Ok(bytes)));
        Err(MemLimitError::TooLarge)
    } else {
        Ok(bytes as usize)
    }
}

/// A text that ends in a character other than white space loses white space at
/// its start only.
proof fn lemma_trimmed_push(s: Seq<char>, c: char)
    requires
        !is_white_space(c),
    ensures
        trimmed_start(s.push(c)) == trimmed_start(s).push(c),
        trimmed(s.push(c)) == trimmed_start(s).push(c),
    decreases s.len(),
{
    if s.len() > 0 && is_white_space(s[0]) {
        assert(s.push(c).drop_first() =~= s.drop_first().push(c));
        lemma_trimmed_push(s.drop_first(), c);
    } else if s.len() == 0 {
        assert(s.push(c)[0] == c);
    } else {
        assert(s.push(c)[0] == s[0]);
    }
}

/// A suffix means the same in either case.
pub proof fn law_suffix_case_does_not_matter(s: Seq<char>, a: char, b: char)
    requires
        suffix_factor(a) is Some,
        suffix_factor(a) == suffix_factor(b),
    ensures
        byte_factor(s.push(a)) == byte_factor(s.push(b)),
        byte_number(s.push(a)) == byte_number(s.push(b)),
        numeric_part(s.push(a)) == numeric_part(s.push(b)),
{
    lemma_trimmed_push(s, a);
    lemma_trimmed_push(s, b);
    assert(trimmed(s.push(a)).drop_last() =~= trimmed_start(s));
    assert(trimmed(s.push(b)).drop_last() =~= trimmed_start(s));
}

/// A `B` at the end, in either case, changes nothing.
pub proof fn law_unit_is_optional(s: Seq<char>, unit: char)
    requires
        unit == 'B' || unit == 'b',
        s.len() > 0,
        !is_white_space(s.last()),
        s.last() != 'B',
        s.last() != 'b',
    ensures
        byte_factor(s.push(unit)) == byte_factor(s),
        byte_number(s.push(unit)) == byte_number(s),
        numeric_part(s.push(unit)) == numeric_part(s),
{
    let rest = s.drop_last();
    assert(s =~= rest.push(s.last()));
    lemma_trimmed_push(rest, s.last());
    lemma_trimmed_push(s, unit);
    assert(trimmed(s.push(unit)).drop_last() =~= trimmed(s));
}

/// What a prefix letter multiplies by.
pub open spec fn multiplies_by(letter: char, factor: int) -> bool {
    ||| (letter == 'K' || letter == 'k') && factor == 1_000
    ||| (letter == 'M' || letter == 'm') && factor == 1_000_000
    ||| (letter == 'G' || letter == 'g') && factor == 1_000_000_000
    ||| (letter == 'T' || letter == 't') && factor == 1_000_000_000_000
}

/// What the letters behind a number stand for: nothing or a unit for one, a
/// prefix with or without a unit for its factor.
pub open spec fn stands_for(letters: Seq<char>, factor: int) -> bool {
    ||| letters.len() == 0 && factor == 1
    ||| letters.len() == 1 && (letters[0] == 'B' || letters[0] == 'b') && factor == 1
    ||| letters.len() == 1 && multiplies_by(letters[0], factor)
    ||| letters.len() == 2 && multiplies_by(letters[0], factor) && (letters[1] == 'B' || letters[1] == 'b')
}

/// The letters are all that belong to the number before them, and no white space
/// around the two is left.
pub open spec fn leaves_no_letter(number: Seq<char>, letters: Seq<char>) -> bool {
    number.len() > 0 ==> {
        let last = number[number.len() - 1];
        &&& !is_white_space(number[0])
        &&& letters.len() == 0 ==> !is_white_space(last) && last != 'B' && last != 'b'
        &&& letters.len() == 0 || (letters.len() == 1 && (letters[0] == 'B' || letters[0] == 'b')) ==> !exists|
            factor: int,
        |
            multiplies_by(last, factor)
    }
}

/// A plus sign or nothing.
pub open spec fn is_plus(sign: Seq<char>) -> bool {
    sign == Seq::<char>::empty() || sign == seq!['+']
}

proof fn lemma_letters_are_cut_off(text: Seq<char>, letters: Seq<char>, factor_of: int)
    requires
        stands_for(letters, factor_of),
        text.len() > 0,
        text.last() != 'B',
        text.last() != 'b',
        suffix_factor(text.last()) is None,
    ensures
        without_suffix(without_unit(text + letters)) == text,
        factor(without_unit(text + letters)) == factor_of,
{
    let whole = text + letters;
    if letters.len() == 0 {
        assert(whole =~= text);
    } else if letters.len() == 1 {
        assert(whole.last() == letters[0]);
        assert(whole.drop_last() =~= text);
    } else {
        assert(whole.last() == letters[1]);
        assert(whole.drop_last().last() == letters[0]);
        assert(whole.drop_last().drop_last() =~= text);
    }
}

/// A byte count is digits, perhaps after a plus sign, and letters, with white
/// space around either. It comes to the number that the digits spell times the
/// factor of the letters. It overflows if the product needs more than 64 bits;
/// if the number alone does, it is none, and the part before the letters is
/// handed back.
pub proof fn law_byte_count_is_product(
    before: Seq<char>,
    sign: Seq<char>,
    digits: Seq<char>,
    gap: Seq<char>,
    letters: Seq<char>,
    after: Seq<char>,
    factor_of: int,
    r: Result<u64, SiBytesError>,
)
    requires
        is_blank(before),
        is_blank(gap),
        is_blank(after),
        is_plus(sign),
        digits.len() > 0,
        forall|i: int| 0 <= i < digits.len() ==> 48 <= (#[trigger] digits[i]) as int <= 57,
        stands_for(letters, factor_of),
        is_si_bytes(before + sign + digits + gap + letters + after, r),
    ensures
        digits_value(digits) * factor_of <= u64::MAX ==> (r matches Ok(bytes) && bytes == digits_value(digits)
            * factor_of),
        digits_value(digits) <= u64::MAX < digits_value(digits) * factor_of ==> r matches Err(SiBytesError::Overflow),
        digits_value(digits) > u64::MAX ==> (r matches Err(SiBytesError::InvalidNumber { prefix }) && prefix@ == sign
            + digits + (if letters.len() > 0 {
            gap
        } else {
            Seq::empty()
        })),
{
    let s = before + sign + digits + gap + letters + after;
    let number = sign + digits;
    let v = digits_value(digits);
    law_digits_are_decimal(digits);
    lemma_digits_value_nonnegative(digits);
    assert(is_digit(digits[digits.len() - 1]) && is_digit(digits[0]));
    assert(number.last() == digits[digits.len() - 1]);
    assert(number[0] == '+' || number[0] == digits[0]) by {
        if sign.len() == 0 {
            assert(number[0] == digits[0]);
        } else {
            assert(number[0] == sign[0]);
        }
    }
    let none = Seq::<char>::empty();
    let kept = if letters.len() > 0 {
        gap
    } else {
        none
    };
    let text = number + kept;
    let core = text + letters;
    if letters.len() == 0 {
        let tail = gap + after;
        assert forall|i: int| 0 <= i < tail.len() implies is_white_space(#[trigger] tail[i]) by {
            if i < gap.len() {
                assert(tail[i] == gap[i]);
            } else {
                assert(tail[i] == after[i - gap.len()]);
            }
        }
        assert(core =~= number);
        assert(s =~= before + core + tail);
        law_trimming_takes_off_outer_white_space(before, core, tail);
    } else {
        assert(s =~= before + core + after);
        assert(core[0] == number[0]);
        assert(core[core.len() - 1] == letters[letters.len() - 1]);
        law_trimming_takes_off_outer_white_space(before, core, after);
    }
    assert(trimmed(s) == core);
    if kept.len() > 0 {
        assert(text.last() == kept[kept.len() - 1]);
    } else {
        assert(text =~= number);
    }
    lemma_letters_are_cut_off(text, letters, factor_of);
    assert(numeric_part(s) == text);
    assert(byte_factor(s) == factor_of);
    assert(is_blank(none));
    assert(none + number + kept =~= text);
    law_trimming_takes_off_outer_white_space(none, number, kept);
    if sign.len() == 0 {
        assert(number =~= digits);
        assert(number[0] == digits[0]);
    } else {
        assert(number[0] == '+');
        assert(number.drop_first() =~= digits);
    }
    assert(unsigned(trimmed(text)) == Some(v));
    assert(v > u64::MAX ==> v * factor_of > u64::MAX) by (nonlinear_arith)
        requires
            factor_of >= 1,
    ;
    assert(sign + digits + kept =~= text);
}

/// Any other text is no byte count: what is accepted, or overflows, is digits,
/// perhaps after a plus sign, and letters, with white space around either.
pub proof fn law_only_byte_counts_are_read(s: Seq<char>, r: Result<u64, SiBytesError>)
    requires
        is_si_bytes(s, r),
        !(r matches Err(SiBytesError::InvalidNumber { prefix })),
    ensures
        exists|
            before: Seq<char>,
            sign: Seq<char>,
            digits: Seq<char>,
            gap: Seq<char>,
            letters: Seq<char>,
            after: Seq<char>,
            factor_of: int,
        |
            s == #[trigger] (before + sign + digits + gap + letters + after) && is_blank(before) && is_blank(gap)
                && is_blank(after) && is_plus(sign) && digits.len() > 0 && all_digits(digits) && #[trigger] stands_for(
                letters,
                factor_of,
            ),
{
    let text = trimmed(s);
    let part = numeric_part(s);
    law_text_is_padded_trimmed_text(s);
    let (before, after) = choose|before: Seq<char>, after: Seq<char>|
        #![trigger is_blank(before), is_blank(after)]
        is_blank(before) && is_blank(after) && s == before + trimmed(s) + after;
    let letters = text.skip(part.len() as int);
    let factor_of = byte_factor(s);
    assert(text =~= part + letters);
    assert(stands_for(letters, factor_of));
    law_text_is_padded_trimmed_text(part);
    let (lead, gap) = choose|lead: Seq<char>, gap: Seq<char>|
        #![trigger is_blank(lead), is_blank(gap)]
        is_blank(lead) && is_blank(gap) && part == lead + trimmed(part) + gap;
    let number = trimmed(part);
    let signed = number.len() > 0 && number[0] == '+';
    let sign = if signed {
        seq!['+']
    } else {
        Seq::<char>::empty()
    };
    let digits = if signed {
        number.drop_first()
    } else {
        number
    };
    assert(unsigned(number) is Some);
    assert(number =~= sign + digits);
    let front = before + lead;
    assert forall|i: int| 0 <= i < front.len() implies is_white_space(#[trigger] front[i]) by {
        if i < before.len() {
            assert(front[i] == before[i]);
        } else {
            assert(front[i] == lead[i - before.len()]);
        }
    }
    assert(s =~= front + sign + digits + gap + letters + after);
    assert(is_plus(sign));
}

/// A text that is no byte count is handed back without the letters at its end
/// and the white space around it.
pub proof fn law_invalid_number_is_handed_back(s: Seq<char>, r: Result<u64, SiBytesError>)
    requires
        is_si_bytes(s, r),
    ensures
        r matches Err(SiBytesError::InvalidNumber { prefix }) ==> exists|
            before: Seq<char>,
            letters: Seq<char>,
            after: Seq<char>,
            factor_of: int,
        |
            s == #[trigger] (before + prefix@ + letters + after) && is_blank(before) && is_blank(after)
                && #[trigger] stands_for(letters, factor_of) && leaves_no_letter(prefix@, letters),
{
    if let Err(SiBytesError::InvalidNumber { prefix }) = r {
        let text = trimmed(s);
        let part = numeric_part(s);
        law_text_is_padded_trimmed_text(s);
        let (before, after) = choose|before: Seq<char>, after: Seq<char>|
            #![trigger is_blank(before), is_blank(after)]
            is_blank(before) && is_blank(after) && s == before + trimmed(s) + after;
        let letters = text.skip(part.len() as int);
        assert(text =~= part + letters);
        assert(stands_for(letters, byte_factor(s)));
        assert(part == prefix@);
        assert(s =~= before + prefix@ + letters + after);
        if part.len() > 0 {
            assert(part[0] == text[0]);
        }
        assert(leaves_no_letter(part, letters));
    }
}

/// A limit that is read from a text is the byte count, and nothing else.
pub proof fn law_byte_count_is_unique(s: Seq<char>, a: Result<u64, SiBytesError>, b: Result<u64, SiBytesError>)
    requires
        is_si_bytes(s, a),
        is_si_bytes(s, b),
    ensures
        a is Ok <==> b is Ok,
        a matches Ok(n) ==> b == Ok::<u64, SiBytesError>(n),
{
}


} // verus!
