//! Characters, white space and decimal digits.
use vstd::arithmetic::power::{lemma_pow_positive, pow};
use vstd::prelude::*;

verus! {

/// The characters with the Unicode property `White_Space`.
pub open spec fn is_white_space(c: char) -> bool {
    let u = c as u32;
    ||| 0x09 <= u <= 0x0d
    ||| u == 0x20
    ||| u == 0x85
    ||| u == 0xa0
    ||| u == 0x1680
    ||| 0x2000 <= u <= 0x200a
    ||| u == 0x2028
    ||| u == 0x2029
    ||| u == 0x202f
    ||| u == 0x205f
    ||| u == 0x3000
}

/// The text without white space at its start.
pub open spec fn trimmed_start(s: Seq<char>) -> Seq<char>
    decreases s.len(),
{
    if s.len() > 0 && is_white_space(s[0]) {
        trimmed_start(s.drop_first())
    } else {
        s
    }
}

/// The text without white space at its end.
pub open spec fn trimmed_end(s: Seq<char>) -> Seq<char>
    decreases s.len(),
{
    if s.len() > 0 && is_white_space(s.last()) {
        trimmed_end(s.drop_last())
    } else {
        s
    }
}

/// The text without white space at either end.
pub open spec fn trimmed(s: Seq<char>) -> Seq<char> {
    trimmed_end(trimmed_start(s))
}

pub open spec fn is_digit(c: char) -> bool {
    '0' <= c <= '9'
}

pub open spec fn all_digits(s: Seq<char>) -> bool {
    forall|i: int| 0 <= i < s.len() ==> is_digit(#[trigger] s[i])
}

pub open spec fn all_zeros(s: Seq<char>) -> bool {
    forall|i: int| 0 <= i < s.len() ==> #[trigger] s[i] == '0'
}

pub open spec fn digit_value(c: char) -> int {
    c as int - '0' as int
}

/// The number that decimal digits spell.
pub open spec fn digits_value(s: Seq<char>) -> int
    decreases s.len(),
{
    if s.len() == 0 {
        0
    } else {
        digits_value(s.drop_last()) * 10 + digit_value(s.last())
    }
}

/// The digit of a number below ten.
pub open spec fn digit_char(d: nat) -> char {
    ('0' as nat + d) as char
}

/// A number in decimal digits, without leading zeros.
pub open spec fn decimal_digits(n: nat) -> Seq<char>
    decreases n,
{
    if n < 10 {
        seq![digit_char(n)]
    } else {
        decimal_digits(n / 10).push(digit_char(n % 10))
    }
}

/// The last `width` decimal digits of a number.
pub open spec fn padded_digits(n: nat, width: nat) -> Seq<char>
    decreases width,
{
    if width == 0 {
        Seq::empty()
    } else {
        padded_digits(n / 10, (width - 1) as nat).push(digit_char(n % 10))
    }
}

/// A decimal in plain notation: a minus sign, digits, a point and digits.
pub open spec fn plain_text(negative: bool, whole: Seq<char>, fraction: Seq<char>) -> Seq<char> {
    (if negative {
        seq!['-']
    } else {
        Seq::empty()
    }) + whole + (if fraction.len() > 0 {
        seq!['.'] + fraction
    } else {
        Seq::empty()
    })
}

/// Whether the character is white space.
pub fn white_space(c: char) -> (r: bool)
    ensures
        r == is_white_space(c),
{
    let u: u32 = c as u32;
    (0x09 <= u && u <= 0x0d) || u == 0x20 || u == 0x85 || u == 0xa0 || u == 0x1680 || (0x2000 <= u && u <= 0x200a)
        || u == 0x2028 || u == 0x2029 || u == 0x202f || u == 0x205f || u == 0x3000
}

/// The characters of a text.
pub fn chars_of(s: &str) -> (v: Vec<char>)
    ensures
        v@ == s@,
{
    let mut v: Vec<char> = Vec::new();
    for c in it: s.chars()
        invariant
            it.seq() == s@,
            v@ == s@.take(it.index() as int),
    {
        v.push(c);
    }
    v
}

/// Where the text between `from` and `to` starts and ends without white space
/// around it.
pub fn trim_bounds(v: &Vec<char>, from: usize, to: usize) -> (r: (usize, usize))
    requires
        from <= to <= v@.len(),
    ensures
        from <= r.0 <= r.1 <= to,
        trimmed(v@.subrange(from as int, to as int)) == v@.subrange(r.0 as int, r.1 as int),
{
    let mut a: usize = from;
    while a < to && white_space(v[a])
        invariant
            from <= a <= to <= v@.len(),
            trimmed_start(v@.subrange(from as int, to as int)) == trimmed_start(
                v@.subrange(a as int, to as int),
            ),
        decreases to - a,
    {
        assert(v@.subrange(a as int, to as int).drop_first() =~= v@.subrange(a + 1, to as int));
        a = a + 1;
    }
    let mut b: usize = to;
    while a < b && white_space(v[b - 1])
        invariant
            a <= b <= to <= v@.len(),
            trimmed_end(v@.subrange(a as int, to as int)) == trimmed_end(v@.subrange(a as int, b as int)),
        decreases b,
    {
        assert(v@.subrange(a as int, b as int).drop_last() =~= v@.subrange(a as int, b - 1));
        b = b - 1;
    }
    (a, b)
}

/// Digits written one after the other spell the first shifted by the length of
/// the second, plus the second.
pub proof fn lemma_digits_value_concat(a: Seq<char>, b: Seq<char>)
    ensures
        digits_value(a + b) == digits_value(a) * pow(10, b.len()) + digits_value(b),
    decreases b.len(),
{
    reveal(pow);
    if b.len() == 0 {
        assert(a + b =~= a);
    } else {
        let rest = b.drop_last();
        assert((a + b).drop_last() =~= a + rest);
        lemma_digits_value_concat(a, rest);
        let x = digits_value(a);
        let p = pow(10, rest.len());
        assert((x * p) * 10 == x * (10 * p)) by (nonlinear_arith);
    }
}

pub proof fn lemma_decimal_digits(n: nat)
    ensures
        all_digits(decimal_digits(n)),
        decimal_digits(n).len() > 0,
        digits_value(decimal_digits(n)) == n,
    decreases n,
{
    if n < 10 {
        assert(decimal_digits(n).drop_last() =~= Seq::empty());
        assert(digits_value(Seq::<char>::empty()) == 0);
    } else {
        lemma_decimal_digits(n / 10);
        assert(decimal_digits(n).drop_last() =~= decimal_digits(n / 10));
    }
}

pub proof fn lemma_padded_digits(n: nat, width: nat)
    requires
        n < pow(10, width),
    ensures
        all_digits(padded_digits(n, width)),
        padded_digits(n, width).len() == width,
        digits_value(padded_digits(n, width)) == n,
    decreases width,
{
    reveal(pow);
    if width > 0 {
        assert(pow(10, width) == 10 * pow(10, (width - 1) as nat));
        lemma_padded_digits(n / 10, (width - 1) as nat);
        assert(padded_digits(n, width).drop_last() =~= padded_digits(n / 10, (width - 1) as nat));
    }
}

/// A number shifted by `k` places is the number followed by `k` zeros.
pub proof fn lemma_padded_digits_shifted(n: nat, width: nat, k: nat)
    ensures
        padded_digits((n * pow(10, k)) as nat, width + k).len() == width + k,
        padded_digits((n * pow(10, k)) as nat, width + k).take(width as int) == padded_digits(n, width),
        all_zeros(padded_digits((n * pow(10, k)) as nat, width + k).skip(width as int)),
    decreases k,
{
    reveal(pow);
    let shifted = (n * pow(10, k)) as nat;
    let text = padded_digits(shifted, width + k);
    lemma_pow_positive(10, k);
    assert(n * pow(10, k) >= 0) by (nonlinear_arith)
        requires
            pow(10, k) > 0,
    ;
    if k == 0 {
        assert(shifted == n);
        lemma_padded_digits_len(n, width);
        assert(text.take(width as int) =~= padded_digits(n, width));
    } else {
        let less = (n * pow(10, (k - 1) as nat)) as nat;
        lemma_pow_positive(10, (k - 1) as nat);
        assert(n * pow(10, (k - 1) as nat) >= 0) by (nonlinear_arith)
            requires
                pow(10, (k - 1) as nat) > 0,
        ;
        assert(n * (10 * pow(10, (k - 1) as nat)) == 10 * (n * pow(10, (k - 1) as nat))) by (nonlinear_arith);
        assert(shifted == 10 * less);
        lemma_padded_digits_shifted(n, width, (k - 1) as nat);
        let front = padded_digits(less, (width + k - 1) as nat);
        assert(text == front.push(digit_char(0)));
        assert(text.take(width as int) =~= front.take(width as int));
        assert forall|i: int| 0 <= i < text.skip(width as int).len() implies #[trigger] text.skip(width as int)[i]
            == '0' by {
            if i < k - 1 {
                assert(text.skip(width as int)[i] == front.skip(width as int)[i]);
            }
        }
    }
}

pub proof fn lemma_padded_digits_len(n: nat, width: nat)
    ensures
        padded_digits(n, width).len() == width,
    decreases width,
{
    if width > 0 {
        lemma_padded_digits_len(n / 10, (width - 1) as nat);
    }
}

/// A text that starts and ends with other characters has no white space to
/// lose.
pub proof fn lemma_nothing_to_trim(s: Seq<char>)
    requires
        s.len() > 0,
        !is_white_space(s[0]),
        !is_white_space(s.last()),
    ensures
        trimmed(s) == s,
{
}

/// White space is tab to carriage return, space, next line, no-break space, and
/// the spaces and separators of the other blocks.
pub proof fn law_white_space_is_this_set(c: char)
    ensures
        is_white_space(c) <==> (9 <= c as int <= 13 || c as int == 32 || c as int == 133 || c as int == 160 || c as int
            == 5760 || 8192 <= c as int <= 8202 || c as int == 8232 || c as int == 8233 || c as int == 8239 || c as int
            == 8287 || c as int == 12288),
{
}

/// The text is nothing but white space.
pub open spec fn is_blank(s: Seq<char>) -> bool {
    forall|i: int| 0 <= i < s.len() ==> is_white_space(#[trigger] s[i])
}

proof fn lemma_trimmed_start_of_padded(before: Seq<char>, rest: Seq<char>)
    requires
        is_blank(before),
    ensures
        trimmed_start(before + rest) == trimmed_start(rest),
    decreases before.len(),
{
    if before.len() == 0 {
        assert(before + rest =~= rest);
    } else {
        assert((before + rest).drop_first() =~= before.drop_first() + rest);
        assert(is_white_space((before + rest)[0])) by {
            assert(before[0] == (before + rest)[0]);
        }
        assert forall|i: int| 0 <= i < before.drop_first().len() implies is_white_space(
            #[trigger] before.drop_first()[i],
        ) by {
            assert(before[i + 1] == before.drop_first()[i]);
        }
        lemma_trimmed_start_of_padded(before.drop_first(), rest);
    }
}

proof fn lemma_trimmed_end_of_padded(rest: Seq<char>, after: Seq<char>)
    requires
        is_blank(after),
    ensures
        trimmed_end(rest + after) == trimmed_end(rest),
    decreases after.len(),
{
    if after.len() == 0 {
        assert(rest + after =~= rest);
    } else {
        assert((rest + after).drop_last() =~= rest + after.drop_last());
        assert(is_white_space((rest + after).last())) by {
            assert(after[after.len() - 1] == (rest + after).last());
        }
        assert forall|i: int| 0 <= i < after.drop_last().len() implies is_white_space(
            #[trigger] after.drop_last()[i],
        ) by {
            assert(after[i] == after.drop_last()[i]);
        }
        lemma_trimmed_end_of_padded(rest, after.drop_last());
    }
}

/// Trimming takes off the white space around a text, all of it and nothing else:
/// whatever stands between white space, and neither starts nor ends with it, is
/// what is left.
pub proof fn law_trimming_takes_off_outer_white_space(before: Seq<char>, text: Seq<char>, after: Seq<char>)
    requires
        is_blank(before),
        is_blank(after),
        text.len() > 0 ==> !is_white_space(text[0]) && !is_white_space(text[text.len() - 1]),
    ensures
        trimmed(before + text + after) == text,
{
    assert(before + text + after =~= before + (text + after));
    lemma_trimmed_start_of_padded(before, text + after);
    if text.len() == 0 {
        assert(text + after =~= after + text);
        lemma_trimmed_start_of_padded(after, text);
    } else {
        assert((text + after)[0] == text[0]);
        lemma_trimmed_end_of_padded(text, after);
    }
}

/// Every text is white space, the trimmed text, and white space.
pub proof fn law_text_is_padded_trimmed_text(s: Seq<char>)
    ensures
        exists|before: Seq<char>, after: Seq<char>|
            #![trigger is_blank(before), is_blank(after)]
            is_blank(before) && is_blank(after) && s == before + trimmed(s) + after,
        trimmed(s).len() > 0 ==> !is_white_space(trimmed(s)[0]) && !is_white_space(trimmed(s)[trimmed(s).len() - 1]),
{
    let a = lemma_trimmed_start_split(s);
    let left = trimmed_start(s);
    let b = lemma_trimmed_end_split(left);
    let before = s.take(a);
    let after = left.skip(b);
    assert(s =~= before + trimmed(s) + after);
    assert(is_blank(before) && is_blank(after));
    if trimmed(s).len() > 0 {
        assert(trimmed(s)[0] == left[0]);
    }
}

proof fn lemma_trimmed_start_split(s: Seq<char>) -> (a: int)
    ensures
        0 <= a <= s.len(),
        is_blank(s.take(a)),
        trimmed_start(s) == s.skip(a),
        a < s.len() ==> !is_white_space(s[a]),
    decreases s.len(),
{
    if s.len() > 0 && is_white_space(s[0]) {
        let rest = s.drop_first();
        let a = lemma_trimmed_start_split(rest);
        assert(rest.skip(a) =~= s.skip(a + 1));
        assert forall|i: int| 0 <= i < s.take(a + 1).len() implies is_white_space(#[trigger] s.take(a + 1)[i]) by {
            if i > 0 {
                assert(rest.take(a)[i - 1] == s.take(a + 1)[i]);
            }
        }
        a + 1
    } else {
        assert(s.skip(0) =~= s);
        0
    }
}

proof fn lemma_trimmed_end_split(s: Seq<char>) -> (b: int)
    ensures
        0 <= b <= s.len(),
        is_blank(s.skip(b)),
        trimmed_end(s) == s.take(b),
        b > 0 ==> !is_white_space(s[b - 1]),
    decreases s.len(),
{
    if s.len() > 0 && is_white_space(s.last()) {
        let rest = s.drop_last();
        let b = lemma_trimmed_end_split(rest);
        assert(rest.take(b) =~= s.take(b));
        assert forall|i: int| 0 <= i < s.skip(b).len() implies is_white_space(#[trigger] s.skip(b)[i]) by {
            if i < rest.len() - b {
                assert(rest.skip(b)[i] == s.skip(b)[i]);
            }
        }
        b
    } else {
        assert(s.take(s.len() as int) =~= s);
        s.len() as int
    }
}

/// One digit more multiplies what the digits before it spell by ten and adds the
/// digit; no digits spell zero.
pub proof fn law_digit_is_appended(s: Seq<char>, c: char)
    ensures
        digits_value(Seq::<char>::empty()) == 0,
        digits_value(s.push(c)) == 10 * digits_value(s) + (c as int - 48),
{
    assert(s.push(c).drop_last() =~= s);
}

/// A text is all digits, or all zeros, exactly if each of its characters is one.
pub proof fn law_digits_are_decimal(s: Seq<char>)
    ensures
        all_digits(s) <==> forall|i: int| 0 <= i < s.len() ==> 48 <= (#[trigger] s[i]) as int <= 57,
        all_zeros(s) <==> forall|i: int| 0 <= i < s.len() ==> (#[trigger] s[i]) as int == 48,
{
    if forall|i: int| 0 <= i < s.len() ==> 48 <= (#[trigger] s[i]) as int <= 57 {
        assert forall|i: int| 0 <= i < s.len() implies is_digit(#[trigger] s[i]) by {}
    }
    if all_digits(s) {
        assert forall|i: int| 0 <= i < s.len() implies 48 <= (#[trigger] s[i]) as int <= 57 by {
            assert(is_digit(s[i]));
        }
    }
}

proof fn lemma_next_place(n: nat, i: nat)
    ensures
        (n / 10) as int / pow(10, i) == n as int / pow(10, i + 1),
        pow(10, i + 1) == 10 * pow(10, i),
        pow(10, i) > 0,
{
    reveal(pow);
    lemma_pow_positive(10, i);
    vstd::arithmetic::div_mod::lemma_div_denominator(n as int, 10, pow(10, i));
}

/// The digits of a number, counted from the right, are its places; there are as
/// many as the number needs.
pub proof fn law_digits_show_places(n: nat)
    ensures
        decimal_digits(n).len() >= 1,
        (n as int) < pow(10, decimal_digits(n).len()),
        decimal_digits(n).len() > 1 ==> pow(10, (decimal_digits(n).len() - 1) as nat) <= n,
        forall|i: nat|
            i < decimal_digits(n).len() ==> (#[trigger] decimal_digits(n)[decimal_digits(n).len() - 1 - i]) as int
                == 48 + (n as int / pow(10, i)) % 10,
    decreases n,
{
    reveal(pow);
    let text = decimal_digits(n);
    assert(pow(10, 0) == 1);
    assert(pow(10, 1) == 10 * pow(10, 0));
    if n >= 10 {
        let front = decimal_digits(n / 10);
        law_digits_show_places(n / 10);
        lemma_next_place(n, front.len());
        lemma_next_place(n, (front.len() - 1) as nat);
        assert forall|i: nat| i < text.len() implies (#[trigger] text[text.len() - 1 - i]) as int == 48 + (n as int
            / pow(10, i)) % 10 by {
            if i > 0 {
                lemma_next_place(n, (i - 1) as nat);
                let j = (i - 1) as nat;
                assert(front[front.len() - 1 - j] as int == 48 + ((n / 10) as int / pow(10, j)) % 10);
                assert(text[text.len() - 1 - i] == front[front.len() - 1 - j]);
            }
        }
    }
}

/// Digits of a fixed width, counted from the right, are the places of the number.
pub proof fn law_padded_digits_show_places(n: nat, width: nat)
    ensures
        padded_digits(n, width).len() == width,
        forall|i: nat|
            i < width ==> (#[trigger] padded_digits(n, width)[width - 1 - i]) as int == 48 + (n as int / pow(10, i)) % 10,
    decreases width,
{
    reveal(pow);
    assert(pow(10, 0) == 1);
    let text = padded_digits(n, width);
    if width > 0 {
        let front = padded_digits(n / 10, (width - 1) as nat);
        law_padded_digits_show_places(n / 10, (width - 1) as nat);
        assert forall|i: nat| i < width implies (#[trigger] text[width - 1 - i]) as int == 48 + (n as int / pow(10, i))
            % 10 by {
            if i > 0 {
                lemma_next_place(n, (i - 1) as nat);
                let j = (i - 1) as nat;
                assert(front[(width - 1) as nat - 1 - j] as int == 48 + ((n / 10) as int / pow(10, j)) % 10);
                assert(text[width - 1 - i] == front[(width - 1) as nat - 1 - j]);
            }
        }
    }
}

/// Digits never spell a number below zero.
pub proof fn lemma_digits_spell_nonnegative(s: Seq<char>)
    requires
        all_digits(s),
    ensures
        digits_value(s) >= 0,
    decreases s.len(),
{
    if s.len() > 0 {
        let rest = s.drop_last();
        assert forall|i: int| 0 <= i < rest.len() implies is_digit(#[trigger] rest[i]) by {
            assert(s[i] == rest[i]);
        }
        lemma_digits_spell_nonnegative(rest);
        assert(is_digit(s[s.len() - 1]));
    }
}

} // verus!
