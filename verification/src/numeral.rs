//! Decimal numerals read as fixed-point numbers with three decimals.

use vstd::prelude::*;
use vstd::string::StrSliceExecFns;

verus! {

pub open spec fn is_digit(c: char) -> bool {
    '0' <= c && c <= '9'
}

pub open spec fn digit_value(c: char) -> int {
    c as int - 48
}

pub open spec fn all_digits(text: Seq<char>) -> bool {
    forall|i: int| 0 <= i < text.len() ==> is_digit(#[trigger] text[i])
}

/// The number that a run of decimal digits writes.
pub open spec fn digits_value(text: Seq<char>) -> int
    decreases text.len(),
{
    if text.len() == 0 {
        0
    } else {
        digits_value(text.drop_last()) * 10 + digit_value(text.last())
    }
}

/// The place of the first `mark` in `text`, or the length of `text` where
/// there is none.
pub open spec fn first_of(text: Seq<char>, mark: char) -> int
    decreases text.len(),
{
    if text.len() == 0 || text[0] == mark {
        0
    } else {
        1 + first_of(text.drop_first(), mark)
    }
}

/// The weight of a fraction written with `places` digits, in thousandths.
pub open spec fn fraction_scale(places: int) -> int {
    if places <= 0 {
        1000
    } else if places == 1 {
        100
    } else if places == 2 {
        10
    } else {
        1
    }
}

/// The digits before the decimal point.
pub open spec fn whole_part(text: Seq<char>) -> Seq<char> {
    text.take(first_of(text, '.'))
}

/// The digits after the decimal point; empty where there is no point.
pub open spec fn fraction_part(text: Seq<char>) -> Seq<char> {
    if first_of(text, '.') < text.len() {
        text.skip(first_of(text, '.') + 1)
    } else {
        Seq::empty()
    }
}

/// The digits of the fraction that count: its first three.
pub open spec fn kept_part(text: Seq<char>) -> Seq<char> {
    if fraction_part(text).len() > 3 {
        fraction_part(text).take(3)
    } else {
        fraction_part(text)
    }
}

/// The value of a numeral in thousandths: digits, then optionally a point
/// and more digits, with at least one digit in all. Digits after the third
/// decimal are cut off. `None` for any other text, and for a value that does
/// not fit in 64 bits.
pub open spec fn decimal_value(text: Seq<char>) -> Option<u64> {
    let whole = whole_part(text);
    let fraction = fraction_part(text);
    let kept = kept_part(text);
    let value = digits_value(whole) * 1000 + digits_value(kept) * fraction_scale(kept.len() as int);
    if whole.len() + fraction.len() > 0 && all_digits(whole) && all_digits(fraction) && value
        <= u64::MAX {
        Some(value as u64)
    } else {
        None
    }
}

/// `items` followed by `rest`, where there is a rest.
pub open spec fn followed_by(items: Seq<u64>, rest: Option<Seq<u64>>) -> Option<Seq<u64>> {
    match rest {
        None => None,
        Some(more) => Some(items + more),
    }
}

/// The values of a list of numerals separated by commas, in thousandths.
/// `None` where one of them is no numeral.
pub open spec fn list_values(text: Seq<char>) -> Option<Seq<u64>>
    decreases text.len(),
{
    let cut = first_of(text, ',');
    match decimal_value(text.take(cut)) {
        None => None,
        Some(value) => if 0 <= cut < text.len() {
            followed_by(seq![value], list_values(text.skip(cut + 1)))
        } else {
            Some(seq![value])
        },
    }
}

proof fn lemma_first_of(text: Seq<char>, mark: char, at: int)
    requires
        0 <= at <= text.len(),
        forall|j: int| 0 <= j < at ==> text[j] != mark,
        at < text.len() ==> text[at] == mark,
    ensures
        first_of(text, mark) == at,
    decreases text.len(),
{
    if at > 0 {
        lemma_first_of(text.drop_first(), mark, at - 1);
    }
}

/// A run of digits writes at least what any of its prefixes writes.
proof fn lemma_digits_prefix(text: Seq<char>, shorter: int)
    requires
        all_digits(text),
        0 <= shorter <= text.len(),
    ensures
        0 <= digits_value(text.take(shorter)) <= digits_value(text),
    decreases text.len(),
{
    if text.len() == 0 {
        assert(text.take(shorter) =~= text);
    } else if shorter == text.len() {
        assert(text.take(shorter) =~= text);
        lemma_digits_prefix(text.drop_last(), shorter - 1);
    } else {
        assert(text.drop_last().take(shorter) =~= text.take(shorter));
        lemma_digits_prefix(text.drop_last(), shorter);
    }
}

/// A run of at most three digits writes less than a thousand.
proof fn lemma_short_digits(text: Seq<char>)
    requires
        all_digits(text),
        text.len() <= 3,
    ensures
        0 <= digits_value(text) < 1000,
        0 <= digits_value(text) * fraction_scale(text.len() as int) < 1000,
{
    reveal_with_fuel(digits_value, 4);
    if text.len() >= 1 {
        assert(is_digit(text.last()));
        let a = text.drop_last();
        if a.len() >= 1 {
            assert(a.last() == text[text.len() - 2]);
            let b = a.drop_last();
            if b.len() >= 1 {
                assert(b.last() == text[text.len() - 3]);
            }
        }
    }
}

/// The characters of a text, one by one.
pub fn characters(text: &str) -> (chars: Vec<char>)
    ensures
        chars@ == text@,
{
    let count = text.unicode_len();
    let mut chars: Vec<char> = Vec::new();
    let mut i: usize = 0;
    while i < count
        invariant
            count == text@.len(),
            i <= count,
            chars@ == text@.take(i as int),
        decreases count - i,
    {
        chars.push(text.get_char(i));
        proof {
            assert(text@.take(i + 1) =~= text@.take(i as int).push(text@[i as int]));
        }
        i = i + 1;
    }
    proof {
        assert(text@.take(count as int) =~= text@);
    }
    chars
}

/// The place of the first `mark` in `chars[from..to]`, or `to` where there
/// is none.
pub fn find_char(chars: &Vec<char>, from: usize, to: usize, mark: char) -> (at: usize)
    requires
        from <= to <= chars.len(),
    ensures
        from <= at <= to,
        at == from + first_of(chars@.subrange(from as int, to as int), mark),
{
    let mut at: usize = from;
    while at < to && chars[at] != mark
        invariant
            from <= at <= to <= chars.len(),
            forall|j: int| from <= j < at ==> chars[j] != mark,
        decreases to - at,
    {
        at = at + 1;
    }
    proof {
        lemma_first_of(chars@.subrange(from as int, to as int), mark, at - from);
    }
    at
}

/// The number that the digits `chars[from..to]` write; `None` where one of
/// them is no digit or the number does not fit in 64 bits.
pub fn read_digits(chars: &Vec<char>, from: usize, to: usize) -> (value: Option<u64>)
    requires
        from <= to <= chars.len(),
    ensures
        value == if all_digits(chars@.subrange(from as int, to as int)) && digits_value(
            chars@.subrange(from as int, to as int),
        ) <= u64::MAX {
            Some(digits_value(chars@.subrange(from as int, to as int)) as u64)
        } else {
            None
        },
{
    let ghost text = chars@.subrange(from as int, to as int);
    let mut sum: u64 = 0;
    let mut i: usize = from;
    while i < to
        invariant
            from <= i <= to <= chars.len(),
            text == chars@.subrange(from as int, to as int),
            all_digits(text.take(i - from)),
            sum == digits_value(text.take(i - from)),
        decreases to - i,
    {
        let c = chars[i];
        if !(c >= '0' && c <= '9') {
            proof {
                assert(!is_digit(text[i - from]));
            }
            return None;
        }
        let digit: u64 = (c as u32 - 48) as u64;
        proof {
            assert(text.take(i + 1 - from).drop_last() =~= text.take(i - from));
            assert(text.take(i + 1 - from).last() == c);
            if all_digits(text) {
                lemma_digits_prefix(text, i + 1 - from);
            }
        }
        if sum > (u64::MAX - digit) / 10 {
            return None;
        }
        sum = sum * 10 + digit;
        i = i + 1;
    }
    proof {
        assert(text.take(to - from) =~= text);
    }
    Some(sum)
}

/// Whether `chars[from..to]` holds digits only.
pub fn only_digits(chars: &Vec<char>, from: usize, to: usize) -> (ok: bool)
    requires
        from <= to <= chars.len(),
    ensures
        ok == all_digits(chars@.subrange(from as int, to as int)),
{
    let ghost text = chars@.subrange(from as int, to as int);
    let mut i: usize = from;
    while i < to
        invariant
            from <= i <= to <= chars.len(),
            text == chars@.subrange(from as int, to as int),
            forall|j: int| 0 <= j < i - from ==> is_digit(#[trigger] text[j]),
        decreases to - i,
    {
        let c = chars[i];
        if !(c >= '0' && c <= '9') {
            proof {
                assert(!is_digit(text[i - from]));
            }
            return false;
        }
        i = i + 1;
    }
    true
}

/// The value in thousandths of the numeral `chars[from..to]`.
pub fn parse_decimal(chars: &Vec<char>, from: usize, to: usize) -> (value: Option<u64>)
    requires
        from <= to <= chars.len(),
    ensures
        value == decimal_value(chars@.subrange(from as int, to as int)),
{
    let ghost text = chars@.subrange(from as int, to as int);
    let point = find_char(chars, from, to, '.');
    let after = if point < to {
        point + 1
    } else {
        to
    };
    let kept_end = if to - after > 3 {
        after + 3
    } else {
        to
    };
    proof {
        assert(whole_part(text) =~= chars@.subrange(from as int, point as int));
        assert(fraction_part(text) =~= chars@.subrange(after as int, to as int));
        assert(kept_part(text) =~= chars@.subrange(after as int, kept_end as int));
    }
    if (point - from) + (to - after) == 0 {
        return None;
    }
    let whole = read_digits(chars, from, point);
    let fraction = read_digits(chars, after, kept_end);
    let rest_fits = only_digits(chars, kept_end, to);
    proof {
        let fraction_text = fraction_part(text);
        let kept = kept_part(text);
        let rest = chars@.subrange(kept_end as int, to as int);
        if all_digits(fraction_text) {
            assert forall|i: int| 0 <= i < kept.len() implies is_digit(#[trigger] kept[i]) by {
                assert(kept[i] == fraction_text[i]);
            }
            assert forall|i: int| 0 <= i < rest.len() implies is_digit(#[trigger] rest[i]) by {
                assert(rest[i] == fraction_text[i + kept.len()]);
            }
        }
        if all_digits(kept) && all_digits(rest) {
            assert forall|i: int| 0 <= i < fraction_text.len() implies is_digit(
                #[trigger] fraction_text[i],
            ) by {
                if i < kept.len() {
                    assert(fraction_text[i] == kept[i]);
                } else {
                    assert(fraction_text[i] == rest[i - kept.len()]);
                }
            }
        }
        if all_digits(kept) {
            lemma_short_digits(kept);
        }
        if all_digits(whole_part(text)) {
            lemma_digits_prefix(whole_part(text), 0);
        }
    }
    if !rest_fits {
        return None;
    }
    match (whole, fraction) {
        (Some(units), Some(part)) => {
            let scale: u64 = if kept_end - after == 0 {
                1000
            } else if kept_end - after == 1 {
                100
            } else if kept_end - after == 2 {
                10
            } else {
                1
            };
            let thousandths: u64 = part * scale;
            if units > (u64::MAX - thousandths) / 1000 {
                return None;
            }
            Some(units * 1000 + thousandths)
        },
        _ => None,
    }
}

/// The value in thousandths of a numeral.
pub fn parse_number(text: &str) -> (value: Option<u64>)
    ensures
        value == decimal_value(text@),
{
    let chars = characters(text);
    proof {
        assert(chars@.subrange(0, chars@.len() as int) =~= chars@);
    }
    parse_decimal(&chars, 0, chars.len())
}

/// The values in thousandths of a list of numerals separated by commas.
pub fn parse_list(text: &str) -> (values: Option<Vec<u64>>)
    ensures
        match values {
            Some(list) => list_values(text@) == Some(list@),
            None => list_values(text@) is None,
        },
{
    let chars = characters(text);
    let end = chars.len();
    let mut list: Vec<u64> = Vec::new();
    let mut from: usize = 0;
    proof {
        assert(chars@.skip(0) =~= chars@);
        match list_values(chars@) {
            Some(more) => assert(list@ + more =~= more),
            None => {},
        }
    }
    loop
        invariant
            end == chars.len(),
            chars@ == text@,
            from <= end,
            list_values(text@) == followed_by(list@, list_values(chars@.skip(from as int))),
        decreases end - from,
    {
        let ghost rest = chars@.skip(from as int);
        let ghost before = list@;
        let cut = find_char(&chars, from, end, ',');
        proof {
            assert(chars@.subrange(from as int, end as int) =~= rest);
            assert(rest.take(cut - from) =~= chars@.subrange(from as int, cut as int));
            if cut < end {
                assert(rest.skip(cut - from + 1) =~= chars@.skip(cut + 1));
            }
        }
        match parse_decimal(&chars, from, cut) {
            None => {
                return None;
            },
            Some(value) => {
                list.push(value);
                proof {
                    assert(before + seq![value] =~= list@);
                    if cut < end {
                        match list_values(chars@.skip(cut + 1)) {
                            Some(more) => assert(before + (seq![value] + more) =~= list@ + more),
                            None => {},
                        }
                    }
                }
                if cut >= end {
                    return Some(list);
                }
                from = cut + 1;
            },
        }
    }
}

} // verus!
