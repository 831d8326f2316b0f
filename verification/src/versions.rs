//! Version texts and how they compare.
use vstd::prelude::*;
use vstd::string::*;

use crate::duplicate::views;
use crate::order::{
    compare_numbers, law_number_lists_compare_by_first_difference, lemma_numbers_order_chains, lemma_numbers_order_equal,
    lemma_numbers_order_flips, lemma_text_order_chains, lemma_text_order_equal,
    lemma_text_order_flips, numbers_order, text_order, Order,
};
use crate::text::{
    chars_of, compare_text, decimal, digit, first_at, joined_by, law_pieces_make_the_text, lemma_pieces_cut,
    pieces, split_on, text_between,
};

verus! {

pub open spec fn is_digit(c: char) -> bool {
    '0' <= c && c <= '9'
}

/// The number that a text of decimal digits writes.
pub open spec fn number(digits: Seq<char>) -> nat
    decreases digits.len(),
{
    if digits.len() == 0 {
        0
    } else {
        number(digits.drop_last()) * 10 + (digits.last() as nat - '0' as nat) as nat
    }
}

/// How many digits a text begins with.
pub open spec fn leading_digits(text: Seq<char>) -> nat
    decreases text.len(),
{
    if text.len() > 0 && is_digit(text[0]) {
        1 + leading_digits(text.skip(1))
    } else {
        0
    }
}

/// The numbers that stand in a text, in order: its runs of digits, without those that are too large.
pub open spec fn numbers_in(text: Seq<char>) -> Seq<u64>
    decreases text.len(),
{
    let digits = leading_digits(text);
    if text.len() == 0 || digits > text.len() {
        Seq::empty()
    } else if digits == 0 {
        numbers_in(text.skip(1))
    } else {
        let value = number(text.take(digits as int));
        let rest = numbers_in(text.skip(digits as int));
        if value <= u64::MAX {
            seq![value as u64] + rest
        } else {
            rest
        }
    }
}

proof fn lemma_leading_digits(text: Seq<char>, count: int)
    requires
        0 <= count <= text.len(),
        forall|i: int| 0 <= i < count ==> is_digit(#[trigger] text[i]),
        count < text.len() ==> !is_digit(text[count]),
    ensures
        leading_digits(text) == count,
    decreases count,
{
    if count > 0 {
        assert(is_digit(text[0]));
        let rest = text.skip(1);
        assert forall|i: int| 0 <= i < count - 1 implies is_digit(#[trigger] rest[i]) by {
            assert(rest[i] == text[i + 1]);
        }
        lemma_leading_digits(rest, count - 1);
    }
}

proof fn lemma_number_grows(digits: Seq<char>, count: int)
    requires
        0 <= count <= digits.len(),
        forall|i: int| 0 <= i < digits.len() ==> is_digit(#[trigger] digits[i]),
    ensures
        number(digits.take(count)) <= number(digits),
    decreases digits.len(),
{
    if count == digits.len() {
        assert(digits.take(count) =~= digits);
    } else {
        lemma_number_grows(digits.drop_last(), count);
        assert(digits.drop_last().take(count) =~= digits.take(count));
    }
}

/// The number between two places, where it fits.
fn number_between(chars: &Vec<char>, from: usize, to: usize) -> (result: Option<u64>)
    requires
        from <= to <= chars.len(),
        forall|i: int| from <= i < to ==> is_digit(#[trigger] chars@[i]),
    ensures
        match result {
            Some(value) => value == number(chars@.subrange(from as int, to as int)),
            None => number(chars@.subrange(from as int, to as int)) > u64::MAX,
        },
{
    let mut value: u64 = 0;
    let mut i: usize = from;
    let ghost digits = chars@.subrange(from as int, to as int);
    proof {
        assert forall|k: int| 0 <= k < digits.len() implies is_digit(#[trigger] digits[k]) by {
            assert(digits[k] == chars@[from + k]);
        }
        assert(digits.take(0) =~= Seq::empty());
    }
    while i < to
        invariant
            from <= i <= to,
            to <= chars.len(),
            digits == chars@.subrange(from as int, to as int),
            forall|k: int| 0 <= k < digits.len() ==> is_digit(#[trigger] digits[k]),
            value == number(digits.take(i - from)),
        decreases to - i,
    {
        proof {
            let k = i - from;
            assert(digits[k] == chars@[i as int]);
            assert(digits.take(k + 1).drop_last() =~= digits.take(k));
            assert(digits.take(k + 1).last() == digits[k]);
            lemma_number_grows(digits, k + 1);
        }
        let digit: u64 = chars[i] as u64 - '0' as u64;
        match value.checked_mul(10) {
            Some(shifted) => match shifted.checked_add(digit) {
                Some(next) => {
                    value = next;
                },
                None => {
                    return None;
                },
            },
            None => {
                return None;
            },
        }
        i += 1;
    }
    proof {
        assert(digits.take(digits.len() as int) =~= digits);
    }
    Some(value)
}

pub fn version_parts(value: &str) -> (result: Vec<u64>)
    ensures
        result@ == numbers_in(value@),
{
    let chars = chars_of(value);
    let mut result: Vec<u64> = Vec::new();
    let mut i: usize = 0;
    proof {
        assert(chars@.skip(0) =~= chars@);
    }
    while i < chars.len()
        invariant
            i <= chars.len(),
            chars@ == value@,
            numbers_in(value@) == result@ + numbers_in(value@.skip(i as int)),
        decreases chars.len() - i,
    {
        let ghost rest = value@.skip(i as int);
        let mut end: usize = i;
        while end < chars.len() && '0' <= chars[end] && chars[end] <= '9'
            invariant
                i <= end <= chars.len(),
                chars@ == value@,
                forall|k: int| i <= k < end ==> is_digit(#[trigger] chars@[k]),
            decreases chars.len() - end,
        {
            end += 1;
        }
        proof {
            assert forall|k: int| 0 <= k < end - i implies is_digit(#[trigger] rest[k]) by {
                assert(rest[k] == chars@[i + k]);
            }
            if end < chars.len() {
                assert(rest[end - i] == chars@[end as int]);
            }
            lemma_leading_digits(rest, end - i);
            assert(rest.take(end - i) =~= chars@.subrange(i as int, end as int));
            assert(rest.skip(end - i) =~= value@.skip(end as int));
            assert(rest.skip(1) =~= value@.skip(i + 1));
        }
        if end == i {
            i += 1;
        } else {
            let ghost before = result@;
            match number_between(&chars, i, end) {
                Some(value) => {
                    result.push(value);
                },
                None => {},
            }
            proof {
                let tail = numbers_in(value@.skip(end as int));
                if result@.len() > before.len() {
                    assert(result@ + tail =~= before + (seq![result@.last()] + tail));
                }
            }
            i = end;
        }
    }
    proof {
        assert(value@.skip(i as int) =~= Seq::empty());
        assert(result@ + Seq::<u64>::empty() =~= result@);
    }
    result
}

/// How two versions compare: by the numbers in them, then by their texts.
pub open spec fn version_order(left: Seq<char>, right: Seq<char>) -> Order {
    numbers_order(numbers_in(left), numbers_in(right)).or(text_order(left, right))
}

pub fn compare_versions(left: &str, right: &str) -> (result: Order)
    ensures
        result == version_order(left@, right@),
{
    compare_numbers(&version_parts(left), &version_parts(right)).and_next(compare_text(left, right))
}

/// Versions are ordered: the outcome turns with the sides, only a version itself is equal to it, and
/// what is not above something else is not above what that is not above.
pub proof fn law_versions_are_ordered(a: Seq<char>, b: Seq<char>, c: Seq<char>)
    ensures
        version_order(b, a) == version_order(a, b).flipped(),
        version_order(a, b) == Order::Equal <==> a == b,
        version_order(a, b) != Order::Greater && version_order(b, c) != Order::Greater
            ==> version_order(a, c) != Order::Greater,
{
    let (x, y, z) = (numbers_in(a), numbers_in(b), numbers_in(c));
    lemma_numbers_order_flips(x, y);
    lemma_text_order_flips(a, b);
    lemma_text_order_equal(a, b);
    lemma_numbers_order_equal(x, y);
    if version_order(a, b) != Order::Greater && version_order(b, c) != Order::Greater {
        lemma_numbers_order_chains(x, y, z);
        if numbers_order(x, z) == Order::Equal {
            lemma_text_order_chains(a, b, c);
        }
    }
}

/// The number that a decimal text writes is the one it was written from.
pub proof fn law_decimals_are_read_back(n: nat)
    ensures
        number(decimal(n)) == n,
        decimal(n).len() > 0,
        forall|i: int| 0 <= i < decimal(n).len() ==> is_digit(#[trigger] decimal(n)[i]),
    decreases n,
{
    let text = decimal(n);
    if n < 10 {
        assert(text.drop_last() =~= Seq::empty());
        assert(number(text.drop_last()) == 0);
        assert(text.last() == digit(n));
    } else {
        law_decimals_are_read_back(n / 10);
        assert(text.drop_last() =~= decimal(n / 10));
        assert(text.last() == digit(n % 10));
        assert forall|i: int| 0 <= i < text.len() implies is_digit(#[trigger] text[i]) by {
            if i < text.len() - 1 {
                assert(text[i] == decimal(n / 10)[i]);
            }
        }
    }
}

/// The numbers in a text are those of its parts, where it is not cut within a number.
pub proof fn law_numbers_of_the_parts(a: Seq<char>, b: Seq<char>)
    requires
        a.len() == 0 || !is_digit(a.last()) || b.len() == 0 || !is_digit(b[0]),
    ensures
        numbers_in(a + b) == numbers_in(a) + numbers_in(b),
    decreases a.len(),
{
    let all = a + b;
    if a.len() == 0 {
        assert(all =~= b);
        assert(numbers_in(a) + numbers_in(b) =~= numbers_in(b));
    } else if b.len() == 0 {
        assert(all =~= a);
        assert(numbers_in(a) + numbers_in(b) =~= numbers_in(a));
    } else {
        let digits = lemma_digits_at_front(a);
        assert forall|i: int| 0 <= i < digits implies is_digit(#[trigger] all[i]) by {
            assert(all[i] == a[i]);
        }
        if digits < a.len() {
            assert(all[digits] == a[digits]);
        } else {
            assert(is_digit(a[a.len() - 1]));
            assert(all[digits] == b[0]);
        }
        lemma_leading_digits(all, digits);
        let at = if digits == 0 {
            1
        } else {
            digits
        };
        let rest = a.skip(at);
        assert(all.skip(at) =~= rest + b);
        assert(all.take(at) =~= a.take(at));
        if rest.len() > 0 {
            assert(rest.last() == a.last());
        }
        law_numbers_of_the_parts(rest, b);
        if digits > 0 {
            let value = number(a.take(digits));
            if value <= u64::MAX {
                assert((seq![value as u64] + numbers_in(rest)) + numbers_in(b) =~= seq![
                    value as u64,
                ] + (numbers_in(rest) + numbers_in(b)));
            }
        }
    }
}

proof fn lemma_digits_at_front(text: Seq<char>) -> (count: int)
    ensures
        0 <= count <= text.len(),
        leading_digits(text) == count,
        forall|i: int| 0 <= i < count ==> is_digit(#[trigger] text[i]),
        count < text.len() ==> !is_digit(text[count]),
    decreases text.len(),
{
    if text.len() > 0 && is_digit(text[0]) {
        let rest = lemma_digits_at_front(text.skip(1));
        assert forall|i: int| 0 <= i < rest + 1 implies is_digit(#[trigger] text[i]) by {
            if i > 0 {
                assert(text.skip(1)[i - 1] == text[i]);
            }
        }
        rest + 1
    } else {
        0
    }
}

/// A text of digits is one number, where it fits; a text without digits holds none.
pub proof fn law_digits_are_one_number(text: Seq<char>)
    ensures
        text.len() > 0 && number(text) <= u64::MAX && (forall|i: int|
            0 <= i < text.len() ==> is_digit(#[trigger] text[i])) ==> numbers_in(text) == seq![
            number(text) as u64,
        ],
        (forall|i: int| 0 <= i < text.len() ==> !is_digit(#[trigger] text[i])) ==> numbers_in(text)
            == Seq::<u64>::empty(),
    decreases text.len(),
{
    if text.len() > 0 {
        if forall|i: int| 0 <= i < text.len() ==> is_digit(#[trigger] text[i]) {
            lemma_leading_digits(text, text.len() as int);
            assert(text.take(text.len() as int) =~= text);
            assert(numbers_in(text.skip(text.len() as int)) =~= Seq::empty());
        }
        if forall|i: int| 0 <= i < text.len() ==> !is_digit(#[trigger] text[i]) {
            assert(!is_digit(text[0]));
            let rest = text.skip(1);
            assert forall|i: int| 0 <= i < rest.len() implies !is_digit(#[trigger] rest[i]) by {
                assert(rest[i] == text[i + 1]);
            }
            law_digits_are_one_number(rest);
        }
    }
}

/// Of two versions that are the same up to a number, the one with the smaller number is the lower,
/// whatever follows the numbers: numbers compare by their size and not by their digits.
pub proof fn law_smaller_number_is_lower_version(
    common: Seq<char>,
    m: nat,
    n: nat,
    rest: Seq<char>,
    other: Seq<char>,
)
    requires
        m < n <= u64::MAX,
        common.len() == 0 || !is_digit(common.last()),
        rest.len() == 0 || !is_digit(rest[0]),
        other.len() == 0 || !is_digit(other[0]),
    ensures
        version_order(common + decimal(m) + rest, common + decimal(n) + other) == Order::Less,
        version_order(common + decimal(n) + other, common + decimal(m) + rest) == Order::Greater,
{
    let (a, b) = (common + decimal(m) + rest, common + decimal(n) + other);
    law_decimals_are_read_back(m);
    law_decimals_are_read_back(n);
    law_digits_are_one_number(decimal(m));
    law_digits_are_one_number(decimal(n));
    law_numbers_of_the_parts(common, decimal(m));
    law_numbers_of_the_parts(common, decimal(n));
    law_numbers_of_the_parts(common + decimal(m), rest);
    law_numbers_of_the_parts(common + decimal(n), other);
    law_number_lists_compare_by_first_difference(
        numbers_in(common),
        m as u64,
        n as u64,
        numbers_in(rest),
        numbers_in(other),
    );
    law_versions_are_ordered(a, b, b);
}

/// A text without the letters that a release may begin with.
pub open spec fn without_release_letters(text: Seq<char>) -> Seq<char>
    decreases text.len(),
{
    if text.len() > 0 && (text[0] == 'v' || text[0] == 'b') {
        without_release_letters(text.skip(1))
    } else {
        text
    }
}

/// Whether a text is a number and nothing else.
pub open spec fn is_number(text: Seq<char>) -> bool {
    &&& text.len() > 0
    &&& forall|i: int| 0 <= i < text.len() ==> is_digit(#[trigger] text[i])
    &&& number(text) <= u64::MAX
}

/// The numbers of a release, where each part between its dots is one.
pub open spec fn release_numbers(version: Seq<char>) -> Option<Seq<u64>> {
    let parts = pieces(without_release_letters(version), '.');
    if forall|i: int| 0 <= i < parts.len() ==> is_number(#[trigger] parts[i]) {
        Some(parts.map_values(|part: Seq<char>| number(part) as u64))
    } else {
        None
    }
}

fn whole_number(text: &str) -> (result: Option<u64>)
    ensures
        result is Some <==> is_number(text@),
        result is Some ==> result->0 == number(text@),
{
    let chars = chars_of(text);
    if chars.len() == 0 {
        return None;
    }
    let mut i: usize = 0;
    while i < chars.len()
        invariant
            i <= chars.len(),
            chars@ == text@,
            forall|k: int| 0 <= k < i ==> is_digit(#[trigger] chars@[k]),
        decreases chars.len() - i,
    {
        if chars[i] < '0' || '9' < chars[i] {
            assert(!is_digit(text@[i as int]));
            return None;
        }
        i += 1;
    }
    proof {
        assert(chars@.subrange(0, i as int) =~= text@);
    }
    number_between(&chars, 0, i)
}

pub fn release_parts(version: &str) -> (result: Option<Vec<u64>>)
    ensures
        match result {
            Some(parts) => Some(parts@) == release_numbers(version@),
            None => release_numbers(version@) is None,
        },
{
    let chars = chars_of(version);
    let mut start: usize = 0;
    proof {
        assert(chars@.skip(0) =~= chars@);
    }
    while start < chars.len() && (chars[start] == 'v' || chars[start] == 'b')
        invariant
            start <= chars.len(),
            chars@ == version@,
            without_release_letters(version@) == without_release_letters(
                version@.skip(start as int),
            ),
        decreases chars.len() - start,
    {
        proof {
            assert(version@.skip(start as int).skip(1) =~= version@.skip(start + 1));
        }
        start += 1;
    }
    let rest = text_between(&chars, start, chars.len());
    proof {
        assert(rest@ =~= version@.skip(start as int));
        if start < chars.len() {
            assert(rest@[0] == chars@[start as int]);
        }
    }
    let parts = split_on(rest.as_str(), '.');
    let mut result: Vec<u64> = Vec::new();
    let ghost all = pieces(without_release_letters(version@), '.');
    let mut i: usize = 0;
    while i < parts.len()
        invariant
            i <= parts.len(),
            views(parts@) == all,
            all == pieces(without_release_letters(version@), '.'),
            forall|k: int| 0 <= k < i ==> is_number(#[trigger] all[k]),
            result@.len() == i,
            forall|k: int| 0 <= k < i ==> result@[k] == number(#[trigger] all[k]),
        decreases parts.len() - i,
    {
        proof {
            assert(views(parts@)[i as int] == parts@[i as int]@);
        }
        match whole_number(parts[i].as_str()) {
            Some(value) => {
                result.push(value);
            },
            None => {
                assert(!is_number(all[i as int]));
                return None;
            },
        }
        i += 1;
    }
    proof {
        assert(result@ =~= all.map_values(|part: Seq<char>| number(part) as u64));
    }
    Some(result)
}

/// A release may begin with a letter for it, which does not count; its numbers are those between its dots.
pub proof fn law_numbers_of_a_release(n: nat, rest: Seq<char>)
    requires
        n <= u64::MAX,
        rest.len() > 0,
        is_digit(rest[0]),
    ensures
        release_numbers(seq!['v'] + rest) == release_numbers(rest),
        release_numbers(seq!['b'] + rest) == release_numbers(rest),
        release_numbers(decimal(n)) == Some(seq![n as u64]),
        match release_numbers(rest) {
            Some(numbers) => release_numbers(decimal(n) + seq!['.'] + rest) == Some(
                seq![n as u64] + numbers,
            ),
            None => release_numbers(decimal(n) + seq!['.'] + rest) is None,
        },
{
    law_decimals_are_read_back(n);
    let first = decimal(n);
    lemma_no_letters(seq!['v'] + rest, rest);
    lemma_no_letters(seq!['b'] + rest, rest);
    assert(is_digit(first[0]));
    let text = first + seq!['.'] + rest;
    assert(text[0] == first[0]);
    assert forall|k: int| 0 <= k < first.len() implies text[k] != '.' by {
        assert(is_digit(first[k]));
        assert(text[k] == first[k]);
    }
    let at = first.len() as int;
    assert(text[at] == '.');
    assert(first_at(text, '.', at));
    lemma_pieces_cut(text, '.', at);
    assert(text.take(at) =~= first);
    assert(text.skip(at + 1) =~= rest);
    let parts = pieces(text, '.');
    let behind = pieces(rest, '.');
    assert(parts =~= seq![first] + behind);
    assert(is_number(first));
    if exists|at: int| first_at(first, '.', at) {
        let at = choose|at: int| first_at(first, '.', at);
        assert(is_digit(first[at]));
    }
    assert(pieces(first, '.') =~= seq![first]);
    assert(pieces(first, '.')[0] == first);
    assert(release_numbers(first)->0 =~= seq![n as u64]);
    if let Some(numbers) = release_numbers(rest) {
        assert forall|i: int| 0 <= i < parts.len() implies is_number(#[trigger] parts[i]) by {
            if i > 0 {
                assert(parts[i] == behind[i - 1]);
            }
        }
        assert(release_numbers(text)->0 =~= seq![n as u64] + numbers);
    } else {
        let i = choose|i: int| 0 <= i < behind.len() && !is_number(#[trigger] behind[i]);
        assert(parts[i + 1] == behind[i]);
    }
}

/// The letter that a release begins with does not count.
pub proof fn lemma_no_letters(text: Seq<char>, rest: Seq<char>)
    requires
        rest.len() > 0,
        is_digit(rest[0]),
        text == seq!['v'] + rest || text == seq!['b'] + rest,
    ensures
        without_release_letters(text) == rest,
        without_release_letters(rest) == rest,
{
    assert(text.skip(1) =~= rest);
    assert(without_release_letters(rest) == rest);
    assert(text[0] == 'v' || text[0] == 'b');
    assert(without_release_letters(text) == without_release_letters(text.skip(1)));
}

/// What holds anything but digits and dots behind its letters is no release.
pub proof fn law_other_versions_have_no_numbers(version: Seq<char>, at: int)
    requires
        version.len() > 0,
        is_digit(version[0]),
        0 <= at < version.len(),
        !is_digit(version[at]),
        version[at] != '.',
    ensures
        release_numbers(version) is None,
{
    if release_numbers(version) is Some {
        let parts = pieces(version, '.');
        law_pieces_make_the_text(version, '.');
        assert forall|i: int, k: int|
            0 <= i < parts.len() && 0 <= k < parts[i].len() implies is_digit(
            #[trigger] parts[i][k],
        ) by {
            assert(is_number(parts[i]));
        }
        lemma_joined_digits(parts, at);
    }
}

/// Texts of digits with dots between them hold nothing else.
pub proof fn lemma_joined_digits(parts: Seq<Seq<char>>, at: int)
    requires
        forall|i: int, k: int|
            0 <= i < parts.len() && 0 <= k < parts[i].len() ==> is_digit(#[trigger] parts[i][k]),
        0 <= at < joined_by(parts, '.').len(),
    ensures
        is_digit(joined_by(parts, '.')[at]) || joined_by(parts, '.')[at] == '.',
    decreases parts.len(),
{
    if parts.len() == 1 {
        assert(is_digit(parts[0][at]));
    } else if parts.len() > 1 {
        let rest = parts.skip(1);
        let front = parts[0].len();
        if at < front {
            assert(is_digit(parts[0][at]));
        } else if at > front {
            assert forall|i: int, k: int|
                0 <= i < rest.len() && 0 <= k < rest[i].len() implies is_digit(
                #[trigger] rest[i][k],
            ) by {
                assert(is_digit(parts[i + 1][k]));
            }
            lemma_joined_digits(rest, at - front - 1);
        }
    }
}

} // verus!
