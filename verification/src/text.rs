//! Text as sequences of characters: building, taking apart and comparing it.
use vstd::prelude::*;
use vstd::string::*;

use crate::duplicate::{optional, views};
use crate::order::{text_order, Order};

verus! {

/// `String::push` appends one character.
pub assume_specification[ std::string::String::push ](text: &mut std::string::String, c: char)
    ensures
        final(text)@ == old(text)@.push(c),
;

pub fn chars_of(text: &str) -> (result: Vec<char>)
    ensures
        result@ == text@,
{
    let mut result: Vec<char> = Vec::new();
    for c in iter: text.chars()
        invariant
            result@ == iter.seq().take(iter.index() as int),
            iter.seq() == text@,
    {
        proof {
            assert(iter.seq().take(iter.index() as int).push(c) =~= iter.seq().take(iter.index() + 1));
        }
        result.push(c);
    }
    proof {
        assert(text@.take(text@.len() as int) =~= text@);
    }
    result
}

pub fn text_of(chars: &Vec<char>) -> (result: String)
    ensures
        result@ == chars@,
{
    text_between(chars, 0, chars.len())
}

pub fn text_between(chars: &Vec<char>, from: usize, to: usize) -> (result: String)
    requires
        from <= to <= chars.len(),
    ensures
        result@ == chars@.subrange(from as int, to as int),
{
    let mut result = String::new();
    let mut i: usize = from;
    while i < to
        invariant
            from <= i <= to <= chars.len(),
            result@ == chars@.subrange(from as int, i as int),
        decreases to - i,
    {
        result.push(chars[i]);
        proof {
            assert(chars@.subrange(from as int, i as int).push(chars@[i as int])
                =~= chars@.subrange(from as int, i + 1));
        }
        i += 1;
    }
    result
}


/// Whether two texts hold the same characters.
pub fn same(a: &str, b: &str) -> (result: bool)
    ensures
        result == (a@ == b@),
{
    let x = chars_of(a);
    let y = chars_of(b);
    if x.len() != y.len() {
        return false;
    }
    let mut i: usize = 0;
    while i < x.len()
        invariant
            i <= x.len(),
            x.len() == y.len(),
            x@ == a@,
            y@ == b@,
            forall|k: int| 0 <= k < i ==> x@[k] == y@[k],
        decreases x.len() - i,
    {
        if x[i] != y[i] {
            return false;
        }
        i += 1;
    }
    proof {
        assert(a@ =~= b@);
    }
    true
}

/// Whether two optional texts agree: both absent, or both present with the same characters.
pub fn same_optional(a: &Option<String>, b: &Option<String>) -> (result: bool)
    ensures
        result == (optional(*a) == optional(*b)),
{
    match (a, b) {
        (Some(a), Some(b)) => same(a.as_str(), b.as_str()),
        (None, None) => true,
        _ => false,
    }
}

pub fn same_list(a: &Vec<String>, b: &Vec<String>) -> (result: bool)
    ensures
        result == (views(a@) == views(b@)),
{
    if a.len() != b.len() {
        proof {
            assert(views(a@).len() != views(b@).len());
        }
        return false;
    }
    let mut i: usize = 0;
    while i < a.len()
        invariant
            i <= a.len(),
            a.len() == b.len(),
            forall|k: int| 0 <= k < i ==> views(a@)[k] == views(b@)[k],
        decreases a.len() - i,
    {
        if !same(a[i].as_str(), b[i].as_str()) {
            proof {
                assert(views(a@)[i as int] != views(b@)[i as int]);
            }
            return false;
        }
        i += 1;
    }
    proof {
        assert(views(a@) =~= views(b@));
    }
    true
}

/// The position of a text in a list, if it is there: the first one.
pub fn position_in(list: &Vec<String>, text: &str) -> (result: Option<usize>)
    ensures
        match result {
            Some(i) => i < list.len() && list@[i as int]@ == text@ && forall|k: int|
                0 <= k < i ==> (#[trigger] list@[k])@ != text@,
            None => forall|k: int| 0 <= k < list.len() ==> (#[trigger] list@[k])@ != text@,
        },
        result is Some <==> views(list@).contains(text@),
{
    let mut i: usize = 0;
    while i < list.len()
        invariant
            i <= list.len(),
            forall|k: int| 0 <= k < i ==> (#[trigger] list@[k])@ != text@,
        decreases list.len() - i,
    {
        if same(list[i].as_str(), text) {
            proof {
                assert(views(list@)[i as int] == text@);
            }
            return Some(i);
        }
        i += 1;
    }
    proof {
        assert forall|k: int| 0 <= k < views(list@).len() implies views(list@)[k] != text@ by {
            assert(views(list@)[k] == list@[k]@);
        }
    }
    None
}

pub fn contains_text(list: &Vec<String>, text: &str) -> (result: bool)
    ensures
        result == views(list@).contains(text@),
{
    position_in(list, text).is_some()
}

/// How two texts compare by their characters.
pub fn compare_text(a: &str, b: &str) -> (result: Order)
    ensures
        result == text_order(a@, b@),
{
    let x = chars_of(a);
    let y = chars_of(b);
    let mut i: usize = 0;
    proof {
        assert(x@.skip(0) =~= x@);
        assert(y@.skip(0) =~= y@);
    }
    while i < x.len() && i < y.len()
        invariant
            i <= x.len(),
            i <= y.len(),
            x@ == a@,
            y@ == b@,
            text_order(a@, b@) == text_order(x@.skip(i as int), y@.skip(i as int)),
        decreases x.len() - i,
    {
        if x[i] != y[i] {
            if x[i] < y[i] {
                return Order::Less;
            }
            return Order::Greater;
        }
        proof {
            assert(x@.skip(i as int).skip(1) =~= x@.skip(i + 1));
            assert(y@.skip(i as int).skip(1) =~= y@.skip(i + 1));
        }
        i += 1;
    }
    if i < y.len() {
        Order::Less
    } else if i < x.len() {
        Order::Greater
    } else {
        Order::Equal
    }
}

pub fn cat2(a: &str, b: &str) -> (result: String)
    ensures
        result@ == a@ + b@,
{
    let mut result = a.to_owned();
    result.append(b);
    result
}

pub fn cat3(a: &str, b: &str, c: &str) -> (result: String)
    ensures
        result@ == a@ + b@ + c@,
{
    let mut result = cat2(a, b);
    result.append(c);
    result
}

pub fn cat4(a: &str, b: &str, c: &str, d: &str) -> (result: String)
    ensures
        result@ == a@ + b@ + c@ + d@,
{
    let mut result = cat3(a, b, c);
    result.append(d);
    result
}

pub fn cat5(a: &str, b: &str, c: &str, d: &str, e: &str) -> (result: String)
    ensures
        result@ == a@ + b@ + c@ + d@ + e@,
{
    let mut result = cat4(a, b, c, d);
    result.append(e);
    result
}

pub fn cat6(a: &str, b: &str, c: &str, d: &str, e: &str, f: &str) -> (result: String)
    ensures
        result@ == a@ + b@ + c@ + d@ + e@ + f@,
{
    let mut result = cat5(a, b, c, d, e);
    result.append(f);
    result
}

pub fn cat7(a: &str, b: &str, c: &str, d: &str, e: &str, f: &str, g: &str) -> (result: String)
    ensures
        result@ == a@ + b@ + c@ + d@ + e@ + f@ + g@,
{
    let mut result = cat6(a, b, c, d, e, f);
    result.append(g);
    result
}

/// The decimal digit of a number below ten.
pub open spec fn digit(n: nat) -> char {
    (48 + n) as char
}

/// A number in decimal, without leading zeros.
pub open spec fn decimal(n: nat) -> Seq<char>
    decreases n,
{
    if n < 10 {
        seq![digit(n)]
    } else {
        decimal(n / 10).push(digit(n % 10))
    }
}

pub fn decimal_text(n: u64) -> (result: String)
    ensures
        result@ == decimal(n as nat),
    decreases n,
{
    if n < 10 {
        let mut result = String::new();
        result.push((48u8 + n as u8) as char);
        proof {
            assert(result@ =~= decimal(n as nat));
        }
        result
    } else {
        let mut result = decimal_text(n / 10);
        result.push((48u8 + (n % 10) as u8) as char);
        result
    }
}

/// Texts with a separator between each two of them.
pub open spec fn joined(parts: Seq<Seq<char>>, separator: Seq<char>) -> Seq<char>
    decreases parts.len(),
{
    if parts.len() == 0 {
        Seq::empty()
    } else if parts.len() == 1 {
        parts[0]
    } else {
        joined(parts.drop_last(), separator) + separator + parts.last()
    }
}

pub fn join(parts: &Vec<String>, separator: &str) -> (result: String)
    ensures
        result@ == joined(views(parts@), separator@),
{
    let mut result = String::new();
    let mut i: usize = 0;
    while i < parts.len()
        invariant
            i <= parts.len(),
            result@ == joined(views(parts@).take(i as int), separator@),
        decreases parts.len() - i,
    {
        let ghost before = views(parts@).take(i as int);
        let ghost after = views(parts@).take(i + 1);
        proof {
            assert(after.drop_last() =~= before);
            assert(after.last() == parts@[i as int]@);
        }
        if i > 0 {
            result.append(separator);
        }
        result.append(parts[i].as_str());
        proof {
            if i == 0 {
                assert(result@ =~= parts@[0]@);
            }
        }
        i += 1;
    }
    proof {
        assert(views(parts@).take(parts@.len() as int) =~= views(parts@));
    }
    result
}

/// Whether a text begins with a prefix.
pub open spec fn begins(text: Seq<char>, prefix: Seq<char>) -> bool {
    prefix.len() <= text.len() && text.take(prefix.len() as int) == prefix
}

/// Whether a text ends with a suffix.
pub open spec fn ends(text: Seq<char>, suffix: Seq<char>) -> bool {
    suffix.len() <= text.len() && text.skip(text.len() - suffix.len()) == suffix
}

/// Whether the characters of `part` stand in `text` from `at` on.
pub open spec fn stands_at(text: Seq<char>, part: Seq<char>, at: int) -> bool {
    0 <= at && at + part.len() <= text.len() && text.subrange(at, at + part.len()) == part
}

/// Whether a text holds another as a contiguous part.
pub open spec fn holds(text: Seq<char>, part: Seq<char>) -> bool {
    exists|at: int| stands_at(text, part, at)
}

fn stands(text: &Vec<char>, part: &Vec<char>, at: usize) -> (result: bool)
    requires
        at + part.len() <= text.len(),
    ensures
        result == stands_at(text@, part@, at as int),
{
    let mut i: usize = 0;
    while i < part.len()
        invariant
            i <= part.len(),
            at + part.len() <= text.len(),
            forall|k: int| 0 <= k < i ==> text@[at + k] == #[trigger] part@[k],
        decreases part.len() - i,
    {
        if text[at + i] != part[i] {
            proof {
                assert(text@.subrange(at as int, at + part.len())[i as int] != part@[i as int]);
            }
            return false;
        }
        i += 1;
    }
    proof {
        assert(text@.subrange(at as int, at + part.len()) =~= part@);
    }
    true
}

pub fn starts_with(text: &str, prefix: &str) -> (result: bool)
    ensures
        result == begins(text@, prefix@),
{
    let x = chars_of(text);
    let y = chars_of(prefix);
    if y.len() > x.len() {
        return false;
    }
    proof {
        assert(text@.subrange(0, prefix@.len() as int) =~= text@.take(prefix@.len() as int));
    }
    stands(&x, &y, 0)
}

pub fn ends_with(text: &str, suffix: &str) -> (result: bool)
    ensures
        result == ends(text@, suffix@),
{
    let x = chars_of(text);
    let y = chars_of(suffix);
    if y.len() > x.len() {
        return false;
    }
    proof {
        assert(text@.subrange(text@.len() - suffix@.len(), text@.len() as int) =~= text@.skip(
            text@.len() - suffix@.len(),
        ));
    }
    stands(&x, &y, x.len() - y.len())
}

pub fn has_part(text: &str, part: &str) -> (result: bool)
    ensures
        result == holds(text@, part@),
{
    let x = chars_of(text);
    let y = chars_of(part);
    if y.len() > x.len() {
        return false;
    }
    let mut at: usize = 0;
    while at <= x.len() - y.len()
        invariant
            x@ == text@,
            y@ == part@,
            y.len() <= x.len(),
            at <= x.len() - y.len() + 1,
            forall|k: int| 0 <= k < at ==> !stands_at(text@, part@, k),
        decreases x.len() - y.len() + 1 - at,
    {
        if stands(&x, &y, at) {
            return true;
        }
        if at == x.len() - y.len() {
            proof {
                assert forall|k: int| !stands_at(text@, part@, k) by {
                }
            }
            return false;
        }
        at += 1;
    }
    false
}

/// White space as Unicode defines it.
pub open spec fn is_space(c: char) -> bool {
    let n = c as u32;
    ||| 0x9 <= n <= 0xd
    ||| n == 0x20
    ||| n == 0x85
    ||| n == 0xa0
    ||| n == 0x1680
    ||| 0x2000 <= n <= 0x200a
    ||| n == 0x2028
    ||| n == 0x2029
    ||| n == 0x202f
    ||| n == 0x205f
    ||| n == 0x3000
}

pub fn is_whitespace(c: char) -> (result: bool)
    ensures
        result == is_space(c),
{
    let n: u32 = c as u32;
    (0x9 <= n && n <= 0xd) || n == 0x20 || n == 0x85 || n == 0xa0 || n == 0x1680 || (0x2000 <= n
        && n <= 0x200a) || n == 0x2028 || n == 0x2029 || n == 0x202f || n == 0x205f || n == 0x3000
}

/// A text without its leading white space.
pub open spec fn trimmed_start(text: Seq<char>) -> Seq<char>
    decreases text.len(),
{
    if text.len() > 0 && is_space(text[0]) {
        trimmed_start(text.skip(1))
    } else {
        text
    }
}

/// A text without its trailing white space.
pub open spec fn trimmed_end(text: Seq<char>) -> Seq<char>
    decreases text.len(),
{
    if text.len() > 0 && is_space(text.last()) {
        trimmed_end(text.drop_last())
    } else {
        text
    }
}

/// A text without the white space around it.
pub open spec fn trimmed(text: Seq<char>) -> Seq<char> {
    trimmed_end(trimmed_start(text))
}

pub fn trim(text: &str) -> (result: String)
    ensures
        result@ == trimmed(text@),
{
    let x = chars_of(text);
    let mut from: usize = 0;
    proof {
        assert(x@.skip(0) =~= x@);
    }
    while from < x.len() && is_whitespace(x[from])
        invariant
            from <= x.len(),
            x@ == text@,
            trimmed_start(text@) == trimmed_start(x@.skip(from as int)),
        decreases x.len() - from,
    {
        proof {
            assert(x@.skip(from as int).skip(1) =~= x@.skip(from + 1));
        }
        from += 1;
    }
    let mut to: usize = x.len();
    proof {
        assert(trimmed_start(text@) == x@.skip(from as int));
        assert(x@.subrange(from as int, to as int) =~= x@.skip(from as int));
    }
    while to > from && is_whitespace(x[to - 1])
        invariant
            from <= to <= x.len(),
            x@ == text@,
            trimmed(text@) == trimmed_end(x@.subrange(from as int, to as int)),
        decreases to,
    {
        proof {
            assert(x@.subrange(from as int, to as int).drop_last() =~= x@.subrange(
                from as int,
                to - 1,
            ));
        }
        to -= 1;
    }
    text_between(&x, from, to)
}

/// The first `n` characters of a text, or all of it.
pub open spec fn first_chars(text: Seq<char>, n: nat) -> Seq<char> {
    if text.len() <= n {
        text
    } else {
        text.take(n as int)
    }
}

pub fn take_chars(text: &str, n: usize) -> (result: String)
    ensures
        result@ == first_chars(text@, n as nat),
{
    let x = chars_of(text);
    if x.len() <= n {
        text_of(&x)
    } else {
        proof {
            assert(x@.subrange(0, n as int) =~= x@.take(n as int));
        }
        text_between(&x, 0, n)
    }
}

/// As many spaces as a number says.
pub open spec fn spaces(n: nat) -> Seq<char> {
    Seq::new(n, |i: int| ' ')
}

/// A text with spaces behind it up to a width.
pub open spec fn padded_right(text: Seq<char>, width: nat) -> Seq<char> {
    if text.len() >= width {
        text
    } else {
        text + spaces((width - text.len()) as nat)
    }
}

/// A text with spaces before it up to a width.
pub open spec fn padded_left(text: Seq<char>, width: nat) -> Seq<char> {
    if text.len() >= width {
        text
    } else {
        spaces((width - text.len()) as nat) + text
    }
}

fn blank(n: usize) -> (result: String)
    ensures
        result@ == spaces(n as nat),
{
    let mut result = String::new();
    let mut i: usize = 0;
    while i < n
        invariant
            i <= n,
            result@ == spaces(i as nat),
        decreases n - i,
    {
        result.push(' ');
        proof {
            assert(spaces(i as nat).push(' ') =~= spaces((i + 1) as nat));
        }
        i += 1;
    }
    result
}

pub fn pad_right(text: &str, width: usize) -> (result: String)
    ensures
        result@ == padded_right(text@, width as nat),
{
    let n: usize = text.unicode_len();
    if n >= width {
        text.to_owned()
    } else {
        let fill = blank(width - n);
        cat2(text, fill.as_str())
    }
}

pub fn pad_left(text: &str, width: usize) -> (result: String)
    ensures
        result@ == padded_left(text@, width as nat),
{
    let n: usize = text.unicode_len();
    if n >= width {
        text.to_owned()
    } else {
        let fill = blank(width - n);
        cat2(fill.as_str(), text)
    }
}

/// An ASCII capital for an ASCII small letter, any other character itself.
pub open spec fn upper(c: char) -> char {
    if 'a' <= c && c <= 'z' {
        (c as u32 - 32) as char
    } else {
        c
    }
}

/// An ASCII small letter for an ASCII capital, any other character itself.
pub open spec fn lower(c: char) -> char {
    if 'A' <= c && c <= 'Z' {
        (c as u32 + 32) as char
    } else {
        c
    }
}

pub open spec fn ascii_upper(text: Seq<char>) -> Seq<char> {
    text.map_values(|c: char| upper(c))
}

pub open spec fn ascii_lower(text: Seq<char>) -> Seq<char> {
    text.map_values(|c: char| lower(c))
}

pub fn upper_char(c: char) -> (result: char)
    ensures
        result == upper(c),
{
    if 'a' <= c && c <= 'z' {
        (c as u8 - 32) as char
    } else {
        c
    }
}

pub fn lower_char(c: char) -> (result: char)
    ensures
        result == lower(c),
{
    if 'A' <= c && c <= 'Z' {
        (c as u8 + 32) as char
    } else {
        c
    }
}

pub fn to_ascii_upper(text: &str) -> (result: String)
    ensures
        result@ == ascii_upper(text@),
{
    let x = chars_of(text);
    let mut result = String::new();
    let mut i: usize = 0;
    while i < x.len()
        invariant
            i <= x.len(),
            result@ == ascii_upper(x@.take(i as int)),
        decreases x.len() - i,
    {
        result.push(upper_char(x[i]));
        proof {
            assert(ascii_upper(x@.take(i + 1)) =~= ascii_upper(x@.take(i as int)).push(
                upper(x@[i as int]),
            ));
        }
        i += 1;
    }
    proof {
        assert(x@.take(x@.len() as int) =~= x@);
    }
    result
}

pub fn to_ascii_lower(text: &str) -> (result: String)
    ensures
        result@ == ascii_lower(text@),
{
    let x = chars_of(text);
    let mut result = String::new();
    let mut i: usize = 0;
    while i < x.len()
        invariant
            i <= x.len(),
            result@ == ascii_lower(x@.take(i as int)),
        decreases x.len() - i,
    {
        result.push(lower_char(x[i]));
        proof {
            assert(ascii_lower(x@.take(i + 1)) =~= ascii_lower(x@.take(i as int)).push(
                lower(x@[i as int]),
            ));
        }
        i += 1;
    }
    proof {
        assert(x@.take(x@.len() as int) =~= x@);
    }
    result
}

/// Whether two texts agree when ASCII letters of either case count as the same.
pub fn same_ignoring_case(a: &str, b: &str) -> (result: bool)
    ensures
        result == (ascii_lower(a@) == ascii_lower(b@)),
{
    let x = to_ascii_lower(a);
    let y = to_ascii_lower(b);
    same(x.as_str(), y.as_str())
}

/// The place of the first occurrence of a character.
pub open spec fn first_at(text: Seq<char>, c: char, at: int) -> bool {
    0 <= at < text.len() && text[at] == c && forall|k: int| 0 <= k < at ==> text[k] != c
}

pub fn find_char(text: &Vec<char>, from: usize, c: char) -> (result: Option<usize>)
    requires
        from <= text.len(),
    ensures
        match result {
            Some(i) => from <= i < text.len() && text@[i as int] == c && forall|k: int|
                from <= k < i ==> text@[k] != c,
            None => forall|k: int| from <= k < text.len() ==> text@[k] != c,
        },
{
    let mut i: usize = from;
    while i < text.len()
        invariant
            from <= i <= text.len(),
            forall|k: int| from <= k < i ==> text@[k] != c,
        decreases text.len() - i,
    {
        if text[i] == c {
            return Some(i);
        }
        i += 1;
    }
    None
}

/// A text cut at the first occurrence of a character: what stands before it and what stands behind.
pub open spec fn cut(text: Seq<char>, c: char) -> Option<(Seq<char>, Seq<char>)> {
    match text.index_of_first(c) {
        Some(at) => Some((text.take(at), text.skip(at + 1))),
        None => None,
    }
}

pub fn split_once(text: &str, c: char) -> (result: Option<(String, String)>)
    ensures
        match result {
            Some((before, behind)) => cut(text@, c) == Some((before@, behind@)),
            None => cut(text@, c) is None,
        },
{
    let chars = chars_of(text);
    proof {
        text@.index_of_first_ensures(c);
    }
    match find_char(&chars, 0, c) {
        Some(at) => {
            let before = text_between(&chars, 0, at);
            let behind = text_between(&chars, at + 1, chars.len());
            proof {
                let first = text@.index_of_first(c)->0;
                assert(text@.contains(c)) by {
                    assert(text@[at as int] == c);
                }
                assert(first == at) by {
                    if first < at {
                        assert(text@[first] != c);
                    }
                }
                assert(before@ =~= text@.take(first));
                assert(behind@ =~= text@.skip(first + 1));
            }
            Some((before, behind))
        },
        None => None,
    }
}

/// The pieces of a text between the occurrences of a character.
pub open spec fn pieces(text: Seq<char>, c: char) -> Seq<Seq<char>>
    decreases text.len(),
{
    if exists|at: int| first_at(text, c, at) {
        let at = choose|at: int| first_at(text, c, at);
        seq![text.take(at)] + pieces(text.skip(at + 1), c)
    } else {
        seq![text]
    }
}

pub proof fn lemma_pieces_cut(text: Seq<char>, c: char, at: int)
    requires
        first_at(text, c, at),
    ensures
        pieces(text, c) == seq![text.take(at)] + pieces(text.skip(at + 1), c),
{
    let other = choose|k: int| first_at(text, c, k);
    assert(first_at(text, c, other));
    if other < at {
        assert(text[other] != c);
    } else if at < other {
        assert(text[at] != c);
    }
}

pub fn split_on(text: &str, c: char) -> (result: Vec<String>)
    ensures
        views(result@) == pieces(text@, c),
{
    let x = chars_of(text);
    let mut result: Vec<String> = Vec::new();
    let mut from: usize = 0;
    proof {
        assert(x@.skip(0) =~= x@);
        assert(views(result@) + pieces(x@, c) =~= pieces(x@, c));
    }
    loop
        invariant
            x@ == text@,
            from <= x.len(),
            pieces(text@, c) == views(result@) + pieces(x@.skip(from as int), c),
        decreases x.len() - from,
    {
        let ghost rest = x@.skip(from as int);
        match find_char(&x, from, c) {
            Some(at) => {
                proof {
                    assert(first_at(rest, c, at - from)) by {
                        assert forall|k: int| 0 <= k < at - from implies rest[k] != c by {
                            assert(rest[k] == x@[from + k]);
                        }
                    }
                    lemma_pieces_cut(rest, c, at - from);
                    assert(rest.skip(at - from + 1) =~= x@.skip(at + 1));
                    assert(rest.take(at - from) =~= x@.subrange(from as int, at as int));
                }
                let ghost before = views(result@);
                let piece = text_between(&x, from, at);
                result.push(piece);
                proof {
                    assert(views(result@) =~= before.push(piece@));
                    assert(before.push(piece@) + pieces(x@.skip(at + 1), c) =~= before + (seq![
                        piece@,
                    ] + pieces(x@.skip(at + 1), c)));
                }
                from = at + 1;
            },
            None => {
                proof {
                    assert(!exists|at: int| first_at(rest, c, at)) by {
                        if exists|at: int| first_at(rest, c, at) {
                            let at = choose|at: int| first_at(rest, c, at);
                            assert(x@[from + at] == rest[at]);
                        }
                    }
                    assert(rest =~= x@.subrange(from as int, x@.len() as int));
                }
                let ghost before = views(result@);
                let piece = text_between(&x, from, x.len());
                result.push(piece);
                proof {
                    assert(views(result@) =~= before + seq![rest]);
                }
                return result;
            },
        }
    }
}

/// A text is its pieces with the character between each two of them, and no piece has the character.
pub proof fn law_pieces_make_the_text(text: Seq<char>, c: char)
    ensures
        joined_by(pieces(text, c), c) == text,
        pieces(text, c).len() > 0,
        forall|i: int| 0 <= i < pieces(text, c).len() ==> !(#[trigger] pieces(text, c)[i]).contains(c),
    decreases text.len(),
{
    let all = pieces(text, c);
    if exists|at: int| first_at(text, c, at) {
        let at = choose|at: int| first_at(text, c, at);
        let rest = pieces(text.skip(at + 1), c);
        law_pieces_make_the_text(text.skip(at + 1), c);
        assert(all =~= seq![text.take(at)] + rest);
        assert(all[0] == text.take(at));
        assert(all.skip(1) =~= rest);
        assert(text.take(at) + seq![c] + text.skip(at + 1) =~= text);
        assert(!text.take(at).contains(c));
        assert forall|i: int| 0 <= i < all.len() implies !(#[trigger] all[i]).contains(c) by {
            if i > 0 {
                assert(all[i] == rest[i - 1]);
            }
        }
    } else {
        if text.contains(c) {
            lemma_some_is_first(text, c, text.index_of(c));
        }
        assert(all =~= seq![text]);
        assert(all[0] == text);
    }
}

/// Texts with a character between each two of them.
pub open spec fn joined_by(list: Seq<Seq<char>>, c: char) -> Seq<char>
    decreases list.len(),
{
    if list.len() == 0 {
        Seq::empty()
    } else if list.len() == 1 {
        list[0]
    } else {
        list[0] + seq![c] + joined_by(list.skip(1), c)
    }
}

proof fn lemma_some_is_first(text: Seq<char>, c: char, at: int)
    requires
        0 <= at < text.len(),
        text[at] == c,
    ensures
        exists|k: int| first_at(text, c, k),
    decreases at,
{
    if forall|k: int| 0 <= k < at ==> text[k] != c {
        assert(first_at(text, c, at));
    } else {
        let k = choose|k: int| 0 <= k < at && text[k] == c;
        lemma_some_is_first(text, c, k);
    }
}

/// A text is cut at the first occurrence of a character, and only where it has one.
pub proof fn law_texts_are_cut_at_the_first(before: Seq<char>, c: char, behind: Seq<char>)
    requires
        !before.contains(c),
    ensures
        cut(before + seq![c] + behind, c) == Some((before, behind)),
        cut(before, c) is None,
{
    let text = before + seq![c] + behind;
    before.index_of_first_ensures(c);
    text.index_of_first_ensures(c);
    assert(text[before.len() as int] == c);
    assert(text.contains(c));
    let at = text.index_of_first(c)->0;
    if at < before.len() {
        assert(before[at] == c);
    }
    assert(at == before.len());
    assert(text.take(at) =~= before);
    assert(text.skip(at + 1) =~= behind);
}

/// What is trimmed has no white space at its ends, and only white space was taken off.
pub proof fn law_only_white_space_is_trimmed(text: Seq<char>)
    ensures
        trimmed(text).len() > 0 ==> !is_space(trimmed(text)[0]) && !is_space(trimmed(text).last()),
        exists|from: int, to: int|
            0 <= from <= to <= text.len() && trimmed(text) == #[trigger] text.subrange(from, to)
                && (forall|i: int| 0 <= i < from ==> is_space(#[trigger] text[i])) && (forall|i: int|
                to <= i < text.len() ==> is_space(#[trigger] text[i])),
{
    let rest = trimmed_start(text);
    lemma_trimmed_start(text);
    lemma_trimmed_end(rest);
    let from = text.len() - rest.len();
    let to = from + trimmed(text).len();
    assert(text.subrange(from, to) =~= trimmed(text));
    assert forall|i: int| to <= i < text.len() implies is_space(#[trigger] text[i]) by {
        assert(rest[i - from] == text[i]);
    }
}

proof fn lemma_trimmed_start(text: Seq<char>)
    ensures
        ({
            let rest = trimmed_start(text);
            let from = text.len() - rest.len();
            &&& from >= 0
            &&& rest == text.skip(from)
            &&& forall|i: int| 0 <= i < from ==> is_space(#[trigger] text[i])
            &&& rest.len() > 0 ==> !is_space(rest[0])
        }),
    decreases text.len(),
{
    if text.len() > 0 && is_space(text[0]) {
        let next = text.skip(1);
        lemma_trimmed_start(next);
        let rest = trimmed_start(text);
        let from = text.len() - rest.len();
        assert(next.skip(from - 1) =~= text.skip(from));
        assert forall|i: int| 0 <= i < from implies is_space(#[trigger] text[i]) by {
            if i > 0 {
                assert(next[i - 1] == text[i]);
            }
        }
    } else {
        assert(text.skip(0) =~= text);
    }
}

proof fn lemma_trimmed_end(text: Seq<char>)
    ensures
        ({
            let rest = trimmed_end(text);
            &&& rest.len() <= text.len()
            &&& rest == text.take(rest.len() as int)
            &&& forall|i: int| rest.len() <= i < text.len() ==> is_space(#[trigger] text[i])
            &&& rest.len() > 0 ==> !is_space(rest.last())
        }),
    decreases text.len(),
{
    if text.len() > 0 && is_space(text.last()) {
        let next = text.drop_last();
        lemma_trimmed_end(next);
        let rest = trimmed_end(text);
        assert(next.take(rest.len() as int) =~= text.take(rest.len() as int));
        assert forall|i: int| rest.len() <= i < text.len() implies is_space(#[trigger] text[i]) by {
            if i < next.len() {
                assert(next[i] == text[i]);
            }
        }
    } else {
        assert(text.take(text.len() as int) =~= text);
    }
}

/// Padding makes a text as wide as asked for and leaves a wider one as it is; what is put in are spaces.
pub proof fn law_padding_fills_up(text: Seq<char>, width: nat)
    ensures
        padded_right(text, width).len() == if text.len() < width {
            width
        } else {
            text.len()
        },
        padded_left(text, width).len() == padded_right(text, width).len(),
        begins(padded_right(text, width), text),
        ends(padded_left(text, width), text),
        forall|i: int|
            text.len() <= i < width ==> #[trigger] padded_right(text, width)[i] == ' ',
        forall|i: int|
            0 <= i < width - text.len() ==> #[trigger] padded_left(text, width)[i] == ' ',
{
    assert(padded_right(text, width).take(text.len() as int) =~= text);
    let left = padded_left(text, width);
    assert(left.skip(left.len() - text.len()) =~= text);
}

/// Case is changed character by character, and only that of the letters of ASCII.
pub proof fn law_case_is_of_letters(text: Seq<char>, i: int)
    requires
        0 <= i < text.len(),
    ensures
        ascii_lower(text).len() == text.len() && ascii_upper(text).len() == text.len(),
        'A' <= text[i] && text[i] <= 'Z' ==> ascii_lower(text)[i] as u32 == text[i] as u32 + 32
            && ascii_upper(text)[i] == text[i],
        'a' <= text[i] && text[i] <= 'z' ==> ascii_upper(text)[i] as u32 == text[i] as u32 - 32
            && ascii_lower(text)[i] == text[i],
        !('A' <= text[i] && text[i] <= 'Z') && !('a' <= text[i] && text[i] <= 'z') ==> ascii_lower(
            text,
        )[i] == text[i] && ascii_upper(text)[i] == text[i],
{
}

} // verus!
