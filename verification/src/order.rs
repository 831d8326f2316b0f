//! Three-way comparison and the orders that the library sorts by.
use vstd::prelude::*;

verus! {

/// The outcome of comparing two values.
#[derive(Debug, Clone, Copy, PartialEq, Eq, Structural)]
pub enum Order {
    Less,
    Equal,
    Greater,
}

impl Order {
    /// The outcome with the two values exchanged.
    pub open spec fn flipped(self) -> Order {
        match self {
            Order::Less => Order::Greater,
            Order::Equal => Order::Equal,
            Order::Greater => Order::Less,
        }
    }

    /// This outcome where it tells the values apart, otherwise the next one.
    pub open spec fn or(self, next: Order) -> Order {
        if self == Order::Equal {
            next
        } else {
            self
        }
    }

    pub fn reverse(self) -> (result: Order)
        ensures
            result == self.flipped(),
    {
        match self {
            Order::Less => Order::Greater,
            Order::Equal => Order::Equal,
            Order::Greater => Order::Less,
        }
    }

    pub fn and_next(self, next: Order) -> (result: Order)
        ensures
            result == self.or(next),
    {
        match self {
            Order::Equal => next,
            _ => self,
        }
    }
}

/// How two numbers compare.
pub open spec fn number_order(a: int, b: int) -> Order {
    if a < b {
        Order::Less
    } else if a == b {
        Order::Equal
    } else {
        Order::Greater
    }
}

/// How two texts compare: by their first difference, a proper prefix being less.
pub open spec fn text_order(a: Seq<char>, b: Seq<char>) -> Order
    decreases a.len(),
{
    if a.len() == 0 && b.len() == 0 {
        Order::Equal
    } else if a.len() == 0 {
        Order::Less
    } else if b.len() == 0 {
        Order::Greater
    } else if a[0] != b[0] {
        number_order(a[0] as int, b[0] as int)
    } else {
        text_order(a.skip(1), b.skip(1))
    }
}

/// How two lists of numbers compare, element by element, a proper prefix being less.
pub open spec fn numbers_order(a: Seq<u64>, b: Seq<u64>) -> Order
    decreases a.len(),
{
    if a.len() == 0 && b.len() == 0 {
        Order::Equal
    } else if a.len() == 0 {
        Order::Less
    } else if b.len() == 0 {
        Order::Greater
    } else if a[0] != b[0] {
        number_order(a[0] as int, b[0] as int)
    } else {
        numbers_order(a.skip(1), b.skip(1))
    }
}

pub fn compare_u64(a: u64, b: u64) -> (result: Order)
    ensures
        result == number_order(a as int, b as int),
{
    if a < b {
        Order::Less
    } else if a == b {
        Order::Equal
    } else {
        Order::Greater
    }
}

pub fn compare_i64(a: i64, b: i64) -> (result: Order)
    ensures
        result == number_order(a as int, b as int),
{
    if a < b {
        Order::Less
    } else if a == b {
        Order::Equal
    } else {
        Order::Greater
    }
}

pub fn compare_numbers(a: &Vec<u64>, b: &Vec<u64>) -> (result: Order)
    ensures
        result == numbers_order(a@, b@),
{
    let mut i: usize = 0;
    proof {
        assert(a@.skip(0) =~= a@);
        assert(b@.skip(0) =~= b@);
    }
    while i < a.len() && i < b.len()
        invariant
            i <= a.len(),
            i <= b.len(),
            numbers_order(a@, b@) == numbers_order(a@.skip(i as int), b@.skip(i as int)),
        decreases a.len() - i,
    {
        if a[i] != b[i] {
            return compare_u64(a[i], b[i]);
        }
        proof {
            assert(a@.skip(i as int).skip(1) =~= a@.skip(i + 1));
            assert(b@.skip(i as int).skip(1) =~= b@.skip(i + 1));
        }
        i += 1;
    }
    if i < b.len() {
        Order::Less
    } else if i < a.len() {
        Order::Greater
    } else {
        Order::Equal
    }
}

pub proof fn lemma_numbers_order_flips(a: Seq<u64>, b: Seq<u64>)
    ensures
        numbers_order(b, a) == numbers_order(a, b).flipped(),
    decreases a.len(),
{
    if a.len() > 0 && b.len() > 0 && a[0] == b[0] {
        lemma_numbers_order_flips(a.skip(1), b.skip(1));
    }
}

pub proof fn lemma_numbers_order_equal(a: Seq<u64>, b: Seq<u64>)
    ensures
        numbers_order(a, b) == Order::Equal <==> a == b,
    decreases a.len(),
{
    if a.len() > 0 && b.len() > 0 && a[0] == b[0] {
        lemma_numbers_order_equal(a.skip(1), b.skip(1));
        assert(a =~= seq![a[0]] + a.skip(1));
        assert(b =~= seq![b[0]] + b.skip(1));
    } else if a.len() == 0 && b.len() == 0 {
        assert(a =~= b);
    }
}

pub proof fn lemma_numbers_order_chains(a: Seq<u64>, b: Seq<u64>, c: Seq<u64>)
    requires
        numbers_order(a, b) != Order::Greater,
        numbers_order(b, c) != Order::Greater,
    ensures
        numbers_order(a, c) != Order::Greater,
        numbers_order(a, c) == Order::Equal ==> numbers_order(a, b) == Order::Equal
            && numbers_order(b, c) == Order::Equal,
    decreases a.len(),
{
    if a.len() > 0 && b.len() > 0 && c.len() > 0 && a[0] == b[0] && b[0] == c[0] {
        lemma_numbers_order_chains(a.skip(1), b.skip(1), c.skip(1));
    }
}

pub proof fn lemma_text_order_flips(a: Seq<char>, b: Seq<char>)
    ensures
        text_order(b, a) == text_order(a, b).flipped(),
    decreases a.len(),
{
    if a.len() > 0 && b.len() > 0 && a[0] == b[0] {
        lemma_text_order_flips(a.skip(1), b.skip(1));
    }
}

pub proof fn lemma_text_order_equal(a: Seq<char>, b: Seq<char>)
    ensures
        text_order(a, b) == Order::Equal <==> a == b,
    decreases a.len(),
{
    if a.len() > 0 && b.len() > 0 && a[0] == b[0] {
        lemma_text_order_equal(a.skip(1), b.skip(1));
        assert(a =~= seq![a[0]] + a.skip(1));
        assert(b =~= seq![b[0]] + b.skip(1));
    } else if a.len() == 0 && b.len() == 0 {
        assert(a =~= b);
    }
}

pub proof fn lemma_text_order_chains(a: Seq<char>, b: Seq<char>, c: Seq<char>)
    requires
        text_order(a, b) != Order::Greater,
        text_order(b, c) != Order::Greater,
    ensures
        text_order(a, c) != Order::Greater,
        text_order(a, c) == Order::Equal ==> text_order(a, b) == Order::Equal && text_order(b, c)
            == Order::Equal,
    decreases a.len(),
{
    if a.len() > 0 && b.len() > 0 && c.len() > 0 && a[0] == b[0] && b[0] == c[0] {
        lemma_text_order_chains(a.skip(1), b.skip(1), c.skip(1));
    }
}

/// Numbers compare by their size.
pub proof fn law_numbers_compare_by_size(a: int, b: int)
    ensures
        number_order(a, b) == Order::Less <==> a < b,
        number_order(a, b) == Order::Equal <==> a == b,
        number_order(a, b) == Order::Greater <==> a > b,
        Order::Less.flipped() == Order::Greater,
        Order::Equal.flipped() == Order::Equal,
{
}

/// The first outcome that tells two values apart decides.
pub proof fn law_first_difference_decides(first: Order, next: Order)
    ensures
        Order::Less.or(next) == Order::Less,
        Order::Greater.or(next) == Order::Greater,
        Order::Equal.or(next) == next,
        first.or(Order::Equal) == first,
{
}

/// Texts compare by the first character in which they differ, and a text comes before what continues
/// it.
pub proof fn law_texts_compare_by_first_difference(
    common: Seq<char>,
    x: char,
    y: char,
    rest: Seq<char>,
    other: Seq<char>,
)
    ensures
        (x as int) < (y as int) ==> text_order(common + seq![x] + rest, common + seq![y] + other)
            == Order::Less,
        x as int > y as int ==> text_order(common + seq![x] + rest, common + seq![y] + other)
            == Order::Greater,
        text_order(common, common + seq![y] + other) == Order::Less,
        text_order(common + seq![x] + rest, common) == Order::Greater,
        text_order(common, common) == Order::Equal,
    decreases common.len(),
{
    let a = common + seq![x] + rest;
    let b = common + seq![y] + other;
    if common.len() > 0 {
        let tail = common.skip(1);
        law_texts_compare_by_first_difference(tail, x, y, rest, other);
        assert(a.skip(1) =~= tail + seq![x] + rest);
        assert(b.skip(1) =~= tail + seq![y] + other);
        assert(a[0] == common[0] && b[0] == common[0]);
    } else {
        assert(a[0] == x && b[0] == y);
    }
}

/// Lists of numbers compare by the first place in which they differ, and a list comes before what
/// continues it.
pub proof fn law_number_lists_compare_by_first_difference(
    common: Seq<u64>,
    x: u64,
    y: u64,
    rest: Seq<u64>,
    other: Seq<u64>,
)
    ensures
        x < y ==> numbers_order(common + seq![x] + rest, common + seq![y] + other) == Order::Less,
        x > y ==> numbers_order(common + seq![x] + rest, common + seq![y] + other)
            == Order::Greater,
        numbers_order(common, common + seq![y] + other) == Order::Less,
        numbers_order(common + seq![x] + rest, common) == Order::Greater,
        numbers_order(common, common) == Order::Equal,
    decreases common.len(),
{
    let a = common + seq![x] + rest;
    let b = common + seq![y] + other;
    if common.len() > 0 {
        let tail = common.skip(1);
        law_number_lists_compare_by_first_difference(tail, x, y, rest, other);
        assert(a.skip(1) =~= tail + seq![x] + rest);
        assert(b.skip(1) =~= tail + seq![y] + other);
        assert(a[0] == common[0] && b[0] == common[0]);
    } else {
        assert(a[0] == x && b[0] == y);
    }
}

} // verus!
