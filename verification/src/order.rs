//! Lexicographic order of character sequences.

use vstd::prelude::*;

verus! {

/// How one value stands to another.
#[derive(Debug, Clone, Copy, PartialEq, Eq, Structural)]
pub enum Order {
    Before,
    Same,
    After,
}

impl Order {
    /// This order, or `next` where it does not decide.
    pub open spec fn or_then(self, next: Order) -> Order {
        if self == Order::Same {
            next
        } else {
            self
        }
    }

    /// The same comparison with its sides exchanged.
    pub open spec fn flipped(self) -> Order {
        match self {
            Order::Before => Order::After,
            Order::Same => Order::Same,
            Order::After => Order::Before,
        }
    }
}

/// The order of two numbers.
pub open spec fn number_order(left: int, right: int) -> Order {
    if left < right {
        Order::Before
    } else if left > right {
        Order::After
    } else {
        Order::Same
    }
}

/// Compares two counts.
pub fn compare_counts(left: u64, right: u64) -> (r: Order)
    ensures
        r == number_order(left as int, right as int),
{
    if left < right {
        Order::Before
    } else if left > right {
        Order::After
    } else {
        Order::Same
    }
}

/// The lexicographic order of two sequences: the first difference decides, and
/// a proper prefix stands before.
pub open spec fn lex_order(left: Seq<int>, right: Seq<int>) -> Order
    decreases left.len(),
{
    if left.len() == 0 {
        if right.len() == 0 {
            Order::Same
        } else {
            Order::Before
        }
    } else if right.len() == 0 {
        Order::After
    } else {
        number_order(left[0], right[0]).or_then(lex_order(left.drop_first(), right.drop_first()))
    }
}

/// Characters by their code points.
pub open spec fn codes(text: Seq<char>) -> Seq<int> {
    Seq::new(text.len(), |i: int| text[i] as int)
}

/// The order of two texts by code points. UTF-8 keeps it: it is the order of
/// the encoded bytes too.
pub open spec fn text_order(left: Seq<char>, right: Seq<char>) -> Order {
    lex_order(codes(left), codes(right))
}

/// Compares two texts by code points.
pub fn compare_chars(left: &[char], right: &[char]) -> (r: Order)
    ensures
        r == text_order(left@, right@),
{
    let mut i: usize = 0;
    proof {
        assert(codes(left@).skip(0) =~= codes(left@));
        assert(codes(right@).skip(0) =~= codes(right@));
    }
    while i < left.len() && i < right.len()
        invariant
            i <= left@.len(),
            i <= right@.len(),
            lex_order(codes(left@).skip(i as int), codes(right@).skip(i as int)) == text_order(
                left@,
                right@,
            ),
        decreases left.len() - i,
    {
        proof {
            assert(codes(left@).skip(i as int).drop_first() =~= codes(left@).skip(i as int + 1));
            assert(codes(right@).skip(i as int).drop_first() =~= codes(right@).skip(i as int + 1));
        }
        if left[i] < right[i] {
            return Order::Before;
        }
        if right[i] < left[i] {
            return Order::After;
        }
        i = i + 1;
    }
    if i < right.len() {
        Order::Before
    } else if i < left.len() {
        Order::After
    } else {
        Order::Same
    }
}

/// Exchanging the sides flips the order.
pub proof fn lex_order_flips(left: Seq<int>, right: Seq<int>)
    ensures
        lex_order(right, left) == lex_order(left, right).flipped(),
    decreases left.len(),
{
    if left.len() > 0 && right.len() > 0 {
        lex_order_flips(left.drop_first(), right.drop_first());
    }
}

/// Only equal sequences compare as the same.
pub proof fn lex_order_same(left: Seq<int>, right: Seq<int>)
    ensures
        lex_order(left, right) == Order::Same <==> left == right,
    decreases left.len(),
{
    if left.len() > 0 && right.len() > 0 {
        lex_order_same(left.drop_first(), right.drop_first());
        if lex_order(left, right) == Order::Same {
            assert(left =~= seq![left[0]] + left.drop_first());
            assert(right =~= seq![right[0]] + right.drop_first());
        }
    } else if left.len() == 0 && right.len() == 0 {
        assert(left =~= right);
    }
}

/// Lexicographic order is transitive.
pub proof fn lex_order_chains(first: Seq<int>, second: Seq<int>, third: Seq<int>)
    ensures
        lex_order(first, second) != Order::After && lex_order(second, third) != Order::After
            ==> lex_order(first, third) != Order::After,
    decreases first.len(),
{
    if first.len() > 0 && second.len() > 0 && third.len() > 0 {
        lex_order_chains(first.drop_first(), second.drop_first(), third.drop_first());
    }
}

} // verus!
