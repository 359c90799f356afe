//! Ordering: text by its characters, and a stable sort over anything with an order.

use vstd::prelude::*;

use crate::text::chars_of;

verus! {

/// `a` stands before `b` in the order of their characters.
pub open spec fn text_before(a: Seq<char>, b: Seq<char>) -> bool
    decreases a.len(),
{
    if b.len() == 0 {
        false
    } else if a.len() == 0 {
        true
    } else if a[0] != b[0] {
        a[0] < b[0]
    } else {
        text_before(a.drop_first(), b.drop_first())
    }
}

/// The order of text: what does not stand before is ordered in turn.
pub proof fn lemma_text_order(a: Seq<char>, b: Seq<char>, c: Seq<char>)
    requires
        !text_before(a, b),
        !text_before(b, c),
    ensures
        !text_before(a, c),
    decreases a.len(),
{
    if a.len() > 0 && b.len() > 0 && c.len() > 0 && a[0] == b[0] && b[0] == c[0] {
        lemma_text_order(a.drop_first(), b.drop_first(), c.drop_first());
    }
}

/// Of two texts at most one stands before the other.
pub proof fn lemma_text_order_strict(a: Seq<char>, b: Seq<char>)
    ensures
        !(text_before(a, b) && text_before(b, a)),
    decreases a.len(),
{
    if a.len() > 0 && b.len() > 0 && a[0] == b[0] {
        lemma_text_order_strict(a.drop_first(), b.drop_first());
    }
}

/// Text that stands neither before nor behind is the same.
pub proof fn lemma_text_order_total(a: Seq<char>, b: Seq<char>)
    requires
        !text_before(a, b),
        !text_before(b, a),
    ensures
        a == b,
    decreases a.len(),
{
    if a.len() > 0 && b.len() > 0 {
        lemma_text_order_total(a.drop_first(), b.drop_first());
        assert(a =~= seq![a[0]] + a.drop_first());
        assert(b =~= seq![b[0]] + b.drop_first());
    } else {
        assert(a =~= b);
    }
}

/// Whether `a` stands before `b` in the order of their characters.
pub fn text_less(a: &str, b: &str) -> (less: bool)
    ensures
        less == text_before(a@, b@),
{
    let x = chars_of(a);
    let y = chars_of(b);
    let mut i: usize = 0;
    assert(x@.skip(0) =~= x@);
    assert(y@.skip(0) =~= y@);
    while i < x.len() && i < y.len()
        invariant
            x@ == a@,
            y@ == b@,
            i <= x@.len(),
            i <= y@.len(),
            text_before(a@, b@) == text_before(x@.skip(i as int), y@.skip(i as int)),
        decreases x@.len() - i,
    {
        if x[i] != y[i] {
            return x[i] < y[i];
        }
        assert(x@.skip(i as int).drop_first() =~= x@.skip(i + 1));
        assert(y@.skip(i as int).drop_first() =~= y@.skip(i + 1));
        i = i + 1;
    }
    i < y.len()
}

/// A strict order in which a list can be sorted.
pub trait Ordered: Sized {
    /// `self` stands before `other`.
    spec fn before(&self, other: &Self) -> bool;

    /// What does not stand before is ordered in turn.
    proof fn order_law(a: &Self, b: &Self, c: &Self)
        requires
            !a.before(b),
            !b.before(c),
        ensures
            !a.before(c),
    ;

    /// Of two items at most one stands before the other.
    proof fn strict_law(a: &Self, b: &Self)
        ensures
            !(a.before(b) && b.before(a)),
    ;

    /// Whether `self` stands before `other`.
    fn is_before(&self, other: &Self) -> (less: bool)
        ensures
            less == self.before(other),
    ;
}

/// `order` names each of `n` places once, sorted by `before`; places that stand neither before
/// nor behind one another keep their order.
pub open spec fn is_sorted_order(
    n: nat,
    order: Seq<usize>,
    before: spec_fn(int, int) -> bool,
) -> bool {
    &&& order.len() == n
    &&& order.no_duplicates()
    &&& forall|i: int| 0 <= i < order.len() ==> 0 <= #[trigger] order[i] < n
    &&& forall|i: int, j: int|
        0 <= i < j < order.len() ==> ranked(
            before,
            #[trigger] order[i] as int,
            #[trigger] order[j] as int,
        )
}

/// The place `first` is to stand before the place `second`.
pub open spec fn ranked(before: spec_fn(int, int) -> bool, first: int, second: int) -> bool {
    ||| before(first, second)
    ||| !before(second, first) && first < second
}

/// The order of the places of `items`.
pub open spec fn place_order<T: Ordered>(items: Seq<T>) -> spec_fn(int, int) -> bool {
    |i: int, j: int| items[i].before(&items[j])
}

/// `items` in the order of the places in `order`.
pub open spec fn arranged<T>(items: Seq<T>, order: Seq<usize>) -> Seq<T> {
    order.map_values(|i: usize| items[i as int])
}

/// Texts are ordered by the first character in which they differ; one that the other begins with
/// comes first, and no text comes before itself.
pub proof fn law_texts_are_ordered_by_first_difference(
    common: Seq<char>,
    a: Seq<char>,
    b: Seq<char>,
)
    ensures
        a.len() > 0 && b.len() > 0 && a[0] != b[0] ==> (text_before(common + a, common + b)
            <==> a[0] < b[0]),
        text_before(common, common + a) <==> a.len() > 0,
        !text_before(common + a, common),
    decreases common.len(),
{
    let none = Seq::<char>::empty();
    if common.len() == 0 {
        assert(common + a =~= a);
        assert(common + b =~= b);
    } else {
        let rest = common.drop_first();
        law_texts_are_ordered_by_first_difference(rest, a, b);
        assert((common + a).drop_first() =~= rest + a);
        assert((common + b).drop_first() =~= rest + b);
    }
}

/// A sorted list holds each item once, never an item before one that belongs before it, and items
/// of which neither belongs before the other in the order in which they came.
pub proof fn law_sorting_keeps_items_and_their_order<A>(
    items: Seq<A>,
    order: Seq<usize>,
    before: spec_fn(int, int) -> bool,
    i: int,
    j: int,
)
    requires
        is_sorted_order(items.len(), order, before),
        forall|a: int, b: int| #[trigger] before(a, b) ==> !before(b, a),
        0 <= i < j < items.len(),
    ensures
        arranged(items, order).len() == items.len(),
        arranged(items, order)[i] == items[order[i] as int],
        arranged(items, order)[j] == items[order[j] as int],
        !before(order[j] as int, order[i] as int),
        !before(order[i] as int, order[j] as int) ==> order[i] < order[j],
        exists|at: int| 0 <= at < items.len() && #[trigger] order[at] == i,
{
    assert(ranked(before, order[i] as int, order[j] as int));
    let at = lemma_order_covers(items.len(), order, i);
    assert(order[at] == i);
}

/// A sorted order is sorted by any order that agrees on the places.
pub proof fn lemma_sorted_order_agrees(
    n: nat,
    order: Seq<usize>,
    a: spec_fn(int, int) -> bool,
    b: spec_fn(int, int) -> bool,
)
    requires
        is_sorted_order(n, order, a),
        forall|i: int, j: int| 0 <= i < n && 0 <= j < n ==> #[trigger] a(i, j) == b(i, j),
    ensures
        is_sorted_order(n, order, b),
{
    assert forall|i: int, j: int| 0 <= i < j < order.len() implies ranked(
        b,
        #[trigger] order[i] as int,
        #[trigger] order[j] as int,
    ) by {
        assert(ranked(a, order[i] as int, order[j] as int));
    }
}

/// An order that names each of `n` places at most once, and as many as there are, names each:
/// `at` is where it names the place `k`.
pub proof fn lemma_order_covers(n: nat, order: Seq<usize>, k: int) -> (at: int)
    requires
        order.len() == n,
        order.no_duplicates(),
        forall|i: int| 0 <= i < order.len() ==> 0 <= #[trigger] order[i] < n,
        0 <= k < n,
    ensures
        0 <= at < n,
        order[at] == k,
{
    let places = order.map_values(|i: usize| i as int);
    assert forall|i: int, j: int|
        0 <= i < places.len() && 0 <= j < places.len() && i != j implies places[i]
        != places[j] by {
        assert(order[i] != order[j]);
    }
    places.unique_seq_to_set();
    vstd::seq_lib::seq_to_set_is_finite(places);
    let range = vstd::set_lib::set_int_range(0, n as int);
    vstd::set_lib::lemma_int_range(0, n as int);
    assert(places.to_set().subset_of(range));
    vstd::set_lib::lemma_subset_equality(places.to_set(), range);
    assert(range.contains(k));
    places.index_of(k)
}

/// The places of `items` in the order of the items.
pub fn sort_order<T: Ordered>(items: &Vec<T>) -> (order: Vec<usize>)
    ensures
        is_sorted_order(items@.len(), order@, place_order(items@)),
{
    let mut order: Vec<usize> = Vec::new();
    let mut n: usize = 0;
    while n < items.len()
        invariant
            n <= items@.len(),
            order@.len() == n,
            order@.no_duplicates(),
            forall|i: int| 0 <= i < order@.len() ==> 0 <= #[trigger] order@[i] < n,
            forall|i: int, j: int|
                0 <= i < j < order@.len() ==> ranked(
                    place_order(items@),
                    #[trigger] order@[i] as int,
                    #[trigger] order@[j] as int,
                ),
        decreases items@.len() - n,
    {
        let mut at: usize = order.len();
        while at > 0 && items[n].is_before(&items[order[at - 1]])
            invariant
                n < items@.len(),
                at <= order@.len(),
                order@.len() == n,
                forall|i: int| 0 <= i < order@.len() ==> 0 <= #[trigger] order@[i] < n,
                forall|j: int|
                    at <= j < order@.len() ==> items@[n as int].before(
                        &items@[#[trigger] order@[j] as int],
                    ),
            decreases at,
        {
            at = at - 1;
        }
        let ghost old_order = order@;
        proof {
            assert forall|i: int| 0 <= i < at implies !items@[n as int].before(
                &items@[#[trigger] old_order[i] as int],
            ) by {
                if i < at - 1 {
                    assert(ranked(
                        place_order(items@),
                        old_order[i] as int,
                        old_order[at - 1] as int,
                    ));
                    T::strict_law(
                        &items@[old_order[i] as int],
                        &items@[old_order[at - 1] as int],
                    );
                    T::order_law(
                        &items@[n as int],
                        &items@[old_order[at - 1] as int],
                        &items@[old_order[i] as int],
                    );
                }
            }
        }
        order.insert(at, n);
        proof {
            assert forall|i: int| 0 <= i < order@.len() implies 0 <= #[trigger] order@[i] < n
                + 1 by {
                if i < at {
                    assert(order@[i] == old_order[i]);
                } else if i > at {
                    assert(order@[i] == old_order[i - 1]);
                }
            }
            assert forall|i: int, j: int|
                0 <= i < order@.len() && 0 <= j < order@.len() && i != j implies order@[i]
                != order@[j] by {
                let a = if i < at { old_order[i] } else if i == at { n } else { old_order[i - 1] };
                let b = if j < at { old_order[j] } else if j == at { n } else { old_order[j - 1] };
                assert(order@[i] == a && order@[j] == b);
            }
            assert forall|i: int, j: int| 0 <= i < j < order@.len() implies ranked(
                place_order(items@),
                #[trigger] order@[i] as int,
                #[trigger] order@[j] as int,
            ) by {
                let a = if i < at { old_order[i] } else if i == at { n } else { old_order[i - 1] };
                let b = if j < at { old_order[j] } else if j == at { n } else { old_order[j - 1] };
                assert(order@[i] == a && order@[j] == b);
            }
        }
        n = n + 1;
    }
    order
}

} // verus!
