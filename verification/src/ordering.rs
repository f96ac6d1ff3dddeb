//! The order of texts, stable sorting, and sorted lists without repetitions.

use vstd::prelude::*;

use crate::text::{chars_of, texts};

verus! {

/// Whether `left` comes before `right` in the lexicographic order of their
/// characters. UTF-8 keeps that order, so it is the order of strings too.
pub open spec fn text_less(left: Seq<char>, right: Seq<char>) -> bool
    decreases left.len(),
{
    if right.len() == 0 {
        false
    } else if left.len() == 0 {
        true
    } else if left[0] == right[0] {
        text_less(left.drop_first(), right.drop_first())
    } else {
        left[0] < right[0]
    }
}

/// No text comes before itself.
pub proof fn lemma_text_less_irreflexive(text: Seq<char>)
    ensures
        !text_less(text, text),
    decreases text.len(),
{
    if text.len() > 0 {
        lemma_text_less_irreflexive(text.drop_first());
    }
}

/// The order of texts is transitive.
pub proof fn lemma_text_less_transitive(a: Seq<char>, b: Seq<char>, c: Seq<char>)
    requires
        text_less(a, b),
        text_less(b, c),
    ensures
        text_less(a, c),
    decreases a.len(),
{
    if a.len() > 0 {
        if a[0] == b[0] && b[0] == c[0] {
            lemma_text_less_transitive(a.drop_first(), b.drop_first(), c.drop_first());
        }
    }
}

/// Of two different texts one comes before the other.
pub proof fn lemma_text_less_total(a: Seq<char>, b: Seq<char>)
    ensures
        a == b || text_less(a, b) || text_less(b, a),
    decreases a.len(),
{
    if a.len() > 0 && b.len() > 0 && a[0] == b[0] {
        lemma_text_less_total(a.drop_first(), b.drop_first());
        if a.drop_first() == b.drop_first() {
            assert(a =~= seq![a[0]] + a.drop_first());
            assert(b =~= seq![b[0]] + b.drop_first());
        }
    } else if a.len() == 0 && b.len() == 0 {
        assert(a =~= b);
    }
}

/// Whether `left` comes before `right`.
pub fn text_before(left: &str, right: &str) -> (before: bool)
    ensures
        before == text_less(left@, right@),
{
    let a = chars_of(left);
    let b = chars_of(right);
    let mut i: usize = 0;
    assert(a@.skip(0) =~= a@ && b@.skip(0) =~= b@);
    while i < a.len() && i < b.len() && a[i] == b[i]
        invariant
            i <= a@.len(),
            i <= b@.len(),
            text_less(a@, b@) == text_less(a@.skip(i as int), b@.skip(i as int)),
        decreases a@.len() - i,
    {
        assert(a@.skip(i as int).drop_first() =~= a@.skip(i as int + 1));
        assert(b@.skip(i as int).drop_first() =~= b@.skip(i as int + 1));
        i = i + 1;
    }
    if i < b.len() {
        i == a.len() || a[i] < b[i]
    } else {
        false
    }
}

/// A strict order in which items may tie.
pub trait Precedence: Sized {
    /// Whether `self` comes before `other`.
    spec fn precedes(self, other: Self) -> bool;

    /// No two items come before each other.
    proof fn asymmetric(a: Self, b: Self)
        ensures
            !(a.precedes(b) && b.precedes(a)),
    ;

    /// What stands between two items in the order comes after the first or
    /// before the second.
    proof fn comparable(a: Self, b: Self, c: Self)
        requires
            a.precedes(c),
        ensures
            a.precedes(b) || b.precedes(c),
    ;

    /// Whether `self` comes before `other`.
    fn comes_before(&self, other: &Self) -> (before: bool)
        ensures
            before == self.precedes(*other),
    ;
}

/// Whether the item at `i` is sorted before the one at `j`: it precedes it, or
/// the two tie and it stood before it.
pub open spec fn sorted_before<T: Precedence>(items: Seq<T>, i: int, j: int) -> bool {
    items[i].precedes(items[j]) || (!items[j].precedes(items[i]) && i < j)
}

/// Whether `order` lists the indices of `items` in their stable order.
pub open spec fn is_stable_order<T: Precedence>(order: Seq<int>, items: Seq<T>) -> bool {
    &&& order.len() == items.len()
    &&& forall|k: int| 0 <= k < order.len() ==> 0 <= #[trigger] order[k] < items.len()
    &&& forall|k: int, l: int|
        0 <= k < l < order.len() ==> sorted_before(items, #[trigger] order[k], #[trigger] order[l])
}

/// The indices of `items` in their stable order.
pub open spec fn stable_order<T: Precedence>(items: Seq<T>) -> Seq<int> {
    choose|order: Seq<int>| is_stable_order(order, items)
}

/// The elements of `values` at the indices that `order` lists.
pub open spec fn picked<A>(values: Seq<A>, order: Seq<int>) -> Seq<A> {
    order.map_values(|i: int| values[i])
}

/// The indices as integers.
pub open spec fn indices(order: Seq<usize>) -> Seq<int> {
    order.map_values(|i: usize| i as int)
}

/// A stable order lists every index.
pub proof fn lemma_stable_order_lists_all<T: Precedence>(order: Seq<int>, items: Seq<T>, i: int)
    requires
        is_stable_order(order, items),
        0 <= i < items.len(),
    ensures
        order.contains(i),
{
    assert(order.no_duplicates()) by {
        assert forall|k: int, l: int|
            0 <= k < order.len() && 0 <= l < order.len() && k != l implies order[k] != order[l] by {
            if k < l {
                assert(sorted_before(items, order[k], order[l]));
                T::asymmetric(items[order[k]], items[order[l]]);
            } else {
                assert(sorted_before(items, order[l], order[k]));
                T::asymmetric(items[order[k]], items[order[l]]);
            }
        }
    }
    order.unique_seq_to_set();
    let all = vstd::set_lib::set_int_range(0, items.len() as int);
    vstd::set_lib::lemma_int_range(0, items.len() as int);
    assert(order.to_set().subset_of(all));
    if !order.contains(i) {
        assert(order.to_set().subset_of(all.remove(i)));
        vstd::set_lib::lemma_len_subset(order.to_set(), all.remove(i));
    }
}

/// There is only one stable order.
pub proof fn lemma_stable_order_unique<T: Precedence>(
    first: Seq<int>,
    second: Seq<int>,
    items: Seq<T>,
)
    requires
        is_stable_order(first, items),
        is_stable_order(second, items),
    ensures
        first == second,
{
    assert forall|k: int| 0 <= k < first.len() implies first[k] == second[k] by {
        lemma_stable_orders_agree_at(first, second, items, k);
    }
    assert(first =~= second);
}

/// Two stable orders agree at each place.
proof fn lemma_stable_orders_agree_at<T: Precedence>(
    first: Seq<int>,
    second: Seq<int>,
    items: Seq<T>,
    at: int,
)
    requires
        is_stable_order(first, items),
        is_stable_order(second, items),
        0 <= at < first.len(),
    ensures
        first[at] == second[at],
    decreases at,
{
    assert forall|k: int| 0 <= k < at implies first[k] == second[k] by {
        lemma_stable_orders_agree_at(first, second, items, k);
    }
    if first[at] != second[at] {
        lemma_stable_order_lists_all(second, items, first[at]);
        let p = choose|p: int| 0 <= p < second.len() && second[p] == first[at];
        lemma_stable_order_lists_all(first, items, second[at]);
        let q = choose|q: int| 0 <= q < first.len() && first[q] == second[at];
        if p < at {
            assert(sorted_before(items, first[p], first[at]));
            T::asymmetric(items[first[p]], items[first[at]]);
        }
        if q < at {
            assert(sorted_before(items, second[q], second[at]));
            T::asymmetric(items[second[q]], items[second[at]]);
        }
        assert(sorted_before(items, second[at], second[p]));
        assert(sorted_before(items, first[at], first[q]));
        T::asymmetric(items[first[at]], items[second[at]]);
    }
}

/// Where the item at `next` is sorted in among earlier ones.
proof fn find_place<T: Precedence>(items: Seq<T>, order: Seq<int>, next: int, from: int) -> (at: int)
    requires
        0 <= from <= order.len(),
        forall|k: int|
            from <= k < order.len() ==> items[next].precedes(items[#[trigger] order[k]]),
    ensures
        0 <= at <= from,
        forall|k: int|
            at <= k < order.len() ==> items[next].precedes(items[#[trigger] order[k]]),
        at > 0 ==> !items[next].precedes(items[order[at - 1]]),
    decreases from,
{
    if from > 0 && items[next].precedes(items[order[from - 1]]) {
        find_place(items, order, next, from - 1)
    } else {
        from
    }
}

/// The stable order of the first `count` items.
proof fn find_stable_order<T: Precedence>(items: Seq<T>, count: int) -> (order: Seq<int>)
    requires
        0 <= count <= items.len(),
    ensures
        order.len() == count,
        forall|k: int| 0 <= k < order.len() ==> 0 <= #[trigger] order[k] < count,
        forall|k: int, l: int|
            0 <= k < l < order.len() ==> sorted_before(
                items,
                #[trigger] order[k],
                #[trigger] order[l],
            ),
    decreases count,
{
    if count == 0 {
        Seq::empty()
    } else {
        let next = count - 1;
        let before = find_stable_order(items, next);
        let at = find_place(items, before, next, before.len() as int);
        let order = before.insert(at, next);
        assert forall|k: int| 0 <= k < at implies sorted_before(
            items,
            #[trigger] before[k],
            next,
        ) by {
            let last = before[at - 1];
            if items[next].precedes(items[before[k]]) && k < at - 1 {
                assert(sorted_before(items, before[k], before[at - 1]));
                T::comparable(items[next], items[last], items[before[k]]);
                T::asymmetric(items[last], items[before[k]]);
            }
        }
        assert forall|k: int, l: int| 0 <= k < l < order.len() implies sorted_before(
            items,
            #[trigger] order[k],
            #[trigger] order[l],
        ) by {
            let k0 = if k < at { k } else { k - 1 };
            let l0 = if l < at { l } else { l - 1 };
            if k != at && l != at {
                assert(sorted_before(items, before[k0], before[l0]));
            } else if l == at {
                assert(sorted_before(items, before[k], next));
            } else {
                assert(items[next].precedes(items[before[l0]]));
            }
        }
        order
    }
}

/// Every sequence of items has a stable order.
pub proof fn lemma_stable_order_exists<T: Precedence>(items: Seq<T>)
    ensures
        is_stable_order(stable_order(items), items),
{
    let order = find_stable_order(items, items.len() as int);
    assert(is_stable_order(order, items));
}

/// The indices of `items` in their stable order.
pub fn sort_indices<T: Precedence>(items: &Vec<T>) -> (order: Vec<usize>)
    ensures
        is_stable_order(indices(order@), items@),
        indices(order@) == stable_order(items@),
{
    let mut order: Vec<usize> = Vec::new();
    let mut next: usize = 0;
    while next < items.len()
        invariant
            next <= items@.len(),
            order@.len() == next,
            forall|k: int| 0 <= k < order@.len() ==> #[trigger] order@[k] < next,
            forall|k: int, l: int|
                0 <= k < l < order@.len() ==> sorted_before(
                    items@,
                    #[trigger] order@[k] as int,
                    #[trigger] order@[l] as int,
                ),
        decreases items@.len() - next,
    {
        let mut at: usize = order.len();
        while at > 0 && items[next].comes_before(&items[order[at - 1]])
            invariant
                at <= order@.len(),
                next < items@.len(),
                forall|k: int| 0 <= k < order@.len() ==> #[trigger] order@[k] < next,
                forall|k: int|
                    at <= k < order@.len() ==> items@[next as int].precedes(
                        items@[#[trigger] order@[k] as int],
                    ),
            decreases at,
        {
            at = at - 1;
        }
        let ghost before = order@;
        assert forall|k: int| 0 <= k < at implies sorted_before(
            items@,
            #[trigger] before[k] as int,
            next as int,
        ) by {
            let last = before[at as int - 1] as int;
            if items@[next as int].precedes(items@[before[k] as int]) {
                if k < at - 1 {
                    assert(sorted_before(items@, before[k] as int, before[at as int - 1] as int));
                    T::comparable(items@[next as int], items@[last], items@[before[k] as int]);
                    T::asymmetric(items@[last], items@[before[k] as int]);
                }
            }
        }
        order.insert(at, next);
        assert forall|k: int, l: int| 0 <= k < l < order@.len() implies sorted_before(
            items@,
            #[trigger] order@[k] as int,
            #[trigger] order@[l] as int,
        ) by {
            let k0 = if k < at { k } else { k - 1 };
            let l0 = if l < at { l } else { l - 1 };
            if k != at && l != at {
                assert(sorted_before(items@, before[k0] as int, before[l0] as int));
            } else if l == at {
                assert(sorted_before(items@, before[k] as int, next as int));
            } else {
                assert(items@[next as int].precedes(items@[before[l0] as int]));
            }
        }
        next = next + 1;
    }
    proof {
        assert(is_stable_order(indices(order@), items@));
        lemma_stable_order_unique(indices(order@), stable_order(items@), items@);
    }
    order
}

/// A sort key: smaller numbers first.
pub struct AscendingKey {
    pub value: i64,
}

impl Precedence for AscendingKey {
    open spec fn precedes(self, other: Self) -> bool {
        self.value < other.value
    }

    proof fn asymmetric(a: Self, b: Self) {
    }

    proof fn comparable(a: Self, b: Self, c: Self) {
    }

    fn comes_before(&self, other: &Self) -> (before: bool) {
        self.value < other.value
    }
}

/// A sort key: larger numbers first.
pub struct DescendingKey {
    pub value: i64,
}

impl Precedence for DescendingKey {
    open spec fn precedes(self, other: Self) -> bool {
        self.value > other.value
    }

    proof fn asymmetric(a: Self, b: Self) {
    }

    proof fn comparable(a: Self, b: Self, c: Self) {
    }

    fn comes_before(&self, other: &Self) -> (before: bool) {
        self.value > other.value
    }
}

/// A sort key: longer texts first.
pub struct LengthKey {
    pub length: usize,
}

impl Precedence for LengthKey {
    open spec fn precedes(self, other: Self) -> bool {
        self.length > other.length
    }

    proof fn asymmetric(a: Self, b: Self) {
    }

    proof fn comparable(a: Self, b: Self, c: Self) {
    }

    fn comes_before(&self, other: &Self) -> (before: bool) {
        self.length > other.length
    }
}

/// `values`, a sorted list, with `value` at its place, unless it is there.
pub open spec fn inserted(values: Seq<Seq<char>>, value: Seq<char>) -> Seq<Seq<char>>
    decreases values.len(),
{
    if values.len() == 0 {
        seq![value]
    } else if values[0] == value {
        values
    } else if text_less(value, values[0]) {
        seq![value] + values
    } else {
        seq![values[0]] + inserted(values.drop_first(), value)
    }
}

/// The different texts of `values` in ascending order.
pub open spec fn sorted_set(values: Seq<Seq<char>>) -> Seq<Seq<char>>
    decreases values.len(),
{
    if values.len() == 0 {
        values
    } else {
        inserted(sorted_set(values.drop_last()), values.last())
    }
}

/// Whether each text of `values` comes before those that follow it.
pub open spec fn strictly_ascending(values: Seq<Seq<char>>) -> bool {
    forall|i: int, j: int|
        0 <= i < j < values.len() ==> text_less(#[trigger] values[i], #[trigger] values[j])
}

/// Inserting keeps the order and adds just the one text.
proof fn lemma_inserted(values: Seq<Seq<char>>, value: Seq<char>)
    requires
        strictly_ascending(values),
    ensures
        strictly_ascending(inserted(values, value)),
        forall|text: Seq<char>|
            #[trigger] inserted(values, value).contains(text) <==> values.contains(text) || text
                == value,
    decreases values.len(),
{
    let result = inserted(values, value);
    if values.len() == 0 {
        assert(result[0] == value);
    } else if values[0] == value {
    } else if text_less(value, values[0]) {
        assert forall|i: int, j: int| 0 <= i < j < result.len() implies text_less(
            #[trigger] result[i],
            #[trigger] result[j],
        ) by {
            if i == 0 {
                if j > 1 {
                    assert(text_less(values[0], values[j - 1]));
                    lemma_text_less_transitive(value, values[0], values[j - 1]);
                }
            } else {
                assert(text_less(values[i - 1], values[j - 1]));
            }
        }
        assert forall|text: Seq<char>| #[trigger] result.contains(text) <==> values.contains(text)
            || text == value by {
            if values.contains(text) {
                let k = choose|k: int| 0 <= k < values.len() && values[k] == text;
                assert(result[k + 1] == text);
            }
            if text == value {
                assert(result[0] == text);
            }
        }
    } else {
        let rest = values.drop_first();
        assert(strictly_ascending(rest)) by {
            assert forall|i: int, j: int| 0 <= i < j < rest.len() implies text_less(
                #[trigger] rest[i],
                #[trigger] rest[j],
            ) by {
                assert(text_less(values[i + 1], values[j + 1]));
            }
        }
        lemma_inserted(rest, value);
        let tail = inserted(rest, value);
        lemma_text_less_total(value, values[0]);
        assert forall|i: int, j: int| 0 <= i < j < result.len() implies text_less(
            #[trigger] result[i],
            #[trigger] result[j],
        ) by {
            if i == 0 {
                let text = tail[j - 1];
                assert(tail.contains(text));
                if text != value {
                    let k = choose|k: int| 0 <= k < rest.len() && rest[k] == text;
                    assert(text_less(values[0], values[k + 1]));
                }
            } else {
                assert(text_less(tail[i - 1], tail[j - 1]));
            }
        }
        assert forall|text: Seq<char>| #[trigger] result.contains(text) <==> values.contains(text)
            || text == value by {
            if result.contains(text) {
                let k = choose|k: int| 0 <= k < result.len() && result[k] == text;
                if k > 0 {
                    assert(tail[k - 1] == text);
                    assert(tail.contains(text));
                    if text != value {
                        let m = choose|m: int| 0 <= m < rest.len() && rest[m] == text;
                        assert(values[m + 1] == text);
                    }
                } else {
                    assert(values[0] == text);
                }
            }
            if values.contains(text) || text == value {
                if text == values[0] {
                    assert(result[0] == text);
                } else {
                    if values.contains(text) {
                        let k = choose|k: int| 0 <= k < values.len() && values[k] == text;
                        assert(rest[k - 1] == text);
                    }
                    assert(tail.contains(text));
                    let m = choose|m: int| 0 <= m < tail.len() && tail[m] == text;
                    assert(result[m + 1] == text);
                }
            }
        }
    }
}

/// A sorted set is in strictly ascending order and holds just the texts it was
/// made of.
pub proof fn lemma_sorted_set(values: Seq<Seq<char>>)
    ensures
        strictly_ascending(sorted_set(values)),
        forall|text: Seq<char>| #[trigger] sorted_set(values).contains(text) <==> values.contains(
            text,
        ),
    decreases values.len(),
{
    if values.len() > 0 {
        let rest = values.drop_last();
        lemma_sorted_set(rest);
        lemma_inserted(sorted_set(rest), values.last());
        assert forall|text: Seq<char>| #[trigger] sorted_set(values).contains(text)
            <==> values.contains(text) by {
            assert(sorted_set(values).contains(text) <==> sorted_set(rest).contains(text) || text
                == values.last());
            if values.contains(text) {
                let k = choose|k: int| 0 <= k < values.len() && values[k] == text;
                if k < values.len() - 1 {
                    assert(rest[k] == text);
                }
            }
            if rest.contains(text) {
                let k = choose|k: int| 0 <= k < rest.len() && rest[k] == text;
                assert(values[k] == text);
            }
            if text == values.last() {
                assert(values[values.len() - 1] == text);
            }
        }
    }
}

/// Where a text is inserted: after `at` texts that come before it.
proof fn lemma_inserted_at(values: Seq<Seq<char>>, value: Seq<char>, at: int)
    requires
        strictly_ascending(values),
        0 <= at <= values.len(),
        forall|k: int| 0 <= k < at ==> text_less(#[trigger] values[k], value),
        at < values.len() ==> text_less(value, values[at]) || value == values[at],
    ensures
        inserted(values, value) == if at < values.len() && values[at] == value {
            values
        } else {
            values.insert(at, value)
        },
    decreases at,
{
    if at == 0 {
        if values.len() == 0 {
            assert(values.insert(0, value) =~= seq![value]);
        } else if values[0] != value {
            assert(values.insert(0, value) =~= seq![value] + values);
        }
    } else {
        let rest = values.drop_first();
        assert(text_less(values[0], value));
        lemma_text_less_irreflexive(value);
        if text_less(value, values[0]) {
            lemma_text_less_transitive(value, values[0], value);
        }
        assert forall|i: int, j: int| 0 <= i < j < rest.len() implies text_less(
            #[trigger] rest[i],
            #[trigger] rest[j],
        ) by {
            assert(text_less(values[i + 1], values[j + 1]));
        }
        assert forall|k: int| 0 <= k < at - 1 implies text_less(#[trigger] rest[k], value) by {
            assert(text_less(values[k + 1], value));
        }
        lemma_inserted_at(rest, value, at - 1);
        if at < values.len() && values[at] == value {
            assert(seq![values[0]] + rest =~= values);
        } else {
            assert(seq![values[0]] + rest.insert(at - 1, value) =~= values.insert(at, value));
        }
    }
}

/// The different texts of `values` in ascending order.
pub fn sort_and_dedup(values: &Vec<String>) -> (sorted: Vec<String>)
    ensures
        texts(sorted@) == sorted_set(texts(values@)),
{
    let mut sorted: Vec<String> = Vec::new();
    let mut i: usize = 0;
    assert(texts(sorted@) =~= sorted_set(texts(values@).take(0)));
    while i < values.len()
        invariant
            i <= values@.len(),
            texts(sorted@) == sorted_set(texts(values@).take(i as int)),
        decreases values@.len() - i,
    {
        let ghost before = texts(sorted@);
        let ghost value = values@[i as int]@;
        proof {
            lemma_sorted_set(texts(values@).take(i as int));
            assert(texts(values@).take(i as int + 1).drop_last() =~= texts(values@).take(i as int));
        }
        let mut at: usize = 0;
        while at < sorted.len() && text_before(&sorted[at], &values[i])
            invariant
                at <= sorted@.len(),
                i < values@.len(),
                value == values@[i as int]@,
                before == texts(sorted@),
                forall|k: int| 0 <= k < at ==> text_less(#[trigger] before[k], value),
            decreases sorted@.len() - at,
        {
            assert(before[at as int] == sorted@[at as int]@);
            at = at + 1;
        }
        proof {
            if at < sorted@.len() {
                assert(before[at as int] == sorted@[at as int]@);
                lemma_text_less_total(before[at as int], value);
            }
            lemma_inserted_at(before, value, at as int);
        }
        if at == sorted.len() || sorted[at] != values[i] {
            sorted.insert(at, values[i].clone());
            assert(texts(sorted@) =~= before.insert(at as int, value));
        }
        i = i + 1;
    }
    assert(texts(values@).take(i as int) =~= texts(values@));
    sorted
}

/// Texts are ordered by the first character in which they differ, and a text
/// comes before its continuations.
pub proof fn law_first_difference_decides(
    common: Seq<char>,
    left: char,
    right: char,
    after_left: Seq<char>,
    after_right: Seq<char>,
)
    ensures
        text_less(common, common.push(right) + after_right),
        left < right ==> text_less(
            common.push(left) + after_left,
            common.push(right) + after_right,
        ),
        left < right ==> !text_less(
            common.push(right) + after_right,
            common.push(left) + after_left,
        ),
    decreases common.len(),
{
    let first = common.push(left) + after_left;
    let second = common.push(right) + after_right;
    if common.len() > 0 {
        let rest = common.drop_first();
        law_first_difference_decides(rest, left, right, after_left, after_right);
        assert(first.drop_first() =~= rest.push(left) + after_left);
        assert(second.drop_first() =~= rest.push(right) + after_right);
    }
}

/// Smaller numbers, larger numbers and longer texts come first.
pub proof fn law_keys_order_by_their_numbers(first: i64, second: i64, long: usize, short: usize)
    ensures
        (AscendingKey { value: first }).precedes(AscendingKey { value: second }) <==> first
            < second,
        (DescendingKey { value: first }).precedes(DescendingKey { value: second }) <==> second
            < first,
        (LengthKey { length: long }).precedes(LengthKey { length: short }) <==> short < long,
{
}

/// A stable order lists every index once, no item before one that precedes it,
/// and items that tie as they stood.
pub proof fn law_stable_order_sorts<T: Precedence>(items: Seq<T>)
    ensures
        stable_order(items).len() == items.len(),
        stable_order(items).no_duplicates(),
        forall|i: int| 0 <= i < items.len() <==> #[trigger] stable_order(items).contains(i),
        forall|k: int, l: int|
            0 <= k < l < items.len() ==> !items[#[trigger] stable_order(items)[l]].precedes(
                items[#[trigger] stable_order(items)[k]],
            ),
        forall|k: int, l: int|
            0 <= k < l < items.len() && !items[#[trigger] stable_order(items)[k]].precedes(
                items[#[trigger] stable_order(items)[l]],
            ) ==> stable_order(items)[k] < stable_order(items)[l],
{
    let order = stable_order(items);
    lemma_stable_order_exists(items);
    assert forall|k: int, l: int|
        0 <= k < order.len() && 0 <= l < order.len() && k != l implies order[k] != order[l] by {
        if k < l {
            assert(sorted_before(items, order[k], order[l]));
            T::asymmetric(items[order[k]], items[order[l]]);
        } else {
            assert(sorted_before(items, order[l], order[k]));
            T::asymmetric(items[order[k]], items[order[l]]);
        }
    }
    assert forall|i: int| 0 <= i < items.len() <==> #[trigger] order.contains(i) by {
        if 0 <= i < items.len() {
            lemma_stable_order_lists_all(order, items, i);
        }
    }
    assert forall|k: int, l: int| 0 <= k < l < items.len() implies !items[#[trigger] order[l]].precedes(
        items[#[trigger] order[k]],
    ) by {
        assert(sorted_before(items, order[k], order[l]));
        T::asymmetric(items[order[k]], items[order[l]]);
    }
    assert forall|k: int, l: int|
        0 <= k < l < items.len() && !items[#[trigger] order[k]].precedes(
            items[#[trigger] order[l]],
        ) implies order[k] < order[l] by {
        assert(sorted_before(items, order[k], order[l]));
    }
}

/// The different texts of a list, in ascending order: each once, none lost and
/// none added.
pub proof fn law_sorted_texts_are_the_different_ones(values: Seq<Seq<char>>)
    ensures
        forall|i: int, j: int|
            0 <= i < j < sorted_set(values).len() ==> text_less(
                #[trigger] sorted_set(values)[i],
                #[trigger] sorted_set(values)[j],
            ),
        sorted_set(values).no_duplicates(),
        forall|text: Seq<char>| #[trigger] sorted_set(values).contains(text) <==> values.contains(
            text,
        ),
{
    let sorted = sorted_set(values);
    lemma_sorted_set(values);
    assert forall|i: int, j: int|
        0 <= i < sorted.len() && 0 <= j < sorted.len() && i != j implies sorted[i] != sorted[j] by {
        lemma_text_less_irreflexive(sorted[i]);
        if i < j {
            assert(text_less(sorted[i], sorted[j]));
        } else {
            assert(text_less(sorted[j], sorted[i]));
        }
    }
}

} // verus!
