//! Lists of named things: the order in which they are emitted, which is by
//! name, in dictionary order, whatever the order in which they were given;
//! and the search for a name that stands twice.

use vstd::prelude::*;
use crate::text::{
    chars_of, lemma_not_precedes_transitive, lemma_precedes_irreflexive, lemma_precedes_total,
    lemma_precedes_transitive, precedes, same_chars, same_text,
};

verus! {

/// `order` with the index `i` put in behind every index whose name does not
/// come after the name at `i`.
pub open spec fn with_index(names: Seq<Seq<char>>, order: Seq<int>, i: int) -> Seq<int>
    decreases order.len(),
{
    if order.len() == 0 {
        seq![i]
    } else if precedes(names[i], names[order.last()]) {
        with_index(names, order.drop_last(), i).push(order.last())
    } else {
        order.push(i)
    }
}

/// The first `n` indices, ordered by their names; indices of equal names keep
/// their order.
pub open spec fn ordered_prefix(names: Seq<Seq<char>>, n: nat) -> Seq<int>
    decreases n,
{
    if n == 0 {
        Seq::empty()
    } else {
        with_index(names, ordered_prefix(names, (n - 1) as nat), n - 1)
    }
}

/// The indices of `names`, ordered by their names.
pub open spec fn name_order(names: Seq<Seq<char>>) -> Seq<int> {
    ordered_prefix(names, names.len())
}

/// The names of a list of named things.
pub open spec fn names_of<T>(entries: Seq<(Seq<char>, T)>) -> Seq<Seq<char>> {
    entries.map_values(|e: (Seq<char>, T)| e.0)
}

/// `entries` in the order of their names.
pub open spec fn by_name<T>(entries: Seq<(Seq<char>, T)>) -> Seq<(Seq<char>, T)> {
    let order = name_order(names_of(entries));
    Seq::new(entries.len(), |k: int| entries[order[k]])
}

/// Putting an index in adds one to the length.
pub proof fn lemma_with_index_len(names: Seq<Seq<char>>, order: Seq<int>, i: int)
    ensures
        with_index(names, order, i).len() == order.len() + 1,
    decreases order.len(),
{
    if order.len() > 0 && precedes(names[i], names[order.last()]) {
        lemma_with_index_len(names, order.drop_last(), i);
    }
}

/// Putting an index in keeps every index that was there and adds the new one.
pub proof fn lemma_with_index_members(names: Seq<Seq<char>>, order: Seq<int>, i: int, x: int)
    ensures
        with_index(names, order, i).contains(x) <==> (order.contains(x) || x == i),
    decreases order.len(),
{
    let out = with_index(names, order, i);
    if order.len() == 0 {
        assert(out[0] == i);
        if out.contains(x) {
            let k = choose|k: int| 0 <= k < out.len() && out[k] == x;
        }
        if order.contains(x) {
            let k = choose|k: int| 0 <= k < order.len() && order[k] == x;
        }
    } else if precedes(names[i], names[order.last()]) {
        let front = order.drop_last();
        let inner = with_index(names, front, i);
        lemma_with_index_members(names, front, i, x);
        lemma_with_index_len(names, front, i);
        assert(out == inner.push(order.last()));
        if out.contains(x) {
            let k = choose|k: int| 0 <= k < out.len() && out[k] == x;
            if k < inner.len() {
                assert(inner[k] == x);
                assert(inner.contains(x));
                if front.contains(x) {
                    let j = choose|j: int| 0 <= j < front.len() && front[j] == x;
                    assert(order[j] == x);
                }
            } else {
                assert(order[order.len() - 1] == x);
            }
        }
        if order.contains(x) {
            let k = choose|k: int| 0 <= k < order.len() && order[k] == x;
            if k < front.len() {
                assert(front[k] == x);
                assert(front.contains(x));
                let j = choose|j: int| 0 <= j < inner.len() && inner[j] == x;
                assert(out[j] == x);
            } else {
                assert(out[out.len() - 1] == x);
            }
        }
        if x == i {
            assert(inner.contains(x));
            let j = choose|j: int| 0 <= j < inner.len() && inner[j] == x;
            assert(out[j] == x);
        }
    } else {
        assert(out == order.push(i));
        if out.contains(x) {
            let k = choose|k: int| 0 <= k < out.len() && out[k] == x;
            if k < order.len() {
                assert(order[k] == x);
            }
        }
        if order.contains(x) {
            let k = choose|k: int| 0 <= k < order.len() && order[k] == x;
            assert(out[k] == x);
        }
        if x == i {
            assert(out[out.len() - 1] == x);
        }
    }
}

/// Putting a new index in keeps the indices distinct.
pub proof fn lemma_with_index_distinct(names: Seq<Seq<char>>, order: Seq<int>, i: int)
    requires
        order.no_duplicates(),
        !order.contains(i),
    ensures
        with_index(names, order, i).no_duplicates(),
    decreases order.len(),
{
    let out = with_index(names, order, i);
    if order.len() == 0 {
    } else if precedes(names[i], names[order.last()]) {
        let front = order.drop_last();
        let inner = with_index(names, front, i);
        assert(front.no_duplicates());
        if front.contains(i) {
            let j = choose|j: int| 0 <= j < front.len() && front[j] == i;
            assert(order[j] == i);
        }
        lemma_with_index_distinct(names, front, i);
        lemma_with_index_len(names, front, i);
        lemma_with_index_members(names, front, i, order.last());
        if front.contains(order.last()) {
            let j = choose|j: int| 0 <= j < front.len() && front[j] == order.last();
            assert(order[j] == order[order.len() - 1]);
        }
        assert(!inner.contains(order.last()));
        assert forall|a: int, b: int| 0 <= a < out.len() && 0 <= b < out.len() && a != b implies out[a]
            != out[b] by {
            if a < inner.len() && b < inner.len() {
                assert(inner[a] != inner[b]);
            } else if a < inner.len() {
                assert(inner.contains(inner[a]));
            } else {
                assert(inner.contains(inner[b]));
            }
        }
    } else {
        assert forall|a: int, b: int| 0 <= a < out.len() && 0 <= b < out.len() && a != b implies out[a]
            != out[b] by {
            if a < order.len() && b < order.len() {
                assert(order[a] != order[b]);
            } else if a < order.len() {
                assert(order.contains(order[a]));
            } else {
                assert(order.contains(order[b]));
            }
        }
    }
}

/// The ordered prefix holds each of the first `n` indices once, and nothing
/// else.
pub proof fn lemma_ordered_prefix_is_arrangement(names: Seq<Seq<char>>, n: nat)
    ensures
        ordered_prefix(names, n).len() == n,
        ordered_prefix(names, n).no_duplicates(),
        forall|x: int| ordered_prefix(names, n).contains(x) <==> 0 <= x < n,
    decreases n,
{
    if n > 0 {
        let before = ordered_prefix(names, (n - 1) as nat);
        lemma_ordered_prefix_is_arrangement(names, (n - 1) as nat);
        lemma_with_index_len(names, before, n - 1);
        lemma_with_index_distinct(names, before, n - 1);
        assert forall|x: int| ordered_prefix(names, n).contains(x) <==> 0 <= x < n by {
            lemma_with_index_members(names, before, n - 1, x);
        }
    } else {
        assert forall|x: int| ordered_prefix(names, n).contains(x) <==> 0 <= x < n by {
            if ordered_prefix(names, n).contains(x) {
                let k = choose|k: int|
                    0 <= k < ordered_prefix(names, n).len() && ordered_prefix(names, n)[k] == x;
            }
        }
    }
}

/// Every position of the order of `names` holds an index of `names`.
pub proof fn lemma_name_order_in_range(names: Seq<Seq<char>>)
    ensures
        name_order(names).len() == names.len(),
        forall|k: int| 0 <= k < names.len() ==> 0 <= #[trigger] name_order(names)[k] < names.len(),
{
    lemma_ordered_prefix_is_arrangement(names, names.len());
    assert forall|k: int| 0 <= k < names.len() implies 0 <= #[trigger] name_order(names)[k]
        < names.len() by {
        assert(name_order(names).contains(name_order(names)[k]));
    }
}

/// Where the new index goes: behind the last index whose name does not come
/// after its own.
pub proof fn lemma_with_index_at(names: Seq<Seq<char>>, order: Seq<int>, i: int, j: int)
    requires
        0 <= j <= order.len(),
        forall|t: int| j <= t < order.len() ==> precedes(names[i], names[#[trigger] order[t]]),
        j == 0 || !precedes(names[i], names[order[j - 1]]),
    ensures
        with_index(names, order, i) == order.insert(j, i),
    decreases order.len() - j,
{
    if j == order.len() {
        assert(with_index(names, order, i) =~= order.insert(j, i));
    } else {
        let front = order.drop_last();
        assert(precedes(names[i], names[order[order.len() - 1]]));
        assert forall|t: int| j <= t < front.len() implies precedes(
            names[i],
            names[#[trigger] front[t]],
        ) by {
            assert(front[t] == order[t]);
        }
        lemma_with_index_at(names, front, i, j);
        assert(front.insert(j, i).push(order.last()) =~= order.insert(j, i));
    }
}

/// The indices of a vector as mathematical integers.
pub open spec fn as_ints(indices: Seq<usize>) -> Seq<int> {
    indices.map_values(|x: usize| x as int)
}

/// Whether `a` comes strictly before `b` in dictionary order.
pub fn chars_precede(a: &Vec<char>, b: &Vec<char>) -> (before: bool)
    ensures
        before == precedes(a@, b@),
{
    let mut i: usize = 0;
    assert(a@.skip(0) == a@ && b@.skip(0) == b@);
    while i < a.len() && i < b.len()
        invariant
            i <= a.len(),
            i <= b.len(),
            precedes(a@, b@) == precedes(a@.skip(i as int), b@.skip(i as int)),
        decreases a.len() - i,
    {
        let x = a[i];
        let y = b[i];
        assert(a@.skip(i as int)[0] == x);
        assert(b@.skip(i as int)[0] == y);
        if x != y {
            return x < y;
        }
        assert(a@.skip(i as int).drop_first() == a@.skip(i + 1));
        assert(b@.skip(i as int).drop_first() == b@.skip(i + 1));
        i += 1;
    }
    i < b.len()
}

/// The indices of `names`, ordered by their names.
pub fn ordered_indices(names: &Vec<Vec<char>>) -> (order: Vec<usize>)
    ensures
        as_ints(order@) == name_order(names.deep_view()),
        order.len() == names.len(),
        forall|k: int| 0 <= k < order.len() ==> #[trigger] order[k] < names.len(),
{
    let ghost all = names.deep_view();
    let mut order: Vec<usize> = Vec::new();
    let mut i: usize = 0;
    assert(as_ints(order@) =~= ordered_prefix(all, 0));
    while i < names.len()
        invariant
            i <= names.len(),
            all == names.deep_view(),
            order.len() == i,
            as_ints(order@) == ordered_prefix(all, i as nat),
            forall|k: int| 0 <= k < order.len() ==> #[trigger] order[k] < i,
        decreases names.len() - i,
    {
        let mut j: usize = order.len();
        let mut searching = true;
        while searching
            invariant
                j <= order.len(),
                i < names.len(),
                all == names.deep_view(),
                forall|k: int| 0 <= k < order.len() ==> #[trigger] order[k] < i,
                forall|t: int|
                    j <= t < order.len() ==> precedes(
                        all[i as int],
                        all[#[trigger] as_ints(order@)[t]],
                    ),
                !searching ==> (j == 0 || !precedes(all[i as int], all[as_ints(order@)[j - 1]])),
            decreases j + (if searching { 1int } else { 0int }),
        {
            if j == 0 {
                searching = false;
            } else {
                let prev = order[j - 1];
                assert(as_ints(order@)[j - 1] == prev);
                assert(all[prev as int] == names[prev as int]@);
                assert(all[i as int] == names[i as int]@);
                if chars_precede(&names[i], &names[prev]) {
                    j -= 1;
                } else {
                    searching = false;
                }
            }
        }
        proof {
            lemma_with_index_at(all, as_ints(order@), i as int, j as int);
            assert(as_ints(order@.insert(j as int, i)) =~= as_ints(order@).insert(j as int, i as int));
        }
        order.insert(j, i);
        i += 1;
    }
    proof {
        lemma_name_order_in_range(all);
    }
    order
}

/// The value of the first entry at or behind `start` that is named `name`.
pub open spec fn value_from<T>(entries: Seq<(Seq<char>, T)>, name: Seq<char>, start: int) -> Option<
    T,
>
    decreases entries.len() - start,
{
    if start < 0 || start >= entries.len() {
        None
    } else if entries[start].0 == name {
        Some(entries[start].1)
    } else {
        value_from(entries, name, start + 1)
    }
}

/// The value of the first entry named `name`.
pub open spec fn value_of<T>(entries: Seq<(Seq<char>, T)>, name: Seq<char>) -> Option<T> {
    value_from(entries, name, 0)
}

/// A value is found exactly where an entry has the name.
pub proof fn lemma_value_from<T>(entries: Seq<(Seq<char>, T)>, name: Seq<char>, start: int)
    requires
        0 <= start,
    ensures
        value_from(entries, name, start) is Some <==> exists|i: int|
            start <= i < entries.len() && (#[trigger] entries[i]).0 == name,
    decreases entries.len() - start,
{
    if start < entries.len() {
        if entries[start].0 != name {
            lemma_value_from(entries, name, start + 1);
            if exists|i: int| start <= i < entries.len() && (#[trigger] entries[i]).0 == name {
                let i = choose|i: int| start <= i < entries.len() && (#[trigger] entries[i]).0 == name;
                assert(start + 1 <= i);
            }
        }
    }
}

/// The first of `entries` that has the name `name`.
pub fn get_named<'a, T: DeepView>(entries: &'a Vec<(String, T)>, name: &str) -> (found: Option<
    &'a T,
>)
    ensures
        found.deep_view() == value_of(entries.deep_view(), name@),
{
    let ghost all = entries.deep_view();
    let wanted = chars_of(name);
    let mut i: usize = 0;
    while i < entries.len()
        invariant
            i <= entries.len(),
            wanted@ == name@,
            all == entries.deep_view(),
            value_of(all, name@) == value_from(all, name@, i as int),
        decreases entries.len() - i,
    {
        let own = chars_of(entries[i].0.as_str());
        assert(all[i as int] == (entries[i as int].0@, entries[i as int].1.deep_view()));
        if same_chars(&own, &wanted) {
            return Some(&entries[i].1);
        }
        i += 1;
    }
    None
}

/// Whether one of `entries` has the name `name`.
pub fn contains_name<T: DeepView>(entries: &Vec<(String, T)>, name: &str) -> (found: bool)
    ensures
        found == names_of(entries.deep_view()).contains(name@),
{
    let held = get_named(entries, name);
    proof {
        let all = entries.deep_view();
        lemma_value_from(all, name@, 0);
        if names_of(all).contains(name@) {
            let i = choose|i: int| 0 <= i < names_of(all).len() && names_of(all)[i] == name@;
            assert(all[i].0 == name@);
        }
        if exists|i: int| 0 <= i < all.len() && (#[trigger] all[i]).0 == name@ {
            let i = choose|i: int| 0 <= i < all.len() && (#[trigger] all[i]).0 == name@;
            assert(names_of(all)[i] == name@);
        }
    }
    held.is_some()
}

/// The indices of `entries`, ordered by the entries' names.
pub fn name_order_of<T: DeepView>(entries: &Vec<(String, T)>) -> (order: Vec<usize>)
    ensures
        as_ints(order@) == name_order(names_of(entries.deep_view())),
        order.len() == entries.len(),
        forall|k: int| 0 <= k < order.len() ==> #[trigger] order[k] < entries.len(),
        forall|k: int|
            0 <= k < order.len() ==> by_name(entries.deep_view())[k]
                == #[trigger] entries.deep_view()[order[k] as int],
{
    let mut names: Vec<Vec<char>> = Vec::new();
    let mut i: usize = 0;
    while i < entries.len()
        invariant
            i <= entries.len(),
            names.len() == i,
            forall|k: int| 0 <= k < i ==> (#[trigger] names[k])@ == entries[k].0@,
        decreases entries.len() - i,
    {
        names.push(chars_of(entries[i].0.as_str()));
        i += 1;
    }
    assert(names.deep_view() =~= names_of(entries.deep_view())) by {
        assert forall|k: int| 0 <= k < names.len() implies names.deep_view()[k] == names_of(
            entries.deep_view(),
        )[k] by {
            assert(names[k].deep_view() =~= names[k]@);
        }
    }
    let order = ordered_indices(&names);
    assert forall|k: int| 0 <= k < order.len() implies by_name(entries.deep_view())[k]
        == #[trigger] entries.deep_view()[order[k] as int] by {
        assert(as_ints(order@)[k] == order[k] as int);
    }
    order
}

/// The first position that holds an identifier which also stands before it.
pub open spec fn first_repeat(idents: Seq<Seq<char>>) -> Option<int>
    decreases idents.len(),
{
    if idents.len() == 0 {
        None
    } else {
        match first_repeat(idents.drop_last()) {
            Some(k) => Some(k),
            None => if idents.drop_last().contains(idents.last()) {
                Some(idents.len() - 1)
            } else {
                None
            },
        }
    }
}

/// A repeat that is found in a front part of a list is the first repeat of
/// the whole list.
pub proof fn lemma_first_repeat_stays(idents: Seq<Seq<char>>, n: int)
    requires
        0 <= n <= idents.len(),
        first_repeat(idents.take(n)) is Some,
    ensures
        first_repeat(idents) == first_repeat(idents.take(n)),
    decreases idents.len() - n,
{
    if n < idents.len() {
        assert(idents.take(n + 1).drop_last() == idents.take(n));
        lemma_first_repeat_stays(idents, n + 1);
    } else {
        assert(idents.take(n) == idents);
    }
}

/// The first position that holds an identifier which also stands before it.
pub fn find_repeat(idents: &Vec<String>) -> (found: Option<usize>)
    ensures
        match found {
            Some(k) => first_repeat(idents.deep_view()) == Some(k as int) && k < idents.len(),
            None => first_repeat(idents.deep_view()) is None,
        },
{
    let ghost all = idents.deep_view();
    let mut j: usize = 0;
    assert(all.take(0) =~= Seq::<Seq<char>>::empty());
    while j < idents.len()
        invariant
            j <= idents.len(),
            all == idents.deep_view(),
            first_repeat(all.take(j as int)) is None,
        decreases idents.len() - j,
    {
        let ghost front = all.take(j as int);
        let mut i: usize = 0;
        let mut seen = false;
        while i < j && !seen
            invariant
                i <= j,
                j < idents.len(),
                all == idents.deep_view(),
                front == all.take(j as int),
                !seen ==> forall|k: int| 0 <= k < i ==> front[k] != all[j as int],
                seen ==> front.contains(all[j as int]),
            decreases j - i + (if seen { 0int } else { 1int }),
        {
            assert(all[i as int] == idents[i as int]@);
            assert(all[j as int] == idents[j as int]@);
            if same_text(idents[i].as_str(), idents[j].as_str()) {
                assert(front[i as int] == all[j as int]);
                seen = true;
            } else {
                i += 1;
            }
        }
        assert(all.take(j + 1).drop_last() == front);
        assert(all.take(j + 1).last() == all[j as int]);
        if seen {
            proof {
                lemma_first_repeat_stays(all, j + 1);
            }
            return Some(j);
        }
        j += 1;
    }
    assert(all.take(idents.len() as int) == all);
    None
}

/// Whether no index of `order` stands behind an index whose name comes after
/// its own.
pub open spec fn in_order(names: Seq<Seq<char>>, order: Seq<int>) -> bool {
    forall|a: int, b: int|
        0 <= a < b < order.len() ==> !precedes(names[#[trigger] order[b]], names[#[trigger] order[a]])
}

/// Putting an index in keeps the indices in the order of their names.
pub proof fn lemma_with_index_in_order(names: Seq<Seq<char>>, order: Seq<int>, i: int)
    requires
        in_order(names, order),
    ensures
        in_order(names, with_index(names, order, i)),
    decreases order.len(),
{
    let out = with_index(names, order, i);
    if order.len() == 0 {
    } else if precedes(names[i], names[order.last()]) {
        let front = order.drop_last();
        let inner = with_index(names, front, i);
        assert(in_order(names, front)) by {
            assert forall|a: int, b: int| 0 <= a < b < front.len() implies !precedes(
                names[#[trigger] front[b]],
                names[#[trigger] front[a]],
            ) by {
                assert(front[a] == order[a] && front[b] == order[b]);
            }
        }
        lemma_with_index_in_order(names, front, i);
        lemma_with_index_len(names, front, i);
        assert forall|a: int, b: int| 0 <= a < b < out.len() implies !precedes(
            names[#[trigger] out[b]],
            names[#[trigger] out[a]],
        ) by {
            if b < inner.len() {
                assert(out[a] == inner[a] && out[b] == inner[b]);
            } else {
                assert(out[b] == order.last());
                assert(out[a] == inner[a]);
                lemma_with_index_members(names, front, i, inner[a]);
                assert(inner.contains(inner[a]));
                if inner[a] == i {
                    if precedes(names[order.last()], names[i]) {
                        lemma_precedes_transitive(names[i], names[order.last()], names[i]);
                        lemma_precedes_irreflexive(names[i]);
                    }
                } else {
                    let t = choose|t: int| 0 <= t < front.len() && front[t] == inner[a];
                    assert(order[t] == inner[a]);
                    assert(order[order.len() - 1] == order.last());
                }
            }
        }
    } else {
        assert forall|a: int, b: int| 0 <= a < b < out.len() implies !precedes(
            names[#[trigger] out[b]],
            names[#[trigger] out[a]],
        ) by {
            if b < order.len() {
                assert(out[a] == order[a] && out[b] == order[b]);
            } else {
                assert(out[b] == i);
                assert(out[a] == order[a]);
                if a < order.len() - 1 {
                    assert(order[order.len() - 1] == order.last());
                    lemma_not_precedes_transitive(names[i], names[order.last()], names[order[a]]);
                }
            }
        }
    }
}

/// The ordered prefix is in the order of the names.
pub proof fn lemma_ordered_prefix_in_order(names: Seq<Seq<char>>, n: nat)
    ensures
        in_order(names, ordered_prefix(names, n)),
    decreases n,
{
    if n > 0 {
        lemma_ordered_prefix_in_order(names, (n - 1) as nat);
        lemma_with_index_in_order(names, ordered_prefix(names, (n - 1) as nat), n - 1);
    }
}

/// Whether every entry stands before the entries whose names come after its
/// own, and no two entries have one name.
pub open spec fn rising<T>(entries: Seq<(Seq<char>, T)>) -> bool {
    forall|a: int, b: int|
        0 <= a < b < entries.len() ==> precedes((#[trigger] entries[a]).0, (#[trigger] entries[b]).0)
}

/// Entries with different names, put in the order of their names, rise.
pub proof fn lemma_by_name_rises<T>(entries: Seq<(Seq<char>, T)>)
    requires
        names_of(entries).no_duplicates(),
    ensures
        rising(by_name(entries)),
{
    let names = names_of(entries);
    let order = name_order(names);
    let sorted = by_name(entries);
    lemma_ordered_prefix_is_arrangement(names, names.len());
    lemma_ordered_prefix_in_order(names, names.len());
    lemma_name_order_in_range(names);
    assert forall|a: int, b: int| 0 <= a < b < sorted.len() implies precedes(
        (#[trigger] sorted[a]).0,
        (#[trigger] sorted[b]).0,
    ) by {
        assert(order[a] != order[b]);
        assert(sorted[a].0 == names[order[a]]);
        assert(sorted[b].0 == names[order[b]]);
        assert(names[order[a]] != names[order[b]]);
        assert(!precedes(names[order[b]], names[order[a]]));
        lemma_precedes_total(names[order[a]], names[order[b]]);
    }
}

/// Two rising lists that hold the same entries are one list.
pub proof fn lemma_rising_is_unique<T>(s: Seq<(Seq<char>, T)>, t: Seq<(Seq<char>, T)>)
    requires
        rising(s),
        rising(t),
        forall|e: (Seq<char>, T)| s.contains(e) <==> t.contains(e),
    ensures
        s == t,
    decreases s.len(),
{
    if s.len() == 0 {
        if t.len() > 0 {
            assert(t.contains(t[0]));
        }
        assert(s =~= t);
    } else {
        let m = s.last();
        assert(s.contains(m));
        assert(t.contains(m));
        let q = choose|q: int| 0 <= q < t.len() && t[q] == m;
        if q < t.len() - 1 {
            let u = t.last();
            assert(precedes(t[q].0, t[t.len() - 1].0));
            assert(t.contains(u));
            let p = choose|p: int| 0 <= p < s.len() && s[p] == u;
            if p < s.len() - 1 {
                assert(precedes(s[p].0, s[s.len() - 1].0));
                lemma_precedes_transitive(m.0, u.0, m.0);
            }
            lemma_precedes_irreflexive(m.0);
        }
        let s1 = s.drop_last();
        let t1 = t.drop_last();
        assert forall|e: (Seq<char>, T)| s1.contains(e) <==> t1.contains(e) by {
            if s1.contains(e) {
                let p = choose|p: int| 0 <= p < s1.len() && s1[p] == e;
                assert(s[p] == e);
                assert(s.contains(e));
                let r = choose|r: int| 0 <= r < t.len() && t[r] == e;
                if r == t.len() - 1 {
                    assert(precedes(s[p].0, s[s.len() - 1].0));
                    lemma_precedes_irreflexive(m.0);
                }
                assert(t1[r] == e);
            }
            if t1.contains(e) {
                let r = choose|r: int| 0 <= r < t1.len() && t1[r] == e;
                assert(t[r] == e);
                assert(t.contains(e));
                let p = choose|p: int| 0 <= p < s.len() && s[p] == e;
                if p == s.len() - 1 {
                    assert(precedes(t[r].0, t[t.len() - 1].0));
                    lemma_precedes_irreflexive(m.0);
                }
                assert(s1[p] == e);
            }
        }
        assert(rising(s1)) by {
            assert forall|a: int, b: int| 0 <= a < b < s1.len() implies precedes(
                (#[trigger] s1[a]).0,
                (#[trigger] s1[b]).0,
            ) by {
                assert(s1[a] == s[a] && s1[b] == s[b]);
            }
        }
        assert(rising(t1)) by {
            assert forall|a: int, b: int| 0 <= a < b < t1.len() implies precedes(
                (#[trigger] t1[a]).0,
                (#[trigger] t1[b]).0,
            ) by {
                assert(t1[a] == t[a] && t1[b] == t[b]);
            }
        }
        lemma_rising_is_unique(s1, t1);
        assert(s =~= s1.push(m));
        assert(t =~= t1.push(m));
    }
}

/// The order in which entries are given does not matter: two lists that hold
/// the same entries, each name once, are one list when they are put in the
/// order of their names.
pub proof fn law_given_order_is_immaterial<T>(
    first: Seq<(Seq<char>, T)>,
    second: Seq<(Seq<char>, T)>,
)
    requires
        names_of(first).no_duplicates(),
        names_of(second).no_duplicates(),
        forall|e: (Seq<char>, T)| first.contains(e) <==> second.contains(e),
    ensures
        by_name(first) == by_name(second),
{
    lemma_by_name_rises(first);
    lemma_by_name_rises(second);
    let s = by_name(first);
    let t = by_name(second);
    lemma_by_name_holds_the_same(first);
    lemma_by_name_holds_the_same(second);
    assert forall|e: (Seq<char>, T)| s.contains(e) <==> t.contains(e) by {
        assert(s.contains(e) <==> first.contains(e));
        assert(first.contains(e) <==> second.contains(e));
        assert(t.contains(e) <==> second.contains(e));
    }
    lemma_rising_is_unique(s, t);
}

/// Putting entries in the order of their names neither adds nor drops an
/// entry.
pub proof fn lemma_by_name_holds_the_same<T>(entries: Seq<(Seq<char>, T)>)
    ensures
        by_name(entries).len() == entries.len(),
        forall|e: (Seq<char>, T)| by_name(entries).contains(e) <==> entries.contains(e),
{
    let names = names_of(entries);
    let order = name_order(names);
    let sorted = by_name(entries);
    lemma_ordered_prefix_is_arrangement(names, names.len());
    lemma_name_order_in_range(names);
    assert forall|e: (Seq<char>, T)| sorted.contains(e) <==> entries.contains(e) by {
        if sorted.contains(e) {
            let k = choose|k: int| 0 <= k < sorted.len() && sorted[k] == e;
            assert(entries[order[k]] == e);
        }
        if entries.contains(e) {
            let i = choose|i: int| 0 <= i < entries.len() && entries[i] == e;
            assert(order.contains(i));
            let k = choose|k: int| 0 <= k < order.len() && order[k] == i;
            assert(sorted[k] == e);
        }
    }
}

/// A repeat is found exactly where two positions hold one identifier, and
/// what is found is the first position whose identifier stands before it.
pub proof fn lemma_first_repeat(idents: Seq<Seq<char>>)
    ensures
        first_repeat(idents) is Some <==> exists|a: int, b: int|
            0 <= a < b < idents.len() && idents[a] == idents[b],
        first_repeat(idents) matches Some(k) ==> 0 <= k < idents.len() && idents.take(k).contains(
            idents[k],
        ),
    decreases idents.len(),
{
    if idents.len() > 0 {
        let front = idents.drop_last();
        let last = idents.len() - 1;
        lemma_first_repeat(front);
        match first_repeat(front) {
            Some(k) => {
                assert(front.take(k) == idents.take(k));
                let (a, b) = choose|a: int, b: int| 0 <= a < b < front.len() && front[a] == front[b];
                assert(idents[a] == idents[b]);
            },
            None => {
                if front.contains(idents.last()) {
                    let a = choose|a: int| 0 <= a < front.len() && front[a] == idents.last();
                    assert(idents[a] == idents[last]);
                    assert(idents.take(last) == front);
                } else {
                    if exists|a: int, b: int| 0 <= a < b < idents.len() && idents[a] == idents[b] {
                        let (a, b) = choose|a: int, b: int|
                            0 <= a < b < idents.len() && idents[a] == idents[b];
                        if b < last {
                            assert(front[a] == front[b]);
                        } else {
                            assert(front[a] == idents.last());
                        }
                    }
                }
            },
        }
    }
}

} // verus!
