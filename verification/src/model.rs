//! Small mathematical helpers shared by the data models.
use vstd::prelude::*;

verus! {

/// The sequence of the elements' views.
pub open spec fn views<T: View>(items: Seq<T>) -> Seq<T::V> {
    Seq::new(items.len(), |i: int| items[i]@)
}

/// `index`, or `len` where `index` lies beyond it: where an insertion lands.
pub open spec fn insert_position(index: int, len: int) -> int {
    if index < len {
        index
    } else {
        len
    }
}

/// The sequence with the element at `from` taken out and put back at `to`.
pub open spec fn moved<T>(items: Seq<T>, from: int, to: int) -> Seq<T> {
    items.remove(from).insert(to, items[from])
}

/// The element at `index`, to be changed in place.
pub fn nth_mut<T: View>(items: &mut Vec<T>, index: usize) -> (item: Option<&mut T>)
    ensures
        match item {
            Some(item) => index < old(items)@.len() && *item == old(items)@[index as int] && final(items)@ == old(
                items,
            )@.update(index as int, *final(item)) && views(final(items)@) == views(old(items)@).update(
                index as int,
                final(item)@,
            ),
            None => index >= old(items)@.len() && *final(items) == *old(items),
        },
{
    if index < items.len() {
        Some(&mut items[index])
    } else {
        None
    }
}

/// The sum of `f` over the items.
pub open spec fn tally<T>(items: Seq<T>, f: spec_fn(T) -> int) -> int
    decreases items.len(),
{
    if items.len() == 0 {
        0
    } else {
        tally(items.drop_last(), f) + f(items.last())
    }
}

/// Putting an item in adds what it counts for.
pub proof fn tally_insert<T>(items: Seq<T>, f: spec_fn(T) -> int, i: int, item: T)
    requires
        0 <= i <= items.len(),
    ensures
        tally(items.insert(i, item), f) == tally(items, f) + f(item),
    decreases items.len(),
{
    let more = items.insert(i, item);
    if i == items.len() {
        assert(more.drop_last() =~= items);
    } else {
        assert(more.drop_last() =~= items.drop_last().insert(i, item));
        assert(more.last() == items.last());
        tally_insert(items.drop_last(), f, i, item);
    }
}

/// Taking an item out takes away what it counts for.
pub proof fn tally_remove<T>(items: Seq<T>, f: spec_fn(T) -> int, i: int)
    requires
        0 <= i < items.len(),
    ensures
        tally(items.remove(i), f) == tally(items, f) - f(items[i]),
{
    assert(items.remove(i).insert(i, items[i]) =~= items);
    tally_insert(items.remove(i), f, i, items[i]);
}

/// Replacing an item replaces what it counts for.
pub proof fn tally_update<T>(items: Seq<T>, f: spec_fn(T) -> int, i: int, item: T)
    requires
        0 <= i < items.len(),
    ensures
        tally(items.update(i, item), f) == tally(items, f) - f(items[i]) + f(item),
{
    assert(items.update(i, item) =~= items.remove(i).insert(i, item));
    tally_remove(items, f, i);
    tally_insert(items.remove(i), f, i, item);
}

/// The sum over two runs is the sum of the sums.
pub proof fn tally_concat<T>(a: Seq<T>, b: Seq<T>, f: spec_fn(T) -> int)
    ensures
        tally(a + b, f) == tally(a, f) + tally(b, f),
    decreases b.len(),
{
    if b.len() == 0 {
        assert(a + b =~= a);
    } else {
        assert((a + b).drop_last() =~= a + b.drop_last());
        tally_concat(a, b.drop_last(), f);
    }
}

/// Items that count for the same sum up to the same.
pub proof fn tally_same<T>(a: Seq<T>, b: Seq<T>, f: spec_fn(T) -> int)
    requires
        a.len() == b.len(),
        forall|i: int| 0 <= i < a.len() ==> f(#[trigger] a[i]) == f(b[i]),
    ensures
        tally(a, f) == tally(b, f),
    decreases a.len(),
{
    if a.len() > 0 {
        assert forall|i: int| 0 <= i < a.drop_last().len() implies f(#[trigger] a.drop_last()[i]) == f(
            b.drop_last()[i],
        ) by {
            assert(a.drop_last()[i] == a[i] && b.drop_last()[i] == b[i]);
        }
        tally_same(a.drop_last(), b.drop_last(), f);
        assert(a.last() == a[a.len() - 1] && b.last() == b[b.len() - 1]);
    }
}

} // verus!
