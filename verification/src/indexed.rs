//! Values by index, in ascending order of their indices.

use vstd::prelude::*;

verus! {

/// The list with the value at the index.
pub open spec fn put<V>(list: Seq<(u64, V)>, index: u64, v: V) -> Seq<(u64, V)>
    decreases list.len(),
{
    if list.len() == 0 || list.last().0 < index {
        list.push((index, v))
    } else if list.last().0 == index {
        list.drop_last().push((index, v))
    } else {
        put(list.drop_last(), index, v).push(list.last())
    }
}

/// The value at the index.
pub open spec fn at<V>(list: Seq<(u64, V)>, index: u64) -> Option<V>
    decreases list.len(),
{
    if list.len() == 0 {
        None
    } else if list.last().0 == index {
        Some(list.last().1)
    } else {
        at(list.drop_last(), index)
    }
}

/// The list without the value at the index.
pub open spec fn without<V>(list: Seq<(u64, V)>, index: u64) -> Seq<(u64, V)>
    decreases list.len(),
{
    if list.len() == 0 {
        list
    } else if list.last().0 == index {
        list.drop_last()
    } else {
        without(list.drop_last(), index).push(list.last())
    }
}

/// The indices ascend, and none occurs twice.
pub open spec fn ascending<V>(list: Seq<(u64, V)>) -> bool {
    forall|i: int, j: int|
        0 <= i < j < list.len() ==> (#[trigger] list[i]).0 < (#[trigger] list[j]).0
}

proof fn lemma_put_bounds<V>(list: Seq<(u64, V)>, index: u64, v: V)
    requires
        ascending(list),
    ensures
        ascending(put(list, index, v)),
        put(list, index, v).len() > 0,
        put(list, index, v).last().0 == (if list.len() > 0 && list.last().0 > index {
            list.last().0
        } else {
            index
        }),
    decreases list.len(),
{
    if list.len() > 0 && list.last().0 > index {
        let less = list.drop_last();
        lemma_put_bounds(less, index, v);
        if less.len() > 0 {
            assert(list[list.len() - 2].0 < list[list.len() - 1].0);
        }
    }
}

/// Putting a value at an index keeps the order, gives that value at that index, and leaves the
/// others as they were.
pub proof fn law_put<V>(list: Seq<(u64, V)>, index: u64, v: V, other: u64)
    requires
        ascending(list),
    ensures
        ascending(put(list, index, v)),
        at(put(list, index, v), index) == Some(v),
        other != index ==> at(put(list, index, v), other) == at(list, other),
    decreases list.len(),
{
    lemma_put_bounds(list, index, v);
    let r = put(list, index, v);
    if list.len() == 0 || list.last().0 < index {
        assert(r.drop_last() =~= list);
    } else if list.last().0 == index {
        assert(r.drop_last() =~= list.drop_last());
    } else {
        law_put(list.drop_last(), index, v, other);
        assert(r.drop_last() =~= put(list.drop_last(), index, v));
    }
}

/// Taking a value away keeps the order, and leaves the others as they were.
pub proof fn law_without<V>(list: Seq<(u64, V)>, index: u64, other: u64)
    requires
        ascending(list),
    ensures
        ascending(without(list, index)),
        at(without(list, index), index) is None,
        other != index ==> at(without(list, index), other) == at(list, other),
        without(list, index).len() > 0 ==> list.len() > 0 && without(list, index).last().0
            <= list.last().0,
    decreases list.len(),
{
    if list.len() > 0 {
        let less = list.drop_last();
        law_without(less, index, other);
        let r = without(list, index);
        if list.last().0 == index {
            lemma_absent(less, index);
            if less.len() > 0 {
                assert(list[list.len() - 2].0 < list[list.len() - 1].0);
            }
        } else {
            assert(r.drop_last() =~= without(less, index));
            if less.len() > 0 {
                assert(list[list.len() - 2].0 < list[list.len() - 1].0);
            }
        }
    }
}

proof fn lemma_absent<V>(list: Seq<(u64, V)>, index: u64)
    requires
        forall|i: int| 0 <= i < list.len() ==> (#[trigger] list[i]).0 < index,
    ensures
        at(list, index) is None,
    decreases list.len(),
{
    if list.len() > 0 {
        let less = list.drop_last();
        assert(list[list.len() - 1].0 < index);
        assert forall|i: int| 0 <= i < less.len() implies (#[trigger] less[i]).0 < index by {
            assert(list[i].0 < index);
        }
        lemma_absent(less, index);
    }
}

proof fn lemma_put_insert<V>(list: Seq<(u64, V)>, index: u64, v: V, i: int)
    requires
        0 <= i <= list.len(),
        i > 0 ==> list[i - 1].0 < index,
        forall|j: int| i <= j < list.len() ==> (#[trigger] list[j]).0 > index,
    ensures
        put(list, index, v) == list.insert(i, (index, v)),
    decreases list.len(),
{
    if i < list.len() {
        assert(list[list.len() - 1].0 > index);
        lemma_put_insert(list.drop_last(), index, v, i);
        assert(list.drop_last().insert(i, (index, v)).push(list.last()) =~= list.insert(
            i,
            (index, v),
        ));
    } else {
        assert(list.insert(i, (index, v)) =~= list.push((index, v)));
    }
}

proof fn lemma_put_update<V>(list: Seq<(u64, V)>, index: u64, v: V, i: int)
    requires
        0 <= i < list.len(),
        list[i].0 == index,
        forall|j: int| i < j < list.len() ==> (#[trigger] list[j]).0 > index,
    ensures
        put(list, index, v) == list.update(i, (index, v)),
    decreases list.len(),
{
    if i < list.len() - 1 {
        assert(list[list.len() - 1].0 > index);
        lemma_put_update(list.drop_last(), index, v, i);
        assert(list.drop_last().update(i, (index, v)).push(list.last()) =~= list.update(
            i,
            (index, v),
        ));
    } else {
        assert(list.update(i, (index, v)) =~= list.drop_last().push((index, v)));
    }
}

proof fn lemma_at<V>(list: Seq<(u64, V)>, index: u64, i: int)
    requires
        0 <= i <= list.len(),
        i < list.len() ==> list[i].0 == index,
        forall|j: int| i < j < list.len() ==> (#[trigger] list[j]).0 != index,
        i == list.len() ==> forall|j: int| 0 <= j < list.len() ==> (#[trigger] list[j]).0 != index,
    ensures
        at(list, index) == (if i < list.len() {
            Some(list[i].1)
        } else {
            None
        }),
        without(list, index) == (if i < list.len() {
            list.remove(i)
        } else {
            list
        }),
    decreases list.len(),
{
    if list.len() > 0 {
        let less = list.drop_last();
        let n = list.len() - 1;
        if list[n].0 == index {
            assert(i == n);
            assert(list.remove(i) =~= less);
        } else if i < list.len() {
            lemma_at(less, index, i);
            assert(less.remove(i).push(list.last()) =~= list.remove(i));
        } else {
            assert(list[n].0 != index);
            assert forall|j: int| 0 <= j < less.len() implies (#[trigger] less[j]).0 != index by {
                assert(list[j].0 != index);
            }
            lemma_at(less, index, n);
            assert(less.push(list.last()) =~= list);
        }
    }
}

/// Values by index.
pub struct IndexMap<V> {
    entries: Vec<(u64, V)>,
}

impl<V: View> View for IndexMap<V> {
    type V = Seq<(u64, V::V)>;

    closed spec fn view(&self) -> Seq<(u64, V::V)> {
        self.entries@.map_values(|e: (u64, V)| (e.0, e.1@))
    }
}

impl<V: View> IndexMap<V> {
    /// No values.
    pub fn new() -> (r: IndexMap<V>)
        ensures
            r@ == Seq::<(u64, V::V)>::empty(),
    {
        let r = IndexMap { entries: Vec::new() };
        assert(r@ =~= Seq::<(u64, V::V)>::empty());
        r
    }

    /// How many values there are.
    pub fn len(&self) -> (r: usize)
        ensures
            r == self@.len(),
    {
        self.entries.len()
    }

    /// The `i`th value, in the order of the indices.
    pub fn nth(&self, i: usize) -> (r: &V)
        requires
            i < self@.len(),
        ensures
            r@ == self@[i as int].1,
    {
        &self.entries[i].1
    }

    /// Where the index stands, counted from the end; or the length.
    fn position(&self, index: u64) -> (r: usize)
        ensures
            r <= self@.len(),
            r < self@.len() ==> self@[r as int].0 == index,
            forall|j: int| r < j < self@.len() ==> (#[trigger] self@[j]).0 != index,
            r == self@.len() ==> forall|j: int|
                0 <= j < self@.len() ==> (#[trigger] self@[j]).0 != index,
    {
        let n: usize = self.entries.len();
        let mut i: usize = n;
        while i > 0
            invariant
                i <= n == self.entries@.len(),
                forall|j: int| i <= j < self@.len() ==> (#[trigger] self@[j]).0 != index,
            decreases i,
        {
            i -= 1;
            if self.entries[i].0 == index {
                return i;
            }
        }
        n
    }

    /// The value at the index.
    pub fn get(&self, index: u64) -> (r: Option<&V>)
        ensures
            match r {
                Some(v) => at(self@, index) == Some(v@),
                None => at(self@, index) is None,
            },
    {
        let i: usize = self.position(index);
        proof {
            lemma_at(self@, index, i as int);
        }
        if i < self.entries.len() {
            Some(&self.entries[i].1)
        } else {
            None
        }
    }

    /// Puts a value at the index.
    pub fn put(&mut self, index: u64, v: V)
        ensures
            final(self)@ == put(old(self)@, index, v@),
    {
        let ghost before = self@;
        let mut i: usize = self.entries.len();
        while i > 0 && self.entries[i - 1].0 > index
            invariant
                i <= self.entries@.len(),
                before == self@,
                forall|j: int| i <= j < before.len() ==> (#[trigger] before[j]).0 > index,
            decreases i,
        {
            i -= 1;
        }
        if i > 0 && self.entries[i - 1].0 == index {
            proof {
                assert(before[i - 1].0 == index);
                lemma_put_update(before, index, v@, i - 1);
            }
            self.entries.set(i - 1, (index, v));
            assert(self@ =~= before.update(i - 1, (index, v@)));
        } else {
            proof {
                if i > 0 {
                    assert(before[i - 1].0 == self.entries@[i - 1].0);
                }
                lemma_put_insert(before, index, v@, i as int);
            }
            self.entries.insert(i, (index, v));
            assert(self@ =~= before.insert(i as int, (index, v@)));
        }
    }

    /// Takes the value at the index away.
    pub fn take(&mut self, index: u64) -> (r: Option<V>)
        ensures
            final(self)@ == without(old(self)@, index),
            match r {
                Some(v) => at(old(self)@, index) == Some(v@),
                None => at(old(self)@, index) is None,
            },
    {
        let ghost before = self@;
        let i: usize = self.position(index);
        proof {
            lemma_at(before, index, i as int);
        }
        if i < self.entries.len() {
            let e = self.entries.remove(i);
            assert(self@ =~= before.remove(i as int));
            Some(e.1)
        } else {
            None
        }
    }
}

} // verus!
