//! Names with numbers, in the order in which they came in.
use indexmap::IndexMap;
use std::hash::RandomState;
use vstd::prelude::*;

verus! {

/// A map that keeps the order in which its keys came in.
#[verifier::external_type_specification]
#[verifier::external_body]
#[verifier::reject_recursive_types(K)]
#[verifier::reject_recursive_types(V)]
#[verifier::reject_recursive_types(S)]
pub struct ExIndexMap<K, V, S>(IndexMap<K, V, S>);

/// The keys and values of a map, in order.
pub uninterp spec fn index_entries(m: IndexMap<String, usize, RandomState>) -> Seq<
    (Seq<char>, usize),
>;

/// Whether a name stands at a place.
pub open spec fn stands(entries: Seq<(Seq<char>, usize)>, name: Seq<char>, i: int) -> bool {
    0 <= i < entries.len() && entries[i].0 == name
}

/// Entries without the one at a place, which the last one takes.
pub open spec fn swap_removed(entries: Seq<(Seq<char>, usize)>, i: int) -> Seq<
    (Seq<char>, usize),
> {
    entries.update(i, entries.last()).drop_last()
}

/// `indexmap::IndexMap::with_capacity`: the map holds nothing.
#[verifier::external_body]
fn index_with_capacity(n: usize) -> (m: IndexMap<String, usize, RandomState>)
    ensures
        index_entries(m) == Seq::<(Seq<char>, usize)>::empty(),
{
    IndexMap::with_capacity(n)
}

/// `indexmap::IndexMap::insert`: a new key comes last; for a key that is there,
/// the value is replaced and returned.
#[verifier::external_body]
fn index_insert(m: &mut IndexMap<String, usize, RandomState>, key: String, value: usize) -> (r:
    Option<usize>)
    ensures
        match r {
            None => {
                &&& forall|i: int| !#[trigger] stands(index_entries(*old(m)), key@, i)
                &&& index_entries(*final(m)) == index_entries(*old(m)).push((key@, value))
            },
            Some(before) => exists|i: int| #[trigger]
                stands(index_entries(*old(m)), key@, i) && index_entries(*old(m))[i].1 == before
                    && index_entries(*final(m)) == index_entries(*old(m)).update(i, (key@, value)),
        },
{
    m.insert(key, value)
}

/// `indexmap::IndexMap::get`: the value of a key.
#[verifier::external_body]
fn index_get(m: &IndexMap<String, usize, RandomState>, key: &str) -> (r: Option<usize>)
    ensures
        match r {
            Some(value) => exists|i: int| #[trigger]
                stands(index_entries(*m), key@, i) && index_entries(*m)[i].1 == value,
            None => forall|i: int| !#[trigger] stands(index_entries(*m), key@, i),
        },
{
    m.get(key).copied()
}

/// `indexmap::IndexMap::swap_remove`: the entry of a key is taken out, and the
/// last entry takes its place.
#[verifier::external_body]
fn index_swap_remove(m: &mut IndexMap<String, usize, RandomState>, key: &str) -> (r: Option<usize>)
    ensures
        match r {
            Some(value) => exists|i: int| #[trigger]
                stands(index_entries(*old(m)), key@, i) && index_entries(*old(m))[i].1 == value
                    && index_entries(*final(m)) == swap_removed(index_entries(*old(m)), i),
            None => (forall|i: int| !#[trigger] stands(index_entries(*old(m)), key@, i))
                && index_entries(*final(m)) == index_entries(*old(m)),
        },
{
    m.swap_remove(key)
}

/// `indexmap::IndexMap::len`: how many keys there are.
#[verifier::external_body]
fn index_len(m: &IndexMap<String, usize, RandomState>) -> (r: usize)
    ensures
        r == index_entries(*m).len(),
{
    m.len()
}

/// Names, each with a number.
pub struct Names {
    m: IndexMap<String, usize, RandomState>,
}

/// Whether no name occurs twice.
pub open spec fn no_twins(entries: Seq<(Seq<char>, usize)>) -> bool {
    forall|i: int, j: int|
        0 <= i < j < entries.len() ==> (#[trigger] entries[i]).0 != (#[trigger] entries[j]).0
}

/// The number of each name.
pub open spec fn numbers(entries: Seq<(Seq<char>, usize)>) -> Map<Seq<char>, usize> {
    Map::new(
        |name: Seq<char>| exists|i: int| #[trigger] stands(entries, name, i),
        |name: Seq<char>| entries[choose|i: int| #[trigger] stands(entries, name, i)].1,
    )
}

/// Where no name occurs twice, the number of a name is the one that stands with
/// it.
proof fn numbers_at(entries: Seq<(Seq<char>, usize)>, i: int)
    requires
        no_twins(entries),
        0 <= i < entries.len(),
    ensures
        numbers(entries).contains_key(entries[i].0),
        numbers(entries)[entries[i].0] == entries[i].1,
{
    let name = entries[i].0;
    assert(stands(entries, name, i));
    let j = choose|j: int| #[trigger] stands(entries, name, j);
    assert(i == j) by {
        if i < j {
            assert(entries[i].0 != entries[j].0);
        } else if j < i {
            assert(entries[j].0 != entries[i].0);
        }
    }
}

proof fn numbers_pushed(entries: Seq<(Seq<char>, usize)>, name: Seq<char>, value: usize)
    requires
        no_twins(entries),
        forall|i: int| !#[trigger] stands(entries, name, i),
    ensures
        no_twins(entries.push((name, value))),
        numbers(entries.push((name, value))) == numbers(entries).insert(name, value),
        !numbers(entries).contains_key(name),
{
    let after = entries.push((name, value));
    assert forall|i: int, j: int| 0 <= i < j < after.len() implies (#[trigger] after[i]).0 != (
    #[trigger] after[j]).0 by {
        if j == entries.len() {
            assert(!stands(entries, name, i));
        }
    }
    let want = numbers(entries).insert(name, value);
    assert forall|n: Seq<char>| numbers(after).contains_key(n) <==> want.contains_key(n) by {
        if numbers(after).contains_key(n) {
            let i = choose|i: int| #[trigger] stands(after, n, i);
            if i < entries.len() {
                assert(stands(entries, n, i));
            }
        }
        if numbers(entries).contains_key(n) {
            let i = choose|i: int| #[trigger] stands(entries, n, i);
            assert(stands(after, n, i));
        }
        assert(stands(after, name, entries.len() as int));
    }
    assert forall|n: Seq<char>| want.contains_key(n) implies numbers(after)[n] == want[n] by {
        if n == name {
            numbers_at(after, entries.len() as int);
        } else {
            let i = choose|i: int| #[trigger] stands(entries, n, i);
            numbers_at(entries, i);
            assert(after[i] == entries[i]);
            numbers_at(after, i);
        }
    }
    assert(numbers(after) =~= want);
}

proof fn numbers_updated(entries: Seq<(Seq<char>, usize)>, i: int, value: usize)
    requires
        no_twins(entries),
        0 <= i < entries.len(),
    ensures
        no_twins(entries.update(i, (entries[i].0, value))),
        numbers(entries.update(i, (entries[i].0, value))) == numbers(entries).insert(
            entries[i].0,
            value,
        ),
{
    let after = entries.update(i, (entries[i].0, value));
    assert(forall|j: int| 0 <= j < entries.len() ==> (#[trigger] after[j]).0 == entries[j].0);
    let want = numbers(entries).insert(entries[i].0, value);
    assert forall|n: Seq<char>| numbers(after).contains_key(n) <==> want.contains_key(n) by {
        if numbers(after).contains_key(n) {
            let j = choose|j: int| #[trigger] stands(after, n, j);
            assert(stands(entries, n, j));
        }
        if numbers(entries).contains_key(n) {
            let j = choose|j: int| #[trigger] stands(entries, n, j);
            assert(stands(after, n, j));
        }
        assert(stands(after, entries[i].0, i));
    }
    assert forall|n: Seq<char>| want.contains_key(n) implies numbers(after)[n] == want[n] by {
        if n == entries[i].0 {
            numbers_at(after, i);
        } else {
            let j = choose|j: int| #[trigger] stands(entries, n, j);
            numbers_at(entries, j);
            numbers_at(after, j);
        }
    }
    assert(numbers(after) =~= want);
}

proof fn numbers_removed(entries: Seq<(Seq<char>, usize)>, i: int)
    requires
        no_twins(entries),
        0 <= i < entries.len(),
    ensures
        no_twins(swap_removed(entries, i)),
        numbers(swap_removed(entries, i)) == numbers(entries).remove(entries[i].0),
{
    let after = swap_removed(entries, i);
    let last = entries.len() - 1;
    assert(forall|j: int|
        0 <= j < after.len() ==> #[trigger] after[j] == if j == i {
            entries[last]
        } else {
            entries[j]
        });
    let want = numbers(entries).remove(entries[i].0);
    assert forall|n: Seq<char>| numbers(after).contains_key(n) <==> want.contains_key(n) by {
        if numbers(after).contains_key(n) {
            let j = choose|j: int| #[trigger] stands(after, n, j);
            let k = if j == i {
                last
            } else {
                j
            };
            assert(stands(entries, n, k));
            assert(entries[k].0 != entries[i].0);
        }
        if want.contains_key(n) {
            let j = choose|j: int| #[trigger] stands(entries, n, j);
            let k = if j == last {
                i
            } else {
                j
            };
            assert(stands(after, n, k));
        }
    }
    assert forall|n: Seq<char>| want.contains_key(n) implies numbers(after)[n] == want[n] by {
        let j = choose|j: int| #[trigger] stands(entries, n, j);
        numbers_at(entries, j);
        let k = if j == last {
            i
        } else {
            j
        };
        assert(after[k] == entries[j]);
        numbers_at(after, k);
    }
    assert(numbers(after) =~= want);
}

impl Names {
    #[verifier::type_invariant]
    spec fn holds(self) -> bool {
        no_twins(index_entries(self.m))
    }

    /// The names and numbers, in order.
    pub closed spec fn entries(&self) -> Seq<(Seq<char>, usize)> {
        index_entries(self.m)
    }

    /// The number of each name.
    pub open spec fn view(&self) -> Map<Seq<char>, usize> {
        numbers(self.entries())
    }

    /// No names, with room for some.
    pub fn with_capacity(n: usize) -> (r: Self)
        ensures
            r.entries() == Seq::<(Seq<char>, usize)>::empty(),
            r@ == Map::<Seq<char>, usize>::empty(),
    {
        let r = Names { m: index_with_capacity(n) };
        assert(r@ =~= Map::<Seq<char>, usize>::empty());
        r
    }

    /// Whether there are no names.
    pub fn is_empty(&self) -> (r: bool)
        ensures
            r == (self@ == Map::<Seq<char>, usize>::empty()),
    {
        proof {
            use_type_invariant(self);
        }
        let r: bool = index_len(&self.m) == 0;
        proof {
            if r {
                assert(self@ =~= Map::<Seq<char>, usize>::empty());
            } else {
                numbers_at(self.entries(), 0);
            }
        }
        r
    }

    /// Gives a name a number. Returns the one that it had. A new name comes last.
    pub fn insert(&mut self, name: String, number: usize) -> (r: Option<usize>)
        ensures
            final(self)@ == old(self)@.insert(name@, number),
            match r {
                Some(before) => old(self)@.contains_key(name@) && old(self)@[name@] == before,
                None => !old(self)@.contains_key(name@) && final(self).entries() == old(
                    self,
                ).entries().push((name@, number)),
            },
    {
        proof {
            use_type_invariant(&*self);
        }
        let mut m = index_with_capacity(0);
        std::mem::swap(&mut m, &mut self.m);
        let ghost before = index_entries(m);
        let ghost key = name@;
        let r = index_insert(&mut m, name, number);
        proof {
            if r is None {
                numbers_pushed(before, key, number);
            } else {
                let i = choose|i: int| #[trigger]
                    stands(before, key, i) && before[i].1 == r->0 && index_entries(m)
                        == before.update(i, (key, number));
                numbers_at(before, i);
                numbers_updated(before, i, number);
            }
        }
        self.m = m;
        r
    }

    /// The number of a name.
    pub fn get(&self, name: &str) -> (r: Option<usize>)
        ensures
            match r {
                Some(number) => self@.contains_key(name@) && self@[name@] == number,
                None => !self@.contains_key(name@),
            },
    {
        proof {
            use_type_invariant(self);
        }
        let r = index_get(&self.m, name);
        proof {
            if let Some(number) = r {
                let i = choose|i: int| #[trigger]
                    stands(index_entries(self.m), name@, i) && index_entries(self.m)[i].1 == number;
                numbers_at(index_entries(self.m), i);
            }
        }
        r
    }

    /// Takes a name out. Returns its number.
    pub fn remove(&mut self, name: &str) -> (r: Option<usize>)
        ensures
            final(self)@ == old(self)@.remove(name@),
            match r {
                Some(number) => old(self)@.contains_key(name@) && old(self)@[name@] == number,
                None => !old(self)@.contains_key(name@),
            },
    {
        proof {
            use_type_invariant(&*self);
        }
        let mut m = index_with_capacity(0);
        std::mem::swap(&mut m, &mut self.m);
        let ghost before = index_entries(m);
        let r = index_swap_remove(&mut m, name);
        proof {
            if let Some(number) = r {
                let i = choose|i: int| #[trigger]
                    stands(before, name@, i) && before[i].1 == number && index_entries(m)
                        == swap_removed(before, i);
                numbers_at(before, i);
                numbers_removed(before, i);
            } else {
                assert(numbers(before).remove(name@) =~= numbers(before));
            }
        }
        self.m = m;
        r
    }
}

} // verus!
