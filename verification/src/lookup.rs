//! Looking assets up by identifier: the first asset, in list order, whose identifier has the
//! same characters as the one asked for.

use vstd::prelude::*;

verus! {

/// An asset with a string identifier.
pub trait Identified {
    /// The identifier's characters.
    spec fn key(&self) -> Seq<char>;

    /// The identifier.
    fn id(&self) -> (id: &String)
        ensures
            id@ == self.key(),
    ;
}

/// `i` is the first position in `items` whose identifier is `key`.
pub open spec fn is_first_with<T: Identified>(items: Seq<T>, key: Seq<char>, i: int) -> bool {
    &&& 0 <= i < items.len()
    &&& items[i].key() == key
    &&& forall|j: int| 0 <= j < i ==> (#[trigger] items[j]).key() != key
}

/// The first position in `items` whose identifier is `key`, if there is one.
pub open spec fn first_with<T: Identified>(items: Seq<T>, key: Seq<char>) -> Option<int> {
    if exists|i: int| is_first_with(items, key, i) {
        Some(choose|i: int| is_first_with(items, key, i))
    } else {
        None
    }
}

/// There is at most one first position.
pub proof fn lemma_first_unique<T: Identified>(items: Seq<T>, key: Seq<char>, i: int, j: int)
    requires
        is_first_with(items, key, i),
        is_first_with(items, key, j),
    ensures
        i == j,
{
    if i < j {
        assert(items[i].key() != key);
    } else if j < i {
        assert(items[j].key() != key);
    }
}

/// `first_with` is `None` exactly when no identifier in `items` is `key`.
pub proof fn lemma_first_none<T: Identified>(items: Seq<T>, key: Seq<char>)
    ensures
        first_with(items, key) is None <==> forall|j: int|
            0 <= j < items.len() ==> (#[trigger] items[j]).key() != key,
{
    if !(forall|j: int| 0 <= j < items.len() ==> (#[trigger] items[j]).key() != key) {
        let w = choose|j: int| 0 <= j < items.len() && (#[trigger] items[j]).key() == key;
        lemma_least_match(items, key, w);
    }
}

proof fn lemma_least_match<T: Identified>(items: Seq<T>, key: Seq<char>, w: int)
    requires
        0 <= w < items.len(),
        items[w].key() == key,
    ensures
        exists|i: int| is_first_with(items, key, i),
    decreases w,
{
    if forall|j: int| 0 <= j < w ==> (#[trigger] items[j]).key() != key {
        assert(is_first_with(items, key, w));
    } else {
        let v = choose|j: int| 0 <= j < w && (#[trigger] items[j]).key() == key;
        lemma_least_match(items, key, v);
    }
}

/// The position of the first item whose identifier is `id`.
pub fn position_of<T: Identified>(items: &Vec<T>, id: &String) -> (pos: Option<usize>)
    ensures
        match pos {
            Some(i) => first_with(items@, id@) == Some(i as int),
            None => first_with(items@, id@) is None,
        },
        match pos {
            Some(i) => is_first_with(items@, id@, i as int),
            None => forall|j: int| 0 <= j < items@.len() ==> (#[trigger] items@[j]).key() != id@,
        },
{
    let mut i: usize = 0;
    while i < items.len()
        invariant
            0 <= i <= items@.len(),
            forall|j: int| 0 <= j < i ==> (#[trigger] items@[j]).key() != id@,
        decreases items@.len() - i,
    {
        if items[i].id().eq(id) {
            proof {
                assert(is_first_with(items@, id@, i as int));
                let c = choose|k: int| is_first_with(items@, id@, k);
                lemma_first_unique(items@, id@, c, i as int);
            }
            return Some(i);
        }
        i = i + 1;
    }
    proof {
        lemma_first_none(items@, id@);
    }
    None
}

} // verus!
