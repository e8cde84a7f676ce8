//! The in-memory item store.
//!
//! A `Store` is an append-only collection of item identifiers. Duplicates are
//! permitted by design: `add_item` appends unconditionally, and a snapshot
//! shows every insertion in order. The process wraps one `Store` in an
//! exclusive lock and shares it between connection handlers and the
//! replication scheduler; each method here is the work done under that lock.

use vstd::prelude::*;

verus! {

/// An ordered, append-only collection of item identifiers.
///
/// The abstract value of a store is the sequence of the views of its items,
/// in insertion order.
pub struct Store {
    items: Vec<String>,
}

impl View for Store {
    type V = Seq<Seq<char>>;

    closed spec fn view(&self) -> Seq<Seq<char>> {
        self.items.deep_view()
    }
}

impl Store {
    /// Creates an empty store; a process makes exactly one at startup.
    pub fn new() -> (store: Store)
        ensures
            store@ == Seq::<Seq<char>>::empty(),
    {
        let store = Store { items: Vec::new() };
        proof {
            assert(store@ =~= Seq::<Seq<char>>::empty());
        }
        store
    }

    /// Appends `item` unconditionally; duplicates are kept, nothing is lost.
    pub fn add_item(&mut self, item: String)
        ensures
            final(self)@ == old(self)@.push(item@),
    {
        self.items.push(item);
        proof {
            assert(final(self)@ =~= old(self)@.push(item@));
        }
    }

    /// True iff `item` equals some previously added element.
    pub fn get_item(&self, item: String) -> (present: bool)
        ensures
            present == self@.contains(item@),
    {
        let n = self.items.len();
        let mut i: usize = 0;
        while i < n
            invariant
                n == self.items@.len(),
                i <= n,
                forall|j: int| 0 <= j < i ==> self@[j] != item@,
            decreases n - i,
        {
            if self.items[i] == item {
                assert(self@[i as int] == item@);
                return true;
            }
            i += 1;
        }
        assert(!self@.contains(item@)) by {
            assert(forall|j: int| 0 <= j < self@.len() ==> self@[j] != item@);
        }
        false
    }

    /// Returns a copy of the full current contents, in insertion order.
    ///
    /// The replication scheduler snapshots the store through this method so
    /// that later mutations are not observed by an in-flight replication pass.
    pub fn get_all_items(&self) -> (all: Vec<String>)
        ensures
            all.deep_view() == self@,
    {
        let n = self.items.len();
        let mut all: Vec<String> = Vec::new();
        let mut i: usize = 0;
        while i < n
            invariant
                n == self.items@.len(),
                i <= n,
                all@.len() == i,
                forall|j: int| 0 <= j < i ==> all@[j]@ == self@[j],
            decreases n - i,
        {
            all.push(self.items[i].clone());
            i += 1;
        }
        proof {
            assert(all.deep_view() =~= self@);
        }
        all
    }
}

/// No added identifier is ever lost or duplicated: appending one identifier
/// adds exactly one occurrence to the snapshot's multiset, keeps every earlier
/// entry at its position, and grows the snapshot by one. Since the store's
/// lock totally orders concurrent `add_item` calls, any interleaving of adds
/// yields a snapshot holding exactly the multiset of the added identifiers,
/// with each caller's own adds in its call order.
pub proof fn lemma_add_accounts_exactly(items: Seq<Seq<char>>, item: Seq<char>)
    ensures
        items.push(item).to_multiset() == items.to_multiset().insert(item),
        items.push(item).len() == items.len() + 1,
        items.push(item).subrange(0, items.len() as int) == items,
{
    items.to_multiset_ensures();
    assert(items.push(item).to_multiset() =~= items.to_multiset().insert(item));
    assert(items.push(item).subrange(0, items.len() as int) =~= items);
}

/// An identifier is present immediately after it is added, and no later add
/// removes it: presence lasts for the rest of the process lifetime, since
/// `add_item` is the store's only mutation.
pub proof fn lemma_contains_after_add(items: Seq<Seq<char>>, item: Seq<char>)
    ensures
        items.push(item).contains(item),
        forall|other: Seq<char>| items.contains(other) ==> items.push(item).contains(other),
{
    assert(items.push(item)[items.len() as int] == item);
    assert forall|other: Seq<char>| items.contains(other) implies items.push(item).contains(
        other,
    ) by {
        let k = choose|k: int| 0 <= k < items.len() && items[k] == other;
        assert(items.push(item)[k] == other);
    }
}

} // verus!
