//! The vocabulary: byte strings with their token ids.

use vstd::prelude::*;

verus! {

/// The map that a listing of entries describes; a later entry replaces an
/// earlier one with the same bytes.
pub open spec fn map_of(listing: Seq<(Seq<u8>, u32)>) -> Map<Seq<u8>, u32>
    decreases listing.len(),
{
    if listing.len() == 0 {
        Map::empty()
    } else {
        map_of(listing.drop_last()).insert(listing.last().0, listing.last().1)
    }
}

/// No byte string is listed twice.
pub open spec fn distinct_keys(listing: Seq<(Seq<u8>, u32)>) -> bool {
    forall|i: int, j: int|
        0 <= i < j < listing.len() ==> #[trigger] listing[i].0 != #[trigger] listing[j].0
}

pub open spec fn entry_view(entry: (Vec<u8>, u32)) -> (Seq<u8>, u32) {
    (entry.0@, entry.1)
}

/// Byte strings and their ids, in the order in which the strings were first
/// inserted. No string occurs twice.
#[derive(Debug, Clone)]
pub struct Vocab {
    entries: Vec<(Vec<u8>, u32)>,
}

impl View for Vocab {
    type V = Map<Seq<u8>, u32>;

    open spec fn view(&self) -> Map<Seq<u8>, u32> {
        map_of(self.listing())
    }
}

impl Vocab {
    /// The entries in order.
    pub closed spec fn listing(&self) -> Seq<(Seq<u8>, u32)> {
        self.entries@.map_values(|e: (Vec<u8>, u32)| entry_view(e))
    }

    pub open spec fn well_formed(&self) -> bool {
        distinct_keys(self.listing())
    }

    pub fn new() -> (out: Self)
        ensures
            out.well_formed(),
            out.listing() == Seq::<(Seq<u8>, u32)>::empty(),
            out@ == Map::<Seq<u8>, u32>::empty(),
    {
        let out = Vocab { entries: Vec::new() };
        assert(out.listing() =~= Seq::<(Seq<u8>, u32)>::empty());
        out
    }

    /// The number of distinct byte strings.
    pub fn len(&self) -> (n: usize)
        ensures
            n == self.listing().len(),
            self.well_formed() ==> n == self@.dom().len(),
    {
        proof {
            if self.well_formed() {
                as_many_keys_as_entries(self.listing());
            }
        }
        self.entries.len()
    }

    /// The bytes of the `i`-th entry.
    pub fn key(&self, i: usize) -> (bytes: &Vec<u8>)
        requires
            i < self.listing().len(),
        ensures
            bytes@ == self.listing()[i as int].0,
            self@.contains_key(bytes@),
    {
        proof {
            map_of_entries(self.listing());
            assert(self.listing()[i as int].0 == self.entries@[i as int].0@);
        }
        &self.entries[i].0
    }

    /// The id of the `i`-th entry.
    pub fn id(&self, i: usize) -> (id: u32)
        requires
            i < self.listing().len(),
        ensures
            id == self.listing()[i as int].1,
            self.well_formed() ==> self@[self.listing()[i as int].0] == id,
    {
        proof {
            map_of_entries(self.listing());
        }
        self.entries[i].1
    }

    /// The position of `bytes` among the entries.
    fn position(&self, bytes: &[u8]) -> (at: Option<usize>)
        ensures
            match at {
                Some(i) => i < self.listing().len() && self.listing()[i as int].0 == bytes@,
                None => forall|i: int|
                    0 <= i < self.listing().len() ==> (#[trigger] self.listing()[i]).0 != bytes@,
            },
    {
        let mut i: usize = 0;
        while i < self.entries.len()
            invariant
                i <= self.entries.len(),
                self.entries.len() == self.listing().len(),
                forall|j: int| 0 <= j < i ==> (#[trigger] self.listing()[j]).0 != bytes@,
            decreases self.entries.len() - i,
        {
            assert(self.listing()[i as int].0 == self.entries@[i as int].0@);
            if same_bytes(&self.entries[i].0, bytes) {
                return Some(i);
            }
            i += 1;
        }
        None
    }

    /// The id of `bytes`, where it has one.
    pub fn get(&self, bytes: &[u8]) -> (id: Option<u32>)
        requires
            self.well_formed(),
        ensures
            id == (if self@.contains_key(bytes@) {
                Some(self@[bytes@])
            } else {
                None
            }),
    {
        proof {
            map_of_entries(self.listing());
        }
        match self.position(bytes) {
            Some(i) => Some(self.id(i)),
            None => None,
        }
    }

    /// Give `bytes` the id `id`, in place of an earlier one.
    pub fn insert(&mut self, bytes: Vec<u8>, id: u32)
        requires
            old(self).well_formed(),
        ensures
            final(self).well_formed(),
            final(self)@ == old(self)@.insert(bytes@, id),
            old(self)@.contains_key(bytes@) ==> final(self).listing().len()
                == old(self).listing().len(),
            !old(self)@.contains_key(bytes@) ==> final(self).listing() == old(self).listing().push(
                (bytes@, id),
            ),
    {
        proof {
            map_of_entries(self.listing());
        }
        match self.position(&bytes) {
            Some(i) => {
                let ghost before = self.listing();
                proof {
                    map_of_update(before, i as int, id);
                }
                self.entries.set(i, (bytes, id));
                assert(self.listing() =~= before.update(i as int, (before[i as int].0, id)));
                assert(forall|j: int|
                    0 <= j < before.len() ==> (#[trigger] self.listing()[j]).0 == before[j].0);
            },
            None => {
                let ghost before = self.listing();
                self.entries.push((bytes, id));
                assert(self.listing() =~= before.push((bytes@, id)));
                assert(self.listing().drop_last() =~= before);
            },
        }
    }
}

/// Whether two byte strings are equal.
pub(crate) fn same_bytes(a: &[u8], b: &[u8]) -> (same: bool)
    ensures
        same == (a@ == b@),
{
    if a.len() != b.len() {
        return false;
    }
    let mut i: usize = 0;
    while i < a.len()
        invariant
            i <= a.len(),
            a.len() == b.len(),
            forall|j: int| 0 <= j < i ==> a@[j] == b@[j],
        decreases a.len() - i,
    {
        if a[i] != b[i] {
            return false;
        }
        i += 1;
    }
    assert(a@ =~= b@);
    true
}

/// A listing without duplicates maps exactly its own keys, each to the id
/// listed beside it.
pub proof fn map_of_entries(listing: Seq<(Seq<u8>, u32)>)
    ensures
        forall|key: Seq<u8>| #[trigger]
            map_of(listing).contains_key(key) <==> exists|i: int|
                0 <= i < listing.len() && (#[trigger] listing[i]).0 == key,
        distinct_keys(listing) ==> forall|i: int|
            0 <= i < listing.len() ==> map_of(listing)[(#[trigger] listing[i]).0] == listing[i].1,
    decreases listing.len(),
{
    if listing.len() > 0 {
        let init = listing.drop_last();
        map_of_entries(init);
        assert forall|key: Seq<u8>| #[trigger] map_of(listing).contains_key(key) implies exists|
            i: int,
        |
            0 <= i < listing.len() && (#[trigger] listing[i]).0 == key by {
            if key == listing.last().0 {
                assert(listing[listing.len() - 1].0 == key);
            } else {
                assert(map_of(init).contains_key(key));
                let i = choose|i: int| 0 <= i < init.len() && (#[trigger] init[i]).0 == key;
                assert(listing[i].0 == key);
            }
        }
        assert forall|i: int| 0 <= i < listing.len() implies map_of(listing).contains_key(
            (#[trigger] listing[i]).0,
        ) by {
            if i < init.len() {
                assert(init[i].0 == listing[i].0);
                assert(map_of(init).contains_key(init[i].0));
            }
        }
        if distinct_keys(listing) {
            assert forall|i: int| 0 <= i < listing.len() implies map_of(
                listing,
            )[(#[trigger] listing[i]).0] == listing[i].1 by {
                if i < init.len() {
                    assert(init[i] == listing[i]);
                    assert(listing[i].0 != listing[listing.len() - 1].0);
                }
            }
        }
    }
}

/// A mapped id is one that is listed beside the bytes.
pub proof fn mapped_id_is_listed(listing: Seq<(Seq<u8>, u32)>, key: Seq<u8>) -> (i: int)
    requires
        map_of(listing).contains_key(key),
    ensures
        0 <= i < listing.len(),
        listing[i] == (key, map_of(listing)[key]),
    decreases listing.len(),
{
    if listing.last().0 == key {
        listing.len() - 1
    } else {
        mapped_id_is_listed(listing.drop_last(), key)
    }
}

proof fn map_of_update(listing: Seq<(Seq<u8>, u32)>, at: int, id: u32)
    requires
        distinct_keys(listing),
        0 <= at < listing.len(),
    ensures
        map_of(listing.update(at, (listing[at].0, id))) == map_of(listing).insert(
            listing[at].0,
            id,
        ),
    decreases listing.len(),
{
    let updated = listing.update(at, (listing[at].0, id));
    let init = listing.drop_last();
    if at == listing.len() - 1 {
        assert(updated.drop_last() =~= init);
        assert(map_of(updated) =~= map_of(listing).insert(listing[at].0, id));
    } else {
        map_of_update(init, at, id);
        assert(updated.drop_last() =~= init.update(at, (init[at].0, id)));
        assert(listing[at].0 != listing[listing.len() - 1].0);
        assert(map_of(updated) =~= map_of(listing).insert(listing[at].0, id));
    }
}

/// A byte string is mapped to the id that was listed beside it last.
pub proof fn last_entry_counts(listing: Seq<(Seq<u8>, u32)>, i: int)
    requires
        0 <= i < listing.len(),
        forall|j: int| i < j < listing.len() ==> (#[trigger] listing[j]).0 != listing[i].0,
    ensures
        map_of(listing).contains_key(listing[i].0),
        map_of(listing)[listing[i].0] == listing[i].1,
    decreases listing.len(),
{
    if i < listing.len() - 1 {
        let init = listing.drop_last();
        assert(listing[listing.len() - 1].0 != listing[i].0);
        assert(forall|j: int| 0 <= j < init.len() ==> init[j] == listing[j]);
        last_entry_counts(init, i);
    }
}

/// An empty listing maps nothing, and a further entry changes what its own
/// bytes are mapped to and nothing else.
pub proof fn further_entry_replaces(listing: Seq<(Seq<u8>, u32)>, bytes: Seq<u8>, id: u32)
    ensures
        map_of(Seq::empty()) == Map::<Seq<u8>, u32>::empty(),
        map_of(listing.push((bytes, id))) == map_of(listing).insert(bytes, id),
{
    assert(listing.push((bytes, id)).drop_last() =~= listing);
}

/// A listing without duplicates maps as many byte strings as it has entries.
pub proof fn as_many_keys_as_entries(listing: Seq<(Seq<u8>, u32)>)
    requires
        distinct_keys(listing),
    ensures
        map_of(listing).dom().finite(),
        map_of(listing).dom().len() == listing.len(),
    decreases listing.len(),
{
    if listing.len() > 0 {
        let init = listing.drop_last();
        assert(forall|j: int| 0 <= j < init.len() ==> init[j] == listing[j]);
        as_many_keys_as_entries(init);
        map_of_entries(init);
        let key = listing.last().0;
        if map_of(init).contains_key(key) {
            let i = choose|i: int| 0 <= i < init.len() && (#[trigger] init[i]).0 == key;
            assert(listing[i].0 != listing[listing.len() - 1].0);
        }
        assert(map_of(listing).dom() =~= map_of(init).dom().insert(key));
    }
}

} // verus!
