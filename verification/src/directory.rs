//! The directory of known peers: one entry for each public key.

use crate::message::{PeerInformation, PeerInformationView};
use vstd::prelude::*;

verus! {

/// Whether some entry of `entries` has the key `key`.
pub open spec fn has_key(entries: Seq<PeerInformationView>, key: Seq<u8>) -> bool {
    exists|i: int| 0 <= i < entries.len() && (#[trigger] entries[i]).public_key == key
}

/// The place of an entry with the key `key`.
pub open spec fn index_of(entries: Seq<PeerInformationView>, key: Seq<u8>) -> int {
    choose|i: int| 0 <= i < entries.len() && (#[trigger] entries[i]).public_key == key
}

/// No key occurs in two places.
pub open spec fn distinct_keys(entries: Seq<PeerInformationView>) -> bool {
    forall|i: int, j: int|
        0 <= i < j < entries.len() ==> (#[trigger] entries[i]).public_key != (
        #[trigger] entries[j]).public_key
}

/// The map from each key to its entry.
pub open spec fn directory_map(entries: Seq<PeerInformationView>) -> Map<
    Seq<u8>,
    PeerInformationView,
> {
    Map::new(|key: Seq<u8>| has_key(entries, key), |key: Seq<u8>| entries[index_of(entries, key)])
}

/// Adding an entry under a new key inserts it into the map.
proof fn lemma_map_push(entries: Seq<PeerInformationView>, entry: PeerInformationView)
    requires
        distinct_keys(entries),
        !has_key(entries, entry.public_key),
    ensures
        distinct_keys(entries.push(entry)),
        directory_map(entries.push(entry)) == directory_map(entries).insert(
            entry.public_key,
            entry,
        ),
{
    let after = entries.push(entry);
    assert forall|key: Seq<u8>| has_key(after, key) <==> (has_key(entries, key) || key
        == entry.public_key) by {
        if has_key(after, key) {
            let i = index_of(after, key);
            if i < entries.len() {
                assert(entries[i].public_key == key);
            }
        }
        if has_key(entries, key) {
            let i = index_of(entries, key);
            assert(after[i].public_key == key);
        }
        if key == entry.public_key {
            assert(after[entries.len() as int].public_key == key);
        }
    }
    assert forall|key: Seq<u8>| has_key(after, key) implies after[index_of(after, key)] == (if key
        == entry.public_key {
        entry
    } else {
        entries[index_of(entries, key)]
    }) by {
        let i = index_of(after, key);
        if key == entry.public_key {
            if i < entries.len() {
                assert(entries[i].public_key == key);
            }
        } else {
            let j = index_of(entries, key);
            assert(after[j].public_key == key);
            if i != j {
                assert(entries[i].public_key == entries[j].public_key);
            }
        }
    }
    assert(directory_map(after) =~= directory_map(entries).insert(entry.public_key, entry));
}

/// Replacing the entry of a key changes the map at that key alone.
proof fn lemma_map_update(entries: Seq<PeerInformationView>, at: int, entry: PeerInformationView)
    requires
        distinct_keys(entries),
        0 <= at < entries.len(),
        entries[at].public_key == entry.public_key,
    ensures
        distinct_keys(entries.update(at, entry)),
        directory_map(entries.update(at, entry)) == directory_map(entries).insert(
            entry.public_key,
            entry,
        ),
{
    let after = entries.update(at, entry);
    assert forall|i: int| 0 <= i < entries.len() implies (#[trigger] after[i]).public_key
        == entries[i].public_key by {}
    assert forall|key: Seq<u8>| has_key(after, key) <==> has_key(entries, key) by {
        if has_key(after, key) {
            let i = index_of(after, key);
            assert(entries[i].public_key == key);
        }
        if has_key(entries, key) {
            let i = index_of(entries, key);
            assert(after[i].public_key == key);
        }
    }
    assert(has_key(entries, entry.public_key)) by {
        assert(entries[at].public_key == entry.public_key);
    }
    assert forall|key: Seq<u8>| has_key(after, key) implies after[index_of(after, key)] == (if key
        == entry.public_key {
        entry
    } else {
        entries[index_of(entries, key)]
    }) by {
        let i = index_of(after, key);
        let j = index_of(entries, key);
        assert(entries[i].public_key == key);
        if i != j {
            assert(entries[i].public_key == entries[j].public_key);
        }
        if key == entry.public_key && i != at {
            assert(entries[i].public_key == entries[at].public_key);
        }
    }
    assert(directory_map(after) =~= directory_map(entries).insert(entry.public_key, entry));
}

/// The listing after an upsert: the entry takes the place of the one that
/// had its key, or comes last where the key is new.
pub open spec fn upserted(
    entries: Seq<PeerInformationView>,
    entry: PeerInformationView,
) -> Seq<PeerInformationView> {
    if has_key(entries, entry.public_key) {
        entries.update(index_of(entries, entry.public_key), entry)
    } else {
        entries.push(entry)
    }
}

/// An upsert keeps the keys distinct, and the map of the new listing is the
/// map of the old one with the entry inserted under its key.
pub proof fn lemma_upserted(entries: Seq<PeerInformationView>, entry: PeerInformationView)
    requires
        distinct_keys(entries),
    ensures
        distinct_keys(upserted(entries, entry)),
        directory_map(upserted(entries, entry)) == directory_map(entries).insert(
            entry.public_key,
            entry,
        ),
        has_key(upserted(entries, entry), entry.public_key),
        upserted(entries, entry)[index_of(upserted(entries, entry), entry.public_key)] == entry,
        upserted(entries, entry).len() == if has_key(entries, entry.public_key) {
            entries.len()
        } else {
            entries.len() + 1
        },
{
    let after = upserted(entries, entry);
    if has_key(entries, entry.public_key) {
        lemma_map_update(entries, index_of(entries, entry.public_key), entry);
    } else {
        lemma_map_push(entries, entry);
    }
    assert(directory_map(after).contains_key(entry.public_key));
    assert(directory_map(after)[entry.public_key] == entry);
}

/// Directory idempotence: after two upserts under one key the listing has
/// exactly one entry for that key, which is the later of the two, and is as
/// long as after the first upsert. With the same entry twice, the second
/// upsert changes nothing.
pub proof fn lemma_upsert_twice(
    entries: Seq<PeerInformationView>,
    first: PeerInformationView,
    second: PeerInformationView,
)
    requires
        distinct_keys(entries),
        first.public_key == second.public_key,
    ensures
        distinct_keys(upserted(upserted(entries, first), second)),
        has_key(upserted(upserted(entries, first), second), second.public_key),
        upserted(upserted(entries, first), second)[index_of(
            upserted(upserted(entries, first), second),
            second.public_key,
        )] == second,
        upserted(upserted(entries, first), second).len() == upserted(entries, first).len(),
        first == second ==> upserted(upserted(entries, first), second) == upserted(
            entries,
            first,
        ),
{
    let once = upserted(entries, first);
    lemma_upserted(entries, first);
    lemma_upserted(once, second);
    if first == second {
        assert(upserted(once, second) =~= once);
    }
}

/// Upserting the same entry twice is upserting it once.
pub proof fn lemma_upsert_idempotent(
    before: Map<Seq<u8>, PeerInformationView>,
    entry: PeerInformationView,
)
    ensures
        before.insert(entry.public_key, entry).insert(entry.public_key, entry) == before.insert(
            entry.public_key,
            entry,
        ),
{
    assert(before.insert(entry.public_key, entry).insert(entry.public_key, entry)
        =~= before.insert(entry.public_key, entry));
}

/// Upserting a second entry under the same key leaves one entry for that
/// key, the later one, and touches no other key.
pub proof fn lemma_upsert_latest_wins(
    before: Map<Seq<u8>, PeerInformationView>,
    first: PeerInformationView,
    second: PeerInformationView,
)
    requires
        first.public_key == second.public_key,
    ensures
        before.insert(first.public_key, first).insert(second.public_key, second) == before.insert(
            second.public_key,
            second,
        ),
        before.insert(first.public_key, first).insert(second.public_key, second)[first.public_key]
            == second,
{
    assert(before.insert(first.public_key, first).insert(second.public_key, second)
        =~= before.insert(second.public_key, second));
}

/// Whether two keys hold the same bytes.
pub fn same_key(a: &[u8; 32], b: &[u8; 32]) -> (r: bool)
    ensures
        r == (a@ == b@),
{
    let mut i: usize = 0;
    while i < 32
        invariant
            i <= 32,
            forall|j: int| 0 <= j < i ==> a@[j] == b@[j],
        decreases 32 - i,
    {
        if a[i] != b[i] {
            return false;
        }
        i += 1;
    }
    assert(a@ =~= b@);
    true
}

/// A copy of a peer entry.
pub fn copy_peer(info: &PeerInformation) -> (copy: PeerInformation)
    ensures
        copy@ == info@,
{
    PeerInformation { public_key: info.public_key, address: info.address.clone() }
}

/// The registry of known peers, keyed by public key.
///
/// It is changed by `upsert` alone and read by `lookup` and `snapshot`,
/// which hand out copies, so that a caller holds nothing of the directory
/// while it waits on a connection.
pub struct PeerDirectory {
    entries: Vec<PeerInformation>,
}

impl View for PeerDirectory {
    type V = Map<Seq<u8>, PeerInformationView>;

    open spec fn view(&self) -> Map<Seq<u8>, PeerInformationView> {
        directory_map(self.listing())
    }
}

impl PeerDirectory {
    /// The entries in the order in which their keys were first seen.
    pub closed spec fn listing(&self) -> Seq<PeerInformationView> {
        Seq::new(self.entries@.len(), |i: int| self.entries@[i]@)
    }

    #[verifier::type_invariant]
    spec fn keys_are_distinct(self) -> bool {
        distinct_keys(self.listing())
    }

    /// An empty directory.
    pub fn new() -> (directory: Self)
        ensures
            directory@ == Map::<Seq<u8>, PeerInformationView>::empty(),
            directory.listing() == Seq::<PeerInformationView>::empty(),
    {
        let directory = PeerDirectory { entries: Vec::new() };
        assert(directory.listing() =~= Seq::<PeerInformationView>::empty());
        assert(directory@ =~= Map::<Seq<u8>, PeerInformationView>::empty());
        directory
    }

    /// The number of entries, none of which shares its key with another.
    pub fn len(&self) -> (n: usize)
        ensures
            n == self.listing().len(),
            distinct_keys(self.listing()),
    {
        proof {
            use_type_invariant(self);
        }
        self.entries.len()
    }

    /// The place of the entry with the key `key`, if there is one.
    fn position(entries: &Vec<PeerInformation>, key: &[u8; 32]) -> (r: Option<usize>)
        ensures
            match r {
                Some(at) => at < entries@.len() && entries@[at as int]@.public_key == key@,
                None => forall|i: int|
                    0 <= i < entries@.len() ==> (#[trigger] entries@[i])@.public_key != key@,
            },
    {
        let mut i: usize = 0;
        while i < entries.len()
            invariant
                i <= entries@.len(),
                forall|j: int| 0 <= j < i ==> (#[trigger] entries@[j])@.public_key != key@,
            decreases entries@.len() - i,
        {
            if same_key(&entries[i].public_key, key) {
                return Some(i);
            }
            i += 1;
        }
        None
    }

    /// Inserts `info` under its public key, in place of the entry that the
    /// key had, if it had one. No other entry changes, and an entry that is
    /// replaced keeps its place in the listing.
    pub fn upsert(&mut self, info: PeerInformation)
        ensures
            final(self)@ == old(self)@.insert(info@.public_key, info@),
            final(self).listing() == upserted(old(self).listing(), info@),
            final(self).listing().len() == if old(self)@.contains_key(info@.public_key) {
                old(self).listing().len()
            } else {
                old(self).listing().len() + 1
            },
            distinct_keys(final(self).listing()),
    {
        proof {
            use_type_invariant(&*self);
        }
        let ghost before = self.listing();
        let ghost entry = info@;
        proof {
            lemma_upserted(before, entry);
        }
        let mut entries: Vec<PeerInformation> = Vec::new();
        std::mem::swap(&mut entries, &mut self.entries);
        assert(before =~= Seq::new(entries@.len(), |i: int| entries@[i]@));
        match Self::position(&entries, &info.public_key) {
            Some(at) => {
                entries[at] = info;
                proof {
                    assert(before[at as int].public_key == entry.public_key);
                    let found = index_of(before, entry.public_key);
                    if found != at {
                        assert(before[found].public_key == before[at as int].public_key);
                    }
                    lemma_map_update(before, at as int, entry);
                    assert(Seq::new(entries@.len(), |i: int| entries@[i]@) =~= before.update(
                        at as int,
                        entry,
                    ));
                }
            },
            None => {
                entries.push(info);
                proof {
                    assert(!has_key(before, entry.public_key)) by {
                        if has_key(before, entry.public_key) {
                            let found = index_of(before, entry.public_key);
                            assert(entries@[found]@.public_key == entry.public_key);
                        }
                    }
                    lemma_map_push(before, entry);
                    assert(Seq::new(entries@.len(), |i: int| entries@[i]@) =~= before.push(entry));
                }
            },
        }
        self.entries = entries;
    }

    /// A copy of the entry under `key`, if the directory has one.
    pub fn lookup(&self, key: &[u8; 32]) -> (r: Option<PeerInformation>)
        ensures
            match r {
                Some(info) => self@.contains_key(key@) && self@[key@] == info@
                    && info@.public_key == key@,
                None => !self@.contains_key(key@),
            },
    {
        proof {
            use_type_invariant(self);
        }
        let ghost listing = self.listing();
        match Self::position(&self.entries, key) {
            Some(at) => {
                proof {
                    assert(listing[at as int].public_key == key@);
                    let found = index_of(listing, key@);
                    if found != at {
                        assert(listing[found].public_key == listing[at as int].public_key);
                    }
                }
                Some(copy_peer(&self.entries[at]))
            },
            None => {
                proof {
                    if has_key(listing, key@) {
                        let found = index_of(listing, key@);
                        assert(self.entries@[found]@.public_key == key@);
                    }
                }
                None
            },
        }
    }

    /// Whether the directory has an entry under `key`.
    pub fn contains(&self, key: &[u8; 32]) -> (r: bool)
        ensures
            r == self@.contains_key(key@),
    {
        self.lookup(key).is_some()
    }

    /// Copies of all entries, each key once, in the order of the listing.
    pub fn snapshot(&self) -> (copies: Vec<PeerInformation>)
        ensures
            copies@.len() == self.listing().len(),
            forall|i: int| 0 <= i < copies@.len() ==> (#[trigger] copies@[i])@ == self.listing()[i],
            forall|i: int|
                0 <= i < copies@.len() ==> self@.contains_key((#[trigger] copies@[i])@.public_key)
                    && self@[copies@[i]@.public_key] == copies@[i]@,
            forall|key: Seq<u8>|
                self@.contains_key(key) ==> exists|i: int|
                    0 <= i < copies@.len() && (#[trigger] copies@[i])@.public_key == key,
            forall|i: int, j: int|
                0 <= i < j < copies@.len() ==> (#[trigger] copies@[i])@.public_key != (
                #[trigger] copies@[j])@.public_key,
    {
        proof {
            use_type_invariant(self);
        }
        let ghost listing = self.listing();
        let mut copies: Vec<PeerInformation> = Vec::new();
        let mut i: usize = 0;
        while i < self.entries.len()
            invariant
                i <= self.entries@.len(),
                copies@.len() == i,
                forall|j: int| 0 <= j < i ==> (#[trigger] copies@[j])@ == self.entries@[j]@,
            decreases self.entries@.len() - i,
        {
            copies.push(copy_peer(&self.entries[i]));
            i += 1;
        }
        proof {
            assert forall|i: int| 0 <= i < copies@.len() implies self@.contains_key(
                (#[trigger] copies@[i])@.public_key,
            ) && self@[copies@[i]@.public_key] == copies@[i]@ by {
                let key = copies@[i]@.public_key;
                assert(listing[i].public_key == key);
                let found = index_of(listing, key);
                if found != i {
                    assert(listing[found].public_key == listing[i].public_key);
                }
            }
            assert forall|key: Seq<u8>| self@.contains_key(key) implies exists|i: int|
                0 <= i < copies@.len() && (#[trigger] copies@[i])@.public_key == key by {
                let found = index_of(listing, key);
                assert(copies@[found]@.public_key == key);
            }
            assert forall|i: int, j: int| 0 <= i < j < copies@.len() implies (
            #[trigger] copies@[i])@.public_key != (#[trigger] copies@[j])@.public_key by {
                assert(listing[i].public_key != listing[j].public_key);
            }
        }
        copies
    }
}

} // verus!
