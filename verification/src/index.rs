//! The index store: the authoritative mapping from identity key to the
//! last-known record of the file under that key.
//!
//! The store is owned by the reconciler; all mutation goes through the
//! operations here, each of which is a total function from the current
//! contents and the operation to the new contents. The abstraction is a
//! finite map from identity keys to records; the operations' contracts are
//! stated against that map.

use vstd::prelude::*;
use crate::data::{FrontMatter, FrontMatterView};
use crate::fingerprint::ChangeToken;

verus! {

/// What the index knows of one file: its identity key, the change token
/// under which it was last observed, and the metadata extracted then.
/// `metadata` is `None` when the file carries no recognizable structured
/// content; the file is still indexed.
#[derive(Debug, Clone, PartialEq)]
pub struct Record {
    pub identity: String,
    pub token: ChangeToken,
    pub metadata: Option<FrontMatter>,
}

/// Mathematical image of a [`Record`] value.
pub struct RecordView {
    pub identity: Seq<char>,
    pub token: ChangeToken,
    pub metadata: Option<FrontMatterView>,
}

impl View for Record {
    type V = RecordView;

    open spec fn view(&self) -> RecordView {
        RecordView {
            identity: self.identity@,
            token: self.token,
            metadata: match self.metadata {
                Some(ref fm) => Some(fm@),
                None => None,
            },
        }
    }
}

impl DeepView for Record {
    type V = RecordView;

    open spec fn deep_view(&self) -> RecordView {
        self.view()
    }
}

/// The map described by a sequence of records, later entries winning.
pub open spec fn map_of(rs: Seq<RecordView>) -> Map<Seq<char>, RecordView>
    decreases rs.len(),
{
    if rs.len() == 0 {
        Map::empty()
    } else {
        map_of(rs.drop_last()).insert(rs.last().identity, rs.last())
    }
}

/// No two records share an identity key.
pub open spec fn keys_unique(rs: Seq<RecordView>) -> bool {
    forall|i: int, j: int|
        0 <= i < j < rs.len() ==> (#[trigger] rs[i].identity) != (#[trigger] rs[j].identity)
}

/// A key is in the map exactly when some record carries it.
pub proof fn lemma_map_of_contains(rs: Seq<RecordView>, k: Seq<char>)
    ensures
        map_of(rs).contains_key(k) <==> (exists|i: int|
            0 <= i < rs.len() && (#[trigger] rs[i].identity) == k),
    decreases rs.len(),
{
    if rs.len() > 0 {
        lemma_map_of_contains(rs.drop_last(), k);
        if rs.last().identity == k {
            assert(rs[rs.len() - 1].identity == k);
        } else {
            if map_of(rs).contains_key(k) {
                let i = choose|i: int|
                    0 <= i < rs.drop_last().len() && (#[trigger] rs.drop_last()[i].identity) == k;
                assert(rs[i].identity == k);
            }
            if exists|i: int| 0 <= i < rs.len() && (#[trigger] rs[i].identity) == k {
                let i = choose|i: int| 0 <= i < rs.len() && (#[trigger] rs[i].identity) == k;
                assert(rs.drop_last()[i].identity == k);
            }
        }
    }
}

/// Under unique keys, the record at index `i` is what the map holds for
/// its key.
pub proof fn lemma_map_of_get(rs: Seq<RecordView>, i: int)
    requires
        keys_unique(rs),
        0 <= i < rs.len(),
    ensures
        map_of(rs).contains_key(rs[i].identity),
        map_of(rs)[rs[i].identity] == rs[i],
    decreases rs.len(),
{
    if i < rs.len() - 1 {
        assert(keys_unique(rs.drop_last()));
        lemma_map_of_get(rs.drop_last(), i);
        assert(rs.drop_last()[i] == rs[i]);
        assert(rs[i].identity != rs.last().identity);
    }
}

/// Replacing the record at index `i` with one of the same key updates the
/// map at that key.
pub proof fn lemma_map_of_update(rs: Seq<RecordView>, i: int, r: RecordView)
    requires
        keys_unique(rs),
        0 <= i < rs.len(),
        r.identity == rs[i].identity,
    ensures
        keys_unique(rs.update(i, r)),
        map_of(rs.update(i, r)) == map_of(rs).insert(r.identity, r),
    decreases rs.len(),
{
    let rs2 = rs.update(i, r);
    assert forall|x: int, y: int| 0 <= x < y < rs2.len() implies (#[trigger] rs2[x].identity) != (
    #[trigger] rs2[y].identity) by {
        assert(rs[x].identity != rs[y].identity);
    }
    if i == rs.len() - 1 {
        assert(rs2.drop_last() =~= rs.drop_last());
        assert(map_of(rs2) == map_of(rs.drop_last()).insert(r.identity, r));
        assert(map_of(rs).insert(r.identity, r) =~= map_of(rs.drop_last()).insert(
            rs.last().identity,
            rs.last(),
        ).insert(r.identity, r));
        assert(map_of(rs.drop_last()).insert(r.identity, r) =~= map_of(rs.drop_last()).insert(
            rs.last().identity,
            rs.last(),
        ).insert(r.identity, r));
    } else {
        assert(keys_unique(rs.drop_last()));
        lemma_map_of_update(rs.drop_last(), i, r);
        assert(rs2.drop_last() =~= rs.drop_last().update(i, r));
        assert(rs2.last() == rs.last());
        assert(map_of(rs2) == map_of(rs.drop_last().update(i, r)).insert(
            rs.last().identity,
            rs.last(),
        ));
        assert(rs[i].identity != rs.last().identity);
        assert(map_of(rs.drop_last()).insert(r.identity, r).insert(rs.last().identity, rs.last())
            =~= map_of(rs.drop_last()).insert(rs.last().identity, rs.last()).insert(
            r.identity,
            r,
        ));
    }
}

/// Removing the record at index `i` removes its key from the map.
pub proof fn lemma_map_of_remove(rs: Seq<RecordView>, i: int)
    requires
        keys_unique(rs),
        0 <= i < rs.len(),
    ensures
        keys_unique(rs.remove(i)),
        map_of(rs.remove(i)) == map_of(rs).remove(rs[i].identity),
    decreases rs.len(),
{
    let rs2 = rs.remove(i);
    assert forall|x: int, y: int| 0 <= x < y < rs2.len() implies (#[trigger] rs2[x].identity) != (
    #[trigger] rs2[y].identity) by {
        if x < i && y < i {
            assert(rs[x].identity != rs[y].identity);
        } else if x < i {
            assert(rs[x].identity != rs[y + 1].identity);
        } else {
            assert(rs[x + 1].identity != rs[y + 1].identity);
        }
    }
    if i == rs.len() - 1 {
        assert(rs2 =~= rs.drop_last());
        lemma_map_of_contains(rs.drop_last(), rs.last().identity);
        assert forall|j: int| 0 <= j < rs.drop_last().len() implies (
        #[trigger] rs.drop_last()[j].identity) != rs.last().identity by {
            assert(rs[j].identity != rs[rs.len() - 1].identity);
        }
        assert(!map_of(rs.drop_last()).contains_key(rs.last().identity));
        assert(map_of(rs.drop_last()) =~= map_of(rs.drop_last()).insert(
            rs.last().identity,
            rs.last(),
        ).remove(rs.last().identity));
    } else {
        assert(keys_unique(rs.drop_last()));
        lemma_map_of_remove(rs.drop_last(), i);
        assert(rs2.drop_last() =~= rs.drop_last().remove(i));
        assert(rs2.last() == rs.last());
        assert(map_of(rs2) == map_of(rs.drop_last().remove(i)).insert(
            rs.last().identity,
            rs.last(),
        ));
        assert(rs[i].identity != rs.last().identity);
        assert(map_of(rs.drop_last()).remove(rs[i].identity).insert(
            rs.last().identity,
            rs.last(),
        ) =~= map_of(rs.drop_last()).insert(rs.last().identity, rs.last()).remove(rs[i].identity));
    }
}

/// Appending a record with a fresh key inserts it into the map.
pub proof fn lemma_map_of_push(rs: Seq<RecordView>, r: RecordView)
    requires
        keys_unique(rs),
        forall|i: int| 0 <= i < rs.len() ==> (#[trigger] rs[i].identity) != r.identity,
    ensures
        keys_unique(rs.push(r)),
        map_of(rs.push(r)) == map_of(rs).insert(r.identity, r),
{
    let rs2 = rs.push(r);
    assert forall|x: int, y: int| 0 <= x < y < rs2.len() implies (#[trigger] rs2[x].identity) != (
    #[trigger] rs2[y].identity) by {
        if y < rs.len() {
            assert(rs[x].identity != rs[y].identity);
        } else {
            assert(rs[x].identity != r.identity);
        }
    }
    assert(rs2.drop_last() =~= rs);
    assert(rs2.last() == r);
}

/// Under unique keys, the map holds exactly as many entries as there are
/// records.
pub proof fn lemma_map_of_len(rs: Seq<RecordView>)
    requires
        keys_unique(rs),
    ensures
        map_of(rs).dom().finite(),
        map_of(rs).dom().len() == rs.len(),
    decreases rs.len(),
{
    if rs.len() > 0 {
        assert(keys_unique(rs.drop_last()));
        lemma_map_of_len(rs.drop_last());
        lemma_map_of_contains(rs.drop_last(), rs.last().identity);
        assert forall|j: int| 0 <= j < rs.drop_last().len() implies (
        #[trigger] rs.drop_last()[j].identity) != rs.last().identity by {
            assert(rs[j].identity != rs[rs.len() - 1].identity);
        }
        assert(!map_of(rs.drop_last()).contains_key(rs.last().identity));
        assert(map_of(rs).dom() =~= map_of(rs.drop_last()).dom().insert(rs.last().identity));
    }
}

/// The authoritative mapping from identity key to record.
pub struct IndexStore {
    records: Vec<Record>,
}

impl View for IndexStore {
    type V = Map<Seq<char>, RecordView>;

    closed spec fn view(&self) -> Map<Seq<char>, RecordView> {
        map_of(self.records.deep_view())
    }
}

impl IndexStore {
    /// The store's internal well-formedness: identity keys are unique.
    pub closed spec fn wf(self) -> bool {
        keys_unique(self.records.deep_view())
    }

    /// Every key maps to a record that carries that same key as its
    /// identity; no operation can leave a malformed record behind.
    pub proof fn lemma_identity_coherent(self, k: Seq<char>)
        requires
            self.wf(),
            self@.contains_key(k),
        ensures
            self@[k].identity == k,
    {
        lemma_map_of_contains(self.records.deep_view(), k);
        let i = choose|i: int|
            0 <= i < self.records.deep_view().len() && (#[trigger] self.records.deep_view()[i].identity)
                == k;
        lemma_map_of_get(self.records.deep_view(), i);
    }

    /// Creates an empty store.
    pub fn new() -> (r: IndexStore)
        ensures
            r.wf(),
            r@ == Map::<Seq<char>, RecordView>::empty(),
    {
        IndexStore { records: Vec::new() }
    }

    /// The number of indexed files.
    pub fn len(&self) -> (n: usize)
        requires
            self.wf(),
        ensures
            self@.dom().finite(),
            n == self@.dom().len(),
    {
        proof {
            lemma_map_of_len(self.records.deep_view());
        }
        self.records.len()
    }

    /// The index of the record holding `key`, if any.
    fn index_of_key(&self, key: &String) -> (r: Option<usize>)
        ensures
            match r {
                Some(i) => i < self.records@.len() && self.records.deep_view()[i as int].identity
                    == key@,
                None => forall|i: int|
                    0 <= i < self.records@.len() ==> (#[trigger] self.records.deep_view()[i].identity)
                        != key@,
            },
    {
        let n = self.records.len();
        let mut i: usize = 0;
        while i < n
            invariant
                0 <= i <= n,
                n == self.records@.len(),
                forall|j: int|
                    0 <= j < i ==> (#[trigger] self.records.deep_view()[j].identity) != key@,
            decreases n - i,
        {
            if self.records[i].identity.eq(key) {
                return Some(i);
            }
            i = i + 1;
        }
        None
    }

    /// Whether `key` is currently indexed.
    pub fn contains_key(&self, key: &String) -> (r: bool)
        ensures
            r == self@.contains_key(key@),
    {
        proof {
            lemma_map_of_contains(self.records.deep_view(), key@);
        }
        self.index_of_key(key).is_some()
    }

    /// The record stored under `key`, if any.
    pub fn get(&self, key: &String) -> (r: Option<&Record>)
        requires
            self.wf(),
        ensures
            match r {
                Some(rec) => self@.contains_key(key@) && rec@ == self@[key@],
                None => !self@.contains_key(key@),
            },
    {
        proof {
            lemma_map_of_contains(self.records.deep_view(), key@);
        }
        match self.index_of_key(key) {
            Some(i) => {
                proof {
                    lemma_map_of_get(self.records.deep_view(), i as int);
                }
                Some(&self.records[i])
            },
            None => None,
        }
    }

    /// Inserts `record` under its identity key, replacing whole any record
    /// already there.
    pub fn upsert(&mut self, record: Record)
        requires
            old(self).wf(),
        ensures
            final(self).wf(),
            final(self)@ == old(self)@.insert(record.identity@, record@),
    {
        let ghost rs = self.records.deep_view();
        match self.index_of_key(&record.identity) {
            Some(i) => {
                proof {
                    lemma_map_of_update(rs, i as int, record@);
                }
                self.records[i] = record;
                proof {
                    assert(self.records.deep_view() =~= rs.update(i as int, record@));
                }
            },
            None => {
                proof {
                    lemma_map_of_push(rs, record@);
                }
                self.records.push(record);
                proof {
                    assert(self.records.deep_view() =~= rs.push(record@));
                }
            },
        }
    }

    /// Removes `key`, returning the prior record; removing an absent key
    /// is a no-op returning `None`, never an error.
    pub fn remove(&mut self, key: &String) -> (r: Option<Record>)
        requires
            old(self).wf(),
        ensures
            final(self).wf(),
            final(self)@ == old(self)@.remove(key@),
            match r {
                Some(rec) => old(self)@.contains_key(key@) && rec@ == old(self)@[key@],
                None => !old(self)@.contains_key(key@),
            },
    {
        let ghost rs = self.records.deep_view();
        proof {
            lemma_map_of_contains(rs, key@);
        }
        match self.index_of_key(key) {
            Some(i) => {
                proof {
                    lemma_map_of_get(rs, i as int);
                    lemma_map_of_remove(rs, i as int);
                }
                let rec = self.records.remove(i);
                proof {
                    assert(self.records.deep_view() =~= rs.remove(i as int));
                }
                Some(rec)
            },
            None => {
                proof {
                    assert(old(self)@ =~= old(self)@.remove(key@));
                }
                None
            },
        }
    }

    /// Relocates the record under `from` to `to`: its identity field is
    /// updated, its token and metadata are left untouched, and `from` is
    /// no longer indexed. When `from` is absent nothing moves and the
    /// store is unchanged; the caller treats the rename as a fresh
    /// creation of `to`.
    pub fn rename(&mut self, from: &String, to: String) -> (moved: bool)
        requires
            old(self).wf(),
        ensures
            final(self).wf(),
            moved == old(self)@.contains_key(from@),
            if moved {
                final(self)@ == old(self)@.remove(from@).insert(
                    to@,
                    RecordView {
                        identity: to@,
                        token: old(self)@[from@].token,
                        metadata: old(self)@[from@].metadata,
                    },
                )
            } else {
                final(self)@ == old(self)@
            },
    {
        match self.remove(from) {
            Some(rec) => {
                let moved_rec = Record { identity: to, token: rec.token, metadata: rec.metadata };
                self.upsert(moved_rec);
                true
            },
            None => false,
        }
    }

    /// The set of identity keys currently indexed, as a copied snapshot.
    pub fn snapshot_keys(&self) -> (r: Vec<String>)
        requires
            self.wf(),
        ensures
            r.deep_view().no_duplicates(),
            r.deep_view().to_set() == self@.dom(),
    {
        let n = self.records.len();
        let mut keys: Vec<String> = Vec::new();
        let mut i: usize = 0;
        while i < n
            invariant
                0 <= i <= n,
                n == self.records@.len(),
                keys@.len() == i,
                forall|j: int|
                    0 <= j < i ==> (#[trigger] keys.deep_view()[j])
                        == self.records.deep_view()[j].identity,
            decreases n - i,
        {
            let k = self.records[i].identity.clone();
            let ghost prev = keys.deep_view();
            keys.push(k);
            proof {
                assert(keys.deep_view() =~= prev.push(
                    self.records.deep_view()[i as int].identity,
                ));
            }
            i = i + 1;
        }
        proof {
            let ks = keys.deep_view();
            let rs = self.records.deep_view();
            assert forall|x: int, y: int| 0 <= x < y < ks.len() implies (#[trigger] ks[x]) != (
            #[trigger] ks[y]) by {
                assert(rs[x].identity != rs[y].identity);
            }
            assert forall|k: Seq<char>| ks.to_set().contains(k) implies self@.contains_key(k) by {
                let j = choose|j: int| 0 <= j < ks.len() && ks[j] == k;
                lemma_map_of_get(rs, j);
            }
            assert forall|k: Seq<char>| self@.contains_key(k) implies ks.to_set().contains(k) by {
                lemma_map_of_contains(rs, k);
                let j = choose|j: int| 0 <= j < rs.len() && (#[trigger] rs[j].identity) == k;
                assert(ks[j] == k);
            }
            assert(ks.to_set() =~= self@.dom());
        }
        keys
    }
}

} // verus!
