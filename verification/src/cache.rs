//! The queryable, versioned, named view over a record store, a
//! primary-key lookup and secondary indexes. Every mutation keeps the
//! indexes exactly what a rebuild from the store would produce, assigns
//! versions that only grow, and keeps the primary-key lookup a bijection
//! onto the live records.

use vstd::prelude::*;

use crate::alist::{
    alist_map, keys_distinct, lemma_alist_contains, lemma_alist_index, lemma_alist_push,
    lemma_alist_remove,
};
use crate::errors::CacheError;
use crate::fields::{
    field_eq, field_le, field_le_exec, field_wf, is_orderable_exec, is_wf_exec, same_variant_exec,
    Field, FieldV,
};
use crate::index::{index_def_wf, index_keys, text_tokens, tokenize, SecondaryIndex};
use crate::record_store::RecordStore;
use crate::records::{
    fields_eq, get_primary_key, spec_primary_key, IndexDefinition, IndexDefinitionV, Record,
    RecordV, Schema,
};

verus! {

/// The primary key of a row under a schema.
pub open spec fn record_key(primary_index: Seq<usize>, values: Seq<FieldV>) -> Seq<FieldV> {
    spec_primary_key(primary_index, values)
}

/// A named, transactional, versioned record view.
pub struct Cache {
    pub name: String,
    pub schema: Schema,
    pub store: RecordStore,
    pub pk: Vec<(Vec<Field>, u64)>,
    pub indexes: Vec<SecondaryIndex>,
    pub commits: u64,
}

impl Cache {
    /// The primary-key lookup as key/identifier pairs.
    pub open spec fn pk_pairs(&self) -> Seq<(Seq<FieldV>, u64)> {
        self.pk@.map(|_i: int, e: (Vec<Field>, u64)| (e.0.deep_view(), e.1))
    }

    /// The primary-key lookup as a map.
    pub open spec fn pk_map(&self) -> Map<Seq<FieldV>, u64> {
        alist_map(self.pk_pairs())
    }

    /// The live records, by surrogate identifier.
    pub open spec fn contents(&self) -> Map<u64, RecordV> {
        self.store.contents()
    }

    /// Whether the schema declares a primary key.
    pub open spec fn has_pk(&self) -> bool {
        self.schema.primary_index@.len() > 0
    }

    /// The column count rows of this cache have.
    pub open spec fn arity(&self) -> nat {
        self.schema.fields@.len()
    }

    /// The primary key of a stored row.
    pub open spec fn key_of(&self, rec: RecordV) -> Seq<FieldV> {
        record_key(self.schema.primary_index@, rec.values)
    }

    /// Everything the mutations preserve: a well-formed store, a
    /// primary-key lookup that is a bijection onto the live records,
    /// indexes that equal a rebuild from the store, and a version on
    /// every stored record.
    pub open spec fn wf(&self) -> bool {
        &&& self.schema.wf()
        &&& self.store.wf()
        &&& keys_distinct(self.pk_pairs())
        &&& forall|id: u64| #[trigger]
            self.contents().dom().contains(id) ==> self.contents()[id].values.len() == self.arity()
                && self.contents()[id].version is Some
        &&& forall|i: int|
            0 <= i < self.pk_pairs().len() ==> self.contents().dom().contains(
                (#[trigger] self.pk_pairs()[i]).1,
            ) && self.key_of(self.contents()[self.pk_pairs()[i].1]) == self.pk_pairs()[i].0
        &&& self.has_pk() ==> forall|id: u64| #[trigger]
            self.contents().dom().contains(id) ==> self.pk_map().dom().contains(
                self.key_of(self.contents()[id]),
            ) && self.pk_map()[self.key_of(self.contents()[id])] == id
        &&& !self.has_pk() ==> self.pk@.len() == 0
        &&& forall|i: int|
            0 <= i < self.indexes@.len() ==> (#[trigger] self.indexes@[i]).consistent_with(
                self.contents(),
            ) && index_def_wf(self.indexes@[i].def(), self.arity())
    }

    /// The unchanging parts: name, schema and index definitions.
    pub open spec fn same_config(&self, other: &Self) -> bool {
        &&& self.name@ == other.name@
        &&& self.schema == other.schema
        &&& self.indexes@.len() == other.indexes@.len()
        &&& forall|i: int|
            0 <= i < self.indexes@.len() ==> (#[trigger] self.indexes@[i]).def()
                == other.indexes@[i].def()
    }

    /// Create an empty cache for a schema and its secondary indexes.
    pub fn new(name: String, schema: Schema, index_defs: Vec<IndexDefinition>) -> (r: Self)
        requires
            schema.wf(),
            forall|i: int|
                0 <= i < index_defs@.len() ==> index_def_wf(
                    (#[trigger] index_defs@[i]).deep_view(),
                    schema.fields@.len(),
                ),
        ensures
            r.wf(),
            r.name@ == name@,
            r.schema == schema,
            r.contents() == Map::<u64, RecordV>::empty(),
            r.pk_map() == Map::<Seq<FieldV>, u64>::empty(),
            r.store.pairs().len() == 0,
            r.store.next_id == 0,
            r.commits == 0,
            r.indexes@.len() == index_defs@.len(),
            forall|i: int|
                0 <= i < index_defs@.len() ==> (#[trigger] r.indexes@[i]).def()
                    == index_defs@[i].deep_view(),
    {
        let mut indexes: Vec<SecondaryIndex> = Vec::new();
        let mut defs = index_defs;
        let ghost defs0 = defs@;
        let n = defs.len();
        let mut i: usize = 0;
        while defs.len() > 0
            invariant
                n == defs0.len(),
                indexes@.len() + defs@.len() == defs0.len(),
                indexes@.len() == i,
                i <= n,
                forall|j: int| 0 <= j < defs@.len() ==> defs@[j] == defs0[i + j],
                forall|j: int|
                    0 <= j < i ==> (#[trigger] indexes@[j]).def() == defs0[j].deep_view()
                        && indexes@[j].postings().len() == 0,
            decreases defs@.len(),
        {
            let ghost defs_prev = defs@;
            let d = defs.remove(0);
            proof {
                assert(d == defs0[i as int]);
                assert forall|j: int| 0 <= j < defs@.len() implies defs@[j] == defs0[i + 1 + j] by {
                    assert(defs@[j] == defs_prev[j + 1]);
                }
            }
            indexes.push(SecondaryIndex::new(d));
            i = i + 1;
        }
        let r = Cache { name, schema, store: RecordStore::new(), pk: Vec::new(), indexes, commits: 0 };
        proof {
            assert(r.pk_pairs() =~= Seq::<(Seq<FieldV>, u64)>::empty());
            assert(r.store.pairs() =~= Seq::<(u64, RecordV)>::empty());
            assert forall|j: int|
                0 <= j < r.indexes@.len() implies (#[trigger] r.indexes@[j]).consistent_with(
                r.contents(),
            ) && index_def_wf(r.indexes@[j].def(), r.arity()) by {
                assert(r.indexes@[j].postings() =~= Seq::<(Seq<FieldV>, u64)>::empty());
                assert(defs0[j].deep_view() == index_defs@[j].deep_view());
            }
        }
        r
    }

    /// Find the position of a primary key in the lookup.
    fn find_pk(&self, key: &Vec<Field>) -> (r: Option<usize>)
        ensures
            match r {
                Some(i) => i < self.pk_pairs().len() && self.pk_pairs()[i as int].0
                    == key.deep_view(),
                None => forall|i: int|
                    0 <= i < self.pk_pairs().len() ==> (#[trigger] self.pk_pairs()[i]).0
                        != key.deep_view(),
            },
    {
        let mut i: usize = 0;
        while i < self.pk.len()
            invariant
                i <= self.pk@.len(),
                forall|j: int| 0 <= j < i ==> (#[trigger] self.pk_pairs()[j]).0 != key.deep_view(),
            decreases self.pk@.len() - i,
        {
            proof {
                assert(self.pk_pairs()[i as int].0 == self.pk@[i as int].0.deep_view());
            }
            if fields_eq(&self.pk[i].0, key) {
                return Some(i);
            }
            i = i + 1;
        }
        None
    }

    /// The identifier space is not exhausted.
    pub open spec fn can_insert(&self) -> bool {
        self.store.can_insert()
    }

    /// Store a new record: fail on a duplicate primary key, else assign
    /// version 0 and a fresh surrogate identifier, index the record, and
    /// map its key to the identifier.
    pub fn insert(&mut self, record: &mut Record) -> (r: Result<u64, CacheError>)
        requires
            old(self).wf(),
            old(record)@.values.len() == old(self).arity(),
            old(self).can_insert(),
        ensures
            final(self).wf(),
            old(self).same_config(final(self)),
            final(self).commits == old(self).commits,
            ({
                let key = old(self).key_of(old(record)@);
                match r {
                    Ok(id) => {
                        &&& old(self).has_pk() ==> !old(self).pk_map().dom().contains(key)
                        &&& id == old(self).store.next_id
                        &&& final(self).store.next_id == old(self).store.next_id + 1
                        &&& final(record)@.values == old(record)@.values
                        &&& final(record)@.schema_id == old(record)@.schema_id
                        &&& final(record)@.version == Some(0u32)
                        &&& !old(self).contents().dom().contains(id)
                        &&& final(self).contents() == old(self).contents().insert(
                            id,
                            final(record)@,
                        )
                        &&& final(self).pk_map() == if old(self).has_pk() {
                            old(self).pk_map().insert(key, id)
                        } else {
                            old(self).pk_map()
                        }
                    },
                    Err(e) => {
                        &&& e is DuplicateKey
                        &&& old(self).has_pk() && old(self).pk_map().dom().contains(key)
                        &&& *final(self) == *old(self)
                        &&& *final(record) == *old(record)
                    },
                }
            }),
    {
        let ghost key = self.key_of(record@);
        proof {
            assert(record.values.deep_view().len() == record.values@.len());
        }
        let has_pk = self.schema.primary_index.len() > 0;
        let mut k: Vec<Field> = Vec::new();
        if has_pk {
            k = get_primary_key(&self.schema.primary_index, &record.values);
            proof {
                assert(k.deep_view() == key);
            }
            match self.find_pk(&k) {
                Some(i) => {
                    proof {
                        lemma_alist_index(self.pk_pairs(), i as int);
                    }
                    return Err(CacheError::DuplicateKey);
                },
                None => {
                    proof {
                        lemma_alist_contains(self.pk_pairs(), key);
                    }
                },
            }
        }
        record.version = Some(0);
        let stored = record.clone();
        let ghost c0 = self.contents();
        let id = self.store.insert(stored);
        let ghost c1 = self.contents();
        proof {
            assert(c1 == c0.insert(id, record@));
        }
        indexes_add(&mut self.indexes, id, record, Ghost(c0));
        if has_pk {
            let ghost pk0 = self.pk_pairs();
            proof {
                lemma_alist_push(pk0, (key, id));
            }
            self.pk.push((k, id));
            proof {
                assert(self.pk_pairs() =~= pk0.push((key, id)));
            }
        }
        proof {
            assert forall|i: int|
                0 <= i < self.pk_pairs().len() implies self.contents().dom().contains(
                (#[trigger] self.pk_pairs()[i]).1,
            ) && self.key_of(self.contents()[self.pk_pairs()[i].1]) == self.pk_pairs()[i].0 by {
                if i < old(self).pk_pairs().len() {
                    assert(self.pk_pairs()[i] == old(self).pk_pairs()[i]);
                    assert(old(self).pk_pairs()[i].1 != id);
                } else {
                    assert(self.pk_pairs()[i] == (key, id));
                }
            }
            if self.has_pk() {
                assert forall|id2: u64| #[trigger]
                    self.contents().dom().contains(id2) implies self.pk_map().dom().contains(
                    self.key_of(self.contents()[id2]),
                ) && self.pk_map()[self.key_of(self.contents()[id2])] == id2 by {
                    if id2 != id {
                        assert(c0.dom().contains(id2) && c0[id2] == self.contents()[id2]);
                    }
                }
            }
        }
        Ok(id)
    }

    /// Fetch the current record and version under a primary key.
    pub fn get(&self, key: &Vec<Field>) -> (r: Result<Record, CacheError>)
        requires
            self.wf(),
        ensures
            match r {
                Ok(rec) => {
                    let id = self.pk_map()[key.deep_view()];
                    self.pk_map().dom().contains(key.deep_view()) && rec@ == self.contents()[id]
                },
                Err(e) => !self.pk_map().dom().contains(key.deep_view()) && e is NotFound,
            },
    {
        proof {
            lemma_alist_contains(self.pk_pairs(), key.deep_view());
        }
        match self.find_pk(key) {
            Some(i) => {
                proof {
                    lemma_alist_index(self.pk_pairs(), i as int);
                }
                let id = self.pk[i].1;
                proof {
                    assert(self.pk_pairs()[i as int].1 == id);
                }
                match self.store.get(id) {
                    Ok(rec) => Ok(rec.clone()),
                    Err(_) => {
                        proof {
                            assert(false);
                        }
                        Err(CacheError::NotFound)
                    },
                }
            },
            None => Err(CacheError::NotFound),
        }
    }

    /// Replace the record under a primary key: the old entry leaves the
    /// store and the indexes, the new record enters under a strictly
    /// larger version and a fresh identifier, and the key mapping moves
    /// to the new record's own key — the old key resolves no longer, the
    /// new key resolves to the new values, within the same transaction.
    /// Returns the replaced version.
    pub fn update(&mut self, key: &Vec<Field>, record: &mut Record) -> (r: Result<u32, CacheError>)
        requires
            old(self).wf(),
            old(record)@.values.len() == old(self).arity(),
            old(self).can_insert(),
            old(self).pk_map().dom().contains(key.deep_view()) ==> (old(self).contents()[old(
                self,
            ).pk_map()[key.deep_view()]].version matches Some(v) && v < u32::MAX),
        ensures
            final(self).wf(),
            old(self).same_config(final(self)),
            final(self).commits == old(self).commits,
            ({
                let kv = key.deep_view();
                let new_key = old(self).key_of(old(record)@);
                match r {
                    Ok(old_version) => {
                        let old_id = old(self).pk_map()[kv];
                        let new_id = final(self).pk_map()[new_key];
                        &&& final(self).store.next_id == old(self).store.next_id + 1
                        &&& old(self).pk_map().dom().contains(kv)
                        &&& old(self).contents()[old_id].version == Some(old_version)
                        &&& final(record)@.values == old(record)@.values
                        &&& final(record)@.schema_id == old(record)@.schema_id
                        &&& final(record)@.version == Some((old_version + 1) as u32)
                        &&& old_version < old_version + 1
                        &&& new_key == kv || !old(self).pk_map().dom().contains(new_key)
                        &&& final(self).pk_map().dom().contains(new_key)
                        &&& !old(self).contents().dom().contains(new_id)
                        &&& new_id != old_id
                        &&& final(self).contents() == old(self).contents().remove(old_id).insert(
                            new_id,
                            final(record)@,
                        )
                        &&& final(self).pk_map() == old(self).pk_map().remove(kv).insert(
                            new_key,
                            new_id,
                        )
                    },
                    Err(e) => {
                        &&& *final(self) == *old(self)
                        &&& *final(record) == *old(record)
                        &&& match e {
                            CacheError::NotFound => !old(self).pk_map().dom().contains(kv),
                            CacheError::DuplicateKey => old(self).pk_map().dom().contains(kv)
                                && new_key != kv && old(self).pk_map().dom().contains(new_key),
                            _ => false,
                        }
                    },
                }
            }),
    {
        let ghost kv = key.deep_view();
        let ghost new_key = self.key_of(record@);
        proof {
            lemma_alist_contains(self.pk_pairs(), kv);
        }
        let i = match self.find_pk(key) {
            Some(i) => i,
            None => {
                return Err(CacheError::NotFound);
            },
        };
        proof {
            lemma_alist_index(self.pk_pairs(), i as int);
        }
        let old_id = self.pk[i].1;
        proof {
            assert(self.pk_pairs()[i as int].1 == old_id);
            assert(self.contents().dom().contains(old_id));
        }
        let old_ver: u32 = match self.store.get(old_id) {
            Ok(rec) => match rec.version {
                Some(v) => v,
                None => {
                    proof {
                        assert(false);
                    }
                    0
                },
            },
            Err(_) => {
                proof {
                    assert(false);
                }
                0
            },
        };
        proof {
            assert(record.values.deep_view().len() == record.values@.len());
        }
        let nk = get_primary_key(&self.schema.primary_index, &record.values);
        proof {
            assert(nk.deep_view() == new_key);
        }
        let same_key = fields_eq(&nk, key);
        if !same_key {
            match self.find_pk(&nk) {
                Some(j) => {
                    proof {
                        lemma_alist_index(self.pk_pairs(), j as int);
                    }
                    return Err(CacheError::DuplicateKey);
                },
                None => {
                    proof {
                        lemma_alist_contains(self.pk_pairs(), new_key);
                    }
                },
            }
        }
        record.version = Some(old_ver + 1);
        let ghost c0 = self.contents();
        let ghost pk0 = self.pk_pairs();
        indexes_remove(&mut self.indexes, old_id, Ghost(c0));
        match self.store.delete(old_id) {
            Ok(()) => {},
            Err(_) => {
                proof {
                    assert(false);
                }
            },
        }
        let ghost c1 = self.contents();
        proof {
            lemma_alist_remove(pk0, i as int);
        }
        self.pk.remove(i);
        proof {
            assert(self.pk_pairs() =~= pk0.remove(i as int));
        }
        let ghost pk1 = self.pk_pairs();
        let stored = record.clone();
        let new_id = self.store.insert(stored);
        let ghost c2 = self.contents();
        proof {
            assert(c2 == c1.insert(new_id, record@));
            self.store.lemma_contains_position(new_id);
            assert(new_id != old_id) by {
                assert(old(self).store.wf());
                let sp = old(self).store.pairs();
                lemma_alist_contains(sp, old_id);
                let p = choose|p: int| 0 <= p < sp.len() && (#[trigger] sp[p]).0 == old_id;
                assert(sp[p].0 < old(self).store.next_id);
            }
            assert(!c0.dom().contains(new_id));
        }
        indexes_add(&mut self.indexes, new_id, record, Ghost(c1));
        proof {
            lemma_alist_push(pk1, (new_key, new_id));
            assert forall|j: int| 0 <= j < pk1.len() implies (#[trigger] pk1[j]).0 != new_key by {
                let j0 = if j < i {
                    j
                } else {
                    j + 1
                };
                assert(pk1[j] == pk0[j0]);
                if same_key {
                    assert(pk0[j0].0 != kv);
                } else {
                }
            }
        }
        self.pk.push((nk, new_id));
        proof {
            assert(self.pk_pairs() =~= pk1.push((new_key, new_id)));
            assert(self.pk_map() == alist_map(pk0).remove(kv).insert(new_key, new_id));
            // the surviving key mappings still point at live, unmoved records
            assert forall|j: int|
                0 <= j < self.pk_pairs().len() implies self.contents().dom().contains(
                (#[trigger] self.pk_pairs()[j]).1,
            ) && self.key_of(self.contents()[self.pk_pairs()[j].1]) == self.pk_pairs()[j].0 by {
                if j < pk1.len() {
                    let j0 = if j < i {
                        j
                    } else {
                        j + 1
                    };
                    assert(self.pk_pairs()[j] == pk0[j0]);
                    assert(c0.dom().contains(pk0[j0].1));
                    assert(pk0[j0].1 != old_id) by {
                        if pk0[j0].1 == old_id {
                            assert(pk0[j0].0 == old(self).key_of(c0[old_id]));
                            assert(pk0[i as int].0 == old(self).key_of(c0[old_id]));
                        }
                    }
                    assert(pk0[j0].1 != new_id);
                    assert(self.contents()[pk0[j0].1] == c0[pk0[j0].1]);
                } else {
                    assert(self.pk_pairs()[j] == (new_key, new_id));
                }
            }
            if self.has_pk() {
                assert forall|id2: u64| #[trigger]
                    self.contents().dom().contains(id2) implies self.pk_map().dom().contains(
                    self.key_of(self.contents()[id2]),
                ) && self.pk_map()[self.key_of(self.contents()[id2])] == id2 by {
                    if id2 != new_id {
                        assert(c0.dom().contains(id2) && id2 != old_id);
                        assert(self.contents()[id2] == c0[id2]);
                        let k2 = old(self).key_of(c0[id2]);
                        assert(alist_map(pk0).dom().contains(k2) && alist_map(pk0)[k2] == id2);
                        assert(k2 != kv) by {
                            if k2 == kv {
                                assert(alist_map(pk0)[kv] == old_id);
                            }
                        }
                        assert(k2 != new_key) by {
                            if k2 == new_key {
                                if same_key {
                                    assert(new_key == kv);
                                } else {
                                    assert(alist_map(pk0).dom().contains(new_key));
                                }
                            }
                        }
                    }
                }
            }
        }
        Ok(old_ver)
    }

    /// Remove the record under a primary key from the store, the indexes
    /// and the key mapping; returns the removed version.
    pub fn delete(&mut self, key: &Vec<Field>) -> (r: Result<u32, CacheError>)
        requires
            old(self).wf(),
        ensures
            final(self).wf(),
            old(self).same_config(final(self)),
            final(self).commits == old(self).commits,
            ({
                let kv = key.deep_view();
                match r {
                    Ok(version) => {
                        let old_id = old(self).pk_map()[kv];
                        &&& final(self).store.next_id == old(self).store.next_id
                        &&& old(self).pk_map().dom().contains(kv)
                        &&& old(self).contents()[old_id].version == Some(version)
                        &&& final(self).contents() == old(self).contents().remove(old_id)
                        &&& final(self).pk_map() == old(self).pk_map().remove(kv)
                    },
                    Err(e) => {
                        &&& e is NotFound
                        &&& !old(self).pk_map().dom().contains(kv)
                        &&& *final(self) == *old(self)
                    },
                }
            }),
    {
        let ghost kv = key.deep_view();
        proof {
            lemma_alist_contains(self.pk_pairs(), kv);
        }
        let i = match self.find_pk(key) {
            Some(i) => i,
            None => {
                return Err(CacheError::NotFound);
            },
        };
        proof {
            lemma_alist_index(self.pk_pairs(), i as int);
        }
        let old_id = self.pk[i].1;
        proof {
            assert(self.pk_pairs()[i as int].1 == old_id);
            assert(self.contents().dom().contains(old_id));
        }
        let old_ver: u32 = match self.store.get(old_id) {
            Ok(rec) => match rec.version {
                Some(v) => v,
                None => {
                    proof {
                        assert(false);
                    }
                    0
                },
            },
            Err(_) => {
                proof {
                    assert(false);
                }
                0
            },
        };
        let ghost c0 = self.contents();
        let ghost pk0 = self.pk_pairs();
        indexes_remove(&mut self.indexes, old_id, Ghost(c0));
        match self.store.delete(old_id) {
            Ok(()) => {},
            Err(_) => {
                proof {
                    assert(false);
                }
            },
        }
        proof {
            lemma_alist_remove(pk0, i as int);
        }
        self.pk.remove(i);
        proof {
            assert(self.pk_pairs() =~= pk0.remove(i as int));
            assert forall|j: int|
                0 <= j < self.pk_pairs().len() implies self.contents().dom().contains(
                (#[trigger] self.pk_pairs()[j]).1,
            ) && self.key_of(self.contents()[self.pk_pairs()[j].1]) == self.pk_pairs()[j].0 by {
                let j0 = if j < i {
                    j
                } else {
                    j + 1
                };
                assert(self.pk_pairs()[j] == pk0[j0]);
                assert(c0.dom().contains(pk0[j0].1));
                assert(pk0[j0].1 != old_id) by {
                    if pk0[j0].1 == old_id {
                        assert(pk0[j0].0 == old(self).key_of(c0[old_id]));
                        assert(pk0[i as int].0 == old(self).key_of(c0[old_id]));
                    }
                }
                assert(self.contents()[pk0[j0].1] == c0[pk0[j0].1]);
            }
            if self.has_pk() {
                assert forall|id2: u64| #[trigger]
                    self.contents().dom().contains(id2) implies self.pk_map().dom().contains(
                    self.key_of(self.contents()[id2]),
                ) && self.pk_map()[self.key_of(self.contents()[id2])] == id2 by {
                    assert(c0.dom().contains(id2) && id2 != old_id);
                    assert(self.contents()[id2] == c0[id2]);
                    let k2 = old(self).key_of(c0[id2]);
                    assert(alist_map(pk0).dom().contains(k2) && alist_map(pk0)[k2] == id2);
                    assert(k2 != kv) by {
                        if k2 == kv {
                            assert(alist_map(pk0)[kv] == old_id);
                        }
                    }
                }
            }
        }
        Ok(old_ver)
    }

    /// Finalize the current transaction: every mutation since the last
    /// commit becomes part of the committed state, atomically.
    pub fn commit(&mut self) -> (r: Result<(), CacheError>)
        requires
            old(self).wf(),
            old(self).commits < u64::MAX,
        ensures
            final(self).wf(),
            old(self).same_config(final(self)),
            final(self).contents() == old(self).contents(),
            final(self).pk_map() == old(self).pk_map(),
            final(self).store == old(self).store,
            final(self).commits == old(self).commits + 1,
            r is Ok,
    {
        self.commits = self.commits + 1;
        Ok(())
    }

    /// Find an ordered index over exactly this column.
    fn find_sorted_index(&self, col: usize) -> (r: Option<usize>)
        ensures
            match r {
                Some(i) => i < self.indexes@.len() && self.indexes@[i as int].def()
                    == IndexDefinitionV::SortedInverted(seq![col]),
                None => true,
            },
    {
        let mut i: usize = 0;
        while i < self.indexes.len()
            invariant
                i <= self.indexes@.len(),
            decreases self.indexes@.len() - i,
        {
            match &self.indexes[i].definition {
                IndexDefinition::SortedInverted(cols) => {
                    if cols.len() == 1 && cols[0] == col {
                        proof {
                            assert(cols@ =~= seq![col]);
                        }
                        return Some(i);
                    }
                },
                _ => {},
            }
            i = i + 1;
        }
        None
    }

    /// Find a token index over this column.
    fn find_fulltext_index(&self, col: usize) -> (r: Option<usize>)
        ensures
            match r {
                Some(i) => i < self.indexes@.len() && self.indexes@[i as int].def()
                    == IndexDefinitionV::FullText(col),
                None => true,
            },
    {
        let mut i: usize = 0;
        while i < self.indexes.len()
            invariant
                i <= self.indexes@.len(),
            decreases self.indexes@.len() - i,
        {
            match &self.indexes[i].definition {
                IndexDefinition::FullText(c) => {
                    if *c == col {
                        return Some(i);
                    }
                },
                _ => {},
            }
            i = i + 1;
        }
        None
    }

    /// Evaluate a query by a full scan of the store.
    pub fn scan_ids(&self, q: &QueryExpression) -> (r: Vec<u64>)
        requires
            self.wf(),
        ensures
            forall|a: int, b: int| 0 <= a < b < r@.len() ==> r@[a] != r@[b],
            forall|id: u64| #[trigger]
                r@.contains(id) <==> self.contents().dom().contains(id) && matches_query(
                    self.contents()[id],
                    q,
                ),
            q.filter is None ==> r@.len() == self.store.pairs().len(),
    {
        let mut r: Vec<u64> = Vec::new();
        let mut i: usize = 0;
        let n = self.store.len();
        while i < n
            invariant
                self.wf(),
                n == self.store.pairs().len(),
                i <= n,
                q.filter is None ==> r@.len() == i,
                forall|a: int, b: int| 0 <= a < b < r@.len() ==> r@[a] != r@[b],
                forall|id: u64| #[trigger]
                    r@.contains(id) <==> exists|j: int|
                        0 <= j < i && (#[trigger] self.store.pairs()[j]).0 == id && matches_query(
                            self.store.pairs()[j].1,
                            q,
                        ),
            decreases n - i,
        {
            let entry = self.store.entry_at(i);
            let keep = match &q.filter {
                Some(f) => matches_exec(entry.1, f),
                None => true,
            };
            let ghost prev = r@;
            if keep {
                r.push(entry.0);
                proof {
                    assert(r@ == prev.push(entry.0));
                    assert forall|x: u64| prev.contains(x) implies r@.contains(x) by {
                        let ix = choose|ix: int| 0 <= ix < prev.len() && prev[ix] == x;
                        assert(r@[ix] == x);
                    }
                    assert forall|a: int, b: int| 0 <= a < b < r@.len() implies r@[a] != r@[b] by {
                        if b == r@.len() - 1 {
                            assert(prev.contains(r@[a]));
                            let j = choose|j: int|
                                0 <= j < i && (#[trigger] self.store.pairs()[j]).0 == r@[a]
                                    && matches_query(self.store.pairs()[j].1, q);
                            assert(self.store.pairs()[i as int].0 != self.store.pairs()[j].0);
                        }
                    }
                    assert forall|id: u64| #[trigger] r@.contains(id) implies exists|j: int|
                        0 <= j < i + 1 && (#[trigger] self.store.pairs()[j]).0 == id
                            && matches_query(self.store.pairs()[j].1, q) by {
                        let ix = choose|ix: int| 0 <= ix < r@.len() && r@[ix] == id;
                        if ix < prev.len() {
                            assert(prev.contains(id));
                        } else {
                            assert(self.store.pairs()[i as int].0 == id);
                        }
                    }
                    assert forall|id: u64|
                        exists|j: int|
                            0 <= j < i + 1 && (#[trigger] self.store.pairs()[j]).0 == id
                                && matches_query(
                                self.store.pairs()[j].1,
                                q,
                            ) implies #[trigger] r@.contains(id) by {
                        let j = choose|j: int|
                            0 <= j < i + 1 && (#[trigger] self.store.pairs()[j]).0 == id
                                && matches_query(self.store.pairs()[j].1, q);
                        if j < i {
                            assert(prev.contains(id));
                        } else {
                            assert(r@[r@.len() - 1] == id);
                        }
                    }
                }
            } else {
                proof {
                    assert forall|id: u64|
                        exists|j: int|
                            0 <= j < i + 1 && (#[trigger] self.store.pairs()[j]).0 == id
                                && matches_query(
                                self.store.pairs()[j].1,
                                q,
                            ) implies #[trigger] r@.contains(id) by {
                        let j = choose|j: int|
                            0 <= j < i + 1 && (#[trigger] self.store.pairs()[j]).0 == id
                                && matches_query(self.store.pairs()[j].1, q);
                        assert(j < i);
                    }
                }
            }
            i = i + 1;
        }
        proof {
            assert forall|id: u64| #[trigger]
                r@.contains(id) <==> self.contents().dom().contains(id) && matches_query(
                self.contents()[id],
                q,
            ) by {
                if r@.contains(id) {
                    let j = choose|j: int|
                        0 <= j < n && (#[trigger] self.store.pairs()[j]).0 == id && matches_query(
                            self.store.pairs()[j].1,
                            q,
                        );
                    self.store.lemma_scan_agrees(j);
                }
                if self.contents().dom().contains(id) && matches_query(self.contents()[id], q) {
                    self.store.lemma_contains_position(id);
                    let j = choose|j: int|
                        0 <= j < n && (#[trigger] self.store.pairs()[j]).0 == id;
                    self.store.lemma_scan_agrees(j);
                }
            }
        }
        r
    }

    /// Evaluate a query: answer from a secondary index where one fits the
    /// predicate, else fall back to a full scan. Either way the result is
    /// exactly the identifiers whose records match.
    pub fn query_ids(&self, q: &QueryExpression) -> (r: Vec<u64>)
        requires
            self.wf(),
        ensures
            forall|a: int, b: int| 0 <= a < b < r@.len() ==> r@[a] != r@[b],
            forall|id: u64| #[trigger]
                r@.contains(id) <==> self.contents().dom().contains(id) && matches_query(
                    self.contents()[id],
                    q,
                ),
            q.filter is None ==> r@.len() == self.store.pairs().len(),
    {
        match &q.filter {
            Some(FilterExpression::Eq(col, v)) => {
                match self.find_sorted_index(*col) {
                    Some(i) => {
                        let ghost def = self.indexes@[i as int].def();
                        let mut key: Vec<Field> = Vec::new();
                        key.push(v.clone());
                        proof {
                            assert(key.deep_view() =~= seq![v@]);
                        }
                        let r = self.indexes[i].ids_for_key(&key);
                        proof {
                            let idx = self.indexes@[i as int];
                            assert forall|id: u64| #[trigger]
                                r@.contains(id) <==> self.contents().dom().contains(id)
                                    && matches_query(self.contents()[id], q) by {
                                if r@.contains(id) {
                                    assert(idx.has_posting(seq![v@], id));
                                    let ps = idx.postings();
                                    let p = choose|p: int|
                                        0 <= p < ps.len() && #[trigger] ps[p] == (seq![v@], id);
                                    assert(crate::index::posting_valid(self.contents(), def, ps[p]));
                                    assert(self.contents().dom().contains(id));
                                    assert(seq![*col][0] == *col);
                                    assert(*col < self.arity());
                                    assert(self.contents()[id].values.len() == self.arity());
                                    let keys = index_keys(def, self.contents()[id].values);
                                    assert(keys.contains(seq![v@]));
                                    assert(keys[0] == spec_primary_key(
                                        seq![*col],
                                        self.contents()[id].values,
                                    ));
                                    let kk = choose|kk: int|
                                        0 <= kk < keys.len() && keys[kk] == seq![v@];
                                    assert(kk == 0);
                                    assert(keys[0] == seq![v@]);
                                    assert(spec_primary_key(seq![*col], self.contents()[id].values)
                                        =~= seq![self.contents()[id].values[*col as int]]);
                                    assert(seq![self.contents()[id].values[*col as int]][0]
                                        == self.contents()[id].values[*col as int]);
                                    assert(seq![v@][0] == v@);
                                    assert(self.contents()[id].values[*col as int] == v@);
                                }
                                if self.contents().dom().contains(id) && matches_query(
                                    self.contents()[id],
                                    q,
                                ) {
                                    let keys = index_keys(def, self.contents()[id].values);
                                    assert(seq![*col][0] == *col);
                                    assert(keys[0] == spec_primary_key(
                                        seq![*col],
                                        self.contents()[id].values,
                                    ));
                                    assert(spec_primary_key(seq![*col], self.contents()[id].values)
                                        =~= seq![v@]);
                                    assert(keys.contains(seq![v@]));
                                    assert(idx.has_posting(seq![v@], id));
                                }
                            }
                        }
                        r
                    },
                    None => self.scan_ids(q),
                }
            },
            Some(FilterExpression::Range(_, _, _)) => self.scan_ids(q),
            Some(FilterExpression::Contains(col, tok)) => {
                match self.find_fulltext_index(*col) {
                    Some(i) => {
                        let ghost def = self.indexes@[i as int].def();
                        let mut key: Vec<Field> = Vec::new();
                        key.push(Field::String(tok.clone()));
                        proof {
                            assert(key.deep_view() =~= seq![FieldV::String(tok@)]);
                        }
                        let r = self.indexes[i].ids_for_key(&key);
                        proof {
                            let idx = self.indexes@[i as int];
                            let kv = seq![FieldV::String(tok@)];
                            assert forall|id: u64| #[trigger]
                                r@.contains(id) <==> self.contents().dom().contains(id)
                                    && matches_query(self.contents()[id], q) by {
                                let f = |_i: int, t: Seq<char>| seq![FieldV::String(t)];
                                if r@.contains(id) {
                                    assert(idx.has_posting(kv, id));
                                    let ps = idx.postings();
                                    let p = choose|p: int|
                                        0 <= p < ps.len() && #[trigger] ps[p] == (kv, id);
                                    assert(self.contents().dom().contains(id));
                                    let toks = text_tokens(
                                        self.contents()[id].values[*col as int],
                                    );
                                    let keys = index_keys(def, self.contents()[id].values);
                                    assert(keys == toks.map(f));
                                    assert(keys.contains(kv));
                                    let kk = choose|kk: int|
                                        0 <= kk < keys.len() && keys[kk] == kv;
                                    assert(keys[kk] == f(kk, toks[kk]));
                                    assert(seq![FieldV::String(toks[kk])] == kv);
                                    assert(seq![FieldV::String(toks[kk])][0] == kv[0]);
                                    assert(toks[kk] == tok@);
                                    assert(toks.contains(tok@));
                                }
                                if self.contents().dom().contains(id) && matches_query(
                                    self.contents()[id],
                                    q,
                                ) {
                                    let toks = text_tokens(
                                        self.contents()[id].values[*col as int],
                                    );
                                    assert(toks.contains(tok@));
                                    let kk = choose|kk: int|
                                        0 <= kk < toks.len() && toks[kk] == tok@;
                                    let keys = index_keys(def, self.contents()[id].values);
                                    assert(keys == toks.map(f));
                                    assert(keys[kk] == f(kk, toks[kk]));
                                    assert(keys[kk] =~= kv);
                                    assert(keys.contains(kv));
                                    assert(idx.has_posting(kv, id));
                                }
                            }
                        }
                        r
                    },
                    None => self.scan_ids(q),
                }
            },
            None => self.scan_ids(q),
        }
    }

    /// The number of records a query matches.
    pub fn count(&self, q: &QueryExpression) -> (r: usize)
        requires
            self.wf(),
        ensures
            exists|ids: Seq<u64>|
                #![trigger ids.len()]
                {
                    &&& forall|a: int, b: int| 0 <= a < b < ids.len() ==> ids[a] != ids[b]
                    &&& forall|id: u64| #[trigger]
                        ids.contains(id) <==> self.contents().dom().contains(id) && matches_query(
                            self.contents()[id],
                            q,
                        )
                    &&& r == ids.len()
                },
            q.filter is None ==> r == self.store.pairs().len(),
    {
        let ids = self.query_ids(q);
        let r = ids.len();
        proof {
            let w = ids@;
            assert({
                &&& forall|a: int, b: int| 0 <= a < b < w.len() ==> w[a] != w[b]
                &&& forall|id: u64| #[trigger]
                    w.contains(id) <==> self.contents().dom().contains(id) && matches_query(
                        self.contents()[id],
                        q,
                    )
                &&& r == w.len()
            });
        }
        r
    }

    /// The matching records, after skipping `q.skip` of them and keeping
    /// at most `q.limit`.
    pub fn query(&self, q: &QueryExpression) -> (r: Vec<Record>)
        requires
            self.wf(),
        ensures
            exists|ids: Seq<u64>|
                #![trigger ids.len()]
                {
                    &&& forall|a: int, b: int| 0 <= a < b < ids.len() ==> ids[a] != ids[b]
                    &&& forall|id: u64| #[trigger]
                        ids.contains(id) <==> self.contents().dom().contains(id) && matches_query(
                            self.contents()[id],
                            q,
                        )
                    &&& ({
                        let lo = if q.skip <= ids.len() {
                            q.skip as int
                        } else {
                            ids.len() as int
                        };
                        let hi = match q.limit {
                            Some(l) => if lo + l <= ids.len() {
                                lo + l
                            } else {
                                ids.len() as int
                            },
                            None => ids.len() as int,
                        };
                        r.deep_view() == ids.subrange(lo, hi).map(
                            |_i: int, id: u64| self.contents()[id],
                        )
                    })
                },
    {
        let ids = self.query_ids(q);
        let n = ids.len();
        let lo = if q.skip <= n {
            q.skip
        } else {
            n
        };
        let hi = match q.limit {
            Some(l) => if l <= n - lo {
                lo + l
            } else {
                n
            },
            None => n,
        };
        let ghost window = ids@.subrange(lo as int, hi as int).map(
            |_i: int, id: u64| self.contents()[id],
        );
        let mut r: Vec<Record> = Vec::new();
        let mut j: usize = lo;
        while j < hi
            invariant
                self.wf(),
                lo <= j <= hi <= n,
                n == ids@.len(),
                forall|id: u64| #[trigger]
                    ids@.contains(id) ==> self.contents().dom().contains(id),
                window == ids@.subrange(lo as int, hi as int).map(
                    |_i: int, id: u64| self.contents()[id],
                ),
                window.len() == hi - lo,
                r.deep_view() =~= window.take(j - lo),
            decreases hi - j,
        {
            let id = ids[j];
            proof {
                assert(ids@.contains(id));
            }
            let rec = match self.store.get(id) {
                Ok(rec) => rec.clone(),
                Err(_) => {
                    proof {
                        assert(false);
                    }
                    Record { schema_id: None, values: Vec::new(), version: None }
                },
            };
            let ghost prev = r.deep_view();
            proof {
                assert(rec@ == self.contents()[id]);
            }
            r.push(rec);
            proof {
                assert(ids@.subrange(lo as int, hi as int)[j - lo] == ids@[j as int]);
                assert(window[j - lo] == self.contents()[ids@[j as int]]);
                assert(prev.len() == window.take(j - lo).len());
                assert(prev.len() == j - lo);
                assert(r.deep_view().len() == j + 1 - lo);
                assert(r.deep_view()[j - lo] == self.contents()[id]);
                assert(r.deep_view() =~= window.take(j + 1 - lo));
            }
            j = j + 1;
        }
        proof {
            assert(r.deep_view() =~= window);
            let w = ids@;
            assert(w.subrange(lo as int, hi as int).map(|_i: int, id: u64| self.contents()[id])
                == window);
        }
        r
    }
}

/// A predicate over rows: equality on one column, an inclusive range on
/// one orderable column, or a token match on one text column.
#[derive(Debug)]
pub enum FilterExpression {
    Eq(usize, Field),
    Range(usize, Field, Field),
    Contains(usize, String),
}

/// A query: an optional predicate, records to skip, and an optional cap
/// on how many to return.
#[derive(Debug)]
pub struct QueryExpression {
    pub filter: Option<FilterExpression>,
    pub skip: usize,
    pub limit: Option<usize>,
}

impl QueryExpression {
    /// The query that matches everything, uncapped.
    pub fn with_no_limit() -> (r: Self)
        ensures
            r.filter is None,
            r.skip == 0,
            r.limit is None,
    {
        QueryExpression { filter: None, skip: 0, limit: None }
    }
}

/// Whether a row matches a filter. A range holds the machine-representable
/// values between its bounds under the field order; values of another
/// variant, or unorderable ones, never match.
pub open spec fn matches_filter(rec: RecordV, f: FilterExpression) -> bool {
    match f {
        FilterExpression::Eq(col, v) => col < rec.values.len() && rec.values[col as int] == v@,
        FilterExpression::Range(col, lo, hi) => {
            let v = rec.values[col as int];
            &&& col < rec.values.len()
            &&& field_wf(v) && field_wf(lo@) && field_wf(hi@)
            &&& field_le(lo@, v) && field_le(v, hi@)
        },
        FilterExpression::Contains(col, tok) => col < rec.values.len() && text_tokens(
            rec.values[col as int],
        ).contains(tok@),
    }
}

/// Whether a row matches a query's predicate (no predicate matches all).
pub open spec fn matches_query(rec: RecordV, q: &QueryExpression) -> bool {
    match q.filter {
        Some(f) => matches_filter(rec, f),
        None => true,
    }
}

/// Decide whether a row matches a filter.
pub fn matches_exec(rec: &Record, f: &FilterExpression) -> (r: bool)
    ensures
        r == matches_filter(rec@, *f),
{
    proof {
        assert(rec.values.deep_view().len() == rec.values@.len());
    }
    match f {
        FilterExpression::Eq(col, v) => {
            if *col < rec.values.len() {
                proof {
                    assert(rec@.values[*col as int] == rec.values@[*col as int]@);
                }
                field_eq(&rec.values[*col], v)
            } else {
                false
            }
        },
        FilterExpression::Range(col, lo, hi) => {
            if *col < rec.values.len() {
                proof {
                    assert(rec@.values[*col as int] == rec.values@[*col as int]@);
                }
                let v = &rec.values[*col];
                if !(is_wf_exec(v) && is_wf_exec(lo) && is_wf_exec(hi)) {
                    false
                } else if !(is_orderable_exec(v) && same_variant_exec(lo, v)
                    && same_variant_exec(v, hi)) {
                    // the order never relates values of different
                    // variants, nor unorderable ones
                    false
                } else {
                    field_le_exec(lo, v) && field_le_exec(v, hi)
                }
            } else {
                false
            }
        },
        FilterExpression::Contains(col, tok) => {
            if *col < rec.values.len() {
                proof {
                    assert(rec@.values[*col as int] == rec.values@[*col as int]@);
                }
                match &rec.values[*col] {
                    Field::String(s) => contains_token(s, tok),
                    Field::Text(s) => contains_token(s, tok),
                    _ => false,
                }
            } else {
                false
            }
        },
    }
}

/// Decide whether a string contains a whitespace-separated token.
fn contains_token(s: &String, tok: &String) -> (r: bool)
    ensures
        r == crate::index::tokens(s@).contains(tok@),
{
    let toks = tokenize(s.as_str());
    let ghost tv = crate::index::tokens(s@);
    let mut i: usize = 0;
    while i < toks.len()
        invariant
            tv == crate::index::tokens(s@),
            toks.deep_view() == tv,
            toks.deep_view().len() == toks@.len(),
            i <= toks@.len(),
            forall|j: int| 0 <= j < i ==> tv[j] != tok@,
        decreases toks@.len() - i,
    {
        proof {
            assert(toks.deep_view()[i as int] == toks@[i as int]@);
        }
        if toks[i].eq(tok) {
            proof {
                assert(tv[i as int] == tok@);
                assert(tv.contains(tok@));
            }
            return true;
        }
        i = i + 1;
    }
    proof {
        if tv.contains(tok@) {
            let j = choose|j: int| 0 <= j < tv.len() && tv[j] == tok@;
            assert(false);
        }
    }
    false
}

/// Cache round trip, first half: a record just stored under a primary
/// key — the state `insert` ensures — is exactly what `get` of that key
/// then returns, at its initial version.
pub proof fn lemma_cache_round_trip(pre: Cache, post: Cache, rec: RecordV, id: u64, key: Seq<FieldV>)
    requires
        post.pk_map() == pre.pk_map().insert(key, id),
        post.contents() == pre.contents().insert(id, rec),
        rec.version == Some(0u32),
    ensures
        post.pk_map().dom().contains(key),
        post.contents()[post.pk_map()[key]] == rec,
        post.contents()[post.pk_map()[key]].version == Some(0u32),
{
}

/// Cache round trip, second half: once `delete` has dropped a key — the
/// state its contract ensures — `get` of that key reports `NotFound`.
pub proof fn lemma_deleted_key_unresolvable(pre: Cache, post: Cache, key: Seq<FieldV>)
    requires
        post.pk_map() == pre.pk_map().remove(key),
    ensures
        !post.pk_map().dom().contains(key),
{
}

/// Primary-key remap: an update that moves a record under a new key —
/// the state its contract ensures — leaves the old key unresolvable and
/// the new key resolving to the updated record, in the same transaction.
pub proof fn lemma_primary_key_remap(
    pre: Cache,
    post: Cache,
    old_key: Seq<FieldV>,
    new_key: Seq<FieldV>,
    old_id: u64,
    new_id: u64,
    stored: RecordV,
)
    requires
        old_key != new_key,
        pre.pk_map().dom().contains(old_key),
        old_id == pre.pk_map()[old_key],
        post.pk_map() == pre.pk_map().remove(old_key).insert(new_key, new_id),
        post.contents() == pre.contents().remove(old_id).insert(new_id, stored),
    ensures
        !post.pk_map().dom().contains(old_key),
        post.pk_map().dom().contains(new_key),
        post.contents()[post.pk_map()[new_key]] == stored,
{
}

/// Index/scan equivalence: two query answers over the same cache state
/// and predicate — one through an index, one by a full scan — contain
/// exactly the same identifiers.
pub proof fn lemma_index_scan_equivalence(
    r1: Seq<u64>,
    r2: Seq<u64>,
    c: Map<u64, RecordV>,
    q: &QueryExpression,
)
    requires
        forall|id: u64| #[trigger]
            r1.contains(id) <==> c.dom().contains(id) && matches_query(c[id], q),
        forall|id: u64| #[trigger]
            r2.contains(id) <==> c.dom().contains(id) && matches_query(c[id], q),
    ensures
        forall|id: u64| r1.contains(id) <==> r2.contains(id),
{
}

/// Post a fresh record in every index.
fn indexes_add(
    indexes: &mut Vec<SecondaryIndex>,
    id: u64,
    record: &Record,
    Ghost(store): Ghost<Map<u64, RecordV>>,
)
    requires
        forall|i: int|
            0 <= i < old(indexes)@.len() ==> (#[trigger] old(indexes)@[i]).consistent_with(store)
                && index_def_wf(old(indexes)@[i].def(), record@.values.len()),
        !store.dom().contains(id),
    ensures
        final(indexes)@.len() == old(indexes)@.len(),
        forall|i: int|
            0 <= i < final(indexes)@.len() ==> (#[trigger] final(indexes)@[i]).def() == old(
                indexes,
            )@[i].def() && final(indexes)@[i].consistent_with(store.insert(id, record@)),
{
    let ghost orig = indexes@;
    let n = indexes.len();
    let mut out: Vec<SecondaryIndex> = Vec::new();
    let mut k: usize = 0;
    while indexes.len() > 0
        invariant
            n == orig.len(),
            k <= n,
            out@.len() == k,
            indexes@.len() + k == orig.len(),
            forall|j: int| 0 <= j < indexes@.len() ==> indexes@[j] == orig[k + j],
            forall|j: int|
                0 <= j < k ==> (#[trigger] out@[j]).def() == orig[j].def()
                    && out@[j].consistent_with(store.insert(id, record@)),
            forall|i: int|
                0 <= i < orig.len() ==> (#[trigger] orig[i]).consistent_with(store)
                    && index_def_wf(orig[i].def(), record@.values.len()),
            !store.dom().contains(id),
        decreases indexes@.len(),
    {
        let mut idx = indexes.remove(0);
        idx.add_record(id, record, Ghost(store));
        out.push(idx);
        k = k + 1;
    }
    *indexes = out;
}

/// Drop a record's postings from every index.
fn indexes_remove(
    indexes: &mut Vec<SecondaryIndex>,
    id: u64,
    Ghost(store): Ghost<Map<u64, RecordV>>,
)
    requires
        forall|i: int|
            0 <= i < old(indexes)@.len() ==> (#[trigger] old(indexes)@[i]).consistent_with(store),
    ensures
        final(indexes)@.len() == old(indexes)@.len(),
        forall|i: int|
            0 <= i < final(indexes)@.len() ==> (#[trigger] final(indexes)@[i]).def() == old(
                indexes,
            )@[i].def() && final(indexes)@[i].consistent_with(store.remove(id)),
{
    let ghost orig = indexes@;
    let n = indexes.len();
    let mut out: Vec<SecondaryIndex> = Vec::new();
    let mut k: usize = 0;
    while indexes.len() > 0
        invariant
            n == orig.len(),
            k <= n,
            out@.len() == k,
            indexes@.len() + k == orig.len(),
            forall|j: int| 0 <= j < indexes@.len() ==> indexes@[j] == orig[k + j],
            forall|j: int|
                0 <= j < k ==> (#[trigger] out@[j]).def() == orig[j].def()
                    && out@[j].consistent_with(store.remove(id)),
            forall|i: int| 0 <= i < orig.len() ==> (#[trigger] orig[i]).consistent_with(store),
        decreases indexes@.len(),
    {
        let mut idx = indexes.remove(0);
        idx.remove_record(id, Ghost(store));
        out.push(idx);
        k = k + 1;
    }
    *indexes = out;
}

} // verus!
