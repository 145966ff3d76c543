//! Secondary indexes over record-store content: ordered composite indexes
//! over field values, and token indexes over text, kept consistent with
//! the store inside the same transaction as every record mutation.

use vstd::prelude::*;

use crate::fields::{Field, FieldV};
use crate::records::{
    fields_eq, get_primary_key, spec_primary_key, IndexDefinition, IndexDefinitionV, Record,
    RecordV,
};

verus! {

use vstd::string::StrSliceExecFns;

broadcast use vstd::seq_lib::group_filter_ensures;

/// Token separators: blank, tab, and line-break characters.
pub open spec fn is_space(c: char) -> bool {
    c == ' ' || c == '\t' || c == '\n' || c == '\r'
}

/// The tokens of the character sequence `s` from position `i` on, with
/// `cur` the word fragment read so far.
pub open spec fn tokens_from(s: Seq<char>, i: int, cur: Seq<char>) -> Seq<Seq<char>>
    decreases s.len() - i,
{
    if i < 0 || i >= s.len() {
        if cur.len() > 0 {
            seq![cur]
        } else {
            Seq::empty()
        }
    } else if is_space(s[i]) {
        if cur.len() > 0 {
            seq![cur] + tokens_from(s, i + 1, Seq::empty())
        } else {
            tokens_from(s, i + 1, Seq::empty())
        }
    } else {
        tokens_from(s, i + 1, cur.push(s[i]))
    }
}

/// The whitespace-separated tokens of a character sequence.
pub open spec fn tokens(s: Seq<char>) -> Seq<Seq<char>> {
    tokens_from(s, 0, Seq::empty())
}

/// Decide whether a character is a token separator.
pub fn is_space_exec(c: char) -> (r: bool)
    ensures
        r == is_space(c),
{
    c == ' ' || c == '\t' || c == '\n' || c == '\r'
}

/// Split a string into its whitespace-separated tokens.
pub fn tokenize(s: &str) -> (r: Vec<String>)
    ensures
        r.deep_view() == tokens(s@),
{
    let n = s.unicode_len();
    let mut r: Vec<String> = Vec::new();
    let mut i: usize = 0;
    let mut start: usize = 0;
    let mut in_word: bool = false;
    while i < n
        invariant
            n == s@.len(),
            i <= n,
            in_word ==> start < i,
            in_word ==> tokens(s@) == r.deep_view() + tokens_from(
                s@,
                i as int,
                s@.subrange(start as int, i as int),
            ),
            !in_word ==> tokens(s@) == r.deep_view() + tokens_from(s@, i as int, Seq::empty()),
            in_word ==> s@.subrange(start as int, i as int).len() > 0,
        decreases n - i,
    {
        let c = s.get_char(i);
        if is_space_exec(c) {
            if in_word {
                let word = s.substring_char(start, i).to_owned();
                proof {
                    let cur = s@.subrange(start as int, i as int);
                    assert(tokens_from(s@, i as int, cur) == seq![cur] + tokens_from(
                        s@,
                        i as int + 1,
                        Seq::empty(),
                    ));
                }
                let ghost prev = r.deep_view();
                r.push(word);
                proof {
                    assert(r.deep_view() =~= prev.push(s@.subrange(start as int, i as int)));
                    assert(prev + (seq![s@.subrange(start as int, i as int)] + tokens_from(
                        s@,
                        i as int + 1,
                        Seq::empty(),
                    )) =~= r.deep_view() + tokens_from(s@, i as int + 1, Seq::empty()));
                }
                in_word = false;
            } else {
                proof {
                    assert(tokens_from(s@, i as int, Seq::empty()) == tokens_from(
                        s@,
                        i as int + 1,
                        Seq::empty(),
                    ));
                }
            }
        } else {
            if !in_word {
                start = i;
                in_word = true;
                proof {
                    assert(Seq::<char>::empty().push(s@[i as int]) =~= s@.subrange(
                        start as int,
                        i as int + 1,
                    ));
                    assert(tokens_from(s@, i as int, Seq::empty()) == tokens_from(
                        s@,
                        i as int + 1,
                        Seq::empty().push(s@[i as int]),
                    ));
                }
            } else {
                proof {
                    let cur = s@.subrange(start as int, i as int);
                    assert(cur.push(s@[i as int]) =~= s@.subrange(start as int, i as int + 1));
                    assert(tokens_from(s@, i as int, cur) == tokens_from(
                        s@,
                        i as int + 1,
                        cur.push(s@[i as int]),
                    ));
                }
            }
        }
        i = i + 1;
    }
    if in_word {
        let word = s.substring_char(start, n).to_owned();
        proof {
            let cur = s@.subrange(start as int, n as int);
            assert(tokens_from(s@, n as int, cur) == seq![cur]);
        }
        let ghost prev = r.deep_view();
        r.push(word);
        proof {
            assert(r.deep_view() =~= prev.push(s@.subrange(start as int, n as int)));
            assert(prev + seq![s@.subrange(start as int, n as int)] =~= r.deep_view());
            assert(tokens(s@) =~= r.deep_view());
        }
    } else {
        proof {
            assert(tokens_from(s@, n as int, Seq::<char>::empty()) =~= Seq::<Seq<char>>::empty());
            assert(tokens(s@) =~= r.deep_view());
        }
    }
    r
}

/// The tokens of a text-carrying field value; other values have none.
pub open spec fn text_tokens(v: FieldV) -> Seq<Seq<char>> {
    match v {
        FieldV::String(s) => tokens(s),
        FieldV::Text(s) => tokens(s),
        _ => Seq::empty(),
    }
}

/// The index keys a row contributes under a definition: one composite
/// key for an ordered index, one single-field key per token for a token
/// index.
pub open spec fn index_keys(def: IndexDefinitionV, values: Seq<FieldV>) -> Seq<Seq<FieldV>> {
    match def {
        IndexDefinitionV::SortedInverted(cols) => seq![spec_primary_key(cols, values)],
        IndexDefinitionV::FullText(col) => text_tokens(values[col as int]).map(
            |_i: int, t: Seq<char>| seq![FieldV::String(t)],
        ),
    }
}

/// The definition's columns fit rows of the given arity.
pub open spec fn index_def_wf(def: IndexDefinitionV, arity: nat) -> bool {
    match def {
        IndexDefinitionV::SortedInverted(cols) => forall|i: int|
            0 <= i < cols.len() ==> #[trigger] cols[i] < arity,
        IndexDefinitionV::FullText(col) => col < arity,
    }
}

/// One secondary index: its definition and its postings, each mapping an
/// encoded key to a surrogate identifier.
pub struct SecondaryIndex {
    pub definition: IndexDefinition,
    pub entries: Vec<(Vec<Field>, u64)>,
}

/// A posting is justified by the store: its identifier is live and its
/// key is among the keys that record contributes.
pub open spec fn posting_valid(
    store: Map<u64, RecordV>,
    def: IndexDefinitionV,
    p: (Seq<FieldV>, u64),
) -> bool {
    &&& store.dom().contains(p.1)
    &&& index_keys(def, store[p.1].values).contains(p.0)
}

impl SecondaryIndex {
    /// The postings, with keys abstracted to their views.
    pub open spec fn postings(&self) -> Seq<(Seq<FieldV>, u64)> {
        self.entries@.map(|_i: int, e: (Vec<Field>, u64)| (e.0.deep_view(), e.1))
    }

    pub open spec fn def(&self) -> IndexDefinitionV {
        self.definition.deep_view()
    }

    /// A posting for this key and identifier is present.
    pub open spec fn has_posting(&self, k: Seq<FieldV>, id: u64) -> bool {
        self.postings().contains((k, id))
    }

    /// The index is exactly what a full rebuild from the store would
    /// produce: every posting is justified by the store, and every key a
    /// live record contributes is posted.
    pub open spec fn consistent_with(&self, store: Map<u64, RecordV>) -> bool {
        &&& forall|i: int|
            0 <= i < self.postings().len() ==> posting_valid(
                store,
                self.def(),
                #[trigger] self.postings()[i],
            )
        &&& forall|id: u64, k: Seq<FieldV>|
            store.dom().contains(id) && #[trigger] index_keys(
                self.def(),
                store[id].values,
            ).contains(k) ==> self.has_posting(k, id)
    }

    pub fn new(definition: IndexDefinition) -> (r: Self)
        ensures
            r.def() == definition.deep_view(),
            r.postings() == Seq::<(Seq<FieldV>, u64)>::empty(),
    {
        let r = SecondaryIndex { definition, entries: Vec::new() };
        proof {
            assert(r.postings() =~= Seq::<(Seq<FieldV>, u64)>::empty());
        }
        r
    }

    /// Post every key a newly stored record contributes.
    pub fn add_record(&mut self, id: u64, record: &Record, Ghost(store): Ghost<Map<u64, RecordV>>)
        requires
            old(self).consistent_with(store),
            !store.dom().contains(id),
            index_def_wf(old(self).definition.deep_view(), record@.values.len()),
        ensures
            final(self).def() == old(self).def(),
            final(self).consistent_with(store.insert(id, record@)),
    {
        let ghost def = self.def();
        let ghost store2 = store.insert(id, record@);
        let ghost all_keys = index_keys(def, record@.values);
        let keys = compute_keys(&self.definition, &record.values);
        let ghost p0 = self.postings();
        let mut j: usize = 0;
        while j < keys.len()
            invariant
                self.definition == old(self).definition,
                keys.deep_view() == all_keys,
                keys.deep_view().len() == keys@.len(),
                def == self.def(),
                store2 == store.insert(id, record@),
                all_keys == index_keys(def, record@.values),
                j <= keys@.len(),
                p0 == old(self).postings(),
                self.postings() =~= p0 + all_keys.take(j as int).map(
                    |_i: int, k: Seq<FieldV>| (k, id),
                ),
            decreases keys@.len() - j,
        {
            let ghost prev = self.postings();
            proof {
                assert(keys.deep_view()[j as int] == keys@[j as int].deep_view());
            }
            let key = clone_fields_vec(&keys[j]);
            self.entries.push((key, id));
            proof {
                assert(self.postings() =~= prev.push((all_keys[j as int], id)));
                assert(self.postings() =~= p0 + all_keys.take(j as int + 1).map(
                    |_i: int, k: Seq<FieldV>| (k, id),
                ));
            }
            j = j + 1;
        }
        proof {
            assert(all_keys.take(keys@.len() as int) =~= all_keys);
            let added = all_keys.map(|_i: int, k: Seq<FieldV>| (k, id));
            assert(self.postings() =~= p0 + added);
            assert forall|i: int| 0 <= i < self.postings().len() implies posting_valid(
                store2,
                def,
                #[trigger] self.postings()[i],
            ) by {
                if i < p0.len() {
                    assert(self.postings()[i] == p0[i]);
                    assert(posting_valid(store, def, p0[i]));
                    assert(p0[i].1 != id);
                } else {
                    assert(self.postings()[i] == added[i - p0.len()]);
                    assert(added[i - p0.len()] == (all_keys[i - p0.len()], id));
                    assert(store2[id] == record@);
                }
            }
            assert forall|id2: u64, k: Seq<FieldV>|
                store2.dom().contains(id2) && #[trigger] index_keys(
                    def,
                    store2[id2].values,
                ).contains(k) implies self.has_posting(k, id2) by {
                if id2 == id {
                    let j2 = choose|j2: int| 0 <= j2 < all_keys.len() && all_keys[j2] == k;
                    assert(self.postings()[p0.len() + j2] == (k, id));
                } else {
                    assert(store.dom().contains(id2) && store[id2] == store2[id2]);
                    assert(old(self).has_posting(k, id2));
                    let i = choose|i: int|
                        0 <= i < p0.len() && #[trigger] p0[i] == (k, id2);
                    assert(self.postings()[i] == (k, id2));
                }
            }
        }
    }

    /// Drop every posting of a record that leaves the store.
    pub fn remove_record(&mut self, id: u64, Ghost(store): Ghost<Map<u64, RecordV>>)
        requires
            old(self).consistent_with(store),
        ensures
            final(self).def() == old(self).def(),
            final(self).consistent_with(store.remove(id)),
    {
        let ghost def = self.def();
        let ghost p0 = self.postings();
        let ghost store2 = store.remove(id);
        let mut out: Vec<(Vec<Field>, u64)> = Vec::new();
        let mut i: usize = 0;
        while i < self.entries.len()
            invariant
                i <= self.entries@.len(),
                self.definition == old(self).definition,
                p0 == self.postings(),
                out@.map(|_i: int, e: (Vec<Field>, u64)| (e.0.deep_view(), e.1)) =~= p0.take(
                    i as int,
                ).filter(|p: (Seq<FieldV>, u64)| p.1 != id),
            decreases self.entries@.len() - i,
        {
            let ghost prev = out@.map(|_i: int, e: (Vec<Field>, u64)| (e.0.deep_view(), e.1));
            if self.entries[i].1 != id {
                let key = clone_fields_vec(&self.entries[i].0);
                let keep_id = self.entries[i].1;
                proof {
                    assert(p0[i as int] == (self.entries@[i as int].0.deep_view(),
                    self.entries@[i as int].1));
                }
                out.push((key, keep_id));
                proof {
                    assert(out@.map(|_i: int, e: (Vec<Field>, u64)| (e.0.deep_view(), e.1))
                        =~= prev.push(p0[i as int]));
                }
            } else {
                proof {
                    assert(p0[i as int].1 == id);
                }
            }
            proof {
                assert(p0.take(i as int + 1) =~= p0.take(i as int).push(p0[i as int]));
                p0.take(i as int).lemma_filter_push(
                    p0[i as int],
                    |p: (Seq<FieldV>, u64)| p.1 != id,
                );
            }
            i = i + 1;
        }
        self.entries = out;
        proof {
            assert(p0.take(p0.len() as int) =~= p0);
            let fp = p0.filter(|p: (Seq<FieldV>, u64)| p.1 != id);
            assert(self.postings() =~= fp);
            assert forall|i2: int| 0 <= i2 < self.postings().len() implies posting_valid(
                store2,
                def,
                #[trigger] self.postings()[i2],
            ) by {
                assert(fp.contains(fp[i2]));
                p0.lemma_filter_contains_rev(|p: (Seq<FieldV>, u64)| p.1 != id, fp[i2]);
                let k = choose|k: int| 0 <= k < p0.len() && p0[k] == fp[i2];
                assert(posting_valid(store, def, p0[k]));
                assert(fp[i2].1 != id);
            }
            assert forall|id2: u64, k: Seq<FieldV>|
                store2.dom().contains(id2) && #[trigger] index_keys(
                    def,
                    store2[id2].values,
                ).contains(k) implies self.has_posting(k, id2) by {
                assert(store.dom().contains(id2) && store[id2] == store2[id2]);
                assert(old(self).has_posting(k, id2));
                let i3 = choose|i3: int| 0 <= i3 < p0.len() && #[trigger] p0[i3] == (k, id2);
                p0.lemma_filter_contains(|p: (Seq<FieldV>, u64)| p.1 != id, i3);
                assert(fp.contains((k, id2)));
            }
        }
    }

    /// All identifiers posted under a key, each once.
    pub fn ids_for_key(&self, key: &Vec<Field>) -> (r: Vec<u64>)
        ensures
            forall|a: int, b: int| 0 <= a < b < r@.len() ==> r@[a] != r@[b],
            forall|id: u64| r@.contains(id) <==> self.has_posting(key.deep_view(), id),
    {
        let ghost k = key.deep_view();
        let mut r: Vec<u64> = Vec::new();
        let mut i: usize = 0;
        while i < self.entries.len()
            invariant
                i <= self.entries@.len(),
                k == key.deep_view(),
                forall|a: int, b: int| 0 <= a < b < r@.len() ==> r@[a] != r@[b],
                forall|id: u64| #[trigger]
                    r@.contains(id) ==> self.has_posting(k, id),
                forall|j: int|
                    0 <= j < i && (#[trigger] self.postings()[j]).0 == k ==> r@.contains(
                        self.postings()[j].1,
                    ),
            decreases self.entries@.len() - i,
        {
            proof {
                assert(self.postings()[i as int] == (self.entries@[i as int].0.deep_view(),
                self.entries@[i as int].1));
            }
            if fields_eq(&self.entries[i].0, key) {
                let id = self.entries[i].1;
                if !contains_u64(&r, id) {
                    let ghost prev = r@;
                    r.push(id);
                    proof {
                        assert(r@ == prev.push(id));
                        assert(r@[r@.len() - 1] == id);
                        assert forall|x: u64| prev.contains(x) implies r@.contains(x) by {
                            let ix = choose|ix: int| 0 <= ix < prev.len() && prev[ix] == x;
                            assert(r@[ix] == x);
                        }
                        assert forall|a: int, b: int|
                            0 <= a < b < r@.len() implies r@[a] != r@[b] by {
                            if b == r@.len() - 1 {
                                assert(!prev.contains(id));
                                assert(r@[a] == prev[a]);
                            }
                        }
                        assert(self.postings()[i as int] == (k, id));
                        assert(self.has_posting(k, id)) by {
                            assert(self.postings()[i as int] == (k, id));
                        }
                        assert forall|id2: u64| #[trigger]
                            r@.contains(id2) implies self.has_posting(k, id2) by {
                            let ix = choose|ix: int| 0 <= ix < r@.len() && r@[ix] == id2;
                            if ix < prev.len() {
                                assert(prev.contains(id2));
                            } else {
                                assert(id2 == id);
                            }
                        }
                        assert forall|j: int|
                            0 <= j < i + 1 && (#[trigger] self.postings()[j]).0
                                == k implies r@.contains(self.postings()[j].1) by {
                            if j < i {
                                assert(prev.contains(self.postings()[j].1));
                            } else {
                                assert(r@.contains(id));
                            }
                        }
                    }
                }
            }
            i = i + 1;
        }
        proof {
            assert forall|id: u64| #[trigger] self.has_posting(k, id) implies r@.contains(id) by {
                let j = choose|j: int|
                    0 <= j < self.postings().len() && #[trigger] self.postings()[j] == (k, id);
            }
        }
        r
    }
}

/// Clone a row of key fields, preserving the view.
fn clone_fields_vec(values: &Vec<Field>) -> (r: Vec<Field>)
    ensures
        r.deep_view() == values.deep_view(),
{
    crate::records::clone_fields(values)
}

/// Decide membership of an identifier in a list.
fn contains_u64(v: &Vec<u64>, x: u64) -> (r: bool)
    ensures
        r == v@.contains(x),
{
    let mut i: usize = 0;
    while i < v.len()
        invariant
            i <= v@.len(),
            forall|j: int| 0 <= j < i ==> v@[j] != x,
        decreases v@.len() - i,
    {
        if v[i] == x {
            return true;
        }
        i = i + 1;
    }
    false
}

/// Compute the index keys of a row under a definition.
fn compute_keys(definition: &IndexDefinition, values: &Vec<Field>) -> (r: Vec<Vec<Field>>)
    requires
        index_def_wf(definition.deep_view(), values.deep_view().len()),
    ensures
        r.deep_view() == index_keys(definition.deep_view(), values.deep_view()),
{
    let ghost target = index_keys(definition.deep_view(), values.deep_view());
    match definition {
        IndexDefinition::SortedInverted(cols) => {
            proof {
                assert(values.deep_view().len() == values@.len());
            }
            let key = get_primary_key(cols, values);
            let mut r: Vec<Vec<Field>> = Vec::new();
            r.push(key);
            proof {
                assert(r.deep_view() =~= target);
            }
            r
        },
        IndexDefinition::FullText(col) => {
            proof {
                assert(values.deep_view().len() == values@.len());
                assert(values.deep_view()[*col as int] == values@[*col as int]@);
            }
            match &values[*col] {
                Field::String(s) | Field::Text(s) => {
                    let toks = tokenize(s.as_str());
                    let ghost tv = tokens(s@);
                    let mut r: Vec<Vec<Field>> = Vec::new();
                    let mut j: usize = 0;
                    proof {
                        assert(target =~= tv.map(|_i: int, t: Seq<char>| seq![FieldV::String(t)]));
                    }
                    while j < toks.len()
                        invariant
                            j <= toks@.len(),
                            toks.deep_view() == tv,
                            toks.deep_view().len() == toks@.len(),
                            target == tv.map(|_i: int, t: Seq<char>| seq![FieldV::String(t)]),
                            r.deep_view() =~= target.take(j as int),
                        decreases toks@.len() - j,
                    {
                        let mut key: Vec<Field> = Vec::new();
                        key.push(Field::String(toks[j].clone()));
                        proof {
                            assert(toks.deep_view()[j as int] == toks@[j as int]@);
                            assert(key.deep_view() =~= seq![FieldV::String(tv[j as int])]);
                        }
                        let ghost prev = r.deep_view();
                        r.push(key);
                        proof {
                            assert(r.deep_view() =~= prev.push(seq![FieldV::String(tv[j as int])]));
                            assert(r.deep_view() =~= target.take(j as int + 1));
                        }
                        j = j + 1;
                    }
                    proof {
                        assert(r.deep_view() =~= target);
                    }
                    r
                },
                _ => {
                    let r: Vec<Vec<Field>> = Vec::new();
                    proof {
                        assert(r.deep_view() =~= target);
                    }
                    r
                },
            }
        },
    }
}

} // verus!
