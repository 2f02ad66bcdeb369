//! Per-shard entry store: documents addressed by entry id and key path.
use vstd::prelude::*;
use serde_json::Value;
use crate::assoc::{
    assoc_find, assoc_set, lemma_absent_index, lemma_assoc_set_form, lemma_find_after_set,
    lemma_find_after_set_other, lemma_first_index,
};

verus! {

/// The model of a key path into an entry's document.
pub type PathV = Seq<Seq<char>>;

/// The model of one entry's document: its path-to-value bindings.
pub type FieldsV = Seq<(PathV, Value)>;

/// The model of one shard's store: entry id to document bindings.
pub type StoreV = Seq<(Seq<char>, FieldsV)>;

/// One value stored at one key path of an entry's document.
pub struct Field {
    pub path: Vec<String>,
    pub value: Value,
}

/// One entry: a document owned by exactly one shard.
pub struct Entry {
    pub id: String,
    pub fields: Vec<Field>,
}

/// The in-memory mapping owned exclusively by one shard; no other
/// component reads or writes it.
pub struct EntryStore {
    entries: Vec<Entry>,
}

/// The model of a key path: its keys as character sequences.
pub open spec fn path_of(p: Seq<String>) -> PathV {
    p.map_values(|s: String| s@)
}

/// The model of a document: its fields as path/value bindings.
pub open spec fn fields_of(fs: Seq<Field>) -> FieldsV {
    fs.map_values(|f: Field| f@)
}

impl View for Field {
    type V = (PathV, Value);

    open spec fn view(&self) -> Self::V {
        (path_of(self.path@), self.value)
    }
}

impl View for Entry {
    type V = (Seq<char>, FieldsV);

    open spec fn view(&self) -> Self::V {
        (self.id@, fields_of(self.fields@))
    }
}

impl View for EntryStore {
    type V = StoreV;

    closed spec fn view(&self) -> StoreV {
        self.entries@.map_values(|e: Entry| e@)
    }
}

/// The value stored at `path` of entry `id`, if any.
pub open spec fn store_get(s: StoreV, id: Seq<char>, path: PathV) -> Option<Value> {
    match assoc_find(s, id) {
        Option::None => Option::None,
        Option::Some(fields) => assoc_find(fields, path),
    }
}

/// The store after writing `v` at `path` of entry `id`; an absent entry
/// comes into being with that one binding.
pub open spec fn store_set(s: StoreV, id: Seq<char>, path: PathV, v: Value) -> StoreV {
    let fields = match assoc_find(s, id) {
        Option::None => Seq::empty(),
        Option::Some(f) => f,
    };
    assoc_set(s, id, assoc_set(fields, path, v))
}

/// True when the two paths hold the same keys in the same order.
fn path_eq(a: &Vec<String>, b: &Vec<String>) -> (r: bool)
    ensures
        r == (path_of(a@) == path_of(b@)),
{
    if a.len() != b.len() {
        return false;
    }
    let mut i: usize = 0;
    while i < a.len()
        invariant
            a@.len() == b@.len(),
            0 <= i <= a@.len(),
            forall|j: int| 0 <= j < i ==> a@[j]@ == b@[j]@,
        decreases a@.len() - i,
    {
        if a[i] != b[i] {
            proof {
                assert(path_of(a@)[i as int] != path_of(b@)[i as int]);
            }
            return false;
        }
        i += 1;
    }
    proof {
        assert(path_of(a@) =~= path_of(b@));
    }
    true
}

/// Writes `value` at `path` within one document's fields.
fn set_field(fields: &mut Vec<Field>, path: Vec<String>, value: Value)
    ensures
        fields_of(final(fields)@) == assoc_set(fields_of(old(fields)@), path_of(path@), value),
{
    let ghost fv = fields_of(fields@);
    let ghost p = path_of(path@);
    let mut i: usize = 0;
    while i < fields.len()
        invariant
            *fields == *old(fields),
            fv == fields_of(fields@),
            p == path_of(path@),
            0 <= i <= fields@.len(),
            forall|j: int| 0 <= j < i ==> fv[j].0 != p,
        decreases fields@.len() - i,
    {
        proof {
            assert(fv[i as int] == fields@[i as int]@);
        }
        if path_eq(&fields[i].path, &path) {
            proof {
                lemma_first_index(fv, p, i as int);
                lemma_assoc_set_form(fv, p, value);
            }
            let el = &mut fields[i];
            *el = Field { path, value };
            proof {
                assert(fields_of(fields@) =~= fv.update(i as int, (p, value)));
            }
            return ;
        }
        i += 1;
    }
    proof {
        lemma_absent_index(fv, p);
        lemma_assoc_set_form(fv, p, value);
    }
    fields.push(Field { path, value });
    proof {
        assert(fields_of(fields@) =~= fv.push((p, value)));
    }
}

impl EntryStore {
    /// A fresh store holding no entry.
    pub fn new() -> (s: EntryStore)
        ensures
            s@ == Seq::<(Seq<char>, FieldsV)>::empty(),
    {
        let s = EntryStore { entries: Vec::new() };
        proof {
            assert(s@ =~= Seq::<(Seq<char>, FieldsV)>::empty());
        }
        s
    }

    /// Writes `value` at `path` of entry `id`, creating the entry when it
    /// is absent; no other entry or path changes.
    pub fn set(&mut self, id: String, path: Vec<String>, value: Value)
        ensures
            final(self)@ == store_set(old(self)@, id@, path_of(path@), value),
    {
        let ghost sv = self@;
        let ghost key = id@;
        let ghost p = path_of(path@);
        let mut i: usize = 0;
        while i < self.entries.len()
            invariant
                *self == *old(self),
                sv == self@,
                key == id@,
                p == path_of(path@),
                0 <= i <= self.entries@.len(),
                forall|j: int| 0 <= j < i ==> sv[j].0 != key,
            decreases self.entries@.len() - i,
        {
            proof {
                assert(sv[i as int] == self.entries@[i as int]@);
            }
            if self.entries[i].id == id {
                proof {
                    lemma_first_index(sv, key, i as int);
                    lemma_assoc_set_form(sv, key, assoc_set(sv[i as int].1, p, value));
                }
                let e = &mut self.entries[i];
                set_field(&mut e.fields, path, value);
                proof {
                    assert(self@ =~~= sv.update(
                        i as int,
                        (key, assoc_set(sv[i as int].1, p, value)),
                    ));
                }
                return ;
            }
            i += 1;
        }
        proof {
            lemma_absent_index(sv, key);
            lemma_assoc_set_form(sv, key, assoc_set(Seq::<(PathV, Value)>::empty(), p, value));
            assert(assoc_set(Seq::<(PathV, Value)>::empty(), p, value) =~= seq![(p, value)]);
        }
        let mut fs: Vec<Field> = Vec::new();
        fs.push(Field { path, value });
        self.entries.push(Entry { id, fields: fs });
        proof {
            assert(self@ =~~= sv.push((key, seq![(p, value)])));
        }
    }

    /// Reads the value at `path` of entry `id`. An entry never written
    /// reads as `None`, never as an error; so does an absent path.
    pub fn get(&self, id: &String, path: &Vec<String>) -> (r: Option<Value>)
        ensures
            r == store_get(self@, id@, path_of(path@)),
    {
        let ghost sv = self@;
        let ghost key = id@;
        let ghost p = path_of(path@);
        let mut i: usize = 0;
        while i < self.entries.len()
            invariant
                sv == self@,
                key == id@,
                p == path_of(path@),
                0 <= i <= self.entries@.len(),
                forall|j: int| 0 <= j < i ==> sv[j].0 != key,
            decreases self.entries@.len() - i,
        {
            proof {
                assert(sv[i as int] == self.entries@[i as int]@);
            }
            if self.entries[i].id == *id {
                proof {
                    lemma_first_index(sv, key, i as int);
                }
                let e = &self.entries[i];
                let ghost fv = fields_of(e.fields@);
                let mut j: usize = 0;
                while j < e.fields.len()
                    invariant
                        fv == fields_of(e.fields@),
                        sv == self@,
                        key == id@,
                        p == path_of(path@),
                        assoc_find(sv, key) == Some(fv),
                        0 <= j <= e.fields@.len(),
                        forall|jj: int| 0 <= jj < j ==> fv[jj].0 != p,
                    decreases e.fields@.len() - j,
                {
                    proof {
                        assert(fv[j as int] == e.fields@[j as int]@);
                    }
                    if path_eq(&e.fields[j].path, path) {
                        proof {
                            lemma_first_index(fv, p, j as int);
                        }
                        return Some(e.fields[j].value.clone());
                    }
                    j += 1;
                }
                proof {
                    lemma_absent_index(fv, p);
                }
                return None;
            }
            i += 1;
        }
        proof {
            lemma_absent_index(sv, key);
        }
        None
    }
}

/// Law: writing a value and reading the same id and path back within the
/// same store yields the value just written.
pub proof fn lemma_store_get_after_set(s: StoreV, id: Seq<char>, path: PathV, v: Value)
    ensures
        store_get(store_set(s, id, path, v), id, path) == Some(v),
{
    let fields = match assoc_find(s, id) {
        Option::None => Seq::empty(),
        Option::Some(f) => f,
    };
    lemma_find_after_set(s, id, assoc_set(fields, path, v));
    lemma_find_after_set(fields, path, v);
}

/// Law: a write touches no other id and no other path.
pub proof fn lemma_store_set_frame(
    s: StoreV,
    id: Seq<char>,
    path: PathV,
    v: Value,
    id2: Seq<char>,
    path2: PathV,
)
    requires
        id2 != id || path2 != path,
    ensures
        store_get(store_set(s, id, path, v), id2, path2) == store_get(s, id2, path2),
{
    let fields = match assoc_find(s, id) {
        Option::None => Seq::empty(),
        Option::Some(f) => f,
    };
    if id2 != id {
        lemma_find_after_set_other(s, id, assoc_set(fields, path, v), id2);
    } else {
        lemma_find_after_set(s, id, assoc_set(fields, path, v));
        lemma_find_after_set_other(fields, path, v, path2);
    }
}

/// Law: an entry id never written reads as absent, whatever the path.
pub proof fn lemma_store_get_unwritten(s: StoreV, id: Seq<char>, path: PathV)
    requires
        assoc_find(s, id) is None,
    ensures
        store_get(s, id, path) is None,
{
}

} // verus!
