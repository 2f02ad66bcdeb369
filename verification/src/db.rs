//! The database: named collections of shards, command dispatch and
//! lifecycle. Every collection is created with the database's fixed shard
//! count, and an entry operation reaches exactly the one shard that the
//! router selects for its id.
use vstd::prelude::*;
use serde_json::Value;
use crate::assoc::{
    assoc_find, assoc_index, assoc_remove, assoc_set, distinct_keys, lemma_absent_index,
    lemma_assoc_index, lemma_assoc_remove_form, lemma_assoc_set_form, lemma_find_after_remove,
    lemma_find_after_set, lemma_first_index, lemma_remove_preserves_distinct,
    lemma_set_preserves_distinct, lemma_set_set_same,
};
use crate::cmd::{CommandOutput, DataCommand, DbCommand, DbCommandResult, DbError};
use crate::router::{lemma_route_in_range, route, route_spec};
use crate::store::{
    lemma_store_get_after_set, lemma_store_get_unwritten, lemma_store_set_frame, path_of,
    store_get, store_set, EntryStore, FieldsV, PathV, StoreV,
};

verus! {

/// The model of a collection: one store per shard, in shard order.
pub type CollectionV = Seq<StoreV>;

/// The model of the database's collections: name-to-collection bindings,
/// in creation order.
pub type CollectionsV = Seq<(Seq<char>, CollectionV)>;

/// One shard of a collection: it exclusively owns its entry store. The
/// mailbox and the worker thread that drains it belong to the runtime
/// around the library, which feeds each received request to this store.
pub struct Shard {
    pub store: EntryStore,
}

impl View for Shard {
    type V = StoreV;

    open spec fn view(&self) -> StoreV {
        self.store@
    }
}

/// A named, fixed-size group of shards partitioning one keyspace. The
/// shards are created together and torn down together.
pub struct ShardedCollection {
    pub shards: Vec<Shard>,
}

impl View for ShardedCollection {
    type V = CollectionV;

    open spec fn view(&self) -> CollectionV {
        self.shards@.map_values(|s: Shard| s@)
    }
}

/// A fresh collection's model: `n` shards, all empty.
pub open spec fn empty_collection(n: int) -> CollectionV {
    Seq::new(n as nat, |i: int| Seq::<(Seq<char>, FieldsV)>::empty())
}

impl ShardedCollection {
    /// Creates `num_shards` shards, each with a fresh, empty store.
    fn new(num_shards: usize) -> (c: ShardedCollection)
        ensures
            c@ == empty_collection(num_shards as int),
    {
        let mut shards: Vec<Shard> = Vec::new();
        let mut i: usize = 0;
        while i < num_shards
            invariant
                i <= num_shards,
                i == shards@.len(),
                forall|j: int|
                    0 <= j < i ==> shards@[j]@ == Seq::<(Seq<char>, FieldsV)>::empty(),
            decreases num_shards - i,
        {
            shards.push(Shard { store: EntryStore::new() });
            i += 1;
        }
        let c = ShardedCollection { shards };
        proof {
            assert(c@ =~= empty_collection(num_shards as int));
        }
        c
    }
}

/// The collections after a successful entry write: the routed shard's
/// store gains the binding, every other shard and every other collection
/// is unchanged.
pub open spec fn apply_entry_set(
    c: CollectionsV,
    n: int,
    name: Seq<char>,
    id: Seq<char>,
    path: PathV,
    v: Value,
) -> CollectionsV {
    match assoc_find(c, name) {
        Option::None => c,
        Option::Some(coll) => assoc_set(
            c,
            name,
            coll.update(route_spec(id, n), store_set(coll[route_spec(id, n)], id, path, v)),
        ),
    }
}

/// The value an entry read returns: what the routed shard's store holds
/// at the addressed id and path.
pub open spec fn entry_get_result(
    c: CollectionsV,
    n: int,
    name: Seq<char>,
    id: Seq<char>,
    path: PathV,
) -> Option<Value> {
    match assoc_find(c, name) {
        Option::None => Option::None,
        Option::Some(coll) => store_get(coll[route_spec(id, n)], id, path),
    }
}

/// The names of the collections, in creation order.
pub open spec fn collection_names(c: CollectionsV) -> Seq<Seq<char>> {
    c.map_values(|p: (Seq<char>, CollectionV)| p.0)
}

/// The database: the fixed shard count, applied to every collection it
/// creates, and the named collections it owns.
pub struct Ruko {
    num_shards: usize,
    collections: Vec<(String, ShardedCollection)>,
}

impl Ruko {
    /// The shard count every collection is created with; fixed at
    /// construction.
    pub closed spec fn shard_count(&self) -> int {
        self.num_shards as int
    }

    /// The model of the collections: name/collection bindings in
    /// creation order.
    pub closed spec fn collections_v(&self) -> CollectionsV {
        self.collections@.map_values(|p: (String, ShardedCollection)| (p.0@, p.1@))
    }

    /// Well-formed: at least one shard per collection, distinct
    /// collection names, and every collection holds exactly
    /// `shard_count()` shards.
    pub closed spec fn wf(&self) -> bool {
        &&& 1 <= self.num_shards <= u64::MAX
        &&& distinct_keys(self.collections_v())
        &&& forall|i: int|
            0 <= i < self.collections_v().len() ==> (#[trigger] self.collections_v()[i]).1.len()
                == self.shard_count()
    }

    /// Relies on `num_cpus::get`: the number of logical CPUs of the
    /// machine, documented to always be at least 1.
    #[verifier::external_body]
    fn cpu_count() -> (n: usize)
        ensures
            1 <= n,
    {
        num_cpus::get()
    }

    /// A database sized to the machine: one shard per logical CPU.
    pub fn new() -> (db: Ruko)
        ensures
            db.wf(),
            db.collections_v() == Seq::<(Seq<char>, CollectionV)>::empty(),
    {
        let n = Ruko::cpu_count();
        Ruko::with_shard_count(n)
    }

    /// A database with an explicit shard count. The count is fixed for
    /// the database's lifetime; zero is invalid and rejected here, at
    /// construction, not per call.
    pub fn with_shard_count(num_shards: usize) -> (db: Ruko)
        requires
            1 <= num_shards,
        ensures
            db.wf(),
            db.shard_count() == num_shards,
            db.collections_v() == Seq::<(Seq<char>, CollectionV)>::empty(),
    {
        let db = Ruko { num_shards, collections: Vec::new() };
        proof {
            assert(db.collections_v() =~= Seq::<(Seq<char>, CollectionV)>::empty());
        }
        db
    }

    /// The index of the named collection, when it exists.
    fn find_collection(&self, name: &String) -> (r: Option<usize>)
        ensures
            match r {
                Some(i) => {
                    &&& i < self.collections_v().len()
                    &&& assoc_index(self.collections_v(), name@) == i
                    &&& self.collections_v()[i as int].0 == name@
                    &&& assoc_find(self.collections_v(), name@) == Some(
                        self.collections_v()[i as int].1,
                    )
                },
                None => {
                    &&& assoc_find(self.collections_v(), name@) is None
                    &&& assoc_index(self.collections_v(), name@) == self.collections_v().len()
                    &&& forall|j: int|
                        0 <= j < self.collections_v().len() ==> (#[trigger] self.collections_v()[
                            j]).0 != name@
                },
            },
    {
        let ghost cv = self.collections_v();
        let mut i: usize = 0;
        while i < self.collections.len()
            invariant
                cv == self.collections_v(),
                0 <= i <= self.collections@.len(),
                forall|j: int| 0 <= j < i ==> cv[j].0 != name@,
            decreases self.collections@.len() - i,
        {
            proof {
                assert(cv[i as int] == (self.collections@[i as int].0@,
                self.collections@[i as int].1@));
            }
            let pair = &self.collections[i];
            if pair.0 == *name {
                proof {
                    lemma_first_index(cv, name@, i as int);
                }
                return Some(i);
            }
            i += 1;
        }
        proof {
            lemma_absent_index(cv, name@);
        }
        None
    }

    /// Dispatches one database-level command, per the collection state
    /// machine: creation fails on a name already present, destruction and
    /// entry operations fail on an absent name, listing never fails, and
    /// a shutdown command addressed to an entry is a protocol violation.
    pub fn run_command(&mut self, cmd: DbCommand) -> (r: DbCommandResult)
        requires
            old(self).wf(),
        ensures
            final(self).wf(),
            final(self).shard_count() == old(self).shard_count(),
            match cmd {
                DbCommand::CreateCollection { name } => {
                    if assoc_find(old(self).collections_v(), name@) is Some {
                        &&& r == Err::<CommandOutput, DbError>(DbError::AlreadyExists)
                        &&& final(self).collections_v() == old(self).collections_v()
                    } else {
                        &&& r == Ok::<CommandOutput, DbError>(CommandOutput::Done)
                        &&& final(self).collections_v() == old(self).collections_v().push(
                            (name@, empty_collection(old(self).shard_count())),
                        )
                    }
                },
                DbCommand::DestroyCollection { name } => {
                    if assoc_find(old(self).collections_v(), name@) is Some {
                        &&& r == Ok::<CommandOutput, DbError>(CommandOutput::Done)
                        &&& final(self).collections_v() == assoc_remove(
                            old(self).collections_v(),
                            name@,
                        )
                    } else {
                        &&& r == Err::<CommandOutput, DbError>(DbError::NotFound)
                        &&& final(self).collections_v() == old(self).collections_v()
                    }
                },
                DbCommand::ExecuteOnEntry { collection_name, id, command } => {
                    if assoc_find(old(self).collections_v(), collection_name@) is Some {
                        match command {
                            DataCommand::SetValue { key, value } => {
                                &&& r == Ok::<CommandOutput, DbError>(CommandOutput::Done)
                                &&& final(self).collections_v() == apply_entry_set(
                                    old(self).collections_v(),
                                    old(self).shard_count(),
                                    collection_name@,
                                    id@,
                                    path_of(key@),
                                    value,
                                )
                            },
                            DataCommand::Get { key } => {
                                &&& final(self).collections_v() == old(self).collections_v()
                                &&& r == Ok::<CommandOutput, DbError>(
                                    CommandOutput::Entry(
                                        entry_get_result(
                                            old(self).collections_v(),
                                            old(self).shard_count(),
                                            collection_name@,
                                            id@,
                                            path_of(key@),
                                        ),
                                    ),
                                )
                            },
                            DataCommand::ShutdownShardedCollection => {
                                &&& r == Err::<CommandOutput, DbError>(DbError::Internal)
                                &&& final(self).collections_v() == old(self).collections_v()
                            },
                        }
                    } else {
                        &&& r == Err::<CommandOutput, DbError>(DbError::NotFound)
                        &&& final(self).collections_v() == old(self).collections_v()
                    }
                },
                DbCommand::ListCollections => {
                    &&& final(self).collections_v() == old(self).collections_v()
                    &&& match r {
                        Ok(CommandOutput::Names(ns)) => ns@.map_values(|s: String| s@)
                            == collection_names(old(self).collections_v()),
                        _ => false,
                    }
                },
            },
    {
        match cmd {
            DbCommand::CreateCollection { name } => {
                let ghost cv = self.collections_v();
                match self.find_collection(&name) {
                    Some(_) => Err(DbError::AlreadyExists),
                    None => {
                        let coll = ShardedCollection::new(self.num_shards);
                        let ghost n = name@;
                        self.collections.push((name, coll));
                        proof {
                            assert(self.collections_v() =~= cv.push(
                                (n, empty_collection(old(self).shard_count())),
                            ));
                            let cv2 = self.collections_v();
                            assert forall|x: int, y: int|
                                0 <= x < y < cv2.len() implies cv2[x].0 != cv2[y].0 by {
                                if y == cv2.len() - 1 {
                                    assert(cv[x].0 != n);
                                }
                            }
                        }
                        Ok(CommandOutput::Done)
                    },
                }
            },
            DbCommand::DestroyCollection { name } => {
                let ghost cv = self.collections_v();
                match self.find_collection(&name) {
                    Some(i) => {
                        // The runtime sends each shard the shutdown command
                        // and joins its worker before the collection is
                        // dropped; in the model the shards fall with it.
                        let _removed = self.collections.remove(i);
                        proof {
                            lemma_assoc_remove_form(cv, name@);
                            assert(self.collections_v() =~= cv.remove(i as int));
                            lemma_remove_preserves_distinct(cv, name@);
                            let cv2 = self.collections_v();
                            assert forall|j: int|
                                0 <= j < cv2.len() implies (#[trigger] cv2[j]).1.len()
                                == self.shard_count() by {
                                if j < i as int {
                                    assert(cv2[j] == cv[j]);
                                } else {
                                    assert(cv2[j] == cv[j + 1]);
                                }
                            }
                        }
                        Ok(CommandOutput::Done)
                    },
                    None => Err(DbError::NotFound),
                }
            },
            DbCommand::ExecuteOnEntry { collection_name, id, command } => {
                let ghost cv = self.collections_v();
                match self.find_collection(&collection_name) {
                    Some(i) => {
                        match command {
                            DataCommand::SetValue { key, value } => {
                                let ghost kp = path_of(key@);
                                let ghost eid = id@;
                                let r_idx = route(id.as_str(), self.num_shards);
                                let ghost coll0 = cv[i as int].1;
                                proof {
                                    assert(cv[i as int] == (self.collections@[i as int].0@,
                                    self.collections@[i as int].1@));
                                    assert(coll0.len() == self.shard_count());
                                    assert(coll0[r_idx as int] == self.collections@[
                                        i as int].1.shards@[r_idx as int]@);
                                }
                                let pair = &mut self.collections[i];
                                let sh = &mut pair.1.shards[r_idx];
                                sh.store.set(id, key, value);
                                proof {
                                    let newc = coll0.update(
                                        r_idx as int,
                                        store_set(coll0[r_idx as int], eid, kp, value),
                                    );
                                    assert(self.collections@[i as int].1@ =~= newc);
                                    assert(self.collections_v() =~= cv.update(
                                        i as int,
                                        (collection_name@, newc),
                                    ));
                                    lemma_assoc_set_form(cv, collection_name@, newc);
                                    lemma_set_preserves_distinct(cv, collection_name@, newc);
                                    let cv2 = self.collections_v();
                                    assert forall|j: int|
                                        0 <= j < cv2.len() implies (#[trigger] cv2[j]).1.len()
                                        == self.shard_count() by {
                                        if j != i as int {
                                            assert(cv2[j] == cv[j]);
                                        }
                                    }
                                }
                                Ok(CommandOutput::Done)
                            },
                            DataCommand::Get { key } => {
                                let r_idx = route(id.as_str(), self.num_shards);
                                proof {
                                    assert(cv[i as int] == (self.collections@[i as int].0@,
                                    self.collections@[i as int].1@));
                                    assert(cv[i as int].1.len() == self.shard_count());
                                    assert(cv[i as int].1[r_idx as int]
                                        == self.collections@[i as int].1.shards@[r_idx as int]@);
                                }
                                let pair = &self.collections[i];
                                let sh = &pair.1.shards[r_idx];
                                let v = sh.store.get(&id, &key);
                                Ok(CommandOutput::Entry(v))
                            },
                            DataCommand::ShutdownShardedCollection => Err(DbError::Internal),
                        }
                    },
                    None => Err(DbError::NotFound),
                }
            },
            DbCommand::ListCollections => {
                let ghost cv = self.collections_v();
                let mut names: Vec<String> = Vec::new();
                let mut i: usize = 0;
                while i < self.collections.len()
                    invariant
                        *self == *old(self),
                        cv == self.collections_v(),
                        names@.len() == i,
                        0 <= i <= self.collections@.len(),
                        forall|j: int| 0 <= j < i ==> names@[j]@ == cv[j].0,
                    decreases self.collections@.len() - i,
                {
                    let pair = &self.collections[i];
                    names.push(pair.0.clone());
                    i += 1;
                }
                proof {
                    assert(names@.map_values(|s: String| s@) =~= collection_names(cv));
                }
                Ok(CommandOutput::Names(names))
            },
        }
    }

    /// Destroys every collection, each exactly as `DestroyCollection`
    /// does. Idempotent: on a database with no collections it does
    /// nothing and still succeeds.
    pub fn shutdown(&mut self)
        requires
            old(self).wf(),
        ensures
            final(self).wf(),
            final(self).shard_count() == old(self).shard_count(),
            final(self).collections_v() == Seq::<(Seq<char>, CollectionV)>::empty(),
    {
        while self.collections.len() > 0
            invariant
                self.wf(),
                self.shard_count() == old(self).shard_count(),
            decreases self.collections@.len(),
        {
            let ghost cv = self.collections_v();
            let pair = &self.collections[0];
            let name = pair.0.clone();
            proof {
                assert(cv[0] == (self.collections@[0].0@, self.collections@[0].1@));
                lemma_first_index(cv, name@, 0);
                lemma_assoc_remove_form(cv, name@);
            }
            let _ = self.run_command(DbCommand::DestroyCollection { name });
        }
        proof {
            assert(self.collections_v() =~= Seq::<(Seq<char>, CollectionV)>::empty());
        }
    }
}

/// Law: within one collection, a write followed by a read of the same
/// entry id and key path returns the value just written. The read reaches
/// the same shard the write reached, because routing is a pure function
/// of the id and the shard count.
pub proof fn lemma_set_then_get(
    c: CollectionsV,
    n: int,
    name: Seq<char>,
    id: Seq<char>,
    path: PathV,
    v: Value,
)
    requires
        1 <= n <= u64::MAX as int,
        match assoc_find(c, name) {
            Option::Some(coll) => coll.len() == n,
            Option::None => false,
        },
    ensures
        entry_get_result(apply_entry_set(c, n, name, id, path, v), n, name, id, path) == Some(v),
{
    match assoc_find(c, name) {
        Option::Some(coll) => {
            let r = route_spec(id, n);
            lemma_route_in_range(id, n);
            let newc = coll.update(r, store_set(coll[r], id, path, v));
            lemma_find_after_set(c, name, newc);
            lemma_store_get_after_set(coll[r], id, path, v);
        },
        Option::None => {},
    }
}

/// Law: a read of an entry id never written returns "absent" — never an
/// error — whatever the key path and whichever shard the id routes to.
pub proof fn lemma_get_unwritten(
    c: CollectionsV,
    n: int,
    name: Seq<char>,
    id: Seq<char>,
    path: PathV,
)
    requires
        1 <= n <= u64::MAX as int,
        match assoc_find(c, name) {
            Option::Some(coll) => coll.len() == n && forall|s: int|
                0 <= s < coll.len() ==> assoc_find(#[trigger] coll[s], id) is None,
            Option::None => false,
        },
    ensures
        entry_get_result(c, n, name, id, path) is None,
{
    match assoc_find(c, name) {
        Option::Some(coll) => {
            lemma_route_in_range(id, n);
            lemma_store_get_unwritten(coll[route_spec(id, n)], id, path);
        },
        Option::None => {},
    }
}

/// Law: once a collection's name is present, creating it again fails:
/// the name a successful creation appends is found by the next lookup.
pub proof fn lemma_create_then_create(c: CollectionsV, n: int, name: Seq<char>)
    requires
        assoc_find(c, name) is None,
    ensures
        assoc_find(c.push((name, empty_collection(n))), name) is Some,
{
    let c2 = c.push((name, empty_collection(n)));
    lemma_assoc_index(c2, name);
    if assoc_index(c2, name) == c2.len() {
        assert(c2[c.len() as int].0 != name);
        assert(false);
    }
}

/// Law: after a collection is destroyed, its name finds nothing, so an
/// entry operation against it fails with `NotFound`.
pub proof fn lemma_execute_after_destroy(c: CollectionsV, name: Seq<char>)
    requires
        distinct_keys(c),
    ensures
        assoc_find(assoc_remove(c, name), name) is None,
{
    lemma_find_after_remove(c, name);
}

/// Law: destroying a collection and creating the same name again yields
/// a fresh collection: the lookup finds exactly the empty shards, so no
/// state leaks across the destroy/create boundary.
pub proof fn lemma_destroy_then_create(c: CollectionsV, n: int, name: Seq<char>)
    requires
        distinct_keys(c),
    ensures
        assoc_find(assoc_remove(c, name).push((name, empty_collection(n))), name) == Some(
            empty_collection(n),
        ),
        forall|s: int| 0 <= s < n ==> (#[trigger] empty_collection(n)[s]).len() == 0,
{
    lemma_find_after_remove(c, name);
    let c1 = assoc_remove(c, name);
    let c2 = c1.push((name, empty_collection(n)));
    lemma_assoc_index(c1, name);
    lemma_first_index(c2, name, c1.len() as int);
}

/// Law: a write to one entry id and key path leaves what every other
/// read of the collection returns unchanged — whether the other id
/// routes to the same shard or to a different one.
pub proof fn lemma_set_preserves_other_reads(
    c: CollectionsV,
    n: int,
    name: Seq<char>,
    id: Seq<char>,
    path: PathV,
    v: Value,
    id2: Seq<char>,
    path2: PathV,
)
    requires
        1 <= n <= u64::MAX as int,
        id2 != id || path2 != path,
        match assoc_find(c, name) {
            Option::Some(coll) => coll.len() == n,
            Option::None => false,
        },
    ensures
        entry_get_result(apply_entry_set(c, n, name, id, path, v), n, name, id2, path2)
            == entry_get_result(c, n, name, id2, path2),
{
    match assoc_find(c, name) {
        Option::Some(coll) => {
            lemma_route_in_range(id, n);
            lemma_route_in_range(id2, n);
            let r1 = route_spec(id, n);
            let r2 = route_spec(id2, n);
            let newc = coll.update(r1, store_set(coll[r1], id, path, v));
            lemma_find_after_set(c, name, newc);
            if r1 == r2 {
                lemma_store_set_frame(coll[r1], id, path, v, id2, path2);
            } else {
                assert(newc[r2] == coll[r2]);
            }
        },
        Option::None => {},
    }
}

/// Law: entry writes against the same collection whose ids route to
/// different shards commute — applying them in either order yields the
/// same collections. Each write touches only the shard its id routes to,
/// which is why operations on different shards do not wait on each other.
pub proof fn lemma_independent_writes_commute(
    c: CollectionsV,
    n: int,
    name: Seq<char>,
    id1: Seq<char>,
    p1: PathV,
    v1: Value,
    id2: Seq<char>,
    p2: PathV,
    v2: Value,
)
    requires
        1 <= n <= u64::MAX as int,
        route_spec(id1, n) != route_spec(id2, n),
        match assoc_find(c, name) {
            Option::Some(coll) => coll.len() == n,
            Option::None => false,
        },
    ensures
        apply_entry_set(apply_entry_set(c, n, name, id1, p1, v1), n, name, id2, p2, v2)
            == apply_entry_set(apply_entry_set(c, n, name, id2, p2, v2), n, name, id1, p1, v1),
{
    lemma_route_in_range(id1, n);
    lemma_route_in_range(id2, n);
    match assoc_find(c, name) {
        Option::Some(coll) => {
            let r1 = route_spec(id1, n);
            let r2 = route_spec(id2, n);
            let x1 = store_set(coll[r1], id1, p1, v1);
            let x2 = store_set(coll[r2], id2, p2, v2);
            let ca = coll.update(r1, x1);
            let cb = coll.update(r2, x2);
            lemma_find_after_set(c, name, ca);
            let cab = ca.update(r2, store_set(ca[r2], id2, p2, v2));
            assert(ca[r2] == coll[r2]);
            lemma_set_set_same(c, name, ca, cab);
            lemma_find_after_set(c, name, cb);
            let cba = cb.update(r1, store_set(cb[r1], id1, p1, v1));
            assert(cb[r1] == coll[r1]);
            lemma_set_set_same(c, name, cb, cba);
            assert(cab =~= cba);
        },
        Option::None => {},
    }
}

} // verus!

