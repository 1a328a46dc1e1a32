//! Extensions: units of code that a tenant can invoke by name.
//!
//! The manager binds a tenant and a name to a loaded unit and dispatches calls
//! to it. How a unit is brought in and what it does when it runs are left to
//! the implementor of [`Extension`]; the manager decides only which unit runs
//! and which data-access handle it receives.

use crate::common::UserId;
use vstd::prelude::*;

verus! {

/// A data-access handle that grants no access to data. It is what an
/// extension receives when it needs no storage, and the safe default
/// otherwise.
#[derive(Debug)]
pub struct NullDB {}

impl NullDB {
    /// A handle that grants nothing.
    pub fn new() -> NullDB {
        NullDB {  }
    }
}

/// A unit of code that can be loaded and then run any number of times.
///
/// Neither method promises anything: loading may fail for reasons outside this
/// library, and a run sees nothing but the handle it is given.
pub trait Extension: Sized {
    /// Brings in the unit that `path` identifies; `None` when there is none
    /// to be had.
    fn load(path: &str) -> Option<Self>;

    /// Runs the unit with `db` as its only access to data.
    fn call(&self, db: &NullDB);
}

/// `loaded` is what loading from `path` may yield: an outcome that the loader
/// of `E`, called on `path`, hands back.
pub open spec fn load_yields<E: Extension>(path: &str, loaded: Option<E>) -> bool {
    call_ensures(E::load, (path,), loaded)
}

/// Why an extension could not be bound.
#[derive(Clone, Copy, Debug, PartialEq, Eq, Structural)]
pub enum LoadError {
    /// No unit could be brought in from the given path.
    NotLoadable,
}

/// One bound extension.
struct Record<E> {
    tenant: UserId,
    name: String,
    unit: E,
}

impl<E> Record<E> {
    /// The tenant and name that this record is bound under.
    spec fn key(self) -> (UserId, Seq<char>) {
        (self.tenant, self.name@)
    }
}

/// The bindings that a run of records stands for. Where a key occurs twice the
/// later record counts.
spec fn records_map<E>(records: Seq<Record<E>>) -> Map<(UserId, Seq<char>), E>
    decreases records.len(),
{
    if records.len() == 0 {
        Map::empty()
    } else {
        records_map(records.drop_last()).insert(records.last().key(), records.last().unit)
    }
}

/// No two records share a tenant and a name.
spec fn keys_distinct<E>(records: Seq<Record<E>>) -> bool {
    forall|i: int, j: int|
        0 <= i < j < records.len() ==> (#[trigger] records[i]).key() != (
        #[trigger] records[j]).key()
}

/// Dropping the last record keeps the keys distinct.
proof fn lemma_front_distinct<E>(records: Seq<Record<E>>)
    requires
        keys_distinct(records),
        records.len() > 0,
    ensures
        keys_distinct(records.drop_last()),
{
    let front = records.drop_last();
    assert forall|i: int, j: int| 0 <= i < j < front.len() implies (#[trigger] front[i]).key() != (
    #[trigger] front[j]).key() by {
        assert(records[i].key() != records[j].key());
    }
}

/// The bindings hold exactly the keys of the records.
proof fn lemma_map_domain<E>(records: Seq<Record<E>>, key: (UserId, Seq<char>))
    ensures
        records_map(records).contains_key(key) <==> exists|i: int|
            0 <= i < records.len() && (#[trigger] records[i]).key() == key,
    decreases records.len(),
{
    if records.len() > 0 {
        let front = records.drop_last();
        lemma_map_domain(front, key);
        if records_map(records).contains_key(key) {
            if records.last().key() == key {
                assert(records[records.len() - 1].key() == key);
            } else {
                let i = choose|i: int| 0 <= i < front.len() && (#[trigger] front[i]).key() == key;
                assert(records[i].key() == key);
            }
        }
        if exists|i: int| 0 <= i < records.len() && (#[trigger] records[i]).key() == key {
            let i = choose|i: int| 0 <= i < records.len() && (#[trigger] records[i]).key() == key;
            if i < front.len() {
                assert(front[i].key() == key);
            }
        }
    }
}

/// With distinct keys, each record's key is bound to that record's unit.
proof fn lemma_map_value<E>(records: Seq<Record<E>>, at: int)
    requires
        keys_distinct(records),
        0 <= at < records.len(),
    ensures
        records_map(records).contains_key(records[at].key()),
        records_map(records)[records[at].key()] == records[at].unit,
    decreases records.len(),
{
    if at < records.len() - 1 {
        let front = records.drop_last();
        lemma_front_distinct(records);
        lemma_map_value(front, at);
        assert(front[at] == records[at]);
        assert(records[at].key() != records[records.len() - 1].key());
    }
}

/// With distinct keys, replacing one record by another with the same key
/// binds the new unit under that key and touches nothing else.
proof fn lemma_map_replace<E>(records: Seq<Record<E>>, at: int, record: Record<E>)
    requires
        keys_distinct(records),
        0 <= at < records.len(),
        record.key() == records[at].key(),
    ensures
        keys_distinct(records.update(at, record)),
        records_map(records.update(at, record)) == records_map(records).insert(
            record.key(),
            record.unit,
        ),
    decreases records.len(),
{
    let replaced = records.update(at, record);
    assert forall|i: int, j: int| 0 <= i < j < replaced.len() implies (
    #[trigger] replaced[i]).key() != (#[trigger] replaced[j]).key() by {
        assert(records[i].key() != records[j].key());
    }
    let front = records.drop_last();
    if at == records.len() - 1 {
        assert(replaced.drop_last() =~= front);
    } else {
        lemma_front_distinct(records);
        lemma_map_replace(front, at, record);
        assert(front[at] == records[at]);
        assert(replaced.drop_last() =~= front.update(at, record));
        assert(replaced.last() == records.last());
        assert(records[at].key() != records[records.len() - 1].key());
    }
    assert(records_map(replaced) =~= records_map(records).insert(record.key(), record.unit));
}

/// The registry of loaded extensions, keyed by tenant and name.
pub struct ExtensionManager<E: Extension> {
    records: Vec<Record<E>>,
}

impl<E: Extension> View for ExtensionManager<E> {
    type V = Map<(UserId, Seq<char>), E>;

    closed spec fn view(&self) -> Map<(UserId, Seq<char>), E> {
        records_map(self.records@)
    }
}

impl<E: Extension> ExtensionManager<E> {
    /// The invariant of every manager: a tenant and a name are bound at most
    /// once.
    pub closed spec fn wf(&self) -> bool {
        keys_distinct(self.records@)
    }

    /// A manager with no extension bound.
    pub fn new() -> (manager: ExtensionManager<E>)
        ensures
            manager.wf(),
            manager@ == Map::<(UserId, Seq<char>), E>::empty(),
    {
        ExtensionManager { records: Vec::new() }
    }

    /// The position of the record bound under `tenant` and `name`, if any.
    fn find(&self, tenant: UserId, name: &String) -> (found: Option<usize>)
        ensures
            match found {
                Some(at) => at < self.records@.len() && self.records@[at as int].key() == (
                    tenant,
                    name@,
                ),
                None => forall|i: int|
                    0 <= i < self.records@.len() ==> (#[trigger] self.records@[i]).key() != (
                        tenant,
                        name@,
                    ),
            },
    {
        let mut i: usize = 0;
        while i < self.records.len()
            invariant
                i <= self.records@.len(),
                forall|j: int|
                    0 <= j < i ==> (#[trigger] self.records@[j]).key() != (tenant, name@),
            decreases self.records@.len() - i,
        {
            if self.records[i].tenant == tenant && self.records[i].name == *name {
                return Some(i);
            }
            i = i + 1;
        }
        None
    }

    /// Binds `tenant` and `name` to the outcome of a load: to the unit when
    /// there is one, replacing the unit bound before; to nothing new, with an
    /// error, when the load brought none.
    pub fn install(&mut self, loaded: Option<E>, tenant: UserId, name: &str) -> (bound: Result<
        (),
        LoadError,
    >)
        requires
            old(self).wf(),
        ensures
            final(self).wf(),
            match loaded {
                Some(unit) => bound is Ok && final(self)@ == old(self)@.insert(
                    (tenant, name@),
                    unit,
                ),
                None => bound == Err::<(), LoadError>(LoadError::NotLoadable) && final(self)@
                    == old(self)@,
            },
    {
        match loaded {
            None => Err(LoadError::NotLoadable),
            Some(unit) => {
                let name: String = name.to_owned();
                let found = self.find(tenant, &name);
                let record = Record { tenant, name, unit };
                match found {
                    Some(at) => {
                        proof {
                            lemma_map_replace(self.records@, at as int, record);
                        }
                        self.records[at] = record;
                    },
                    None => {
                        self.records.push(record);
                        proof {
                            assert(self.records@.drop_last() =~= old(self).records@);
                        }
                    },
                }
                Ok(())
            },
        }
    }

    /// Loads the unit that `path` identifies and binds it to `tenant` and
    /// `name`. The loader of `E` is called on `path`, and what it hands back
    /// decides: a unit is bound, replacing the unit bound before; without a
    /// unit the call fails and no binding changes.
    pub fn load(&mut self, path: &str, tenant: UserId, name: &str) -> (bound: Result<
        (),
        LoadError,
    >)
        requires
            old(self).wf(),
        ensures
            final(self).wf(),
            exists|loaded: Option<E>| #[trigger]
                load_yields(path, loaded) && match loaded {
                    Some(unit) => bound is Ok && final(self)@ == old(self)@.insert(
                        (tenant, name@),
                        unit,
                    ),
                    None => bound == Err::<(), LoadError>(LoadError::NotLoadable) && final(self)@
                        == old(self)@,
                },
            bound is Ok ==> final(self)@.contains_key((tenant, name@)) && final(self)@
                == old(self)@.insert((tenant, name@), final(self)@[(tenant, name@)]),
            bound is Err ==> final(self)@ == old(self)@,
    {
        let loaded = E::load(path);
        proof {
            assert(load_yields(path, loaded));
        }
        self.install(loaded, tenant, name)
    }

    /// The unit bound to `tenant` and `name`, if any.
    pub fn get(&self, tenant: UserId, name: &str) -> (unit: Option<&E>)
        requires
            self.wf(),
        ensures
            match unit {
                Some(u) => self@.contains_key((tenant, name@)) && self@[(tenant, name@)] == *u,
                None => !self@.contains_key((tenant, name@)),
            },
    {
        let wanted: String = name.to_owned();
        proof {
            lemma_map_domain(self.records@, (tenant, name@));
        }
        match self.find(tenant, &wanted) {
            Some(at) => {
                proof {
                    lemma_map_value(self.records@, at as int);
                }
                Some(&self.records[at].unit)
            },
            None => None,
        }
    }

    /// Runs the extension bound to `tenant` and `name`, handing it `db`. When
    /// nothing is bound under them, nothing runs.
    pub fn call(&self, db: &NullDB, tenant: UserId, name: &str)
        requires
            self.wf(),
    {
        match self.get(tenant, name) {
            Some(unit) => unit.call(db),
            None => {},
        }
    }
}

} // verus!
