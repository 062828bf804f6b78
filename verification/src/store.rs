//! The store: databases by name, and what write commands do to them.
use crate::assoc;
use crate::commands;
use crate::commands::{CommandModel, WriteCommand};
use crate::database;
use crate::database::{Database, DatabaseModel};
use crate::error;
use crate::error::DbError;
use crate::sqltext;
use crate::table::TableModel;
use crate::text;
use vstd::prelude::*;

verus! {

#[derive(Debug)]
pub struct Store {
    pub databases: Vec<(String, Database)>,
}

pub type StoreModel = Seq<(Seq<char>, DatabaseModel)>;

impl View for Store {
    type V = StoreModel;

    open spec fn view(&self) -> StoreModel {
        self.databases.deep_view()
    }
}

pub open spec fn unknown_database(name: Seq<char>) -> Seq<char> {
    "Unknown database '"@ + name + "'"@
}

pub fn unknown_database_error(name: &str) -> (r: DbError)
    ensures
        r.message@ == unknown_database(name@),
{
    DbError::new(error::cat3("Unknown database '", name, "'"))
}

pub open spec fn database_of(s: StoreModel, name: Seq<char>) -> Option<DatabaseModel> {
    assoc::lookup(s, name)
}

/// The table of a name in the database of a name.
pub open spec fn table_in(s: StoreModel, database: Seq<char>, name: Seq<char>) -> Option<TableModel> {
    match database_of(s, database) {
        Some(db) => database::table_of(db, name),
        None => None,
    }
}

pub open spec fn empty_database(name: Seq<char>) -> DatabaseModel {
    DatabaseModel {
        name: name,
        tables: Seq::empty(),
        procedures: Seq::empty(),
        metadata: Seq::empty(),
    }
}

impl Store {
    pub open spec fn wf(self) -> bool {
        forall|i: int| 0 <= i < self.databases@.len() ==> (#[trigger] self.databases@[i]).1.wf()
    }

    pub fn new() -> (r: Self)
        ensures
            r.wf(),
            r@ == StoreModel::empty(),
    {
        let r = Store { databases: Vec::new() };
        assert(r@ =~= Seq::empty());
        r
    }

    pub fn find(&self, name: &str) -> (r: Option<usize>)
        ensures
            r is Some == database_of(self@, name@) is Some,
            r matches Some(i) ==> i < self.databases@.len() && assoc::entry(self@, name@) == Some(
                i as int,
            ) && database_of(self@, name@) == Some(self.databases@[i as int].1@)
                && self.databases@[i as int].0@ == name@,
    {
        proof {
            assoc::entry_found(self@, name@, 0);
        }
        assoc::find_entry(&self.databases, name)
    }

    /// The database of a name.
    pub fn database(&self, name: &str) -> (r: Option<&Database>)
        requires
            self.wf(),
        ensures
            r is Some == database_of(self@, name@) is Some,
            r matches Some(db) ==> db.wf() && database_of(self@, name@) == Some(db@),
    {
        match self.find(name) {
            Some(i) => Some(&self.databases[i].1),
            None => None,
        }
    }

    /// Sets the database of a name.
    pub fn put_database(&mut self, name: &str, db: Database)
        requires
            old(self).wf(),
            db.wf(),
        ensures
            final(self).wf(),
            final(self)@ == assoc::with_entry(old(self)@, name@, db@),
    {
        let ghost before = *self;
        match self.find(name) {
            Some(i) => {
                let key = self.databases[i].0.clone();
                self.databases.set(i, (key, db));
                proof {
                    assert(before@[i as int].0 == before.databases@[i as int].0@);
                    assert(self@ =~= before@.update(i as int, (before@[i as int].0, db@)));
                }
            },
            None => {
                self.databases.push((text::copy_text(name), db));
                assert(self@ =~= before@.push((name@, db@)));
            },
        }
        proof {
            assert forall|j: int| 0 <= j < self.databases@.len() implies (
            #[trigger] self.databases@[j]).1.wf() by {
                if j < before.databases@.len() {
                    assert(before.databases@[j].1.wf());
                }
            }
        }
    }

    /// Forgets the database of a name.
    pub fn remove_database(&mut self, name: &str)
        requires
            old(self).wf(),
        ensures
            final(self).wf(),
            final(self)@ == assoc::without_entry(old(self)@, name@),
    {
        let ghost s = self@;
        let ghost p = assoc::other_name::<DatabaseModel>(name@);
        let mut i: usize = 0;
        let ghost mut done: int = 0;
        assert(s.take(0).filter(p) =~= Seq::empty()) by {
            reveal(Seq::filter);
        }
        assert(s =~= s.take(0).filter(p) + s.skip(0));
        while i < self.databases.len()
            invariant
                i <= self.databases@.len(),
                0 <= done <= s.len(),
                p == assoc::other_name::<DatabaseModel>(name@),
                s.len() - done == self.databases@.len() - i,
                self@ == s.take(done).filter(p) + s.skip(done),
                s.take(done).filter(p).len() == i,
                self.wf(),
            decreases self.databases@.len() - i,
        {
            let ghost prior = *self;
            proof {
                crate::seqs::filter_step(s, done, p);
                assert(self@[i as int] == s[done]);
                assert(self@[i as int].0 == self.databases@[i as int].0@);
            }
            if text::text_equal(self.databases[i].0.as_str(), name) {
                self.databases.remove(i);
                proof {
                    assert(self@ =~= prior@.remove(i as int));
                    assert(self@ =~= s.take(done + 1).filter(p) + s.skip(done + 1));
                    assert forall|j: int| 0 <= j < self.databases@.len() implies (
                    #[trigger] self.databases@[j]).1.wf() by {
                        if j < i {
                            assert(self.databases@[j] == prior.databases@[j]);
                        } else {
                            assert(self.databases@[j] == prior.databases@[j + 1]);
                        }
                    }
                }
            } else {
                i += 1;
                assert(self@ =~= s.take(done + 1).filter(p) + s.skip(done + 1));
            }
            proof {
                done = done + 1;
            }
        }
        proof {
            assert(s.take(done) =~= s);
            assert(s.skip(done) =~= Seq::empty());
            assert(self@ =~= s.filter(p));
        }
    }

    pub fn database_names(&self) -> (r: Vec<String>)
        ensures
            r.deep_view() == self@.map_values(|e: (Seq<char>, DatabaseModel)| e.0),
    {
        let ghost target = self@.map_values(|e: (Seq<char>, DatabaseModel)| e.0);
        let mut out: Vec<String> = Vec::new();
        let mut i: usize = 0;
        assert(out.deep_view() =~= target.take(0));
        while i < self.databases.len()
            invariant
                i <= self.databases@.len(),
                target == self@.map_values(|e: (Seq<char>, DatabaseModel)| e.0),
                out.deep_view() == target.take(i as int),
            decreases self.databases@.len() - i,
        {
            let ghost before = out.deep_view();
            out.push(self.databases[i].0.clone());
            assert(self@[i as int].0 == self.databases@[i as int].0@);
            assert(out.deep_view() =~= before.push(target[i as int]));
            assert(target.take(i + 1) =~= target.take(i as int).push(target[i as int]));
            i += 1;
        }
        assert(target.take(i as int) =~= target);
        out
    }

    pub fn is_memory_table(&self, database: &str, name: &str) -> (r: bool)
        ensures
            r == (table_in(self@, database@, name@) matches Some(t) && sqltext::is_memory(t.schema)),
    {
        match self.find(database) {
            Some(i) => self.databases[i].1.is_memory_table(name),
            None => false,
        }
    }
}

/// A store in which one database has changed.
pub proof fn store_changed_at(before: Store, after: Store, i: int)
    requires
        before.wf(),
        0 <= i < before.databases@.len(),
        after.databases@.len() == before.databases@.len(),
        forall|j: int|
            0 <= j < before.databases@.len() && j != i ==> (#[trigger] after.databases@[j])
                == before.databases@[j],
        after.databases@[i].0 == before.databases@[i].0,
        after.databases@[i].1.wf(),
        assoc::entry(before@, before.databases@[i].0@) == Some(i),
    ensures
        after.wf(),
        after@ == assoc::with_entry(before@, before.databases@[i].0@, after.databases@[i].1@),
        after.databases@[i].1@ == before.databases@[i].1@ ==> after@ == before@,
{
    assert(before@[i].0 == before.databases@[i].0@);
    assert(after@ =~= before@.update(i, (before@[i].0, after.databases@[i].1@)));
    if after.databases@[i].1@ == before.databases@[i].1@ {
        assert(after@ =~= before@);
    }
}

/// Whether all commands change rows of MEMORY tables only.
pub open spec fn memory_only(list: Seq<CommandModel>, s: StoreModel) -> bool {
    list.len() > 0 && forall|i: int|
        0 <= i < list.len() ==> (commands::rows_target(#[trigger] list[i]) matches Some((d, n))
            && table_in(s, d, n) matches Some(t) && sqltext::is_memory(t.schema))
}

pub fn commands_are_memory_dml(list: &Vec<WriteCommand>, s: &Store) -> (r: bool)
    ensures
        r == memory_only(list.deep_view(), s@),
{
    let ghost all = list.deep_view();
    if list.len() == 0 {
        assert(all.len() == 0);
        return false;
    }
    let mut i: usize = 0;
    while i < list.len()
        invariant
            i <= list@.len(),
            all == list.deep_view(),
            forall|j: int|
                0 <= j < i ==> (commands::rows_target(#[trigger] all[j]) matches Some((d, n))
                    && table_in(s@, d, n) matches Some(t) && sqltext::is_memory(t.schema)),
        decreases list@.len() - i,
    {
        assert(all[i as int] == list@[i as int]@);
        match commands::command_table(&list[i]) {
            None => {
                return false;
            },
            Some(target) => {
                if !s.is_memory_table(target.0.as_str(), target.1.as_str()) {
                    return false;
                }
            },
        }
        i += 1;
    }
    assert(all.len() == list@.len());
    true
}

} // verus!
