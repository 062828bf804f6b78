//! What work on whole databases, scripts and key definitions comes to.
use crate::assoc;
use crate::commands::CommandModel;
use crate::database;
use crate::database::DatabaseModel;
use crate::fkeys;
use crate::fkeys::{ForeignKeyModel, ReferentialAction};
use crate::manager;
use crate::prepare;
use crate::replaylaws;
use crate::replaylaws::same_table;
use crate::schema::{MomentModel, SchemaModel};
use crate::script;
use crate::script::Reading;
use crate::search;
use crate::sqltext;
use crate::store;
use crate::store::StoreModel;
use crate::table::TableModel;
use crate::text;
use crate::validate::TablesModel;
use vstd::prelude::*;

verus! {

// ---------------------------------------------------------------------------------------------
// Truncating
// ---------------------------------------------------------------------------------------------
proof fn key_to_means(keys: Seq<ForeignKeyModel>, t: Seq<char>, at: int)
    requires
        0 <= at <= keys.len(),
    ensures
        manager::key_to(keys, t, at) is Some <==> exists|i: int|
            at <= i < keys.len() && (#[trigger] keys[i]).parent_table == t,
    decreases keys.len() - at,
{
    if at < keys.len() {
        key_to_means(keys, t, at + 1);
    }
}

/// Whether a table other than the one named has a key that refers to it.
pub open spec fn refers(e: (Seq<char>, SchemaModel), t: Seq<char>) -> bool {
    e.0 != t && exists|i: int|
        0 <= i < fkeys::foreign_keys(e.0, e.1).len() && (#[trigger] fkeys::foreign_keys(
            e.0,
            e.1,
        )[i]).parent_table == t
}

proof fn referring_means(tables: TablesModel, t: Seq<char>, at: int)
    requires
        0 <= at <= tables.len(),
    ensures
        manager::referring_from(tables, t, at) is Some <==> exists|n: int|
            at <= n < tables.len() && refers(#[trigger] tables[n], t),
    decreases tables.len() - at,
{
    if at < tables.len() {
        referring_means(tables, t, at + 1);
        key_to_means(fkeys::foreign_keys(tables[at].0, tables[at].1), t, 0);
        assert(refers(tables[at], t) ==> exists|n: int|
            at <= n < tables.len() && refers(#[trigger] tables[n], t));
    }
}

/// A table is truncated where it is there and no other table's key refers to it; where foreign keys
/// are switched off, they do not count.
pub proof fn referenced_tables_are_not_truncated(
    s: StoreModel,
    d: Seq<char>,
    t: Seq<char>,
    foreign_key_checks: bool,
)
    ensures
        manager::truncate_refusal(s, d, t, foreign_key_checks) is None <==> (store::database_of(
            s,
            d,
        ) matches Some(db) && database::table_of(db, t) is Some && (!foreign_key_checks || !exists|
            n: int,
        |
            0 <= n < prepare::schemas_of(db).len() && refers(
                #[trigger] prepare::schemas_of(db)[n],
                t,
            ))),
{
    match store::database_of(s, d) {
        Some(db) => referring_means(prepare::schemas_of(db), t, 0),
        None => {},
    }
}

// ---------------------------------------------------------------------------------------------
// Tables that belong together
// ---------------------------------------------------------------------------------------------
/// Whether a request ties a table: it changes a table of a database with foreign keys, and the table
/// is one that these relate.
pub open spec fn ties(list: Seq<CommandModel>, s: StoreModel, d: Seq<char>, t: Seq<char>) -> bool {
    store::database_of(s, d) matches Some(db) && prepare::any_related(
        list,
        d,
        prepare::related_tables(prepare::all_keys(prepare::schemas_of(db))),
    ) && prepare::related_tables(prepare::all_keys(prepare::schemas_of(db))).contains(t)
}

proof fn related_means(
    list: Seq<CommandModel>,
    names: Seq<Seq<char>>,
    s: StoreModel,
    at: int,
    done: Seq<(Seq<char>, Seq<char>)>,
    d: Seq<char>,
    t: Seq<char>,
)
    requires
        0 <= at <= names.len(),
    ensures
        manager::related_from(list, names, s, at, done) matches Ok(out) ==> (out.contains((d, t))
            <==> done.contains((d, t)) || ((exists|i: int|
            at <= i < names.len() && (#[trigger] names[i]) == d) && ties(list, s, d, t))),
        manager::related_from(list, names, s, at, done) is Err <==> exists|i: int|
            at <= i < names.len() && store::database_of(s, #[trigger] names[i]) is None,
    decreases names.len() - at,
{
    if at < names.len() {
        match store::database_of(s, names[at]) {
            None => {
                assert(names[at] == names[at]);
            },
            Some(db) => {
                let tied = prepare::related_tables(prepare::all_keys(prepare::schemas_of(db)));
                let more = manager::paired(names[at], tied);
                let next = if prepare::any_related(list, names[at], tied) {
                    done + more
                } else {
                    done
                };
                related_means(list, names, s, at + 1, next, d, t);
                if (done + more).contains((d, t)) {
                    let k = (done + more).index_of((d, t));
                    if k < done.len() {
                        assert(done[k] == (d, t));
                    } else {
                        assert(more[k - done.len()] == (names[at], tied[k - done.len()]));
                    }
                }
                if done.contains((d, t)) {
                    assert((done + more)[done.index_of((d, t))] == (d, t));
                }
                if names[at] == d && tied.contains(t) {
                    let k = tied.index_of(t);
                    assert(more[k] == (d, t));
                    assert((done + more)[done.len() + k] == (d, t));
                }
            },
        }
    }
}

/// The tables that a request is kept together with are those that foreign keys relate in the
/// databases it changes, where it changes one of them.
pub proof fn related_tables_are_kept_together(
    list: Seq<CommandModel>,
    names: Seq<Seq<char>>,
    s: StoreModel,
    d: Seq<char>,
    t: Seq<char>,
)
    ensures
        manager::related_from(list, names, s, 0, Seq::empty()) matches Ok(out) ==> (out.contains(
            (d, t),
        ) <==> names.contains(d) && ties(list, s, d, t)),
{
    related_means(list, names, s, 0, Seq::empty(), d, t);
    if names.contains(d) {
        assert(names[names.index_of(d)] == d);
    }
}

// ---------------------------------------------------------------------------------------------
// Flushing and cleaning up
// ---------------------------------------------------------------------------------------------
proof fn flushed_keeps(
    db: DatabaseModel,
    names: Seq<Seq<char>>,
    m: MomentModel,
    at: int,
    other: Seq<char>,
)
    requires
        0 <= at <= names.len(),
    ensures
        match (
            database::table_of(db, other),
            database::table_of(manager::tables_flushed(db, names, m, at).0, other),
        ) {
            (Some(a), Some(b)) => same_table(a, b),
            (None, None) => true,
            _ => false,
        },
    decreases names.len() - at,
{
    replaylaws::tables_are_themselves(db, other);
    if at < names.len() {
        match database::checkpointed(db, names[at], m) {
            Err(_) => {},
            Ok(after) => {
                replaylaws::checkpoints_keep_rows(db, names[at], m, other);
                flushed_keeps(after, names, m, at + 1, other);
                let end = manager::tables_flushed(after, names, m, at + 1).0;
                match (
                    database::table_of(db, other),
                    database::table_of(after, other),
                    database::table_of(end, other),
                ) {
                    (Some(a), Some(b), Some(c)) => {
                        replaylaws::same_tables_follow(a, b, c);
                    },
                    _ => {},
                }
            },
        }
    }
}

/// Flushing a database changes no row of it, whether it succeeds or not.
pub proof fn flushing_keeps_every_row(db: DatabaseModel, names: Seq<Seq<char>>, m: MomentModel, other: Seq<char>)
    ensures
        match (
            database::table_of(db, other),
            database::table_of(manager::tables_flushed(db, names, m, 0).0, other),
        ) {
            (Some(a), Some(b)) => same_table(a, b),
            (None, None) => true,
            _ => false,
        },
{
    flushed_keeps(db, names, m, 0, other);
}

/// Cleaning up drops the tables that sessions have left, and touches no other.
pub proof fn cleaning_drops_temporary_tables(
    db: DatabaseModel,
    names: Seq<Seq<char>>,
    at: int,
    removed: u64,
    name: Seq<char>,
)
    requires
        0 <= at <= names.len(),
    ensures
        ({
            let (after, n, r) = manager::tables_cleaned(db, names, at, removed);
            &&& !search::starts_with(name, "__mydb_tmp_"@) ==> database::table_of(after, name)
                == database::table_of(db, name)
            &&& r is Ok && search::starts_with(name, "__mydb_tmp_"@) && (exists|i: int|
                at <= i < names.len() && (#[trigger] names[i]) == name) ==> database::table_of(
                after,
                name,
            ) is None
            &&& database::table_of(db, name) is None ==> database::table_of(after, name) is None
            &&& after.procedures == db.procedures
        }),
    decreases names.len() - at,
{
    if at < names.len() {
        if !manager::is_temporary(names[at]) {
            cleaning_drops_temporary_tables(db, names, at + 1, removed, name);
        } else if database::table_of(db, names[at]) is Some && database::component(names[at]) is Ok {
            let next = DatabaseModel { tables: assoc::without_entry(db.tables, names[at]), ..db };
            assoc::remove_then_lookup(db.tables, names[at], name);
            cleaning_drops_temporary_tables(
                next,
                names,
                at + 1,
                removed.saturating_add(1),
                name,
            );
        }
    }
}

// ---------------------------------------------------------------------------------------------
// Scripts
// ---------------------------------------------------------------------------------------------
/// Whether a text holds no quotation mark and no semicolon.
pub open spec fn unquoted(s: Seq<char>) -> bool {
    forall|i: int|
        0 <= i < s.len() ==> !script::opens_quote(#[trigger] s[i]) && s[i] != ';'
}

proof fn reads_on(s: Seq<char>, m: int, n: int)
    requires
        0 <= m <= n <= s.len(),
        script::reading(s, m).quote is None,
        !script::reading(s, m).escaped,
        unquoted(s.subrange(m, n)),
    ensures
        script::reading(s, n) == (Reading {
            current: script::reading(s, m).current + s.subrange(m, n),
            ..script::reading(s, m)
        }),
    decreases n - m,
{
    let st = script::reading(s, m);
    if m < n {
        assert forall|i: int| 0 <= i < s.subrange(m, n - 1).len() implies !script::opens_quote(
            #[trigger] s.subrange(m, n - 1)[i],
        ) && s.subrange(m, n - 1)[i] != ';' by {
            assert(s.subrange(m, n - 1)[i] == s.subrange(m, n)[i]);
        }
        reads_on(s, m, n - 1);
        assert(s.subrange(m, n)[n - 1 - m] == s[n - 1]);
        assert((st.current + s.subrange(m, n - 1)).push(s[n - 1]) =~= st.current + s.subrange(m, n));
    } else {
        assert(st.current + s.subrange(m, n) =~= st.current);
    }
}

proof fn body_is(a: Seq<char>)
    requires
        unquoted(a),
        text::trim(a).len() > 0,
    ensures
        script::body(a.push(';')) == text::trim(a),
{
    let w = text::white_fn();
    let s = a.push(';');
    start_pushed(a, ';');
    let t = text::trim_start_by(a, w);
    assert(text::trim_start_by(s, w) == t.push(';'));
    assert(text::trim(s) == t.push(';'));
    assert(t.push(';').drop_last() =~= t);
    start_kept(a);
    assert(t.len() > 0) by {
        text::trim_end_stops(t, w);
    }
    assert(t.last() == a.last());
    assert(a[a.len() - 1] != ';');
    reveal_with_fuel(text::trim_end_by, 2);
    assert(text::trim_end_by(t.push(';'), text::char_fn(';')) == t);
    text::trim_start_stops(a, w);
    assert(text::trim_start_by(t, w) == t);
}

proof fn start_pushed(a: Seq<char>, c: char)
    requires
        !text::is_white(c),
    ensures
        text::trim_start_by(a.push(c), text::white_fn()) == text::trim_start_by(
            a,
            text::white_fn(),
        ).push(c),
    decreases a.len(),
{
    let w = text::white_fn();
    if a.len() > 0 && w(a[0]) {
        let rest = a.subrange(1, a.len() as int);
        start_pushed(rest, c);
        assert(a.push(c).subrange(1, a.push(c).len() as int) =~= rest.push(c));
    } else if a.len() == 0 {
        assert(a.push(c)[0] == c);
    }
}

proof fn start_kept(a: Seq<char>)
    ensures
        text::trim_start_by(a, text::white_fn()).len() > 0 ==> a.len() > 0 && text::trim_start_by(
            a,
            text::white_fn(),
        ).last() == a.last(),
    decreases a.len(),
{
    let w = text::white_fn();
    if a.len() > 0 && w(a[0]) {
        let rest = a.subrange(1, a.len() as int);
        start_kept(rest);
    }
}

/// A semicolon outside quotation ends a statement: what stands before it, without the white space
/// at its ends, is the next statement of the script.
pub proof fn a_semicolon_ends_a_statement(s: Seq<char>, m: int, n: int)
    requires
        0 <= m <= n < s.len(),
        script::reading(s, m).quote is None,
        !script::reading(s, m).escaped,
        script::reading(s, m).current.len() == 0,
        unquoted(s.subrange(m, n)),
        text::trim(s.subrange(m, n)).len() > 0,
        s[n] == ';',
    ensures
        script::reading(s, n + 1).statements == script::reading(s, m).statements.push(
            text::trim(s.subrange(m, n)),
        ),
        script::reading(s, n + 1).current.len() == 0,
        script::reading(s, n + 1).quote is None,
        !script::reading(s, n + 1).escaped,
{
    reads_on(s, m, n);
    let a = s.subrange(m, n);
    assert(script::reading(s, m).current + a =~= a);
    body_is(a);
}

/// What stands behind the last semicolon of a script is its last statement, but for blanks.
pub proof fn the_rest_is_a_statement(s: Seq<char>, m: int)
    requires
        0 <= m <= s.len(),
        script::reading(s, m).quote is None,
        !script::reading(s, m).escaped,
        script::reading(s, m).current.len() == 0,
        unquoted(s.subrange(m, s.len() as int)),
    ensures
        ({
            let rest = text::trim(s.subrange(m, s.len() as int));
            let before = script::reading(s, m).statements;
            &&& script::script_statements(s) == Ok::<Seq<Seq<char>>, Seq<char>>(
                if rest.len() > 0 {
                    before.push(rest)
                } else {
                    before
                },
            )
            &&& script::complete_statements(s) == Ok::<Seq<Seq<char>>, Seq<char>>(before)
        }),
{
    reads_on(s, m, s.len() as int);
    assert(script::reading(s, m).current + s.subrange(m, s.len() as int) =~= s.subrange(
        m,
        s.len() as int,
    ));
}

// ---------------------------------------------------------------------------------------------
// Definitions of foreign keys
// ---------------------------------------------------------------------------------------------
/// A clause asks for what stands behind it: CASCADE, SET NULL, or else RESTRICT, which a definition
/// without the clause asks for too.
pub proof fn clauses_ask_for_actions(d: Seq<char>, clause: Seq<char>, rest: Seq<char>)
    ensures
        search::find(d, clause) is None ==> fkeys::action_of(d, clause)
            == ReferentialAction::Restrict,
        search::find(d, clause) matches Some(p) ==> {
            &&& d.skip(p + clause.len()) == "CASCADE"@ + rest ==> fkeys::action_of(d, clause)
                == ReferentialAction::Cascade
            &&& d.skip(p + clause.len()) == "SET NULL"@ + rest ==> fkeys::action_of(d, clause)
                == ReferentialAction::SetNull
            &&& d.skip(p + clause.len()) == "RESTRICT"@ + rest ==> fkeys::action_of(d, clause)
                == ReferentialAction::Restrict
            &&& d.skip(p + clause.len()) == "NO ACTION"@ + rest ==> fkeys::action_of(d, clause)
                == ReferentialAction::Restrict
        },
{
    reveal_strlit("CASCADE");
    reveal_strlit("SET NULL");
    reveal_strlit("RESTRICT");
    reveal_strlit("NO ACTION");
    let w = text::white_fn();
    match search::find(d, clause) {
        Some(p) => {
            let tail = d.skip(p + clause.len());
            if tail == "CASCADE"@ + rest {
                assert(tail[0] == 'C');
                assert(tail.take(7) =~= "CASCADE"@);
            }
            if tail == "SET NULL"@ + rest {
                assert(tail[0] == 'S');
                assert(tail.take(8) =~= "SET NULL"@);
                assert(tail.take(7)[0] == 'S');
                assert("CASCADE"@[0] == 'C');
            }
            if tail == "RESTRICT"@ + rest {
                assert(tail[0] == 'R');
                assert(tail.take(7)[0] == 'R' && tail.take(8)[0] == 'R');
                assert("CASCADE"@[0] == 'C' && "SET NULL"@[0] == 'S');
            }
            if tail == "NO ACTION"@ + rest {
                assert(tail[0] == 'N');
                assert(tail.take(7)[0] == 'N' && tail.take(8)[0] == 'N');
                assert("CASCADE"@[0] == 'C' && "SET NULL"@[0] == 'S');
            }
        },
        None => {},
    }
}

/// What a key does on DELETE and on UPDATE, each its own clause says.
pub proof fn each_clause_counts_for_itself(table: Seq<char>, d: Seq<char>)
    ensures
        fkeys::foreign_key_in(table, d) matches Some(k) ==> k.child_table == table && k.on_delete
            == fkeys::action_of(text::upper(d), " ON DELETE "@) && k.on_update == fkeys::action_of(
            text::upper(d),
            " ON UPDATE "@,
        ),
{
}

proof fn keys_upto_have(table: Seq<char>, defs: Seq<Seq<char>>, n: int, k: ForeignKeyModel)
    requires
        0 <= n <= defs.len(),
    ensures
        fkeys::foreign_keys_upto(table, defs, n).contains(k) <==> exists|i: int|
            0 <= i < n && fkeys::foreign_key_in(table, #[trigger] defs[i]) == Some(k),
    decreases n,
{
    if n > 0 {
        keys_upto_have(table, defs, n - 1, k);
        let before = fkeys::foreign_keys_upto(table, defs, n - 1);
        match fkeys::foreign_key_in(table, defs[n - 1]) {
            Some(found) => {
                let after = before.push(found);
                if after.contains(k) {
                    let i = after.index_of(k);
                    if i < before.len() {
                        assert(before[i] == k);
                        assert(before.contains(k));
                    } else {
                        assert(found == k);
                        assert(defs[n - 1] == defs[n - 1]);
                    }
                }
                if before.contains(k) {
                    assert(after[before.index_of(k)] == k);
                }
                assert(after[before.len() as int] == found);
            },
            None => {},
        }
    }
}

/// The foreign keys of a table are those that its definitions spell, all of them.
pub proof fn every_definition_counts(table: Seq<char>, s: SchemaModel, k: ForeignKeyModel)
    ensures
        fkeys::foreign_keys(table, s).contains(k) <==> exists|i: int|
            0 <= i < sqltext::schema_definitions(s).len() && fkeys::foreign_key_in(
                table,
                #[trigger] sqltext::schema_definitions(s)[i],
            ) == Some(k),
{
    let defs = sqltext::schema_definitions(s);
    keys_upto_have(table, defs, defs.len() as int, k);
}

} // verus!
