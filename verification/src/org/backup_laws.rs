//! What a backup carries and what a restore writes back.
use crate::org::backup::{
    backup_tables, cell_json, column_words, config_words, dump_of, export_keeps_the_rest,
    export_leaves_no_credential, exported_rows, exported_tables, field_named, fields_json, get,
    json_object, json_quoted, object_json, redacted_fields, redacted_row, restored, row_write,
    rows_of, schema_of, secret_column, table_writes, CellView, DbCellView, FieldView, TableDumpView,
    TableRowsView, TableSchemaView,
};
use crate::number_laws::signed_reads_back;
use crate::parse::int_text;
use crate::table::{first, lemma_filter_from, lemma_first, lemma_found_at};
use crate::text::{holds_text, lowered, stands_at};
use vstd::prelude::*;

verus! {

/// Whether the field at a position is the one that its name stands for.
pub open spec fn names_field(row: Seq<FieldView>, at: int) -> bool {
    &&& 0 <= at < row.len()
    &&& forall|i: int| 0 <= i < at ==> (#[trigger] row[i]).name != row[at].name
}

/// What is written for a value: an integer as itself, a text as itself, a number as it is printed,
/// a truth value as one or zero, what is nested as its text, and null for null alone.
pub open spec fn written_as(cell: CellView, value: DbCellView) -> bool {
    &&& cell matches CellView::Int(i) ==> value == DbCellView::Int(i)
    &&& cell matches CellView::Text(t) ==> value == DbCellView::Text(t)
    &&& cell matches CellView::Real(t) ==> value == DbCellView::Real(t)
    &&& cell matches CellView::Nested(t) ==> value == DbCellView::Text(t)
    &&& cell matches CellView::Bool(b) ==> value == DbCellView::Int(
        if b {
            1
        } else {
            0
        },
    )
    &&& cell is Null <==> value is Null
}

proof fn lemma_get_at(row: Seq<FieldView>, at: int)
    requires
        names_field(row, at),
    ensures
        get(row, row[at].name) == Some(row[at].cell),
{
    let p = field_named(row[at].name);
    assert forall|i: int| 0 <= i < at implies !p(#[trigger] row[i]) by {
        assert(row[i].name != row[at].name);
    }
    lemma_found_at(row, p, at);
}

/// A restored row writes, for each column that it shares with the live table, the value that the
/// row holds, and touches no other column.
pub proof fn restore_writes_what_the_row_holds(
    table: Seq<char>,
    live: Seq<Seq<char>>,
    row: Seq<FieldView>,
    at: int,
)
    requires
        names_field(row, at),
        live.contains(row[at].name),
    ensures
        ({
            let w = row_write(table, live, row);
            &&& w.table == table
            &&& w.columns.len() == w.values.len()
            &&& exists|k: int|
                0 <= k < w.columns.len() && #[trigger] w.columns[k] == row[at].name && written_as(
                    row[at].cell,
                    w.values[k],
                )
            &&& forall|k: int|
                0 <= k < w.columns.len() && #[trigger] w.columns[k] == row[at].name ==> written_as(
                    row[at].cell,
                    w.values[k],
                )
            &&& forall|k: int|
                0 <= k < w.columns.len() ==> live.contains(#[trigger] w.columns[k]) && exists|f: int|
                    0 <= f < row.len() && (#[trigger] row[f]).name == w.columns[k]
        }),
{
    broadcast use vstd::seq_lib::group_filter_ensures;

    let w = row_write(table, live, row);
    let keep = |c: Seq<char>| get(row, c) is Some;
    let name = row[at].name;
    lemma_get_at(row, at);
    assert(keep(name));
    let i = choose|i: int| 0 <= i < live.len() && live[i] == name;
    assert(w.columns == live.filter(keep));
    assert(live.filter(keep).contains(live[i]));
    let k = choose|k: int| 0 <= k < w.columns.len() && w.columns[k] == name;
    assert(w.columns[k] == name);
    assert forall|k: int| 0 <= k < w.columns.len() implies live.contains(#[trigger] w.columns[k])
        && exists|f: int| 0 <= f < row.len() && (#[trigger] row[f]).name == w.columns[k] by {
        lemma_filter_from(live, keep, k);
        assert(keep(w.columns[k]));
        lemma_first(row, field_named(w.columns[k]));
        let v = first(row, field_named(w.columns[k]))->0;
        let f = choose|f: int| 0 <= f < row.len() && row[f] == v;
        assert(row[f].name == w.columns[k]);
    }
}

/// Two integers are written as the same value only where they are the same.
pub proof fn integers_are_told_apart(
    table: Seq<char>,
    live: Seq<Seq<char>>,
    a: Seq<FieldView>,
    b: Seq<FieldView>,
    i: int,
    j: int,
    x: i64,
    y: i64,
    k: int,
    l: int,
)
    requires
        names_field(a, i),
        names_field(b, j),
        a[i].name == b[j].name,
        live.contains(a[i].name),
        a[i].cell == CellView::Int(x),
        b[j].cell == CellView::Int(y),
        0 <= k < row_write(table, live, a).columns.len(),
        0 <= l < row_write(table, live, b).columns.len(),
        row_write(table, live, a).columns[k] == a[i].name,
        row_write(table, live, b).columns[l] == b[j].name,
    ensures
        row_write(table, live, a).values[k] == row_write(table, live, b).values[l] ==> x == y,
{
    restore_writes_what_the_row_holds(table, live, a, i);
    restore_writes_what_the_row_holds(table, live, b, j);
}

/// The words that give a credential away.
pub open spec fn tells_of_credential(word: Seq<char>) -> bool {
    word == "secret"@ || word == "password"@ || word == "token"@ || word == "credential"@ || word
        == "api_key"@ || word == "apikey"@ || word == "private_key"@
}

/// A column holds credentials exactly where its name, in whatever case, has one of the telling
/// words in it, or where it is one of the two that are known to.
pub proof fn credential_columns_are_known_by_name(table: Seq<char>, column: Seq<char>)
    ensures
        secret_column(table, column) <==> (table == "one_tenants"@ && column
            == "exit_password_hash"@) || (table == "one_mcp_registry"@ && column == "secrets_json"@)
            || exists|word: Seq<char>, at: int|
            tells_of_credential(word) && 0 <= at && at + word.len() <= column.len()
                && #[trigger] lowered(column).subrange(at, at + word.len()) == word,
{
    let low = lowered(column);
    let words = column_words();
    if exists|i: int| 0 <= i < words.len() && holds_text(low, #[trigger] words[i]) {
        let i = choose|i: int| 0 <= i < words.len() && holds_text(low, #[trigger] words[i]);
        let at = choose|at: int| #[trigger] stands_at(low, words[i], at);
        assert(tells_of_credential(words[i]));
        assert(low.subrange(at, at + words[i].len()) == words[i]);
    }
    if exists|word: Seq<char>, at: int|
        tells_of_credential(word) && 0 <= at && at + word.len() <= column.len()
            && #[trigger] low.subrange(at, at + word.len()) == word {
        let (word, at) = choose|word: Seq<char>, at: int|
            tells_of_credential(word) && 0 <= at && at + word.len() <= column.len()
                && #[trigger] low.subrange(at, at + word.len()) == word;
        assert(stands_at(low, word, at));
        assert(holds_text(low, word));
        assert(words[0] == "secret"@ && words[1] == "password"@ && words[2] == "token"@ && words[3]
            == "credential"@ && words[4] == "api_key"@ && words[5] == "apikey"@ && words[6]
            == "private_key"@);
        let i: int = if word == words[0] {
            0
        } else if word == words[1] {
            1
        } else if word == words[2] {
            2
        } else if word == words[3] {
            3
        } else if word == words[4] {
            4
        } else if word == words[5] {
            5
        } else {
            6
        };
        assert(holds_text(low, words[i]));
    }
}

/// In settings, exactly the values whose names have a telling word in them are blanked, with the
/// marker; names and all other values stay.
pub proof fn settings_lose_only_credentials(fields: Seq<FieldView>, i: int)
    requires
        0 <= i < fields.len(),
    ensures
        ({
            let after = redacted_fields(fields);
            let told = exists|word: Seq<char>, at: int|
                (tells_of_credential(word) && word != "private_key"@ || word == "privatekey"@) && 0
                    <= at && at + word.len() <= fields[i].name.len() && #[trigger] lowered(
                    fields[i].name,
                ).subrange(at, at + word.len()) == word;
            &&& after.len() == fields.len()
            &&& after[i].name == fields[i].name
            &&& told ==> after[i].cell == CellView::Text("__REDACTED__"@)
            &&& !told ==> after[i].cell == fields[i].cell
        }),
{
    let low = lowered(fields[i].name);
    let words = config_words();
    assert(words[0] == "secret"@ && words[1] == "password"@ && words[2] == "token"@ && words[3]
        == "credential"@ && words[4] == "apikey"@ && words[5] == "api_key"@ && words[6]
        == "privatekey"@);
    reveal_strlit("private_key");
    reveal_strlit("secret");
    reveal_strlit("password");
    reveal_strlit("token");
    reveal_strlit("credential");
    reveal_strlit("apikey");
    reveal_strlit("api_key");
    assert("private_key"@.len() == 11);
    if exists|k: int| 0 <= k < words.len() && holds_text(low, #[trigger] words[k]) {
        let k = choose|k: int| 0 <= k < words.len() && holds_text(low, #[trigger] words[k]);
        let at = choose|at: int| #[trigger] stands_at(low, words[k], at);
        assert(words[k] == words[0] || words[k] == words[1] || words[k] == words[2] || words[k]
            == words[3] || words[k] == words[4] || words[k] == words[5] || words[k] == words[6]);
        assert(words[k] != "private_key"@) by {
            reveal_strlit("privatekey");
            assert("privatekey"@.len() == 10);
        }
        assert(low.subrange(at, at + words[k].len()) == words[k]);
    }
    if exists|word: Seq<char>, at: int|
        (tells_of_credential(word) && word != "private_key"@ || word == "privatekey"@) && 0 <= at
            && at + word.len() <= fields[i].name.len() && #[trigger] low.subrange(
            at,
            at + word.len(),
        ) == word {
        let (word, at) = choose|word: Seq<char>, at: int|
            (tells_of_credential(word) && word != "private_key"@ || word == "privatekey"@) && 0
                <= at && at + word.len() <= fields[i].name.len() && #[trigger] low.subrange(
                at,
                at + word.len(),
            ) == word;
        assert(stands_at(low, word, at));
        assert(holds_text(low, word));
        let k: int = if word == words[0] {
            0
        } else if word == words[1] {
            1
        } else if word == words[2] {
            2
        } else if word == words[3] {
            3
        } else if word == words[4] {
            4
        } else if word == words[5] {
            5
        } else {
            6
        };
        assert(holds_text(low, words[k]));
    }
}

/// What is neither a credential nor a setting comes back from a backup as it was: the row that is
/// dumped, exported and restored writes the value it held.
pub proof fn backup_brings_values_back(
    table: Seq<char>,
    columns: Seq<Seq<char>>,
    row: Seq<FieldView>,
    live: Seq<Seq<char>>,
    at: int,
)
    requires
        names_field(row, at),
        live.contains(row[at].name),
        !(table == "one_tenants"@ && row[at].name == "exit_password_hash"@),
        !(table == "one_mcp_registry"@ && row[at].name == "secrets_json"@),
        !(table == "one_sso_providers"@ && row[at].name == "config"@),
        forall|word: Seq<char>, i: int|
            tells_of_credential(word) && 0 <= i && i + word.len() <= row[at].name.len()
                ==> #[trigger] lowered(row[at].name).subrange(i, i + word.len()) != word,
    ensures
        ({
            let w = row_write(table, live, redacted_row(table, columns, row));
            exists|k: int|
                0 <= k < w.columns.len() && #[trigger] w.columns[k] == row[at].name && written_as(
                    row[at].cell,
                    w.values[k],
                )
        }),
{
    let name = row[at].name;
    credential_columns_are_known_by_name(table, name);
    export_keeps_the_rest(table, columns, row, name);
    lemma_get_at(row, at);
    let out = redacted_row(table, columns, row);
    let p = field_named(name);
    lemma_first(out, p);
    let f = lemma_named_at(out, name);
    restore_writes_what_the_row_holds(table, live, out, f);
}

proof fn lemma_named_at(row: Seq<FieldView>, name: Seq<char>) -> (f: int)
    requires
        get(row, name) is Some,
    ensures
        names_field(row, f),
        row[f].name == name,
        get(row, name) == Some(row[f].cell),
    decreases row.len(),
{
    let init = row.drop_last();
    let p = field_named(name);
    if first(init, p) is Some {
        let f = lemma_named_at(init, name);
        assert forall|i: int| 0 <= i < f implies (#[trigger] row[i]).name != row[f].name by {
            assert(init[i].name != init[f].name);
        }
        f
    } else {
        lemma_first(init, p);
        let f = row.len() - 1;
        assert forall|i: int| 0 <= i < f implies (#[trigger] row[i]).name != row[f].name by {
            assert(!p(init[i]));
        }
        f
    }
}

/// A credential leaves with no backup: a column whose name tells of one is null in every exported
/// row or holds the marker.
pub proof fn credentials_stay_behind(
    table: Seq<char>,
    columns: Seq<Seq<char>>,
    row: Seq<FieldView>,
    column: Seq<char>,
    word: Seq<char>,
    at: int,
)
    requires
        columns.contains(column),
        tells_of_credential(word),
        0 <= at,
        at + word.len() <= column.len(),
        lowered(column).subrange(at, at + word.len()) == word,
    ensures
        ({
            let cell = get(redacted_row(table, columns, row), column);
            cell == Some(CellView::Null) || cell == Some(CellView::Text("__REDACTED__"@))
        }),
{
    credential_columns_are_known_by_name(table, column);
    export_leaves_no_credential(table, columns, row, column);
}

/// Every row of a dump that can be read is exported, in order, and no other.
pub proof fn every_readable_row_is_exported(
    table: Seq<char>,
    columns: Seq<Seq<char>>,
    raw: Seq<Seq<char>>,
)
    ensures
        ({
            let out = exported_rows(table, columns, raw);
            let readable = raw.filter(|t: Seq<char>| json_object(t) is Some);
            &&& out.len() == readable.len()
            &&& forall|k: int|
                0 <= k < out.len() ==> (json_object(#[trigger] readable[k]) matches Some(row)
                    && out[k] == redacted_row(table, columns, row))
        }),
    decreases raw.len(),
{
    reveal(Seq::filter);
    if raw.len() > 0 {
        every_readable_row_is_exported(table, columns, raw.drop_last());
    }
}

/// A backup carries each of the deployment's configuration tables that there is a dump of, under
/// its name, and nothing of any other table.
pub proof fn backup_carries_the_tables(
    dumps: Seq<TableDumpView>,
    tables: Seq<Seq<char>>,
    name: Seq<char>,
    at: int,
)
    requires
        tables.contains(name),
        0 <= at < dumps.len(),
        dumps[at].table == name,
        forall|i: int| 0 <= i < at ==> (#[trigger] dumps[i]).table != name,
    ensures
        exists|k: int|
            0 <= k < exported_tables(dumps, tables).len() && (#[trigger] exported_tables(
                dumps,
                tables,
            )[k]).table == name && exported_tables(dumps, tables)[k].rows == exported_rows(
                name,
                dumps[at].columns,
                dumps[at].rows,
            ),
    decreases tables.len(),
{
    let out = exported_tables(dumps, tables);
    let init = tables.drop_last();
    let so_far = exported_tables(dumps, init);
    if tables.last() == name {
        lemma_found_at(dumps, dump_of(name), at);
        assert(out == so_far.push(out.last()));
        assert(out[so_far.len() as int].table == name);
    } else {
        let q = choose|q: int| 0 <= q < tables.len() && tables[q] == name;
        assert(init[q] == name);
        backup_carries_the_tables(dumps, init, name, at);
        let k = choose|k: int|
            0 <= k < so_far.len() && (#[trigger] so_far[k]).table == name && so_far[k].rows
                == exported_rows(name, dumps[at].columns, dumps[at].rows);
        assert(out[k] == so_far[k]);
    }
}

/// Which tables a backup is of.
pub proof fn backup_is_of_the_configuration(name: Seq<char>)
    ensures
        backup_tables().contains(name) <==> name == "one_tenants"@ || name == "one_user_org"@
            || name == "one_active_tenant"@ || name == "one_departments"@ || name
            == "one_tenant_invites"@ || name == "one_enterprises"@ || name
            == "one_enterprise_members"@ || name == "one_enterprise_license"@ || name
            == "one_license_activation"@ || name == "one_media_assets"@ || name
            == "one_media_ledger_settings"@ || name == "one_sso_providers"@ || name
            == "one_skill_registry"@ || name == "one_mcp_registry"@ || name
            == "one_rag_documents"@,
{
    let t = backup_tables();
    assert(t.len() == 15);
    assert(t.contains(t[0]) && t.contains(t[1]) && t.contains(t[2]) && t.contains(t[3])
        && t.contains(t[4]) && t.contains(t[5]) && t.contains(t[6]) && t.contains(t[7])
        && t.contains(t[8]) && t.contains(t[9]) && t.contains(t[10]) && t.contains(t[11])
        && t.contains(t[12]) && t.contains(t[13]) && t.contains(t[14]));
}

/// Every row of a table of the backup that the live deployment has is restored, where it shares a
/// column with the live table at all.
pub proof fn every_row_is_restored(
    bundle: Seq<TableRowsView>,
    schema: Seq<TableSchemaView>,
    tables: Seq<Seq<char>>,
    b: int,
    s: int,
    k: int,
)
    requires
        0 <= b < bundle.len(),
        tables.contains(bundle[b].table),
        forall|i: int| 0 <= i < b ==> (#[trigger] bundle[i]).table != bundle[b].table,
        0 <= s < schema.len(),
        schema[s].table == bundle[b].table,
        forall|i: int| 0 <= i < s ==> (#[trigger] schema[i]).table != bundle[b].table,
        0 <= k < bundle[b].rows.len(),
        row_write(bundle[b].table, schema[s].columns, bundle[b].rows[k]).columns.len() > 0,
    ensures
        restored(bundle, schema, tables).writes.contains(
            row_write(bundle[b].table, schema[s].columns, bundle[b].rows[k]),
        ),
    decreases tables.len(),
{
    let name = bundle[b].table;
    let w = row_write(name, schema[s].columns, bundle[b].rows[k]);
    let init = tables.drop_last();
    let so_far = restored(bundle, schema, init).writes;
    let out = restored(bundle, schema, tables).writes;
    if tables.last() == name {
        lemma_found_at(bundle, rows_of(name), b);
        lemma_found_at(schema, schema_of(name), s);
        let more = table_writes(name, schema[s].columns, bundle[b].rows);
        assert(out == so_far + more);
        lemma_row_planned(name, schema[s].columns, bundle[b].rows, k);
        let q = choose|q: int| 0 <= q < more.len() && more[q] == w;
        assert(out[so_far.len() + q] == w);
    } else {
        let q = choose|q: int| 0 <= q < tables.len() && tables[q] == name;
        assert(init[q] == name);
        every_row_is_restored(bundle, schema, init, b, s, k);
        let q = choose|q: int| 0 <= q < so_far.len() && so_far[q] == w;
        assert(out[q] == w);
    }
}

proof fn lemma_row_planned(
    table: Seq<char>,
    live: Seq<Seq<char>>,
    rows: Seq<Seq<FieldView>>,
    k: int,
)
    requires
        0 <= k < rows.len(),
        row_write(table, live, rows[k]).columns.len() > 0,
    ensures
        table_writes(table, live, rows).contains(row_write(table, live, rows[k])),
    decreases rows.len(),
{
    let w = row_write(table, live, rows[k]);
    let init = rows.drop_last();
    let so_far = table_writes(table, live, init);
    let out = table_writes(table, live, rows);
    if k == rows.len() - 1 {
        assert(out == so_far.push(w));
        assert(out[so_far.len() as int] == w);
    } else {
        assert(init[k] == rows[k]);
        lemma_row_planned(table, live, init, k);
        let q = choose|q: int| 0 <= q < so_far.len() && so_far[q] == w;
        assert(out[q] == w);
    }
}

/// A restore writes to no table but those of the backup that the live deployment has, and reports
/// as passed over exactly those that the backup has and the deployment has not.
pub proof fn restore_stays_within(
    bundle: Seq<TableRowsView>,
    schema: Seq<TableSchemaView>,
    tables: Seq<Seq<char>>,
)
    ensures
        forall|i: int|
            0 <= i < restored(bundle, schema, tables).writes.len() ==> ({
                let w = #[trigger] restored(bundle, schema, tables).writes[i];
                &&& tables.contains(w.table)
                &&& exists|s: int| 0 <= s < schema.len() && (#[trigger] schema[s]).table == w.table
                &&& exists|b: int| 0 <= b < bundle.len() && (#[trigger] bundle[b]).table == w.table
            }),
        forall|name: Seq<char>| #[trigger]
            restored(bundle, schema, tables).skipped.contains(name) <==> tables.contains(name) && (
            exists|b: int| 0 <= b < bundle.len() && (#[trigger] bundle[b]).table == name) && !(
            exists|s: int| 0 <= s < schema.len() && (#[trigger] schema[s]).table == name),
    decreases tables.len(),
{
    if tables.len() > 0 {
        let init = tables.drop_last();
        let last = tables.last();
        restore_stays_within(bundle, schema, init);
        let so_far = restored(bundle, schema, init);
        let out = restored(bundle, schema, tables);
        lemma_first(bundle, rows_of(last));
        lemma_first(schema, schema_of(last));
        assert forall|i: int| 0 <= i < out.writes.len() implies ({
            let w = #[trigger] out.writes[i];
            &&& tables.contains(w.table)
            &&& exists|s: int| 0 <= s < schema.len() && (#[trigger] schema[s]).table == w.table
            &&& exists|b: int| 0 <= b < bundle.len() && (#[trigger] bundle[b]).table == w.table
        }) by {
            let w = out.writes[i];
            if i < so_far.writes.len() {
                assert(w == so_far.writes[i]);
                let q = choose|q: int| 0 <= q < init.len() && init[q] == w.table;
                assert(tables[q] == w.table);
            } else {
                let t = first(bundle, rows_of(last))->0;
                let live = first(schema, schema_of(last))->0;
                lemma_writes_table(last, live.columns, t.rows, i - so_far.writes.len());
                assert(tables[tables.len() - 1] == last);
                let b = choose|b: int| 0 <= b < bundle.len() && bundle[b] == t;
                let s = choose|s: int| 0 <= s < schema.len() && schema[s] == live;
                assert(bundle[b].table == last && schema[s].table == last);
            }
        }
        assert forall|name: Seq<char>| #[trigger] out.skipped.contains(name) <==> tables.contains(
            name,
        ) && (exists|b: int| 0 <= b < bundle.len() && (#[trigger] bundle[b]).table == name) && !(
        exists|s: int| 0 <= s < schema.len() && (#[trigger] schema[s]).table == name) by {
            assert(tables.contains(name) <==> init.contains(name) || name == last) by {
                if tables.contains(name) {
                    let q = choose|q: int| 0 <= q < tables.len() && tables[q] == name;
                    if q < init.len() {
                        assert(init[q] == name);
                    }
                }
                if init.contains(name) {
                    let q = choose|q: int| 0 <= q < init.len() && init[q] == name;
                    assert(tables[q] == name);
                }
                assert(tables[tables.len() - 1] == last);
            }
            assert(so_far.skipped.contains(name) <==> init.contains(name) && (exists|b: int|
                0 <= b < bundle.len() && (#[trigger] bundle[b]).table == name) && !(exists|s: int|
                0 <= s < schema.len() && (#[trigger] schema[s]).table == name));
            if out.skipped != so_far.skipped {
                assert(out.skipped == so_far.skipped.push(last));
                assert(out.skipped[so_far.skipped.len() as int] == last);
                if so_far.skipped.contains(name) {
                    let q = choose|q: int|
                        0 <= q < so_far.skipped.len() && so_far.skipped[q] == name;
                    assert(out.skipped[q] == name);
                }
                let t = first(bundle, rows_of(last))->0;
                let b = choose|b: int| 0 <= b < bundle.len() && bundle[b] == t;
                assert(bundle[b].table == last);
            }
            if name == last {
                if exists|b: int| 0 <= b < bundle.len() && (#[trigger] bundle[b]).table == name {
                    let b = choose|b: int| 0 <= b < bundle.len() && (#[trigger] bundle[b]).table == name;
                    assert(rows_of(last)(bundle[b]));
                }
                if exists|s: int| 0 <= s < schema.len() && (#[trigger] schema[s]).table == name {
                    let s = choose|s: int| 0 <= s < schema.len() && (#[trigger] schema[s]).table == name;
                    assert(schema_of(last)(schema[s]));
                } else {
                    if first(schema, schema_of(last)) is Some {
                        let live = first(schema, schema_of(last))->0;
                        let s = choose|s: int| 0 <= s < schema.len() && schema[s] == live;
                        assert(schema[s].table == last);
                    }
                }
            }
        }
    }
}

proof fn lemma_writes_table(
    table: Seq<char>,
    live: Seq<Seq<char>>,
    rows: Seq<Seq<FieldView>>,
    i: int,
)
    requires
        0 <= i < table_writes(table, live, rows).len(),
    ensures
        table_writes(table, live, rows)[i].table == table,
    decreases rows.len(),
{
    let so_far = table_writes(table, live, rows.drop_last());
    if i < so_far.len() {
        lemma_writes_table(table, live, rows.drop_last(), i);
    }
}

/// A value of the settings is written as JSON: nothing as null, a truth value by its name, a number
/// in decimal digits that read as it, and what is JSON already as it is.
pub proof fn settings_are_written_as_json(
    n: i64,
    json: Seq<char>,
    fields: Seq<FieldView>,
    f: FieldView,
)
    ensures
        cell_json(CellView::Null) == "null"@,
        cell_json(CellView::Bool(true)) == "true"@,
        cell_json(CellView::Bool(false)) == "false"@,
        int_text(cell_json(CellView::Int(n))) == Some(n),
        cell_json(CellView::Real(json)) == json,
        cell_json(CellView::Nested(json)) == json,
        cell_json(CellView::Text(json)) == json_quoted(json),
        object_json(Seq::empty()) == "{"@ + "}"@,
        object_json(seq![f]) == "{"@ + (json_quoted(f.name) + ":"@ + cell_json(f.cell)) + "}"@,
        fields.len() > 0 ==> object_json(fields.push(f)) == object_json(fields).drop_last() + ","@
            + json_quoted(f.name) + ":"@ + cell_json(f.cell) + "}"@,
{
    reveal_strlit("}");
    signed_reads_back(n as int);
    assert("{"@ + Seq::<char>::empty() + "}"@ =~= "{"@ + "}"@);
    assert(seq![f].drop_last() =~= Seq::empty());
    assert(fields_json(seq![f].drop_last()) =~= Seq::<char>::empty());
    assert(fields_json(seq![f]) =~= json_quoted(f.name) + ":"@ + cell_json(f.cell));
    assert(fields.push(f).drop_last() =~= fields);
    if fields.len() > 0 {
        assert(object_json(fields).drop_last() =~= "{"@ + fields_json(fields));
        assert(object_json(fields.push(f)) =~= object_json(fields).drop_last() + ","@ + json_quoted(
            f.name,
        ) + ":"@ + cell_json(f.cell) + "}"@);
    }
}

/// Whether a bundle carries a table.
pub open spec fn carries(bundle: Seq<TableRowsView>, name: Seq<char>) -> bool {
    exists|b: int| 0 <= b < bundle.len() && (#[trigger] bundle[b]).table == name
}

/// Whether a bundle carries rows of a table.
pub open spec fn carries_rows(bundle: Seq<TableRowsView>, name: Seq<char>) -> bool {
    exists|b: int|
        0 <= b < bundle.len() && (#[trigger] bundle[b]).table == name && bundle[b].rows.len() > 0
            && forall|i: int| 0 <= i < b ==> (#[trigger] bundle[i]).table != name
}

/// Whether a deployment has a table.
pub open spec fn has_table(schema: Seq<TableSchemaView>, name: Seq<char>) -> bool {
    exists|s: int| 0 <= s < schema.len() && (#[trigger] schema[s]).table == name
}

proof fn lemma_first_carried(bundle: Seq<TableRowsView>, name: Seq<char>, n: int) -> (b: int)
    requires
        0 <= n < bundle.len(),
        bundle[n].table == name,
    ensures
        0 <= b <= n,
        bundle[b].table == name,
        forall|i: int| 0 <= i < b ==> (#[trigger] bundle[i]).table != name,
    decreases n,
{
    if exists|i: int| 0 <= i < n && (#[trigger] bundle[i]).table == name {
        let i = choose|i: int| 0 <= i < n && (#[trigger] bundle[i]).table == name;
        lemma_first_carried(bundle, name, i)
    } else {
        n
    }
}

proof fn lemma_table_found(
    bundle: Seq<TableRowsView>,
    schema: Seq<TableSchemaView>,
    name: Seq<char>,
)
    ensures
        first(bundle, rows_of(name)) is Some <==> carries(bundle, name),
        first(schema, schema_of(name)) is Some <==> has_table(schema, name),
        (first(bundle, rows_of(name)) is Some && first(bundle, rows_of(name))->0.rows.len() > 0)
            <==> carries_rows(bundle, name),
{
    let p = rows_of(name);
    let q = schema_of(name);
    lemma_first(bundle, p);
    lemma_first(schema, q);
    if first(bundle, p) is Some {
        let n = choose|n: int| 0 <= n < bundle.len() && bundle[n] == first(bundle, p)->0;
        assert(bundle[n].table == name);
    }
    if carries(bundle, name) {
        let n = choose|n: int| 0 <= n < bundle.len() && (#[trigger] bundle[n]).table == name;
        let b = lemma_first_carried(bundle, name, n);
        lemma_found_at(bundle, p, b);
        if carries_rows(bundle, name) {
            let c = choose|c: int|
                0 <= c < bundle.len() && (#[trigger] bundle[c]).table == name
                    && bundle[c].rows.len() > 0 && forall|i: int|
                    0 <= i < c ==> (#[trigger] bundle[i]).table != name;
            lemma_found_at(bundle, p, c);
        }
    }
    if first(schema, q) is Some {
        let s = choose|s: int| 0 <= s < schema.len() && schema[s] == first(schema, q)->0;
        assert(schema[s].table == name);
    }
    if has_table(schema, name) {
        let s = choose|s: int| 0 <= s < schema.len() && (#[trigger] schema[s]).table == name;
        assert(q(schema[s]));
    }
}

/// The tables that a restore counts are those that the bundle carries rows of and the deployment
/// has; those that it names as skipped are those that the bundle carries and the deployment does
/// not have.
pub proof fn restore_counts_its_tables(
    bundle: Seq<TableRowsView>,
    schema: Seq<TableSchemaView>,
    tables: Seq<Seq<char>>,
)
    ensures
        restored(bundle, schema, tables).applied == tables.filter(
            |name: Seq<char>| carries_rows(bundle, name) && has_table(schema, name),
        ).len(),
        restored(bundle, schema, tables).skipped == tables.filter(
            |name: Seq<char>| carries(bundle, name) && !has_table(schema, name),
        ),
    decreases tables.len(),
{
    reveal(Seq::filter);
    let p = |name: Seq<char>| carries_rows(bundle, name) && has_table(schema, name);
    let q = |name: Seq<char>| carries(bundle, name) && !has_table(schema, name);
    if tables.len() > 0 {
        let init = tables.drop_last();
        restore_counts_its_tables(bundle, schema, init);
        lemma_table_found(bundle, schema, tables.last());
        assert(tables.filter(p) == if p(tables.last()) {
            init.filter(p).push(tables.last())
        } else {
            init.filter(p)
        });
        assert(tables.filter(q) == if q(tables.last()) {
            init.filter(q).push(tables.last())
        } else {
            init.filter(q)
        });
    } else {
        assert(tables.filter(q) =~= Seq::empty());
    }
}

} // verus!
