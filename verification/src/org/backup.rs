//! Backup and restore of a deployment's enterprise configuration.
//!
//! A bundle holds the rows of the configuration tables as JSON objects, with every credential
//! replaced by a marker. User conversations are never part of it.
use crate::ids::is_short_id;
use crate::org::error::{OrgError, OrgErrorView};
use crate::org::service::{audited, newest_audit_id, username_of, OrgService};
use crate::table::{
    first, lemma_filter_step, lemma_first, lemma_first_map, lemma_first_push, views,
};
use crate::text::{
    as_opt_str, cat, cat3, contains_text, decimal, decimal_text, holds_text, lowered, same,
    signed_decimal, signed_text, texts, to_ascii_lowercase,
};
use vstd::prelude::*;

verus! {

/// The version of the bundle format. A restore refuses any other.
pub const BACKUP_VERSION: u32 = 1;

/// What stands in place of a credential.
pub const REDACTED: &'static str = "__REDACTED__";

/// [`REDACTED`] as a JSON text.
pub const REDACTED_JSON: &'static str = "\"__REDACTED__\"";

/// The tables of a backup, parents before children.
pub open spec fn backup_tables() -> Seq<Seq<char>> {
    seq![
        "one_tenants"@,
        "one_user_org"@,
        "one_active_tenant"@,
        "one_departments"@,
        "one_tenant_invites"@,
        "one_enterprises"@,
        "one_enterprise_members"@,
        "one_enterprise_license"@,
        "one_license_activation"@,
        "one_media_assets"@,
        "one_media_ledger_settings"@,
        "one_sso_providers"@,
        "one_skill_registry"@,
        "one_mcp_registry"@,
        "one_rag_documents"@,
    ]
}

pub fn backup_table_list() -> (r: Vec<String>)
    ensures
        texts(r@) == backup_tables(),
{
    let mut r: Vec<String> = Vec::new();
    r.push("one_tenants".to_owned());
    r.push("one_user_org".to_owned());
    r.push("one_active_tenant".to_owned());
    r.push("one_departments".to_owned());
    r.push("one_tenant_invites".to_owned());
    r.push("one_enterprises".to_owned());
    r.push("one_enterprise_members".to_owned());
    r.push("one_enterprise_license".to_owned());
    r.push("one_license_activation".to_owned());
    r.push("one_media_assets".to_owned());
    r.push("one_media_ledger_settings".to_owned());
    r.push("one_sso_providers".to_owned());
    r.push("one_skill_registry".to_owned());
    r.push("one_mcp_registry".to_owned());
    r.push("one_rag_documents".to_owned());
    proof {
        assert(texts(r@) =~= backup_tables());
    }
    r
}

/// A JSON value as it stands in a row.
#[derive(Debug, Clone)]
pub enum Cell {
    Null,
    Bool(bool),
    Int(i64),
    /// A number that is no `i64`, in decimal.
    Real(String),
    Text(String),
    /// An array or an object, as JSON text.
    Nested(String),
}

/// [`Cell`] as plain values.
pub enum CellView {
    Null,
    Bool(bool),
    Int(i64),
    Real(Seq<char>),
    Text(Seq<char>),
    Nested(Seq<char>),
}

impl View for Cell {
    type V = CellView;

    open spec fn view(&self) -> CellView {
        match *self {
            Cell::Null => CellView::Null,
            Cell::Bool(b) => CellView::Bool(b),
            Cell::Int(i) => CellView::Int(i),
            Cell::Real(t) => CellView::Real(t@),
            Cell::Text(t) => CellView::Text(t@),
            Cell::Nested(t) => CellView::Nested(t@),
        }
    }
}

impl Cell {
    pub fn copy(&self) -> (r: Self)
        ensures
            r@ == self@,
    {
        match self {
            Cell::Null => Cell::Null,
            Cell::Bool(b) => Cell::Bool(*b),
            Cell::Int(i) => Cell::Int(*i),
            Cell::Real(t) => Cell::Real(t.clone()),
            Cell::Text(t) => Cell::Text(t.clone()),
            Cell::Nested(t) => Cell::Nested(t.clone()),
        }
    }
}

/// A named value of a row.
#[derive(Debug, Clone)]
pub struct Field {
    pub name: String,
    pub cell: Cell,
}

/// [`Field`] as plain values.
pub struct FieldView {
    pub name: Seq<char>,
    pub cell: CellView,
}

impl View for Field {
    type V = FieldView;

    open spec fn view(&self) -> FieldView {
        FieldView {
            name: self.name@,
            cell: self.cell@,
        }
    }
}

impl Field {
    /// A second copy of the value.
    pub fn copy(&self) -> (r: Self)
        ensures
            r@ == self@,
    {
        Field {
            name: self.name.clone(),
            cell: self.cell.copy(),
        }
    }
}

/// A row: its named values.
#[derive(Debug, Clone)]
pub struct BackupRow {
    pub fields: Vec<Field>,
}

impl View for BackupRow {
    type V = Seq<FieldView>;

    open spec fn view(&self) -> Seq<FieldView> {
        views(self.fields@)
    }
}

/// The rows of a table.
#[derive(Debug, Clone)]
pub struct TableRows {
    pub table: String,
    pub rows: Vec<BackupRow>,
}

/// [`TableRows`] as plain values.
pub struct TableRowsView {
    pub table: Seq<char>,
    pub rows: Seq<Seq<FieldView>>,
}

impl View for TableRows {
    type V = TableRowsView;

    open spec fn view(&self) -> TableRowsView {
        TableRowsView { table: self.table@, rows: views(self.rows@) }
    }
}

/// A restorable snapshot of a deployment's enterprise configuration.
#[derive(Debug, Clone)]
pub struct BackupBundle {
    pub version: u32,
    pub exported_at: i64,
    /// The group whose administrator made the export. The bundle spans all groups.
    pub exported_by_tenant: String,
    pub contains_redactions: bool,
    pub tables: Vec<TableRows>,
}

/// A table as read from the database: its columns, and each row as JSON text.
#[derive(Debug, Clone)]
pub struct TableDump {
    pub table: String,
    pub columns: Vec<String>,
    pub rows: Vec<String>,
}

/// [`TableDump`] as plain values.
pub struct TableDumpView {
    pub table: Seq<char>,
    pub columns: Seq<Seq<char>>,
    pub rows: Seq<Seq<char>>,
}

impl View for TableDump {
    type V = TableDumpView;

    open spec fn view(&self) -> TableDumpView {
        TableDumpView {
            table: self.table@,
            columns: texts(self.columns@),
            rows: texts(self.rows@),
        }
    }
}

/// A table of this deployment and its columns.
#[derive(Debug, Clone)]
pub struct TableSchema {
    pub table: String,
    pub columns: Vec<String>,
}

/// [`TableSchema`] as plain values.
pub struct TableSchemaView {
    pub table: Seq<char>,
    pub columns: Seq<Seq<char>>,
}

impl View for TableSchema {
    type V = TableSchemaView;

    open spec fn view(&self) -> TableSchemaView {
        TableSchemaView {
            table: self.table@,
            columns: texts(self.columns@),
        }
    }
}

/// What a restore did.
#[derive(Debug, Clone)]
pub struct ImportReport {
    pub tables_applied: usize,
    pub rows_applied: usize,
    /// Tables of the bundle that this deployment does not have.
    pub tables_skipped: Vec<String>,
}

/// [`ImportReport`] as plain values.
pub struct ImportReportView {
    pub tables_applied: usize,
    pub rows_applied: usize,
    pub tables_skipped: Seq<Seq<char>>,
}

impl View for ImportReport {
    type V = ImportReportView;

    open spec fn view(&self) -> ImportReportView {
        ImportReportView {
            tables_applied: self.tables_applied,
            rows_applied: self.rows_applied,
            tables_skipped: texts(self.tables_skipped@),
        }
    }
}

/// A value as it is written to the database.
#[derive(Debug, Clone)]
pub enum DbCell {
    Null,
    Int(i64),
    /// A number that is no `i64`, in decimal.
    Real(String),
    Text(String),
}

/// [`DbCell`] as plain values.
pub enum DbCellView {
    Null,
    Int(i64),
    Real(Seq<char>),
    Text(Seq<char>),
}

impl View for DbCell {
    type V = DbCellView;

    open spec fn view(&self) -> DbCellView {
        match *self {
            DbCell::Null => DbCellView::Null,
            DbCell::Int(i) => DbCellView::Int(i),
            DbCell::Real(t) => DbCellView::Real(t@),
            DbCell::Text(t) => DbCellView::Text(t@),
        }
    }
}

/// A row to insert, in place of one with the same key.
#[derive(Debug, Clone)]
pub struct RowWrite {
    pub table: String,
    pub columns: Vec<String>,
    pub values: Vec<DbCell>,
}

/// [`RowWrite`] as plain values.
pub struct RowWriteView {
    pub table: Seq<char>,
    pub columns: Seq<Seq<char>>,
    pub values: Seq<DbCellView>,
}

impl View for RowWrite {
    type V = RowWriteView;

    open spec fn view(&self) -> RowWriteView {
        RowWriteView {
            table: self.table@,
            columns: texts(self.columns@),
            values: views(self.values@),
        }
    }
}

/// What a restore is to write, in order, and what it then reports.
#[derive(Debug)]
pub struct ImportPlan {
    pub report: ImportReport,
    pub writes: Vec<RowWrite>,
}

/// The fields of a JSON text that is an object.
pub uninterp spec fn json_object(text: Seq<char>) -> Option<Seq<FieldView>>;

/// A text as a JSON string, in quotes.
pub uninterp spec fn json_quoted(text: Seq<char>) -> Seq<char>;

/// The JSON text of a value.
pub open spec fn cell_json(cell: CellView) -> Seq<char> {
    match cell {
        CellView::Null => "null"@,
        CellView::Bool(b) => if b {
            "true"@
        } else {
            "false"@
        },
        CellView::Int(n) => signed_decimal(n as int),
        CellView::Text(t) => json_quoted(t),
        CellView::Real(t) | CellView::Nested(t) => t,
    }
}

/// The JSON text of fields, with commas between them.
pub open spec fn fields_json(fields: Seq<FieldView>) -> Seq<char>
    decreases fields.len(),
{
    if fields.len() == 0 {
        Seq::empty()
    } else {
        let so_far = fields_json(fields.drop_last());
        let comma = if fields.len() > 1 {
            ","@
        } else {
            Seq::empty()
        };
        so_far + comma + json_quoted(fields.last().name) + ":"@ + cell_json(fields.last().cell)
    }
}

/// The JSON text of an object with these fields, without white space between them.
pub open spec fn object_json(fields: Seq<FieldView>) -> Seq<char> {
    "{"@ + fields_json(fields) + "}"@
}

/// `serde_json::from_str` for an object, field by field: whether the text is one, and which fields
/// it has, depends on the text alone.
#[verifier::external_body]
fn parse_object(text: &str) -> (r: Option<Vec<Field>>)
    ensures
        match r {
            Some(fields) => json_object(text@) == Some(views(fields@)),
            None => json_object(text@) is None,
        },
{
    let Ok(serde_json::Value::Object(obj)) = serde_json::from_str(text) else { return None };
    let cell = |v: serde_json::Value| match v {
        serde_json::Value::Null => Cell::Null,
        serde_json::Value::Bool(b) => Cell::Bool(b),
        serde_json::Value::Number(n) => match n.as_i64() {
            Some(i) => Cell::Int(i),
            None => Cell::Real(n.to_string()),
        },
        serde_json::Value::String(s) => Cell::Text(s),
        other => Cell::Nested(other.to_string()),
    };
    Some(obj.into_iter().map(|(name, v)| Field { name, cell: cell(v) }).collect())
}

/// `serde_json::Value::to_string` for a string: what it writes depends on the text alone.
#[verifier::external_body]
fn quote(text: &str) -> (r: String)
    ensures
        r@ == json_quoted(text@),
{
    serde_json::Value::from(text).to_string()
}

fn render_cell(cell: &Cell) -> (r: String)
    ensures
        r@ == cell_json(cell@),
{
    match cell {
        Cell::Null => "null".to_owned(),
        Cell::Bool(b) => if *b {
            "true".to_owned()
        } else {
            "false".to_owned()
        },
        Cell::Int(n) => signed_text(*n),
        Cell::Text(t) => quote(t.as_str()),
        Cell::Real(t) => t.clone(),
        Cell::Nested(t) => t.clone(),
    }
}

fn render_object(fields: &Vec<Field>) -> (r: String)
    ensures
        r@ == object_json(views(fields@)),
{
    let ghost all = views(fields@);
    let mut out: String = String::new();
    let mut i: usize = 0;
    proof {
        assert(all.take(0) =~= Seq::empty());
    }
    while i < fields.len()
        invariant
            all == views(fields@),
            i <= fields.len(),
            out@ == fields_json(all.take(i as int)),
        decreases fields.len() - i,
    {
        let comma = if i > 0 {
            ","
        } else {
            ""
        };
        let name = quote(fields[i].name.as_str());
        let value = render_cell(&fields[i].cell);
        let head = cat3(out.as_str(), comma, name.as_str());
        out = cat3(head.as_str(), ":", value.as_str());
        proof {
            reveal_strlit("");
            let next = all.take(i + 1);
            assert(next.drop_last() =~= all.take(i as int));
            assert(next.last() == all[i as int]);
            assert(""@ =~= Seq::<char>::empty());
        }
        i = i + 1;
    }
    proof {
        assert(all.take(i as int) =~= all);
    }
    cat3("{", out.as_str(), "}")
}

pub open spec fn field_named(name: Seq<char>) -> spec_fn(FieldView) -> bool {
    |f: FieldView| f.name == name
}

/// The value of a row under a name.
pub open spec fn get(row: Seq<FieldView>, name: Seq<char>) -> Option<CellView> {
    match first(row, field_named(name)) {
        Some(f) => Some(f.cell),
        None => None,
    }
}

/// The row with a value under a name.
pub open spec fn put(row: Seq<FieldView>, name: Seq<char>, cell: CellView) -> Seq<FieldView> {
    if get(row, name) is Some {
        row.map_values(
            |f: FieldView|
                if f.name == name {
                    FieldView { name, cell }
                } else {
                    f
                },
        )
    } else {
        row.push(FieldView { name, cell })
    }
}

/// Whether a name looks like a credential's, in a list of telling words.
pub open spec fn telling(name: Seq<char>, words: Seq<Seq<char>>) -> bool {
    exists|i: int| 0 <= i < words.len() && holds_text(lowered(name), #[trigger] words[i])
}

pub open spec fn column_words() -> Seq<Seq<char>> {
    seq![
        "secret"@,
        "password"@,
        "token"@,
        "credential"@,
        "api_key"@,
        "apikey"@,
        "private_key"@,
    ]
}

pub open spec fn config_words() -> Seq<Seq<char>> {
    seq![
        "secret"@,
        "password"@,
        "token"@,
        "credential"@,
        "apikey"@,
        "api_key"@,
        "privatekey"@,
    ]
}

/// Whether a column holds credentials.
pub open spec fn secret_column(table: Seq<char>, column: Seq<char>) -> bool {
    ||| table == "one_tenants"@ && column == "exit_password_hash"@
    ||| table == "one_mcp_registry"@ && column == "secrets_json"@
    ||| telling(column, column_words())
}

/// Whether a column holds JSON settings that may hold credentials.
pub open spec fn config_column(table: Seq<char>, column: Seq<char>) -> bool {
    table == "one_sso_providers"@ && column == "config"@
}

fn has_word(name: &str, words: &Vec<String>) -> (r: bool)
    ensures
        r == telling(name@, texts(words@)),
{
    let low = to_ascii_lowercase(name);
    let mut i: usize = 0;
    while i < words.len()
        invariant
            low@ == lowered(name@),
            i <= words.len(),
            forall|j: int| 0 <= j < i ==> !holds_text(low@, #[trigger] texts(words@)[j]),
        decreases words.len() - i,
    {
        proof {
            assert(texts(words@)[i as int] == words@[i as int]@);
        }
        if contains_text(low.as_str(), words[i].as_str()) {
            return true;
        }
        i = i + 1;
    }
    false
}

fn word_list(last: &str, key_first: bool) -> (r: Vec<String>)
    ensures
        texts(r@) == if key_first {
            seq!["secret"@, "password"@, "token"@, "credential"@, "api_key"@, "apikey"@, last@]
        } else {
            seq!["secret"@, "password"@, "token"@, "credential"@, "apikey"@, "api_key"@, last@]
        },
{
    let mut r: Vec<String> = Vec::new();
    r.push("secret".to_owned());
    r.push("password".to_owned());
    r.push("token".to_owned());
    r.push("credential".to_owned());
    if key_first {
        r.push("api_key".to_owned());
        r.push("apikey".to_owned());
    } else {
        r.push("apikey".to_owned());
        r.push("api_key".to_owned());
    }
    r.push(last.to_owned());
    proof {
        if key_first {
            assert(texts(r@) =~= seq![
                "secret"@,
                "password"@,
                "token"@,
                "credential"@,
                "api_key"@,
                "apikey"@,
                last@,
            ]);
        } else {
            assert(texts(r@) =~= seq![
                "secret"@,
                "password"@,
                "token"@,
                "credential"@,
                "apikey"@,
                "api_key"@,
                last@,
            ]);
        }
    }
    r
}

pub fn is_secret_column(table: &str, column: &str) -> (r: bool)
    ensures
        r == secret_column(table@, column@),
{
    if same(table, "one_tenants") && same(column, "exit_password_hash") {
        return true;
    }
    if same(table, "one_mcp_registry") && same(column, "secrets_json") {
        return true;
    }
    has_word(column, &word_list("private_key", true))
}

pub fn is_json_config_column(table: &str, column: &str) -> (r: bool)
    ensures
        r == config_column(table@, column@),
{
    same(table, "one_sso_providers") && same(column, "config")
}

/// The fields of a settings object with every credential replaced by the marker.
pub open spec fn redacted_fields(fields: Seq<FieldView>) -> Seq<FieldView> {
    fields.map_values(
        |f: FieldView|
            if telling(f.name, config_words()) {
                FieldView { name: f.name, cell: CellView::Text(REDACTED@) }
            } else {
                f
            },
    )
}

/// A settings text without its credentials. What is no object is replaced whole.
pub open spec fn redacted_config(raw: Seq<char>) -> Seq<char> {
    match json_object(raw) {
        Some(fields) => object_json(redacted_fields(fields)),
        None => REDACTED_JSON@,
    }
}

/// Replaces every credential among the fields of a settings object.
pub fn redact_fields(fields: &Vec<Field>) -> (r: Vec<Field>)
    ensures
        views(r@) == redacted_fields(views(fields@)),
{
    let words = word_list("privatekey", false);
    let mut out: Vec<Field> = Vec::new();
    let mut i: usize = 0;
    while i < fields.len()
        invariant
            texts(words@) == config_words(),
            i <= fields.len(),
            out.len() == i,
            forall|j: int|
                0 <= j < i ==> #[trigger] out@[j]@ == redacted_fields(views(fields@))[j],
        decreases fields.len() - i,
    {
        if has_word(fields[i].name.as_str(), &words) {
            out.push(Field { name: fields[i].name.clone(), cell: Cell::Text(REDACTED.to_owned()) });
        } else {
            out.push(fields[i].copy());
        }
        i = i + 1;
    }
    proof {
        assert(views(out@) =~= redacted_fields(views(fields@)));
    }
    out
}

pub fn redact_json_secrets(raw: &str) -> (r: String)
    ensures
        r@ == redacted_config(raw@),
{
    match parse_object(raw) {
        Some(fields) => {
            let clean = redact_fields(&fields);
            render_object(&clean)
        },
        None => REDACTED_JSON.to_owned(),
    }
}

/// What a column is exported as. A credential that is not set stays unset.
pub open spec fn exported_cell(
    table: Seq<char>,
    column: Seq<char>,
    cell: Option<CellView>,
) -> Option<CellView> {
    if secret_column(table, column) && cell != Some(CellView::Null) {
        Some(CellView::Text(REDACTED@))
    } else if config_column(table, column) && !secret_column(table, column) && cell matches Some(
        CellView::Text(raw),
    ) {
        Some(CellView::Text(redacted_config(cell->0->Text_0)))
    } else {
        cell
    }
}

/// The row after its columns were gone through for credentials, one after the other.
pub open spec fn redacted_row(
    table: Seq<char>,
    columns: Seq<Seq<char>>,
    row: Seq<FieldView>,
) -> Seq<FieldView>
    decreases columns.len(),
{
    if columns.len() == 0 {
        row
    } else {
        let so_far = redacted_row(table, columns.drop_last(), row);
        let column = columns.last();
        let cell = exported_cell(table, column, get(so_far, column));
        if cell == get(so_far, column) {
            so_far
        } else {
            put(so_far, column, cell->0)
        }
    }
}

/// The rows of a dump that are objects, without their credentials.
pub open spec fn exported_rows(
    table: Seq<char>,
    columns: Seq<Seq<char>>,
    raw: Seq<Seq<char>>,
) -> Seq<Seq<FieldView>>
    decreases raw.len(),
{
    if raw.len() == 0 {
        Seq::empty()
    } else {
        let so_far = exported_rows(table, columns, raw.drop_last());
        match json_object(raw.last()) {
            Some(row) => so_far.push(redacted_row(table, columns, row)),
            None => so_far,
        }
    }
}

fn field_at(row: &Vec<Field>, name: &str) -> (r: Option<usize>)
    ensures
        match r {
            Some(i) => i < row.len() && get(views(row@), name@) == Some(row@[i as int]@.cell),
            None => get(views(row@), name@) is None,
        },
{
    let f = |f: &Field| -> (b: bool)
        ensures
            b == field_named(name@)(f@),
        { same(f.name.as_str(), name) };
    crate::table::find_where(row, f, Ghost(field_named(name@)))
}

fn put_text(row: &mut Vec<Field>, name: &str, text: &str)
    ensures
        views(final(row)@) == put(views(old(row)@), name@, CellView::Text(text@)),
{
    if field_at(row, name).is_some() {
        let ghost g = |f: FieldView|
            if f.name == name@ {
                FieldView { name: name@, cell: CellView::Text(text@) }
            } else {
                f
            };
        let u = |f: &Field| -> (y: Field)
            ensures
                y@ == g(f@),
            {
                if same(f.name.as_str(), name) {
                    Field { name: name.to_owned(), cell: Cell::Text(text.to_owned()) }
                } else {
                    f.copy()
                }
            };
        crate::table::map_rows(row, u, Ghost(g));
        proof {
            assert(views(row@) =~= put(views(old(row)@), name@, CellView::Text(text@)));
        }
    } else {
        let ghost before = views(row@);
        let f = Field { name: name.to_owned(), cell: Cell::Text(text.to_owned()) };
        row.push(f);
        proof {
            assert(views(row@) =~= before.push(f@));
        }
    }
}

/// Goes through the columns of a row for credentials.
pub fn redact_row(table: &str, columns: &Vec<String>, row: Vec<Field>) -> (r: Vec<Field>)
    ensures
        views(r@) == redacted_row(table@, texts(columns@), views(row@)),
{
    let ghost all = texts(columns@);
    let ghost start = views(row@);
    let mut row = row;
    let mut i: usize = 0;
    proof {
        assert(all.take(0) =~= Seq::empty());
    }
    while i < columns.len()
        invariant
            all == texts(columns@),
            i <= columns.len(),
            views(row@) == redacted_row(table@, all.take(i as int), start),
        decreases columns.len() - i,
    {
        let column = columns[i].as_str();
        proof {
            assert(all.take(i + 1).drop_last() =~= all.take(i as int));
            assert(all.take(i + 1).last() == column@);
        }
        let at = field_at(&row, column);
        let is_null = match at {
            Some(k) => matches!(row[k].cell, Cell::Null),
            None => false,
        };
        if is_secret_column(table, column) {
            if !is_null {
                let marked = match at {
                    Some(k) => match &row[k].cell {
                        Cell::Text(t) => same(t.as_str(), REDACTED),
                        _ => false,
                    },
                    None => false,
                };
                if !marked {
                    put_text(&mut row, column, REDACTED);
                }
            }
        } else if is_json_config_column(table, column) {
            if let Some(k) = at {
                let text: Option<String> = match &row[k].cell {
                    Cell::Text(t) => Some(t.clone()),
                    _ => None,
                };
                if let Some(raw) = text {
                    let clean = redact_json_secrets(raw.as_str());
                    if !same(clean.as_str(), raw.as_str()) {
                        put_text(&mut row, column, clean.as_str());
                    }
                }
            }
        }
        i = i + 1;
    }
    proof {
        assert(all.take(i as int) =~= all);
    }
    row
}

/// The rows of a table as exported.
pub fn export_table(dump: &TableDump) -> (r: TableRows)
    ensures
        r@ == (TableRowsView {
            table: dump@.table,
            rows: exported_rows(dump@.table, dump@.columns, dump@.rows),
        }),
{
    let ghost raw = dump@.rows;
    let mut rows: Vec<BackupRow> = Vec::new();
    let mut i: usize = 0;
    proof {
        assert(raw.take(0) =~= Seq::empty());
        assert(views(rows@) =~= Seq::empty());
    }
    while i < dump.rows.len()
        invariant
            raw == dump@.rows,
            i <= dump.rows.len(),
            views(rows@) == exported_rows(dump@.table, dump@.columns, raw.take(i as int)),
        decreases dump.rows.len() - i,
    {
        proof {
            assert(raw.take(i + 1).drop_last() =~= raw.take(i as int));
            assert(raw.take(i + 1).last() == dump.rows@[i as int]@);
        }
        if let Some(fields) = parse_object(dump.rows[i].as_str()) {
            let clean = redact_row(dump.table.as_str(), &dump.columns, fields);
            let ghost before = views(rows@);
            let one = BackupRow { fields: clean };
            rows.push(one);
            proof {
                assert(views(rows@) =~= before.push(one@));
            }
        }
        i = i + 1;
    }
    proof {
        assert(raw.take(i as int) =~= raw);
    }
    TableRows { table: dump.table.clone(), rows }
}

pub open spec fn dump_of(table: Seq<char>) -> spec_fn(TableDumpView) -> bool {
    |d: TableDumpView| d.table == table
}

pub open spec fn rows_of(table: Seq<char>) -> spec_fn(TableRowsView) -> bool {
    |t: TableRowsView| t.table == table
}

pub open spec fn schema_of(table: Seq<char>) -> spec_fn(TableSchemaView) -> bool {
    |t: TableSchemaView| t.table == table
}

/// The tables of a backup that the database has, exported in the order of the list.
pub open spec fn exported_tables(dumps: Seq<TableDumpView>, tables: Seq<Seq<char>>) -> Seq<
    TableRowsView,
>
    decreases tables.len(),
{
    if tables.len() == 0 {
        Seq::empty()
    } else {
        let so_far = exported_tables(dumps, tables.drop_last());
        match first(dumps, dump_of(tables.last())) {
            Some(d) => so_far.push(
                TableRowsView {
                    table: d.table,
                    rows: exported_rows(d.table, d.columns, d.rows),
                },
            ),
            None => so_far,
        }
    }
}

/// Builds a bundle from the tables that the database has.
pub fn export_bundle(dumps: &Vec<TableDump>, tenant_id: &str, now_ms: i64) -> (b: BackupBundle)
    ensures
        b.version == BACKUP_VERSION,
        b.exported_at == now_ms,
        b.exported_by_tenant@ == tenant_id@,
        b.contains_redactions,
        views(b.tables@) == exported_tables(views(dumps@), backup_tables()),
{
    let list = backup_table_list();
    let ghost all = backup_tables();
    let mut tables: Vec<TableRows> = Vec::new();
    let mut i: usize = 0;
    proof {
        assert(all.take(0) =~= Seq::empty());
        assert(views(tables@) =~= Seq::empty());
    }
    while i < list.len()
        invariant
            texts(list@) == all,
            i <= list.len(),
            views(tables@) == exported_tables(views(dumps@), all.take(i as int)),
        decreases list.len() - i,
    {
        let name = list[i].as_str();
        proof {
            assert(texts(list@)[i as int] == name@);
            assert(all.take(i + 1).drop_last() =~= all.take(i as int));
            assert(all.take(i + 1).last() == name@);
        }
        let f = |d: &TableDump| -> (b: bool)
            ensures
                b == dump_of(name@)(d@),
            { same(d.table.as_str(), name) };
        if let Some(k) = crate::table::find_where(dumps, f, Ghost(dump_of(name@))) {
            let ghost before = views(tables@);
            let one = export_table(&dumps[k]);
            tables.push(one);
            proof {
                assert(views(tables@) =~= before.push(one@));
            }
        }
        i = i + 1;
    }
    proof {
        assert(texts(list@).len() == list@.len());
        assert(all.take(i as int) =~= all);
    }
    BackupBundle {
        version: BACKUP_VERSION,
        exported_at: now_ms,
        exported_by_tenant: tenant_id.to_owned(),
        contains_redactions: true,
        tables,
    }
}

/// What a value is written to the database as.
pub open spec fn db_cell(cell: Option<CellView>) -> DbCellView {
    match cell {
        None => DbCellView::Null,
        Some(CellView::Null) => DbCellView::Null,
        Some(CellView::Bool(b)) => DbCellView::Int(
            if b {
                1
            } else {
                0
            },
        ),
        Some(CellView::Int(i)) => DbCellView::Int(i),
        Some(CellView::Real(t)) => DbCellView::Real(t),
        Some(CellView::Text(t)) => DbCellView::Text(t),
        Some(CellView::Nested(t)) => DbCellView::Text(t),
    }
}

/// The columns of the live table that the row has.
pub open spec fn shared_columns(live: Seq<Seq<char>>, row: Seq<FieldView>) -> Seq<Seq<char>> {
    live.filter(|c: Seq<char>| get(row, c) is Some)
}

/// What a row leads to: a write of the columns that the live table has.
pub open spec fn row_write(
    table: Seq<char>,
    live: Seq<Seq<char>>,
    row: Seq<FieldView>,
) -> RowWriteView {
    let columns = shared_columns(live, row);
    RowWriteView {
        table,
        columns,
        values: columns.map_values(|c: Seq<char>| db_cell(get(row, c))),
    }
}

/// The writes of a table's rows; a row that shares no column with the live table has none.
pub open spec fn table_writes(
    table: Seq<char>,
    live: Seq<Seq<char>>,
    rows: Seq<Seq<FieldView>>,
) -> Seq<RowWriteView>
    decreases rows.len(),
{
    if rows.len() == 0 {
        Seq::empty()
    } else {
        let so_far = table_writes(table, live, rows.drop_last());
        if shared_columns(live, rows.last()).len() > 0 {
            so_far.push(row_write(table, live, rows.last()))
        } else {
            so_far
        }
    }
}

/// How far a restore has come.
pub struct ImportProgress {
    pub applied: nat,
    pub skipped: Seq<Seq<char>>,
    pub writes: Seq<RowWriteView>,
}

/// A restore of the listed tables, one after the other.
pub open spec fn restored(
    bundle: Seq<TableRowsView>,
    schema: Seq<TableSchemaView>,
    tables: Seq<Seq<char>>,
) -> ImportProgress
    decreases tables.len(),
{
    if tables.len() == 0 {
        ImportProgress { applied: 0, skipped: Seq::empty(), writes: Seq::empty() }
    } else {
        let so_far = restored(bundle, schema, tables.drop_last());
        let table = tables.last();
        match first(bundle, rows_of(table)) {
            None => so_far,
            Some(t) => match first(schema, schema_of(table)) {
                None => ImportProgress { skipped: so_far.skipped.push(table), ..so_far },
                Some(live) => if t.rows.len() == 0 {
                    so_far
                } else {
                    ImportProgress {
                        applied: so_far.applied + 1,
                        writes: so_far.writes + table_writes(table, live.columns, t.rows),
                        ..so_far
                    }
                },
            },
        }
    }
}

pub open spec fn version_message(version: u32) -> Seq<char> {
    "unsupported backup version "@ + decimal(version as nat) + " (this build reads version "@
        + decimal(BACKUP_VERSION as nat) + ")"@
}

fn to_db_cell(cell: &Cell) -> (r: DbCell)
    ensures
        r@ == db_cell(Some(cell@)),
{
    match cell {
        Cell::Null => DbCell::Null,
        Cell::Bool(b) => DbCell::Int(
            if *b {
                1
            } else {
                0
            },
        ),
        Cell::Int(i) => DbCell::Int(*i),
        Cell::Real(t) => DbCell::Real(t.clone()),
        Cell::Text(t) => DbCell::Text(t.clone()),
        Cell::Nested(t) => DbCell::Text(t.clone()),
    }
}

/// The write that a row leads to, if it shares a column with the live table.
pub fn plan_row(table: &str, live: &Vec<String>, row: &Vec<Field>) -> (r: Option<RowWrite>)
    ensures
        match r {
            Some(w) => w@ == row_write(table@, texts(live@), views(row@)) && w@.columns.len() > 0,
            None => shared_columns(texts(live@), views(row@)).len() == 0,
        },
{
    let ghost all = texts(live@);
    let ghost fields = views(row@);
    let ghost p = |c: Seq<char>| get(fields, c) is Some;
    let ghost v = |c: Seq<char>| db_cell(get(fields, c));
    let mut columns: Vec<String> = Vec::new();
    let mut values: Vec<DbCell> = Vec::new();
    let mut i: usize = 0;
    proof {
        reveal(Seq::filter);
        assert(all.take(0) =~= Seq::empty());
        assert(texts(columns@) =~= Seq::empty());
        assert(views(values@) =~= texts(columns@).map_values(v));
    }
    while i < live.len()
        invariant
            all == texts(live@),
            fields == views(row@),
            p == (|c: Seq<char>| get(fields, c) is Some),
            v == (|c: Seq<char>| db_cell(get(fields, c))),
            i <= live.len(),
            texts(columns@) == all.take(i as int).filter(p),
            views(values@) == texts(columns@).map_values(v),
            columns.len() == values.len(),
        decreases live.len() - i,
    {
        proof {
            lemma_filter_step(all, p, i as int);
            assert(all[i as int] == live@[i as int]@);
        }
        if let Some(k) = field_at(row, live[i].as_str()) {
            let ghost names = texts(columns@);
            let ghost cells = views(values@);
            let cell = to_db_cell(&row[k].cell);
            columns.push(live[i].clone());
            values.push(cell);
            proof {
                assert(texts(columns@) =~= names.push(all[i as int]));
                assert(views(values@) =~= cells.push(cell@));
                assert(names.push(all[i as int]).map_values(v) =~= names.map_values(v).push(
                    v(all[i as int]),
                ));
            }
        }
        i = i + 1;
    }
    proof {
        assert(all.take(i as int) =~= all);
        assert(texts(columns@).len() == columns@.len());
    }
    if columns.len() == 0 {
        None
    } else {
        Some(RowWrite { table: table.to_owned(), columns, values })
    }
}

fn plan_table(table: &str, live: &Vec<String>, rows: &Vec<BackupRow>, writes: &mut Vec<RowWrite>)
    ensures
        views(final(writes)@) == views(old(writes)@) + table_writes(
            table@,
            texts(live@),
            views(rows@),
        ),
{
    let ghost all = views(rows@);
    let ghost start = views(writes@);
    let mut i: usize = 0;
    proof {
        assert(all.take(0) =~= Seq::empty());
        assert(start + Seq::<RowWriteView>::empty() =~= start);
    }
    while i < rows.len()
        invariant
            all == views(rows@),
            i <= rows.len(),
            views(writes@) == start + table_writes(table@, texts(live@), all.take(i as int)),
        decreases rows.len() - i,
    {
        proof {
            assert(all.take(i + 1).drop_last() =~= all.take(i as int));
            assert(all.take(i + 1).last() == rows@[i as int]@);
        }
        if let Some(w) = plan_row(table, live, &rows[i].fields) {
            let ghost before = views(writes@);
            writes.push(w);
            proof {
                let so_far = table_writes(table@, texts(live@), all.take(i as int));
                assert(views(writes@) =~= before.push(w@));
                assert((start + so_far).push(w@) =~= start + so_far.push(w@));
            }
        }
        i = i + 1;
    }
    proof {
        assert(all.take(i as int) =~= all);
    }
}

/// Works out what a restore of a bundle writes to a deployment with these tables.
pub fn import_bundle(bundle: &BackupBundle, schema: &Vec<TableSchema>) -> (r: Result<
    ImportPlan,
    OrgError,
>)
    ensures
        if bundle.version != BACKUP_VERSION {
            r matches Err(e) && e@ == OrgErrorView::BadRequest(version_message(bundle.version))
        } else {
            let done = restored(views(bundle.tables@), views(schema@), backup_tables());
            r matches Ok(plan) && plan.report@.tables_applied == done.applied
                && plan.report@.rows_applied == done.writes.len() && plan.report@.tables_skipped
                == done.skipped && views(plan.writes@) == done.writes
        },
{
    if bundle.version != BACKUP_VERSION {
        let a = decimal_text(bundle.version as u64);
        let b = decimal_text(BACKUP_VERSION as u64);
        let head = cat3("unsupported backup version ", a.as_str(), " (this build reads version ");
        return Err(OrgError::BadRequest(cat3(head.as_str(), b.as_str(), ")")));
    }
    let list = backup_table_list();
    let ghost all = backup_tables();
    let mut applied: usize = 0;
    let mut skipped: Vec<String> = Vec::new();
    let mut writes: Vec<RowWrite> = Vec::new();
    let mut i: usize = 0;
    proof {
        assert(all.take(0) =~= Seq::empty());
        assert(texts(skipped@) =~= Seq::empty());
        assert(views(writes@) =~= Seq::empty());
    }
    while i < list.len()
        invariant
            texts(list@) == all,
            i <= list.len(),
            applied <= i,
            ({
                let done = restored(views(bundle.tables@), views(schema@), all.take(i as int));
                &&& applied == done.applied
                &&& texts(skipped@) == done.skipped
                &&& views(writes@) == done.writes
            }),
        decreases list.len() - i,
    {
        let name = list[i].as_str();
        proof {
            assert(texts(list@)[i as int] == name@);
            assert(all.take(i + 1).drop_last() =~= all.take(i as int));
            assert(all.take(i + 1).last() == name@);
        }
        let f = |t: &TableRows| -> (b: bool)
            ensures
                b == rows_of(name@)(t@),
            { same(t.table.as_str(), name) };
        if let Some(k) = crate::table::find_where(&bundle.tables, f, Ghost(rows_of(name@))) {
            let g = |t: &TableSchema| -> (b: bool)
                ensures
                    b == schema_of(name@)(t@),
                { same(t.table.as_str(), name) };
            match crate::table::find_where(schema, g, Ghost(schema_of(name@))) {
                None => {
                    let ghost before = texts(skipped@);
                    skipped.push(list[i].clone());
                    proof {
                        assert(texts(skipped@) =~= before.push(name@));
                    }
                },
                Some(s) => {
                    proof {
                        assert(bundle.tables@[k as int]@.rows.len()
                            == bundle.tables@[k as int].rows@.len());
                    }
                    if bundle.tables[k].rows.len() > 0 {
                        plan_table(
                            name,
                            &schema[s].columns,
                            &bundle.tables[k].rows,
                            &mut writes,
                        );
                        applied = applied + 1;
                    }
                },
            }
        }
        i = i + 1;
    }
    proof {
        assert(texts(list@).len() == list@.len());
        assert(all.take(i as int) =~= all);
        assert(views(writes@).len() == writes@.len());
    }
    let report = ImportReport {
        tables_applied: applied,
        rows_applied: writes.len(),
        tables_skipped: skipped,
    };
    Ok(ImportPlan { report, writes })
}

proof fn lemma_get_put(row: Seq<FieldView>, name: Seq<char>, cell: CellView, other: Seq<char>)
    ensures
        get(put(row, name, cell), other) == if other == name {
            Some(cell)
        } else {
            get(row, other)
        },
{
    let p = field_named(other);
    if get(row, name) is Some {
        let g = |f: FieldView|
            if f.name == name {
                FieldView { name, cell }
            } else {
                f
            };
        assert(put(row, name, cell) == row.map_values(g));
        lemma_first_map(row, p, g);
        lemma_first(row, p);
    } else {
        lemma_first_push(row, FieldView { name, cell }, p);
    }
}

/// Nothing credential-shaped leaves with a backup: in every exported row, a column that holds
/// credentials is either unset or holds the marker.
pub proof fn export_leaves_no_credential(
    table: Seq<char>,
    columns: Seq<Seq<char>>,
    row: Seq<FieldView>,
    column: Seq<char>,
)
    requires
        columns.contains(column),
        secret_column(table, column),
    ensures
        get(redacted_row(table, columns, row), column) == Some(CellView::Null) || get(
            redacted_row(table, columns, row),
            column,
        ) == Some(CellView::Text(REDACTED@)),
    decreases columns.len(),
{
    let rest = columns.drop_last();
    let so_far = redacted_row(table, rest, row);
    let last = columns.last();
    let cell = exported_cell(table, last, get(so_far, last));
    if cell != get(so_far, last) {
        lemma_get_put(so_far, last, cell->0, column);
    }
    if last != column {
        let k = choose|k: int| 0 <= k < columns.len() && columns[k] == column;
        assert(rest[k] == column);
        export_leaves_no_credential(table, rest, row, column);
    }
}

/// A column that holds neither credentials nor settings is exported as it is.
pub proof fn export_keeps_the_rest(
    table: Seq<char>,
    columns: Seq<Seq<char>>,
    row: Seq<FieldView>,
    column: Seq<char>,
)
    requires
        !secret_column(table, column),
        !config_column(table, column),
    ensures
        get(redacted_row(table, columns, row), column) == get(row, column),
    decreases columns.len(),
{
    if columns.len() > 0 {
        let rest = columns.drop_last();
        let so_far = redacted_row(table, rest, row);
        let last = columns.last();
        let cell = exported_cell(table, last, get(so_far, last));
        if cell != get(so_far, last) {
            lemma_get_put(so_far, last, cell->0, column);
        }
        export_keeps_the_rest(table, rest, row, column);
    }
}

/// A database in which each key holds one row, after writes that replace the row of their key.
pub open spec fn applied<K>(
    db: Map<K, RowWriteView>,
    writes: Seq<RowWriteView>,
    key: spec_fn(RowWriteView) -> K,
) -> Map<K, RowWriteView>
    decreases writes.len(),
{
    if writes.len() == 0 {
        db
    } else {
        applied(db, writes.drop_last(), key).insert(key(writes.last()), writes.last())
    }
}

proof fn lemma_applied_key<K>(
    db: Map<K, RowWriteView>,
    other: Map<K, RowWriteView>,
    writes: Seq<RowWriteView>,
    key: spec_fn(RowWriteView) -> K,
    k: K,
)
    ensures
        (exists|i: int| 0 <= i < writes.len() && key(#[trigger] writes[i]) == k) ==> applied(
            db,
            writes,
            key,
        ).dom().contains(k) && applied(other, writes, key).dom().contains(k) && applied(
            db,
            writes,
            key,
        )[k] == applied(other, writes, key)[k],
        !(exists|i: int| 0 <= i < writes.len() && key(#[trigger] writes[i]) == k) ==> (applied(
            db,
            writes,
            key,
        ).dom().contains(k) <==> db.dom().contains(k)) && (db.dom().contains(k) ==> applied(
            db,
            writes,
            key,
        )[k] == db[k]),
    decreases writes.len(),
{
    if writes.len() > 0 {
        let rest = writes.drop_last();
        lemma_applied_key(db, other, rest, key, k);
        assert(writes[writes.len() - 1] == writes.last());
        assert(forall|i: int| 0 <= i < rest.len() ==> #[trigger] rest[i] == writes[i]);
        if exists|i: int| 0 <= i < rest.len() && key(#[trigger] rest[i]) == k {
            let i = choose|i: int| 0 <= i < rest.len() && key(#[trigger] rest[i]) == k;
            assert(key(writes[i]) == k);
        }
        if exists|i: int| 0 <= i < writes.len() && key(#[trigger] writes[i]) == k {
            let i = choose|i: int| 0 <= i < writes.len() && key(#[trigger] writes[i]) == k;
            if i < rest.len() {
                assert(key(rest[i]) == k);
            }
        }
    }
}

/// Restoring the same bundle twice ends where restoring it once does.
pub proof fn restoring_twice_converges<K>(
    db: Map<K, RowWriteView>,
    bundle: Seq<TableRowsView>,
    schema: Seq<TableSchemaView>,
    key: spec_fn(RowWriteView) -> K,
)
    ensures
        ({
            let writes = restored(bundle, schema, backup_tables()).writes;
            applied(applied(db, writes, key), writes, key) == applied(db, writes, key)
        }),
{
    let writes = restored(bundle, schema, backup_tables()).writes;
    let once = applied(db, writes, key);
    let twice = applied(once, writes, key);
    assert forall|k: K| (twice.dom().contains(k) <==> once.dom().contains(k)) && (
    once.dom().contains(k) ==> #[trigger] twice[k] == once[k]) by {
        lemma_applied_key(once, db, writes, key, k);
    }
    assert(twice.dom() =~= once.dom()) by {
        assert forall|k: K| twice.dom().contains(k) <==> once.dom().contains(k) by {
            let v = twice[k];
        }
    }
    assert(twice =~= once);
}

impl OrgService {
    /// Exports the deployment's configuration and notes in the audit log who did.
    pub fn export_backup(
        &mut self,
        tenant_id: &str,
        actor_user_id: &str,
        dumps: &Vec<TableDump>,
        now: i64,
    ) -> (b: BackupBundle)
        ensures
            b.version == BACKUP_VERSION,
            b.exported_at == now,
            b.exported_by_tenant@ == tenant_id@,
            b.contains_redactions,
            views(b.tables@) == exported_tables(views(dumps@), backup_tables()),
            is_short_id("audit"@, newest_audit_id(final(self)@)),
            final(self)@ == audited(
                old(self)@,
                newest_audit_id(final(self)@),
                tenant_id@,
                Some(actor_user_id@),
                username_of(old(self)@, actor_user_id@),
                "org.backup.export"@,
                Some(decimal(b.tables@.len()) + " tables"@),
                now,
            ),
    {
        let bundle = export_bundle(dumps, tenant_id, now);
        let username = self.lookup_username(actor_user_id);
        let count = decimal_text(bundle.tables.len() as u64);
        let note = cat(count.as_str(), " tables");
        self.audit(
            tenant_id,
            Some(actor_user_id),
            as_opt_str(&username),
            "org.backup.export",
            Some(note.as_str()),
            now,
        );
        bundle
    }

    /// Notes in the audit log who restored a bundle, and what that did.
    pub fn import_backup(
        &mut self,
        tenant_id: &str,
        actor_user_id: &str,
        report: &ImportReport,
        now: i64,
    )
        ensures
            is_short_id("audit"@, newest_audit_id(final(self)@)),
            final(self)@ == audited(
                old(self)@,
                newest_audit_id(final(self)@),
                tenant_id@,
                Some(actor_user_id@),
                username_of(old(self)@, actor_user_id@),
                "org.backup.import"@,
                Some(
                    decimal(report@.tables_applied as nat) + " tables / "@ + decimal(
                        report@.rows_applied as nat,
                    ) + " rows"@,
                ),
                now,
            ),
    {
        let username = self.lookup_username(actor_user_id);
        let tables = decimal_text(report.tables_applied as u64);
        let rows = decimal_text(report.rows_applied as u64);
        let head = cat3(tables.as_str(), " tables / ", rows.as_str());
        let note = cat(head.as_str(), " rows");
        self.audit(
            tenant_id,
            Some(actor_user_id),
            as_opt_str(&username),
            "org.backup.import",
            Some(note.as_str()),
            now,
        );
    }
}

} // verus!
