//! Backup and restore of the configuration.
use dream_domain::org::backup::{
    backup_table_list, export_bundle, import_bundle, is_json_config_column, is_secret_column,
    redact_json_secrets, BackupBundle, BackupRow, Cell, DbCell, Field, ImportPlan, RowWrite,
    TableDump, TableSchema, BACKUP_VERSION, REDACTED,
};
use dream_domain::org::error::OrgError;
use dream_domain::org::service::OrgService;
use std::collections::BTreeMap;

fn names(columns: &[&str]) -> Vec<String> {
    columns.iter().map(|c| (*c).to_owned()).collect()
}

fn schema() -> Vec<TableSchema> {
    vec![
        TableSchema {
            table: "one_tenants".to_owned(),
            columns: names(&["id", "name", "exit_password_hash", "created_at", "updated_at"]),
        },
        TableSchema {
            table: "one_user_org".to_owned(),
            columns: names(&["user_id", "tenant_id", "role", "created_at", "updated_at"]),
        },
        TableSchema {
            table: "one_sso_providers".to_owned(),
            columns: names(&["provider", "enabled", "config", "updated_at"]),
        },
    ]
}

fn dump(table: &str, rows: &[&str]) -> TableDump {
    let columns = schema().into_iter().find(|s| s.table == table).unwrap().columns;
    TableDump { table: table.to_owned(), columns, rows: names(rows) }
}

fn seed() -> Vec<TableDump> {
    vec![
        dump(
            "one_tenants",
            &[r#"{"id":"t1","name":"Group One","exit_password_hash":"$2b$12$realhash","created_at":0,"updated_at":0}"#],
        ),
        dump(
            "one_user_org",
            &[
                r#"{"user_id":"u1","tenant_id":"t1","role":"org_admin","created_at":0,"updated_at":0}"#,
                r#"{"user_id":"u2","tenant_id":"t1","role":"member","created_at":0,"updated_at":0}"#,
            ],
        ),
        dump(
            "one_sso_providers",
            &[r#"{"provider":"oidc","enabled":1,"config":"{\"issuer\":\"https://idp.example.com\",\"clientId\":\"abc\",\"clientSecret\":\"TOPSECRET\"}","updated_at":0}"#],
        ),
    ]
}

fn rows<'a>(bundle: &'a BackupBundle, table: &str) -> &'a Vec<BackupRow> {
    &bundle.tables.iter().find(|t| t.table == table).unwrap().rows
}

fn text(row: &BackupRow, column: &str) -> String {
    match &row.fields.iter().find(|f| f.name == column).unwrap().cell {
        Cell::Text(t) => t.clone(),
        other => panic!("{column} is {other:?}"),
    }
}

/// A store of rows by table and first two column values.
fn apply(store: &mut BTreeMap<String, RowWrite>, plan: &ImportPlan) {
    let keys = |w: &RowWrite| {
        let n = if w.table == "one_user_org" { 2 } else { 1 };
        let wanted: &[&str] = match w.table.as_str() {
            "one_tenants" => &["id"],
            "one_user_org" => &["user_id", "tenant_id"],
            _ => &["provider"],
        };
        let mut key = w.table.clone();
        for name in &wanted[..n] {
            let at = w.columns.iter().position(|c| c == name).unwrap();
            if let DbCell::Text(t) = &w.values[at] {
                key.push('/');
                key.push_str(t);
            }
        }
        key
    };
    for w in &plan.writes {
        store.insert(
            keys(w),
            RowWrite { table: w.table.clone(), columns: w.columns.clone(), values: w.values.clone() },
        );
    }
}

fn stored_text(store: &BTreeMap<String, RowWrite>, key: &str, column: &str) -> String {
    let w = &store[key];
    let at = w.columns.iter().position(|c| c == column).unwrap();
    match &w.values[at] {
        DbCell::Text(t) => t.clone(),
        other => panic!("{column} is {other:?}"),
    }
}

#[test]
fn export_captures_rows_and_skips_absent_tables() {
    let bundle = export_bundle(&seed(), "t1", 1000);
    assert_eq!(bundle.version, BACKUP_VERSION);
    assert_eq!(bundle.exported_at, 1000);
    assert_eq!(bundle.exported_by_tenant, "t1");
    assert_eq!(rows(&bundle, "one_user_org").len(), 2);
    assert!(!bundle.tables.iter().any(|t| t.table == "one_departments"));
}

#[test]
fn export_redacts_every_secret() {
    let bundle = export_bundle(&seed(), "t1", 0);
    let serialized = format!("{bundle:?}");

    assert!(!serialized.contains("$2b$12$realhash"), "exit password hash leaked");
    assert!(!serialized.contains("TOPSECRET"), "OIDC client secret leaked");

    let config = text(&rows(&bundle, "one_sso_providers")[0], "config");
    assert!(config.contains("idp.example.com"), "issuer should survive redaction");
    assert!(config.contains("abc"), "clientId should survive redaction");
    assert!(config.contains(REDACTED));
    assert!(bundle.contains_redactions);
}

#[test]
fn import_restores_into_an_empty_deployment() {
    let bundle = export_bundle(&seed(), "t1", 0);
    let plan = import_bundle(&bundle, &schema()).unwrap();
    assert!(plan.report.rows_applied >= 4);

    let mut target = BTreeMap::new();
    apply(&mut target, &plan);
    let members = target.keys().filter(|k| k.starts_with("one_user_org/")).count();
    assert_eq!(members, 2);
    assert_eq!(stored_text(&target, "one_tenants/t1", "name"), "Group One");
}

#[test]
fn import_is_idempotent() {
    let bundle = export_bundle(&seed(), "t1", 0);
    let mut target = BTreeMap::new();
    apply(&mut target, &import_bundle(&bundle, &schema()).unwrap());
    apply(&mut target, &import_bundle(&bundle, &schema()).unwrap());
    let members = target.keys().filter(|k| k.starts_with("one_user_org/")).count();
    assert_eq!(members, 2, "re-import must not duplicate rows");
}

#[test]
fn import_rejects_an_unknown_version() {
    let bundle = BackupBundle {
        version: BACKUP_VERSION + 1,
        exported_at: 0,
        exported_by_tenant: "t1".to_owned(),
        contains_redactions: true,
        tables: vec![],
    };
    let err = import_bundle(&bundle, &schema()).unwrap_err();
    assert!(
        matches!(err, OrgError::BadRequest(ref m) if m.contains("unsupported backup version")),
        "expected a version refusal, got {err:?}"
    );
}

#[test]
fn import_ignores_columns_this_schema_does_not_have() {
    let mut bundle = export_bundle(&seed(), "t1", 0);
    for t in bundle.tables.iter_mut().filter(|t| t.table == "one_tenants") {
        for row in t.rows.iter_mut() {
            row.fields.push(Field {
                name: "some_future_column".to_owned(),
                cell: Cell::Text("x".to_owned()),
            });
        }
    }
    let plan = import_bundle(&bundle, &schema()).unwrap();
    let mut target = BTreeMap::new();
    apply(&mut target, &plan);
    assert_eq!(stored_text(&target, "one_tenants/t1", "name"), "Group One");
    assert!(!target["one_tenants/t1"].columns.iter().any(|c| c == "some_future_column"));
}

#[test]
fn bundle_spans_every_tenant_not_just_the_callers() {
    let dumps = vec![
        dump(
            "one_tenants",
            &[r#"{"id":"t1","name":"Group One"}"#, r#"{"id":"t2","name":"Group Two"}"#],
        ),
        dump(
            "one_user_org",
            &[
                r#"{"user_id":"a","tenant_id":"t1","role":"org_admin"}"#,
                r#"{"user_id":"b","tenant_id":"t2","role":"member"}"#,
            ],
        ),
    ];
    let bundle = export_bundle(&dumps, "t1", 0);
    let tenant_ids: Vec<String> = rows(&bundle, "one_tenants").iter().map(|r| text(r, "id")).collect();
    assert!(
        tenant_ids.iter().any(|t| t == "t1") && tenant_ids.iter().any(|t| t == "t2"),
        "backup is deployment-wide, so it must not be reachable by a mere org_admin"
    );
    assert_eq!(rows(&bundle, "one_user_org").len(), 2);
}

#[test]
fn secret_columns_are_known_by_table() {
    assert!(is_secret_column("one_tenants", "exit_password_hash"));
    assert!(is_secret_column("one_mcp_registry", "secrets_json"));
    assert!(!is_secret_column("one_tenants", "name"));
    assert!(is_json_config_column("one_sso_providers", "config"));
    assert!(!is_json_config_column("one_sso_providers", "provider"));
    assert_eq!(backup_table_list().len(), 15);
}

#[test]
fn config_that_is_no_object_is_redacted_whole() {
    assert_eq!(redact_json_secrets("not json"), "\"__REDACTED__\"");
    assert_eq!(redact_json_secrets(r#"{"a":1}"#), r#"{"a":1}"#);
    assert_eq!(
        redact_json_secrets(r#"{ "b": [1, {"x": 2.5}], "c": -3, "d": 1.5e300, "e": null, "f": true, "g": "\"\n" }"#),
        r#"{"b":[1,{"x":2.5}],"c":-3,"d":1.5e+300,"e":null,"f":true,"g":"\"\n"}"#
    );
    assert_eq!(redact_json_secrets("{}"), "{}");
    assert_eq!(redact_json_secrets(r#"{"bindPassword":"x"}"#), r#"{"bindPassword":"__REDACTED__"}"#);
}

#[test]
fn an_unset_secret_stays_unset() {
    let dumps = vec![dump("one_tenants", &[r#"{"id":"t1","name":"G","exit_password_hash":null}"#])];
    let bundle = export_bundle(&dumps, "t1", 0);
    let row = &rows(&bundle, "one_tenants")[0];
    let cell = &row.fields.iter().find(|f| f.name == "exit_password_hash").unwrap().cell;
    assert!(matches!(cell, Cell::Null));
}

#[test]
fn backups_are_audited() {
    let mut service = OrgService::new();
    let bundle = service.export_backup("t1", "u1", &seed(), 5);
    assert_eq!(bundle.exported_at, 5);
    assert_eq!(service.audit_log.len(), 1);
    let plan = import_bundle(&bundle, &schema()).unwrap();
    service.import_backup("t1", "u1", &plan.report, 6);
    assert_eq!(service.audit_log.len(), 2);
}
