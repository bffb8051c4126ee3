//! The file vault and object storage.
use dream_domain::org::models::UserOrgRow;
use dream_domain::platform::error::PlatformError;
use dream_domain::platform::http_date::parse_http_date;
use dream_domain::platform::models::{DiskFile, FileVaultObjectDto, ObjectStorageConfigInput};
use dream_domain::platform::object_storage::{
    normalize_prefix, probe_answer, reject_traversal, show_listing, trimmed, StorageStep,
};
use dream_domain::platform::service::PlatformService;
use dream_domain::platform::storage_driver::{
    driver_for, validate_protocol, DriverConfig, DriverKind,
};
use dream_domain::platform::storage_s3::{
    list_request, listing as s3_listing, probe_result as s3_probe_result, s3_message,
    strip_prefix, S3Object,
};
use dream_domain::platform::storage_webdav::{
    auth_header, build_url, list_result, local_name, parse_multistatus, percent_decode,
    probe_result as dav_probe_result,
};
use dream_domain::platform::vault::{content_disposition, require_upload, sanitize_vault_file_name};

/// A vault with its directory of files.
struct Vaults {
    service: PlatformService,
    disk: Vec<(String, Vec<u8>)>,
    next: usize,
}

impl Vaults {
    fn new() -> Self {
        Vaults { service: PlatformService::new(), disk: vec![], next: 0 }
    }

    fn upload(&mut self, user: &str, name: &str, bytes: &[u8]) -> Result<FileVaultObjectDto, PlatformError> {
        self.next += 1;
        let id = format!("obj{}", self.next);
        let (dto, key) = self.service.upload_vault_object(id, "t1", user, name, &bytes.to_vec(), true, 1)?;
        self.disk.push((key, bytes.to_vec()));
        Ok(dto)
    }

    fn read(&self, user: &str, id: &str) -> Result<(FileVaultObjectDto, Vec<u8>), PlatformError> {
        let (dto, key) = self.service.read_vault_object("t1", user, id, true)?;
        let bytes = self.disk.iter().find(|(k, _)| *k == key).unwrap().1.clone();
        Ok((dto, bytes))
    }

    fn files(&self) -> Vec<DiskFile> {
        self.disk
            .iter()
            .map(|(key, bytes)| {
                let parts: Vec<&str> = key.split('/').collect();
                DiskFile {
                    user_id: parts[1].to_owned(),
                    name: parts[2].to_owned(),
                    size: bytes.len() as u64,
                }
            })
            .collect()
    }
}

#[test]
fn vault_upload_stores_bytes_ledger_and_usage_in_agreement() {
    let mut v = Vaults::new();
    let stored = v.upload("alice", "notes.txt", b"hello vault").unwrap();
    assert_eq!(stored.file_name, "notes.txt");
    assert_eq!(stored.size_bytes, 11);

    let vault = v.service.my_vault("t1", "alice");
    assert_eq!(vault.usage_bytes, 11);
    assert_eq!(vault.object_count, 1);
    assert_eq!(vault.status, "available");
    assert_eq!(vault.quota_bytes, None);

    let (dto, bytes) = v.read("alice", &stored.id).unwrap();
    assert_eq!(bytes, b"hello vault");
    assert_eq!(dto.file_name, "notes.txt");
    assert_eq!(v.disk[0].0, "t1/alice/obj1__notes.txt");

    let bob = v.service.my_vault("t1", "bob");
    assert_eq!(bob.status, "available");
    assert_eq!(bob.usage_bytes, 0);
}

#[test]
fn the_recorded_digest_is_that_of_the_bytes() {
    let mut v = Vaults::new();
    let stored = v.upload("alice", "abc.txt", b"abc").unwrap();
    assert_eq!(
        stored.sha256,
        "ba7816bf8f01cfea414140de5dae2223b00361a396177a9cb410ff61f20015ad"
    );
}

#[test]
fn frozen_vault_blocks_uploads_but_keeps_existing_objects_usable() {
    let mut v = Vaults::new();
    let stored = v.upload("alice", "keep.txt", b"keep me").unwrap();
    v.service.admin_set_vault_status("t1", "alice", "frozen", 2).unwrap();

    let err = v.upload("alice", "new.txt", b"nope").unwrap_err();
    assert_eq!(err.code(), "FORBIDDEN");

    let (_, bytes) = v.read("alice", &stored.id).unwrap();
    assert_eq!(bytes, b"keep me");
    v.service.delete_vault_object("t1", "alice", &stored.id, 3).unwrap();
    assert_eq!(v.service.my_vault("t1", "alice").object_count, 0);

    v.service.admin_set_vault_status("t1", "alice", "available", 4).unwrap();
    assert!(v.upload("alice", "new.txt", b"ok").is_ok());
    assert_eq!(
        v.service
            .admin_set_vault_status("t1", "alice", "shredded", 5)
            .unwrap_err()
            .code(),
        "BAD_REQUEST"
    );
}

#[test]
fn vault_quota_blocks_the_upload_that_would_exceed_it() {
    let mut v = Vaults::new();
    v.service.admin_set_vault_quota("t1", "alice", Some(10), 1).unwrap();
    v.upload("alice", "six.bin", b"123456").unwrap();
    assert_eq!(v.upload("alice", "six.bin", b"123456").unwrap_err().code(), "BAD_REQUEST");
    assert!(v.upload("alice", "four.bin", b"1234").is_ok());
    assert_eq!(
        v.service
            .admin_set_vault_quota("t1", "alice", Some(-1), 2)
            .unwrap_err()
            .code(),
        "BAD_REQUEST"
    );
}

#[test]
fn reconcile_reports_missing_orphan_and_size_mismatches() {
    let mut v = Vaults::new();
    let a = v.upload("alice", "a.txt", b"aaaaa").unwrap();
    let b = v.upload("alice", "b.txt", b"bbbbb").unwrap();
    let c = v.upload("alice", "c.txt", b"ccccc").unwrap();
    assert!(v.service.admin_reconcile_vaults("t1", true, &v.files()).unwrap().is_empty());

    let key_a = format!("t1/alice/{}__a.txt", a.id);
    v.disk.retain(|(k, _)| *k != key_a);
    let key_b = format!("t1/alice/{}__b.txt", b.id);
    for (k, bytes) in v.disk.iter_mut() {
        if *k == key_b {
            *bytes = b"b".to_vec();
        }
    }
    v.disk.push(("t1/alice/orphan__orphan.bin".to_owned(), b"zz".to_vec()));

    let report = v.service.admin_reconcile_vaults("t1", true, &v.files()).unwrap();
    assert_eq!(report.len(), 1, "only alice's vault is inconsistent: {report:?}");
    let entry = &report[0];
    assert_eq!(entry.user_id, "alice");
    assert_eq!(entry.missing_on_disk, vec![format!("a.txt ({})", a.id)]);
    assert_eq!(entry.size_mismatches, vec![format!("b.txt ({})", b.id)]);
    assert_eq!(entry.missing_in_ledger.len(), 1);
    assert!(entry.missing_in_ledger[0].starts_with("orphan"));

    assert!(v.read("alice", &c.id).is_ok());
}

#[test]
fn vault_file_names_cannot_traverse_and_tombstones_survive() {
    let mut v = Vaults::new();
    let stored = v.upload("alice", "../../../evil?.txt", b"safe").unwrap();
    assert_eq!(stored.file_name, "evil_.txt");
    assert_eq!(v.disk[0].0, format!("t1/alice/{}__evil_.txt", stored.id));

    v.service.delete_vault_object("t1", "alice", &stored.id, 2).unwrap();
    assert_eq!(v.read("alice", &stored.id).unwrap_err().code(), "NOT_FOUND");
    assert_eq!(v.service.my_vault("t1", "alice").usage_bytes, 0);
    let listed = v.service.list_my_vault_objects("t1", "alice");
    assert_eq!(listed.len(), 1);
    assert!(listed[0].deleted_at.is_some());
    assert_eq!(
        v.service
            .delete_vault_object("t1", "alice", &stored.id, 3)
            .unwrap_err()
            .code(),
        "NOT_FOUND"
    );
}

#[test]
fn an_upload_whose_bytes_were_not_written_leaves_no_record() {
    let mut v = Vaults::new();
    let stored = v.upload("alice", "a.txt", b"a").unwrap();
    let err = v.service.abort_vault_upload(&stored.id, "disk full");
    assert_eq!(err.code(), "INTERNAL_ERROR");
    assert!(v.service.list_vault_objects("t1", "alice").is_empty());
}

#[test]
fn vaults_are_listed_for_the_administrator() {
    let mut v = Vaults::new();
    v.upload("bob", "b.txt", b"bb").unwrap();
    v.upload("alice", "a.txt", b"a").unwrap();
    v.service.admin_set_vault_quota("t1", "carol", Some(5), 2).unwrap();
    v.service.members.push(UserOrgRow {
        user_id: "carol".to_owned(),
        tenant_id: "t1".to_owned(),
        role: "member".to_owned(),
        display_name: None,
        org_unit_path: None,
        job_title: None,
        org_profile_source: None,
        org_profile_synced_at: None,
        department_id: None,
        created_at: 0,
        updated_at: 0,
    });
    let all = v.service.admin_list_vaults("t1");
    let users: Vec<&str> = all.iter().map(|d| d.user_id.as_str()).collect();
    assert_eq!(users, vec!["alice", "bob", "carol"]);
    assert_eq!(all[1].usage_bytes, 2);
    assert_eq!(all[2].quota_bytes, Some(5));
    assert_eq!(v.service.admin_list_vault_objects("t1", "bob").len(), 1);
}

#[test]
fn without_a_store_nothing_is_taken_in() {
    let mut service = PlatformService::new();
    let err = service
        .upload_vault_object("o".to_owned(), "t1", "alice", "a.txt", &vec![1], false, 1)
        .unwrap_err();
    assert_eq!(err.code(), "INTERNAL_ERROR");
    assert_eq!(
        service.admin_reconcile_vaults("t1", false, &vec![]).unwrap_err().code(),
        "INTERNAL_ERROR"
    );
}

#[test]
fn names_are_kept_where_they_are_harmless() {
    assert_eq!(sanitize_vault_file_name("a b.txt"), "a b.txt");
    assert_eq!(sanitize_vault_file_name("dir/"), "dir");
    assert_eq!(sanitize_vault_file_name(".."), "");
    assert_eq!(sanitize_vault_file_name("a:b*c"), "a_b_c");
    assert_eq!(content_disposition("a\"b.txt"), "attachment; filename=\"a_b.txt\"");
    assert_eq!(require_upload(None).unwrap_err().code(), "BAD_REQUEST");
    assert_eq!(require_upload(Some(("n".to_owned(), vec![1]))).unwrap().0, "n");
}

#[test]
fn traversal_segments_are_refused_at_our_boundary() {
    assert!(reject_traversal("../").is_err());
    assert!(reject_traversal("media/../../etc").is_err());
    assert!(reject_traversal("./x").is_err());
    assert!(reject_traversal("media/sub").is_ok());
    assert!(reject_traversal("").is_ok());
    assert!(reject_traversal("2026.09/reports").is_ok());
}

#[test]
fn prefixes_normalise_to_one_shape() {
    assert_eq!(normalize_prefix("media"), "media/");
    assert_eq!(normalize_prefix("media/"), "media/");
    assert_eq!(normalize_prefix("/media"), "media/");
    assert_eq!(normalize_prefix("  media//  "), "media/");
    assert_eq!(normalize_prefix(""), "");
    assert_eq!(normalize_prefix("   "), "");
    assert_eq!(normalize_prefix("/"), "");
}

#[test]
fn only_implemented_protocols_are_accepted() {
    assert!(validate_protocol("s3").is_ok());
    assert!(validate_protocol("webdav").is_ok());
    assert!(validate_protocol("smb").is_err());
    assert!(validate_protocol("").is_err());
    assert!(driver_for("s3").is_ok());
    assert!(driver_for("webdav").is_ok());
    assert!(driver_for("nfs").is_err());
}

fn cfg(endpoint: &str, bucket: &str) -> DriverConfig {
    DriverConfig {
        endpoint: endpoint.into(),
        bucket: bucket.into(),
        region: String::new(),
        access_key_id: "nas".into(),
        secret_access_key: "pw".into(),
        force_path_style: true,
    }
}

#[test]
fn urls_join_without_doubling_or_dropping_slashes() {
    assert_eq!(build_url(&cfg("http://nas:5005", "team"), ""), "http://nas:5005/team/");
    assert_eq!(
        build_url(&cfg("http://nas:5005/", "/team/"), ""),
        "http://nas:5005/team/"
    );
    assert_eq!(
        build_url(&cfg("http://nas:5005", "team"), "media/"),
        "http://nas:5005/team/media/"
    );
    assert_eq!(
        build_url(&cfg("http://nas:5005", ""), "media/"),
        "http://nas:5005/media/"
    );
}

#[test]
fn multistatus_parses_folders_and_files_regardless_of_namespace_prefix() {
    let xml = r#"<?xml version="1.0"?>
<D:multistatus xmlns:D="DAV:">
  <D:response><D:href>/team/</D:href><D:propstat><D:prop>
    <D:resourcetype><D:collection/></D:resourcetype>
  </D:prop></D:propstat></D:response>
  <D:response><D:href>/team/media/</D:href><D:propstat><D:prop>
    <D:resourcetype><D:collection/></D:resourcetype>
    <D:getlastmodified>Sat, 13 Sep 2026 11:17:59 GMT</D:getlastmodified>
  </D:prop></D:propstat></D:response>
  <D:response><D:href>/team/%E6%8A%A5%E5%91%8A.pdf</D:href><D:propstat><D:prop>
    <D:resourcetype/>
    <D:getcontentlength>2048</D:getcontentlength>
    <D:getlastmodified>Sat, 13 Sep 2026 11:18:00 GMT</D:getlastmodified>
  </D:prop></D:propstat></D:response>
</D:multistatus>"#;

    let parsed = parse_multistatus(xml).unwrap();
    assert_eq!(parsed.len(), 3, "self + two children");
    assert!(parsed[0].is_collection);
    assert!(parsed[1].is_collection, "empty <collection/> must still mark a folder");
    assert!(!parsed[2].is_collection);
    assert_eq!(parsed[2].size, Some(2048));
    assert!(parsed[2].last_modified.is_some());

    let shown = list_result(207, xml, "", 100).unwrap();
    assert_eq!(shown.entries.len(), 2, "the folder itself is not listed");
    assert_eq!(shown.entries[0].name, "media");
    assert!(shown.entries[0].is_prefix);
    assert_eq!(shown.entries[1].name, "报告.pdf");
    assert_eq!(shown.entries[1].size_bytes, Some(2048));
    assert_eq!(shown.entries[1].last_modified, Some(1_789_298_280_000));
}

#[test]
fn hrefs_are_percent_decoded() {
    assert_eq!(percent_decode("/team/%E6%8A%A5%E5%91%8A.pdf"), "/team/报告.pdf");
    assert_eq!(percent_decode("/team/a%20b.txt"), "/team/a b.txt");
    assert_eq!(percent_decode("/team/100%.txt"), "/team/100%.txt");
}

#[test]
fn http_dates_convert_to_epoch_millis() {
    assert_eq!(
        parse_http_date("Sat, 13 Sep 2026 11:17:59 GMT"),
        Some(1_789_298_279_000)
    );
    assert_eq!(parse_http_date("Thu, 01 Jan 1970 00:00:00 GMT"), Some(0));
    assert_eq!(parse_http_date("not a date"), None);
    assert_eq!(parse_http_date(""), None);
}

#[test]
fn leap_days_are_counted() {
    assert_eq!(parse_http_date("Sat, 29 Feb 2020 00:00:00 GMT"), Some(1_582_934_400_000));
    assert_eq!(parse_http_date("Sun, 01 Mar 2020 00:00:00 GMT"), Some(1_583_020_800_000));
    assert_eq!(parse_http_date("Mon, 01 Jan 2001 00:00:01 GMT"), Some(978_307_201_000));
    assert_eq!(parse_http_date("Wed, 31 Dec 1969 23:59:59 GMT"), Some(-1_000));
    assert_eq!(parse_http_date("Sat, 13 Xxx 2026 11:17:59 GMT"), None);
}

#[test]
fn broken_answers_are_reported() {
    assert!(parse_multistatus("<a><b></a>").is_err());
    assert!(list_result(401, "", "", 10).is_err());
    assert!(list_result(500, "", "", 10).is_err());
    assert!(dav_probe_result("team", "http://nas/team/", 207).is_ok());
    assert!(dav_probe_result("team", "http://nas/team/", 404).is_err());
}

#[test]
fn text_is_unescaped_and_names_are_local() {
    let xml = "<multistatus><response><href>/a&#38;b</href></response></multistatus>";
    let plain = "<multistatus><response><href>/ab</href></response></multistatus>";
    assert_eq!(parse_multistatus(plain).unwrap()[0].href, "/ab");
    assert_eq!(parse_multistatus(xml).unwrap()[0].href, "/a&b");
    assert_eq!(local_name(&b"D:Href".to_vec()), "href");
    assert_eq!(local_name(&b"href".to_vec()), "href");
    assert_eq!(auth_header(&cfg("http://nas", "team")), "Basic bmFzOnB3");
    let mut short = cfg("http://nas", "team");
    short.access_key_id = "ab".to_owned();
    short.secret_access_key = "c".to_owned();
    assert_eq!(auth_header(&short), "Basic YWI6Yw==");
    short.secret_access_key = "cd".to_owned();
    assert_eq!(auth_header(&short), "Basic YWI6Y2Q=");
}

#[test]
fn buckets_are_listed_by_page() {
    let first = list_request("media/", None, 5_000);
    assert_eq!(first.prefix.as_deref(), Some("media/"));
    assert_eq!(first.max_keys, 1_000);
    let root = list_request("", Some("t"), 10);
    assert_eq!(root.prefix, None);
    assert_eq!(root.token.as_deref(), Some("t"));
    let objects = vec![
        S3Object { key: Some("media/".to_owned()), size: Some(0), last_modified: None },
        S3Object { key: Some("media/a.txt".to_owned()), size: Some(3), last_modified: Some(9) },
        S3Object { key: None, size: None, last_modified: None },
    ];
    let page = s3_listing(&vec!["media/sub/".to_owned()], &objects, "media/", Some("next"));
    assert_eq!(page.next_token.as_deref(), Some("next"));
    let names: Vec<&str> = page.entries.iter().map(|e| e.name.as_str()).collect();
    assert_eq!(names, vec!["sub", "a.txt"]);
    assert_eq!(page.entries[1].size_bytes, Some(3));
    assert_eq!(strip_prefix("media/a", "media/"), "a");
    assert_eq!(strip_prefix("a/a/", "a/"), "a/");
    assert_eq!(strip_prefix("other/a", "media/"), "other/a");
    let nested = s3_listing(&vec!["a/a/".to_owned()], &vec![], "a/", None);
    assert_eq!(nested.entries[0].key, "a/a/");
    assert_eq!(nested.entries[0].name, "a");
    let shown = show_listing("media/", &page);
    assert_eq!(shown.prefix, "media/");
    assert_eq!(shown.entries[1].key, "media/a.txt");
}

#[test]
fn storage_answers_are_told_apart() {
    assert!(s3_probe_result("team", Ok(())).unwrap().contains("team"));
    assert!(s3_probe_result("team", Err("denied".to_owned())).is_err());
    assert!(!s3_message("service error").is_empty());
    assert!(probe_answer(Ok("there".to_owned())).unwrap().ok);
    let refused = probe_answer(Err(PlatformError::BadRequest("no such bucket".to_owned()))).unwrap();
    assert!(!refused.ok);
    assert!(probe_answer(Err(PlatformError::Internal("boom".to_owned()))).is_err());
}

fn input(key: &str, is_default: Option<bool>) -> ObjectStorageConfigInput {
    ObjectStorageConfigInput {
        config_key: Some(key.to_owned()),
        protocol: Some("s3".to_owned()),
        bucket: Some("team".to_owned()),
        endpoint: Some("https://s3.acme.com".to_owned()),
        region: None,
        prefix: Some("/media".to_owned()),
        access_key_id: Some("AK".to_owned()),
        secret_access_key: Some("shh".to_owned()),
        force_path_style: None,
        is_default,
    }
}

#[test]
fn one_registration_is_the_default() {
    let mut service = PlatformService::new();
    let first = service
        .create_object_storage_config("s1".to_owned(), "t1", "ann", &input("one", None), "sealed(shh)", 1)
        .unwrap();
    assert!(first.is_default, "the first registration becomes the default");
    assert!(first.has_secret);
    assert_eq!(first.prefix.as_deref(), Some("media/"));
    assert!(!format!("{first:?}").contains("shh"));
    let second = service
        .create_object_storage_config("s2".to_owned(), "t1", "ann", &input("two", Some(true)), "sealed(shh)", 2)
        .unwrap();
    assert!(second.is_default);
    let all = service.list_object_storage_configs("t1");
    assert_eq!(all.iter().filter(|c| c.is_default).count(), 1);
    let unmarked = service
        .update_object_storage_config("t1", "s2", &input("two", Some(false)), "sealed(shh)", 3)
        .unwrap();
    assert!(unmarked.is_default, "a group is not left without a default");
    let all = service.list_object_storage_configs("t1");
    assert_eq!(all.iter().filter(|c| c.is_default).count(), 1);
    service.set_default_object_storage_config("t1", "s1", 3).unwrap();
    service.delete_object_storage_config("t1", "s1", 4).unwrap();
    let left = service.list_object_storage_configs("t1");
    assert_eq!(left.len(), 1);
    assert!(left[0].is_default, "the one that is left becomes the default");
    assert_eq!(
        service.delete_object_storage_config("t1", "s1", 5).unwrap_err().code(),
        "NOT_FOUND"
    );
    assert!(service
        .create_object_storage_config("s3".to_owned(), "t1", "ann", &input("two", None), "", 6)
        .is_err());
}

#[test]
fn registrations_keep_their_secret_and_reach_their_driver() {
    let mut service = PlatformService::new();
    service
        .create_object_storage_config("s1".to_owned(), "t1", "ann", &input("one", None), "sealed(shh)", 1)
        .unwrap();
    let mut change = input("one", None);
    change.secret_access_key = None;
    change.bucket = Some("other".to_owned());
    let changed = service
        .update_object_storage_config("t1", "s1", &change, "sealed()", 2)
        .unwrap();
    assert_eq!(changed.bucket, "other");
    assert!(changed.has_secret);
    assert_eq!(service.storage_secret("t1", "s1").unwrap().as_deref(), Some("sealed(shh)"));
    match service.probe_object_storage("t1", "s1", Some("shh")).unwrap() {
        StorageStep::Ask(kind, config) => {
            assert!(matches!(kind, DriverKind::S3));
            assert_eq!(config.secret_access_key, "shh");
            assert_eq!(config.bucket, "other");
        }
        StorageStep::Done(dto) => panic!("{dto:?}"),
    }
    let (_, _, prefix) = service
        .list_object_storage_entries("t1", "s1", Some("shh"), Some("2026"))
        .unwrap();
    assert_eq!(prefix, "media/2026/");
    assert_eq!(
        service
            .list_object_storage_entries("t1", "s1", Some("shh"), Some("../x"))
            .err()
            .unwrap()
            .code(),
        "BAD_REQUEST"
    );
    assert!(service.storage_secret("t2", "s1").is_err());
    assert_eq!(trimmed(Some("  ")), None);
    assert_eq!(trimmed(Some(" a ")).as_deref(), Some("a"));
}

#[test]
fn dates_step_by_days_and_seconds_whatever_the_weekday() {
    let at = |text: &str| parse_http_date(text).unwrap();
    assert_eq!(at("Thu, 29 Feb 2024 00:00:00 GMT"), 1_709_164_800_000);
    for (day, next) in [
        ("Wed, 28 Feb 2024 12:30:00 GMT", "Thu, 29 Feb 2024 12:30:00 GMT"),
        ("Thu, 29 Feb 2024 12:30:00 GMT", "Fri, 01 Mar 2024 12:30:00 GMT"),
        ("Sun, 28 Feb 2100 12:30:00 GMT", "Mon, 01 Mar 2100 12:30:00 GMT"),
        ("Sun, 31 Dec 2023 12:30:00 GMT", "Mon, 01 Jan 2024 12:30:00 GMT"),
    ] {
        assert_eq!(at(next), at(day) + 86_400_000);
    }
    assert_eq!(at("Thu, 29 Feb 2024 00:00:01 GMT"), 1_709_164_801_000);
    assert_eq!(at("Mon, 29 Feb 2024 00:00:00 GMT"), at("Thu, 29 Feb 2024 00:00:00 GMT"));
}

#[test]
fn references_stand_in_the_text_around_them() {
    let href = |text: &str| {
        let xml = format!("<multistatus><response><href>{text}</href></response></multistatus>");
        parse_multistatus(&xml).unwrap()[0].href.clone()
    };
    assert_eq!(href("/r&amp;d/a"), "/r&d/a");
    assert_eq!(href("\n  /r &amp; d&#x2F;a \n"), "/r & d/a");
    assert_eq!(href("&lt;&gt;&quot;&apos;"), "<>\"'");
    assert_eq!(href("/a&unknown;b"), "/a&unknown;b");
    assert_eq!(href("/a<!-- aside -->b"), "/ab");
    assert_eq!(href(""), "");

    let two = "<r><response><href>/a&amp;</href></response><response><href>b</href>\
               <getcontentlength> 4&#50; </getcontentlength></response></r>";
    let parsed = parse_multistatus(two).unwrap();
    assert_eq!(parsed[0].href, "/a&");
    assert_eq!((parsed[1].href.as_str(), parsed[1].size), ("b", Some(42)));
}

#[test]
fn a_storage_secret_is_sealed_without_white_space_around_it() {
    let given = |secret: Option<&str>| {
        let mut asked = input("main", None);
        asked.secret_access_key = secret.map(str::to_owned);
        asked.secret_to_seal()
    };
    assert_eq!(given(Some("  s3 cret\n")).as_deref(), Some("s3 cret"));
    assert_eq!(given(Some("  ")), None);
    assert_eq!(given(None), None);
}
