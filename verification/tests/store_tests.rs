use beads::ident::{encode_base36, generate_hash_id};
use beads::model::{Comment, Dependency, Issue};
use beads::store::{Store, StoreError};
use sha2::Digest;

#[test]
fn test_encode_base36() {
    // Zero is all padding.
    assert_eq!(encode_base36(&[0], 6), "000000");

    // The largest 32-bit value needs seven symbols and keeps the last six.
    let bytes = u32::MAX.to_be_bytes();
    assert_eq!(encode_base36(&bytes, 6), "z141z3");

    // A known value: 123456 is 2n9c in the 36-symbol alphabet.
    let val = 123456u32;
    assert_eq!(encode_base36(&val.to_be_bytes(), 6), "002n9c");
}

#[test]
fn test_generate_hash_id_stability() {
    // 1600000000 seconds after the epoch, in nanoseconds.
    let nanos = 1600000000i64 * 1_000_000_000;
    let id1 = generate_hash_id("Title", "Desc", nanos, "User");
    let id2 = generate_hash_id("Title", "Desc", nanos, "User");
    assert_eq!(id1, id2);
    assert_eq!(id1.len(), 6);

    let id3 = generate_hash_id("Title2", "Desc", nanos, "User");
    assert_ne!(id1, id3);
}

#[test]
fn test_generate_hash_id_matches_digest() {
    // The id must follow from the real digest of the canonical content
    // string; a generator that ignored the digest would fail here.
    let nanos = 1600000000i64 * 1_000_000_000;
    let content = format!("{}|{}|{}|{}|{}", "Title", "Desc", "User", nanos, 0);
    let digest = sha2::Sha256::digest(content.as_bytes());
    let expected = encode_base36(&digest[..4], 6);
    assert_eq!(generate_hash_id("Title", "Desc", nanos, "User"), expected);
}

#[test]
fn test_memory_store_crud() {
    let mut store = Store::new();

    let now = 1_700_000_000_000_000_000i64;
    let issue = Issue {
        id: "bd-mem-123".to_string(),
        title: "Memory Test".to_string(),
        description: "In memory".to_string(),
        status: "open".to_string(),
        priority: 1,
        issue_type: "task".to_string(),
        created_at: now,
        updated_at: now,
        labels: vec!["mem".to_string()],
        dependencies: vec![Dependency {
            issue_id: "bd-mem-123".to_string(),
            depends_on_id: "bd-other".to_string(),
            type_: "blocks".to_string(),
            created_at: now,
            created_by: "me".to_string(),
        }],
        comments: vec![Comment {
            id: 1,
            issue_id: "bd-mem-123".to_string(),
            author: "me".to_string(),
            text: "comment".to_string(),
            created_at: now,
        }],
        ..Default::default()
    };

    store.create_issue(&issue).unwrap();

    let fetched = store.get_issue("bd-mem-123").expect("Issue should exist");
    assert_eq!(fetched.title, "Memory Test");
    assert_eq!(fetched.labels, vec!["mem".to_string()]);
    assert_eq!(fetched.dependencies.len(), 1);
    assert_eq!(fetched.comments.len(), 1);

    let mut updated = fetched.clone();
    updated.status = "closed".to_string();
    updated.labels.push("closed".to_string());
    store.update_issue(&updated);

    let fetched2 = store.get_issue("bd-mem-123").expect("Issue should exist");
    assert_eq!(fetched2.status, "closed");
    assert_eq!(fetched2.labels.len(), 2);

    let list = store.list_issues(None, None, None, None);
    assert_eq!(list.len(), 1);
    assert_eq!(list[0].id, "bd-mem-123");

    store.set_config("user.name", "Memory User");
    let config_val = store.get_config("user.name");
    assert_eq!(config_val, Some("Memory User".to_string()));
}

#[test]
fn test_memory_store_export_import() {
    let mut store = Store::new();
    let now = 1_700_000_000_000_000_000i64;
    let issue = Issue {
        id: "bd-mem-export".to_string(),
        title: "Export Me".to_string(),
        created_at: now,
        updated_at: now,
        ..Default::default()
    };
    store.create_issue(&issue).unwrap();

    let content = store.export_to_jsonl();
    assert!(!content.is_empty());

    let mut store2 = Store::new();
    store2.import_from_jsonl(&content).unwrap();

    let fetched = store2.get_issue("bd-mem-export");
    assert!(fetched.is_some());
    assert_eq!(fetched.unwrap().title, "Export Me");
}

#[test]
fn test_export_to_jsonl() {
    let mut store = Store::new();
    let now = 1_700_000_000_000_000_000i64;
    let issue = Issue {
        id: "bd-test1".to_string(),
        title: "Test Issue".to_string(),
        description: "Desc".to_string(),
        status: "open".to_string(),
        priority: 1,
        issue_type: "bug".to_string(),
        created_at: now,
        updated_at: now,
        labels: vec!["label1".to_string(), "label2".to_string()],
        comments: vec![Comment {
            id: 1,
            issue_id: "bd-test1".to_string(),
            author: "me".to_string(),
            text: "comment1".to_string(),
            created_at: now,
        }],
        ..Default::default()
    };

    store.create_issue(&issue).unwrap();

    let content = store.export_to_jsonl();
    assert!(content.contains("\"id\":\"bd-test1\""));
    assert!(content.contains("\"labels\":[\"label1\",\"label2\"]"));
    assert!(content.contains("\"text\":\"comment1\""));
}

#[test]
fn store_test_test_export_to_jsonl() {
    let mut store = Store::new();
    let now = 1_700_000_000_000_000_000i64;
    let issue = Issue {
        id: "bd-123456".to_string(),
        content_hash: "".to_string(),
        title: "Test Issue".to_string(),
        description: "Desc".to_string(),
        status: "open".to_string(),
        priority: 2,
        issue_type: "bug".to_string(),
        assignee: Some("alice".to_string()),
        estimated_minutes: None,
        created_at: now,
        updated_at: now,
        relates_to: vec!["bd-other".to_string()],
        labels: vec!["bug".to_string(), "urgent".to_string()],
        dependencies: vec![Dependency {
            issue_id: "bd-123456".to_string(),
            depends_on_id: "bd-blocker".to_string(),
            type_: "blocks".to_string(),
            created_at: now,
            created_by: "bob".to_string(),
        }],
        comments: vec![Comment {
            id: 0,
            issue_id: "bd-123456".to_string(),
            author: "charlie".to_string(),
            text: "Fix this!".to_string(),
            created_at: now,
        }],
        ..Default::default()
    };

    store.create_issue(&issue).unwrap();

    let content = store.export_to_jsonl();
    let lines: Vec<&str> = content.lines().collect();
    assert_eq!(lines.len(), 1);

    // Read the line back through the codec and check every field.
    let mut store2 = Store::new();
    store2.import_from_jsonl(&content).unwrap();
    let exported_issue = store2.get_issue("bd-123456").unwrap();
    assert_eq!(exported_issue.id, "bd-123456");
    assert_eq!(exported_issue.labels.len(), 2);
    assert!(exported_issue.labels.contains(&"bug".to_string()));
    assert_eq!(exported_issue.dependencies.len(), 1);
    assert_eq!(exported_issue.dependencies[0].depends_on_id, "bd-blocker");
    assert_eq!(exported_issue.comments.len(), 1);
    assert_eq!(exported_issue.comments[0].text, "Fix this!");
    assert_eq!(exported_issue.relates_to, vec!["bd-other".to_string()]);
    assert_eq!(exported_issue.assignee, Some("alice".to_string()));
    assert_eq!(exported_issue.priority, 2);
}

#[test]
fn test_export_fingerprint_matches_digest() {
    // The fingerprint must be the hex digest of the exported bytes.
    let mut store = Store::new();
    let issue = Issue { id: "bd-fp".to_string(), title: "t".to_string(), ..Default::default() };
    store.create_issue(&issue).unwrap();
    let content = store.export_to_jsonl();
    let expected = hex::encode(sha2::Sha256::digest(content.as_bytes()));
    assert_eq!(store.fingerprint, Some(expected));
}

#[test]
fn test_export_twice_byte_identical() {
    // Exporting the same unmutated store twice yields byte-identical
    // files and identical fingerprints.
    let mut store = Store::new();
    let issue = Issue {
        id: "bd-same".to_string(),
        title: "same".to_string(),
        description: "line one\nline two".to_string(),
        ..Default::default()
    };
    store.create_issue(&issue).unwrap();
    let first = store.export_to_jsonl();
    let fp1 = store.fingerprint.clone();
    let second = store.export_to_jsonl();
    let fp2 = store.fingerprint.clone();
    assert_eq!(first, second);
    assert_eq!(fp1, fp2);
}

#[test]
fn test_roundtrip_keeps_escaped_text() {
    // Quotes, backslashes, newlines and tabs in text fields survive an
    // export and import unchanged.
    let mut store = Store::new();
    let issue = Issue {
        id: "bd-esc".to_string(),
        title: "a \"quoted\" \\ title".to_string(),
        description: "first\nsecond\tthird\r".to_string(),
        ..Default::default()
    };
    store.create_issue(&issue).unwrap();
    let content = store.export_to_jsonl();

    let mut store2 = Store::new();
    store2.import_from_jsonl(&content).unwrap();
    let back = store2.get_issue("bd-esc").unwrap();
    assert_eq!(back.title, "a \"quoted\" \\ title");
    assert_eq!(back.description, "first\nsecond\tthird\r");
}

#[test]
fn test_create_duplicate_fails() {
    let mut store = Store::new();
    let issue = Issue { id: "bd-dup".to_string(), ..Default::default() };
    store.create_issue(&issue).unwrap();
    assert_eq!(store.create_issue(&issue), Err(StoreError::DuplicateId));
}

#[test]
fn test_import_bad_record_changes_nothing() {
    let mut store = Store::new();
    let issue = Issue { id: "bd-keep".to_string(), title: "kept".to_string(), ..Default::default() };
    store.create_issue(&issue).unwrap();
    let r = store.import_from_jsonl("this is not a record\n");
    assert_eq!(r, Err(StoreError::BadRecord));
    assert_eq!(store.get_issue("bd-keep").unwrap().title, "kept");
}

#[test]
fn test_import_skips_blank_lines() {
    let mut store = Store::new();
    let issue = Issue { id: "bd-blank".to_string(), title: "b".to_string(), ..Default::default() };
    store.create_issue(&issue).unwrap();
    let content = store.export_to_jsonl();
    let padded = format!("\n  \n{}\n\n", content.trim_end());
    let mut store2 = Store::new();
    store2.import_from_jsonl(&padded).unwrap();
    assert!(store2.get_issue("bd-blank").is_some());
}

#[test]
fn test_import_unions_comments_by_author_text() {
    // Re-importing the same data does not duplicate comments; the
    // (author, text) pair is the de-duplication key.
    let mut store = Store::new();
    let issue = Issue {
        id: "bd-com".to_string(),
        comments: vec![Comment {
            id: 1,
            issue_id: "bd-com".to_string(),
            author: "me".to_string(),
            text: "hello".to_string(),
            created_at: 5,
        }],
        ..Default::default()
    };
    store.create_issue(&issue).unwrap();
    let content = store.export_to_jsonl();
    store.import_from_jsonl(&content).unwrap();
    store.import_from_jsonl(&content).unwrap();
    assert_eq!(store.get_issue("bd-com").unwrap().comments.len(), 1);
}

#[test]
fn test_get_issue_by_prefix() {
    let mut store = Store::new();
    let issue = Issue { id: "bd-abc123".to_string(), title: "p".to_string(), ..Default::default() };
    store.create_issue(&issue).unwrap();
    assert_eq!(store.get_issue("bd-abc").unwrap().id, "bd-abc123");
    assert!(store.get_issue("bd-zzz").is_none());
}

#[test]
fn test_dirty_set_lifecycle() {
    // Empty after a clean export, repopulated on every create or update.
    let mut store = Store::new();
    let issue = Issue { id: "bd-dirt".to_string(), ..Default::default() };
    store.create_issue(&issue).unwrap();
    assert_eq!(store.dirty_ids(), vec!["bd-dirt".to_string()]);
    store.export_to_jsonl();
    assert!(store.dirty_ids().is_empty());
    let mut upd = store.get_issue("bd-dirt").unwrap();
    upd.priority = 3;
    store.update_issue(&upd);
    assert_eq!(store.dirty_ids(), vec!["bd-dirt".to_string()]);
}

#[test]
fn test_list_issues_filters() {
    let mut store = Store::new();
    let mut a = Issue { id: "bd-a".to_string(), ..Default::default() };
    a.status = "open".to_string();
    a.priority = 1;
    a.issue_type = "bug".to_string();
    let mut b = Issue { id: "bd-b".to_string(), ..Default::default() };
    b.status = "closed".to_string();
    b.priority = 2;
    b.issue_type = "task".to_string();
    b.assignee = Some("alice".to_string());
    store.create_issue(&a).unwrap();
    store.create_issue(&b).unwrap();

    assert_eq!(store.list_issues(Some("open"), None, None, None).len(), 1);
    assert_eq!(store.list_issues(None, Some("alice"), None, None)[0].id, "bd-b");
    assert_eq!(store.list_issues(None, Some("unassigned"), None, None)[0].id, "bd-a");
    assert_eq!(store.list_issues(None, None, Some(2), None)[0].id, "bd-b");
    assert_eq!(store.list_issues(None, None, None, Some("bug"))[0].id, "bd-a");
    assert_eq!(store.list_issues(None, None, None, None).len(), 2);
}

#[test]
fn test_default_dep_type() {
    assert_eq!(beads::model::default_dep_type(), "blocks");
}

#[test]
fn test_import_export_reproduces_every_field() {
    // A full round trip reproduces every field of every record exactly,
    // extreme timestamps included.
    let issue = Issue {
        id: "bd-full".to_string(),
        content_hash: String::new(),
        title: "full".to_string(),
        description: "d".to_string(),
        design: "des".to_string(),
        acceptance_criteria: "ac".to_string(),
        notes: "n".to_string(),
        status: "open".to_string(),
        priority: -7,
        issue_type: "task".to_string(),
        assignee: Some("alice".to_string()),
        estimated_minutes: Some(90),
        created_at: i64::MIN,
        updated_at: i64::MAX,
        closed_at: Some(0),
        external_ref: Some("EXT-1".to_string()),
        sender: "s".to_string(),
        ephemeral: true,
        replies_to: "bd-parent".to_string(),
        relates_to: vec!["bd-r1".to_string(), "bd-r2".to_string()],
        duplicate_of: "bd-dupe".to_string(),
        superseded_by: "bd-next".to_string(),
        deleted_at: Some(-5),
        deleted_by: "db".to_string(),
        delete_reason: "dr".to_string(),
        original_type: "ot".to_string(),
        labels: vec!["one".to_string(), "two".to_string()],
        dependencies: vec![Dependency {
            issue_id: "bd-full".to_string(),
            depends_on_id: "bd-dep".to_string(),
            type_: "blocks".to_string(),
            created_at: 42,
            created_by: "me".to_string(),
        }],
        comments: vec![Comment {
            id: 9,
            issue_id: "bd-full".to_string(),
            author: "me".to_string(),
            text: "note".to_string(),
            created_at: 43,
        }],
    };
    let mut store = Store::new();
    store.create_issue(&issue).unwrap();
    let content = store.export_to_jsonl();

    let mut store2 = Store::new();
    store2.import_from_jsonl(&content).unwrap();
    let back = store2.get_issue("bd-full").unwrap();
    assert_eq!(back.id, issue.id);
    assert_eq!(back.title, issue.title);
    assert_eq!(back.description, issue.description);
    assert_eq!(back.design, issue.design);
    assert_eq!(back.acceptance_criteria, issue.acceptance_criteria);
    assert_eq!(back.notes, issue.notes);
    assert_eq!(back.status, issue.status);
    assert_eq!(back.priority, issue.priority);
    assert_eq!(back.issue_type, issue.issue_type);
    assert_eq!(back.assignee, issue.assignee);
    assert_eq!(back.estimated_minutes, issue.estimated_minutes);
    assert_eq!(back.created_at, issue.created_at);
    assert_eq!(back.updated_at, issue.updated_at);
    assert_eq!(back.closed_at, issue.closed_at);
    assert_eq!(back.external_ref, issue.external_ref);
    assert_eq!(back.sender, issue.sender);
    assert_eq!(back.ephemeral, issue.ephemeral);
    assert_eq!(back.replies_to, issue.replies_to);
    assert_eq!(back.relates_to, issue.relates_to);
    assert_eq!(back.duplicate_of, issue.duplicate_of);
    assert_eq!(back.superseded_by, issue.superseded_by);
    assert_eq!(back.deleted_at, issue.deleted_at);
    assert_eq!(back.deleted_by, issue.deleted_by);
    assert_eq!(back.delete_reason, issue.delete_reason);
    assert_eq!(back.original_type, issue.original_type);
    assert_eq!(back.labels, issue.labels);
    assert_eq!(back.dependencies.len(), 1);
    assert_eq!(back.dependencies[0].depends_on_id, "bd-dep");
    assert_eq!(back.dependencies[0].type_, "blocks");
    assert_eq!(back.dependencies[0].created_at, 42);
    assert_eq!(back.comments.len(), 1);
    assert_eq!(back.comments[0].author, "me");
    assert_eq!(back.comments[0].text, "note");
    assert_eq!(back.comments[0].created_at, 43);
}
