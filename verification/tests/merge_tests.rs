use beads::merge::{merge3way, MergeFault};
use beads::model::{Comment, Dependency, Issue};
use beads::store::Store;

#[test]
fn test_merge_identical_logs_is_identity() {
    // Merging a log with itself over itself reproduces it byte for byte.
    let mut store = Store::new();
    let a = Issue { id: "bd-one".to_string(), title: "one".to_string(), ..Default::default() };
    let b = Issue { id: "bd-two".to_string(), title: "two".to_string(), ..Default::default() };
    store.create_issue(&a).unwrap();
    store.create_issue(&b).unwrap();
    let e = store.export_to_jsonl();
    assert_eq!(merge3way(&e, &e, &e).unwrap(), e);
}

#[test]
fn test_merge_one_sided_change_wins() {
    // merge(B, L, B) == L and merge(B, B, R) == R.
    let mut base_store = Store::new();
    let v0 = Issue {
        id: "bd-base".to_string(),
        title: "original".to_string(),
        priority: 2,
        ..Default::default()
    };
    base_store.create_issue(&v0).unwrap();
    let b = base_store.export_to_jsonl();

    let mut v1 = v0.clone();
    v1.title = "changed".to_string();
    v1.updated_at = 10;
    base_store.update_issue(&v1);
    let l = base_store.export_to_jsonl();

    assert_eq!(merge3way(&b, &l, &b).unwrap(), l);
    assert_eq!(merge3way(&b, &b, &l).unwrap(), l);
}

#[test]
fn test_merge_is_field_level() {
    // Base issue bd-abc1 has priority 2; the left side sets priority 1
    // with a later update time; the right side independently adds the
    // label "urgent" and leaves priority 2. The merged record carries
    // priority 1 and the label "urgent": the merge is per field, not per
    // record.
    let base = Issue {
        id: "bd-abc1".to_string(),
        title: "t".to_string(),
        priority: 2,
        updated_at: 100,
        ..Default::default()
    };
    let mut left = base.clone();
    left.priority = 1;
    left.updated_at = 200;
    let mut right = base.clone();
    right.labels = vec!["urgent".to_string()];
    right.updated_at = 150;

    let mut sb = Store::new();
    sb.create_issue(&base).unwrap();
    let b = sb.export_to_jsonl();
    let mut sl = Store::new();
    sl.create_issue(&left).unwrap();
    let l = sl.export_to_jsonl();
    let mut sr = Store::new();
    sr.create_issue(&right).unwrap();
    let r = sr.export_to_jsonl();

    let merged = merge3way(&b, &l, &r).unwrap();
    let mut out = Store::new();
    out.import_from_jsonl(&merged).unwrap();
    let rec = out.get_issue("bd-abc1").unwrap();
    assert_eq!(rec.priority, 1);
    assert!(rec.labels.contains(&"urgent".to_string()));
}

#[test]
fn test_merge_deletion_wins_over_untouched() {
    // Base has bd-x; the left snapshot omits it (deleted); the right
    // snapshot is unchanged. The deletion wins: the merge omits bd-x.
    let mut sb = Store::new();
    let x = Issue { id: "bd-x".to_string(), title: "gone".to_string(), ..Default::default() };
    sb.create_issue(&x).unwrap();
    let b = sb.export_to_jsonl();

    let l = String::new();
    let merged = merge3way(&b, &l, &b).unwrap();
    assert_eq!(merged, "");

    // And symmetrically when the right side deleted it.
    let merged2 = merge3way(&b, &b, &l).unwrap();
    assert_eq!(merged2, "");
}

#[test]
fn test_merge_edit_survives_deletion() {
    // A record edited on one side and deleted on the other survives.
    let mut sb = Store::new();
    let x = Issue { id: "bd-keep".to_string(), title: "old".to_string(), ..Default::default() };
    sb.create_issue(&x).unwrap();
    let b = sb.export_to_jsonl();

    let mut edited = x.clone();
    edited.title = "new".to_string();
    edited.updated_at = 7;
    sb.update_issue(&edited);
    let l = sb.export_to_jsonl();

    let merged = merge3way(&b, &l, "").unwrap();
    let mut out = Store::new();
    out.import_from_jsonl(&merged).unwrap();
    assert_eq!(out.get_issue("bd-keep").unwrap().title, "new");
}

#[test]
fn test_merge_unions_dependencies_and_comments() {
    let base = Issue { id: "bd-u".to_string(), updated_at: 1, ..Default::default() };
    let mut left = base.clone();
    left.updated_at = 2;
    left.dependencies = vec![Dependency {
        issue_id: "bd-u".to_string(),
        depends_on_id: "bd-l".to_string(),
        type_: "blocks".to_string(),
        created_at: 1,
        created_by: "l".to_string(),
    }];
    left.comments = vec![Comment {
        id: 1,
        issue_id: "bd-u".to_string(),
        author: "l".to_string(),
        text: "from left".to_string(),
        created_at: 1,
    }];
    let mut right = base.clone();
    right.updated_at = 3;
    right.dependencies = vec![Dependency {
        issue_id: "bd-u".to_string(),
        depends_on_id: "bd-r".to_string(),
        type_: "blocks".to_string(),
        created_at: 1,
        created_by: "r".to_string(),
    }];
    right.comments = vec![Comment {
        id: 2,
        issue_id: "bd-u".to_string(),
        author: "r".to_string(),
        text: "from right".to_string(),
        created_at: 2,
    }];

    let mut sb = Store::new();
    sb.create_issue(&base).unwrap();
    let b = sb.export_to_jsonl();
    let mut sl = Store::new();
    sl.create_issue(&left).unwrap();
    let l = sl.export_to_jsonl();
    let mut sr = Store::new();
    sr.create_issue(&right).unwrap();
    let r = sr.export_to_jsonl();

    let merged = merge3way(&b, &l, &r).unwrap();
    let mut out = Store::new();
    out.import_from_jsonl(&merged).unwrap();
    let rec = out.get_issue("bd-u").unwrap();
    assert_eq!(rec.dependencies.len(), 2);
    assert_eq!(rec.comments.len(), 2);
}

#[test]
fn test_merge_names_faulty_snapshot() {
    let mut s = Store::new();
    s.create_issue(&Issue { id: "bd-ok".to_string(), ..Default::default() }).unwrap();
    let good = s.export_to_jsonl();
    let bad = "garbage\n";
    assert_eq!(merge3way(bad, &good, &good), Err(MergeFault::Base));
    assert_eq!(merge3way(&good, bad, &good), Err(MergeFault::Left));
    assert_eq!(merge3way(&good, &good, bad), Err(MergeFault::Right));
}

#[test]
fn test_merge_duplicate_ids_last_wins() {
    // Within one snapshot the last occurrence of an id wins.
    let mut s = Store::new();
    s.create_issue(&Issue {
        id: "bd-dd".to_string(),
        title: "first".to_string(),
        ..Default::default()
    }).unwrap();
    let one = s.export_to_jsonl();
    let mut s2 = Store::new();
    s2.create_issue(&Issue {
        id: "bd-dd".to_string(),
        title: "second".to_string(),
        ..Default::default()
    }).unwrap();
    let two = s2.export_to_jsonl();
    let doubled = format!("{}{}", one, two);

    let merged = merge3way(&doubled, &doubled, &doubled).unwrap();
    let mut out = Store::new();
    out.import_from_jsonl(&merged).unwrap();
    assert_eq!(out.get_issue("bd-dd").unwrap().title, "second");
    assert_eq!(out.list_issues(None, None, None, None).len(), 1);
}
