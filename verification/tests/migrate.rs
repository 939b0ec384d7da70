//! Older databases.

use niri_clip::migrate::{
    migrate_blake3, migrate_legacy_db, migrate_schema, OldRow, SchemaStep, SCHEMA_VERSION,
};
use niri_clip::store::hash_text;

fn old_row(id: i64, hash: &str, text: &str, mime: &str, ts: i64, pinned: bool) -> OldRow {
    OldRow {
        id,
        hash: Some(hash.to_string()),
        text: text.to_string(),
        mime: mime.to_string(),
        ts,
        pinned,
        size: 0,
        image_path: None,
    }
}

fn legacy() -> Vec<OldRow> {
    vec![
        old_row(1, "legacy-a", "duplicated text", "text/plain", 100, true),
        old_row(2, "legacy-b", "duplicated text", "text/plain", 200, false),
        old_row(3, "legacy-c", "unique text", "text/plain", 300, false),
        old_row(4, "legacy-d", "中文存量条目", "text/plain", 400, false),
        OldRow {
            size: 10,
            ..old_row(5, "img:image/png:abc-10", "[image image/png 10 bytes]", "image/png", 500, false)
        },
    ]
}

#[test]
fn blake3_migration_merges_duplicates_and_never_doubles() {
    assert_eq!(migrate_schema(3, true), Some((SchemaStep::RehashTexts, 4)));
    let r = migrate_blake3(&legacy(), Some("legacy-a".to_string()));
    assert_eq!(r.rows.len(), 4);
    assert_eq!(r.merged, 1);
    let dup = r.rows.iter().find(|x| x.text == "duplicated text").unwrap();
    assert_eq!(dup.hash, hash_text("duplicated text"));
    assert!(dup.pinned);
    assert_eq!(dup.id, 2);
    for x in r.rows.iter().filter(|x| x.mime == "text/plain") {
        assert_eq!(x.hash, hash_text(&x.text));
    }
    let img = r.rows.iter().find(|x| x.mime == "image/png").unwrap();
    assert_eq!(img.hash, "img:image/png:abc-10");
    assert_eq!(img.size, 10);
    assert_eq!(r.current.as_deref(), Some(hash_text("duplicated text").as_str()));
    assert_eq!(migrate_schema(SCHEMA_VERSION, true), None);
}

#[test]
fn rehashing_again_changes_nothing() {
    let once = migrate_blake3(&legacy(), None);
    let rows: Vec<OldRow> = once
        .rows
        .iter()
        .map(|r| OldRow {
            id: r.id,
            hash: Some(r.hash.clone()),
            text: r.text.clone(),
            mime: r.mime.clone(),
            ts: r.ts,
            pinned: r.pinned,
            size: r.size,
            image_path: r.image_path.clone(),
        })
        .collect();
    let twice = migrate_blake3(&rows, None);
    assert_eq!(twice.merged, 0);
    let ids = |v: &Vec<niri_clip::store::Row>| -> Vec<(i64, String)> {
        v.iter().map(|r| (r.id, r.hash.clone())).collect()
    };
    let (mut a, mut b) = (ids(&once.rows), ids(&twice.rows));
    a.sort();
    b.sort();
    assert_eq!(a, b);
}

#[test]
fn rows_without_a_hash_get_one_and_files_are_inherited() {
    let mut rows = vec![
        old_row(1, "", "same", "text/plain", 5, false),
        old_row(2, "", "same", "text/plain", 5, false),
    ];
    rows[0].hash = None;
    rows[0].image_path = Some("/x/1.bin".into());
    rows[1].hash = None;
    let r = migrate_blake3(&rows, Some("elsewhere".into()));
    assert_eq!(r.rows.len(), 1);
    assert_eq!(r.rows[0].id, 2);
    assert_eq!(r.rows[0].image_path.as_deref(), Some("/x/1.bin"));
    assert_eq!(r.current.as_deref(), Some("elsewhere"));
}

#[test]
fn a_new_database_goes_through_every_step() {
    let mut version = 0;
    let mut steps = Vec::new();
    while let Some((step, next)) = migrate_schema(version, false) {
        steps.push(step);
        version = next;
    }
    assert_eq!(version, SCHEMA_VERSION);
    assert_eq!(
        steps,
        vec![
            SchemaStep::CreateTable,
            SchemaStep::AddImageColumn,
            SchemaStep::CreateIndex,
            SchemaStep::RehashTexts
        ]
    );
    assert_eq!(migrate_schema(1, true), Some((SchemaStep::KeepImageColumn, 2)));
}

#[test]
fn the_old_place_is_moved_once() {
    assert!(migrate_legacy_db("/cache/db", "/state/db", true, false));
    assert!(!migrate_legacy_db("/cache/db", "/state/db", true, true));
    assert!(!migrate_legacy_db("/cache/db", "/state/db", false, false));
    assert!(!migrate_legacy_db("/same/db", "/same/db", true, false));
}
