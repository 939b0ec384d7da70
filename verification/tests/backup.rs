//! Export and import.

use base64::engine::general_purpose::STANDARD as BASE64;
use base64::Engine as _;
use niri_clip::backup::{
    export_header, export_json_file, export_rows, import_file, is_blank, parse_validate, trunc_str,
    EntryError, Export, ExportEntry, HeaderLine, ImportError, Line, ValidEntry, EXPORT_FORMAT,
    EXPORT_VERSION,
};
use niri_clip::config::{Config, ConfigFile};
use niri_clip::migrate::SCHEMA_VERSION;
use niri_clip::store::{
    current_hash, hash_text, image_content_key, insert, insert_image, list, toggle_pin, wipe, Clip,
    Store, StoreError,
};

const IMAGES: &str = "/state/images";

fn put(s: &mut Store, text: &str, ts: i64) {
    assert!(insert(s, text.to_string(), None, None, ts).unwrap());
}

fn all(s: &Store) -> Vec<Clip> {
    list(s, 100, &Config::default())
}

/// An export, with the bytes of every data file.
fn export(s: &Store, files: &[(String, Vec<u8>)]) -> Export {
    let payloads: Vec<Option<Vec<u8>>> = export_rows(s)
        .iter()
        .map(|r| {
            let p = r.image_path.as_ref()?;
            files.iter().find(|f| f.0 == *p).map(|f| f.1.clone())
        })
        .collect();
    export_json_file(s, &payloads, SCHEMA_VERSION, 99)
}

fn header() -> HeaderLine {
    HeaderLine::Header { format: EXPORT_FORMAT.to_string(), version: EXPORT_VERSION }
}

fn lines(entries: &[ExportEntry]) -> Vec<Line> {
    entries.iter().cloned().map(Line::Entry).collect()
}

fn read_back(s: &mut Store, v: Vec<Line>, cfg: &Config, dry: bool) -> (usize, usize, usize) {
    let o = import_file(s, &header(), &v, cfg, IMAGES, dry).unwrap().outcome;
    (o.imported, o.exists, o.invalid)
}

#[test]
fn export_import_round_trip() {
    let mut s = Store::new();
    put(&mut s, "rt-alpha", 1);
    put(&mut s, "rt-beta\n", 2);
    let img_bytes = b"\x89PNG\r\n\x1a\n-fake-payload".to_vec();
    let img = insert_image(&mut s, "image/png", &img_bytes, None, 3, IMAGES).unwrap().unwrap();
    let alpha_id = all(&s).iter().find(|c| c.text == "rt-alpha").unwrap().id;
    toggle_pin(&mut s, alpha_id).unwrap();

    let exp = export(&s, &[(img.path, img_bytes.clone())]);
    assert_eq!(exp.outcome.count, 3);
    assert_eq!(exp.outcome.images, 1);
    assert_eq!(exp.outcome.image_bytes, img_bytes.len() as u64);

    let pointer_before = current_hash(&s);
    assert!(pointer_before.is_some());
    wipe(&mut s);
    assert!(all(&s).is_empty());

    let v = lines(&exp.entries);
    let r = import_file(&mut s, &header(), &v, &Config::default(), IMAGES, false).unwrap();
    assert_eq!((r.outcome.imported, r.outcome.exists, r.outcome.invalid), (3, 0, 0));
    let clips = all(&s);
    assert_eq!(clips.len(), 3);
    assert!(clips.iter().any(|c| c.text == "rt-alpha" && c.pinned));
    assert!(clips.iter().any(|c| c.text == "rt-beta"));
    let restored = clips.iter().find(|c| c.mime == "image/png").expect("image");
    let path = restored.image_path.as_deref().expect("path");
    let file = r.files.iter().find(|f| f.path == path).expect("file");
    assert_eq!(file.bytes, img_bytes);
    assert_eq!(file.id, restored.id);
    assert_eq!(current_hash(&s), pointer_before);
}

#[test]
fn import_idempotent_no_dupes() {
    let mut s = Store::new();
    put(&mut s, "idem-1", 1);
    put(&mut s, "idem-2", 2);
    let exp = export(&s, &[]);
    wipe(&mut s);
    let cfg = Config::default();
    let (imported, exists, _) = read_back(&mut s, lines(&exp.entries), &cfg, false);
    assert_eq!((imported, exists), (2, 0));
    let (imported, exists, _) = read_back(&mut s, lines(&exp.entries), &cfg, false);
    assert_eq!((imported, exists), (0, 2));
    assert_eq!(all(&s).len(), 2);
}

#[test]
fn import_preserves_original_ts() {
    let mut s = Store::new();
    put(&mut s, "ts-keep", 1234);
    let exp = export(&s, &[]);
    wipe(&mut s);
    read_back(&mut s, lines(&exp.entries), &Config::default(), false);
    assert_eq!(s.rows.iter().find(|r| r.text == "ts-keep").unwrap().ts, 1234);
}

#[test]
fn import_skips_corrupt_but_keeps_good() {
    let mut s = Store::new();
    put(&mut s, "good-entry", 1);
    let exp = export(&s, &[]);
    assert_eq!(exp.entries.len(), 1);
    let mut bad = exp.entries[0].clone();
    bad.text = "tampered!".into();
    wipe(&mut s);
    let v = lines(&[exp.entries[0].clone(), bad]);
    let (imported, _, invalid) = read_back(&mut s, v, &Config::default(), false);
    assert_eq!(imported, 1);
    assert_eq!(invalid, 1);
    let clips = all(&s);
    assert_eq!(clips.len(), 1);
    assert_eq!(clips[0].text, "good-entry");
}

#[test]
fn import_dry_run_stats_match_real_run() {
    let mut s = Store::new();
    put(&mut s, "good-1", 1);
    put(&mut s, "good-2", 2);
    let exp = export(&s, &[]);
    assert_eq!(exp.entries.len(), 2);
    let mut tampered = exp.entries[1].clone();
    tampered.text = "tampered!".into();
    let mixed = lines(&[exp.entries[0].clone(), exp.entries[0].clone(), tampered]);
    wipe(&mut s);
    let cfg = Config::default();
    assert_eq!(read_back(&mut s, mixed.clone(), &cfg, true), (1, 1, 1));
    assert!(all(&s).is_empty());
    assert_eq!(read_back(&mut s, mixed, &cfg, false), (1, 1, 1));
    assert_eq!(all(&s).len(), 1);
}

#[test]
fn import_enforces_max_items_and_protects_pinned() {
    let mut s = Store::new();
    let cfg = Config::load(Some(ConfigFile { max_items: Some(2), ..ConfigFile::empty() }));
    let entries: Vec<ExportEntry> = (1..=4)
        .map(|i| {
            let text = format!("imp-{i}");
            ExportEntry {
                hash: hash_text(&text),
                mime: "text/plain".into(),
                ts: i * 1000,
                pinned: i == 1,
                size: text.len() as i64,
                text,
                image_base64: None,
            }
        })
        .collect();
    assert_eq!(read_back(&mut s, lines(&entries), &cfg, false).0, 4);
    let clips = all(&s);
    assert_eq!(clips.len(), 2);
    assert!(clips.iter().any(|c| c.text == "imp-1" && c.pinned));
    assert!(clips.iter().any(|c| c.text == "imp-4"));
    assert!(!clips.iter().any(|c| c.text == "imp-2" || c.text == "imp-3"));
}

#[test]
fn export_header_and_image_entry_schema() {
    let mut s = Store::new();
    put(&mut s, "schema-text", 1);
    let payload = b"\xff\xd8\xff-schema-jpeg".to_vec();
    let img = insert_image(&mut s, "image/jpeg", &payload, None, 2, IMAGES).unwrap().unwrap();
    let exp = export(&s, &[(img.path, payload.clone())]);
    assert_eq!(exp.header.format, EXPORT_FORMAT);
    assert_eq!(exp.header.version, EXPORT_VERSION);
    assert_eq!(exp.header.user_version, 4);
    assert_eq!(exp.header.count, 2);
    assert_eq!(exp.header.exported_at, 99);

    let entry = exp.entries.iter().find(|e| e.image_base64.is_some()).expect("payload");
    let decoded = BASE64.decode(entry.image_base64.as_ref().unwrap()).unwrap();
    assert_eq!(decoded, payload);
    assert_eq!(image_content_key("image/jpeg", &decoded), entry.hash);
    let text = exp.entries.iter().find(|e| e.text == "schema-text").unwrap();
    assert!(text.image_base64.is_none());
    assert_eq!(export_header(&s, 4, 5).exported_at, 5);
}

#[test]
fn exports_go_from_the_oldest_to_the_newest() {
    let mut s = Store::new();
    put(&mut s, "late", 9);
    put(&mut s, "early", 3);
    put(&mut s, "same time", 9);
    let order: Vec<String> = export(&s, &[]).entries.into_iter().map(|e| e.text).collect();
    assert_eq!(order, vec!["early", "late", "same time"]);
}

#[test]
fn an_image_whose_file_is_gone_is_exported_without_payload_and_refused_on_import() {
    let mut s = Store::new();
    insert_image(&mut s, "image/png", &[1, 2, 3], None, 1, IMAGES).unwrap().unwrap();
    let exp = export(&s, &[]);
    assert_eq!((exp.outcome.count, exp.outcome.images, exp.outcome.image_bytes), (1, 0, 0));
    assert!(matches!(parse_validate(&exp.entries[0]), Err(EntryError::NoPayload)));
}

#[test]
fn every_kind_of_damage_is_named() {
    let good = ExportEntry {
        hash: hash_text("x"),
        text: "x".into(),
        mime: "text/plain".into(),
        ts: 1,
        pinned: false,
        size: 77,
        image_base64: None,
    };
    assert!(matches!(parse_validate(&good), Ok(ValidEntry::Text { size: 1, .. })));
    let e = ExportEntry { hash: String::new(), ..good.clone() };
    assert!(matches!(parse_validate(&e), Err(EntryError::EmptyHash)));
    let e = ExportEntry { hash: "other".into(), ..good.clone() };
    assert!(matches!(parse_validate(&e), Err(EntryError::TextMismatch)));
    let e = ExportEntry { image_base64: Some("###".into()), ..good.clone() };
    assert!(matches!(parse_validate(&e), Err(EntryError::BadPayload)));
    let e = ExportEntry { image_base64: Some("AAAA".into()), ..good.clone() };
    assert!(matches!(parse_validate(&e), Err(EntryError::ImageMismatch)));
    let e = ExportEntry {
        hash: image_content_key("image/png", &[0, 0, 0]),
        mime: "image/png".into(),
        image_base64: Some(" AAAA\n".into()),
        ..good
    };
    match parse_validate(&e) {
        Ok(ValidEntry::Image { bytes, .. }) => assert_eq!(bytes, vec![0, 0, 0]),
        other => panic!("{other:?}"),
    }
}

#[test]
fn files_that_are_no_export_are_refused() {
    let mut s = Store::new();
    let cfg = Config::default();
    let mut fails = |h: HeaderLine| import_file(&mut s, &h, &vec![], &cfg, IMAGES, false).unwrap_err();
    assert_eq!(fails(HeaderLine::Missing), ImportError::Empty);
    assert_eq!(fails(HeaderLine::Broken), ImportError::BadHeader);
    let h = HeaderLine::Header { format: "zip".into(), version: 1 };
    assert_eq!(fails(h), ImportError::Format("zip".into()));
    let h = HeaderLine::Header { format: EXPORT_FORMAT.into(), version: 2 };
    assert_eq!(fails(h), ImportError::Version(2));
}

#[test]
fn a_full_history_stops_the_import_and_stays_as_it_is() {
    let mut s = Store::new();
    put(&mut s, "mine", 1);
    s.last_id = i64::MAX;
    let text = "new".to_string();
    let e = ExportEntry {
        hash: hash_text(&text),
        text,
        mime: "text/plain".into(),
        ts: 1,
        pinned: false,
        size: 3,
        image_base64: None,
    };
    let r = import_file(&mut s, &header(), &lines(&[e]), &Config::default(), IMAGES, false);
    assert_eq!(r.unwrap_err(), ImportError::Store(StoreError::Full));
    assert_eq!(s.rows.len(), 1);
}

#[test]
fn blank_lines_are_skipped_and_broken_ones_counted() {
    let mut s = Store::new();
    let v = vec![Line::Blank, Line::Broken, Line::Blank];
    assert_eq!(read_back(&mut s, v, &Config::default(), false), (0, 0, 1));
}

#[test]
fn long_texts_are_cut_for_messages() {
    assert_eq!(trunc_str("short", 80), "short");
    assert_eq!(trunc_str("剪贴板历史", 2), "剪贴…");
}

#[test]
fn data_files_come_only_with_rows_that_stay() {
    let mut s = Store::new();
    let old_bytes = b"old image".to_vec();
    let new_bytes = b"new image".to_vec();
    let a = insert_image(&mut s, "image/png", &old_bytes, None, 1, IMAGES).unwrap().unwrap();
    let b = insert_image(&mut s, "image/png", &new_bytes, None, 2, IMAGES).unwrap().unwrap();
    let exp = export(&s, &[(a.path, old_bytes), (b.path, new_bytes.clone())]);
    let v = lines(&exp.entries);

    let mut fresh = Store::new();
    let dry = import_file(&mut fresh, &header(), &v, &Config::default(), IMAGES, true).unwrap();
    assert_eq!(dry.outcome.imported, 2);
    assert!(dry.files.is_empty());
    assert!(fresh.rows.is_empty());

    // There is room for one row only: the older one goes, and its file with it.
    let cfg = Config { max_items: 1, ..Config::default() };
    let real = import_file(&mut fresh, &header(), &v, &cfg, IMAGES, false).unwrap();
    assert_eq!(real.outcome.imported, 2);
    assert_eq!(fresh.rows.len(), 1);
    assert_eq!(real.files.len(), 1);
    assert_eq!(real.files[0].bytes, new_bytes);
    assert_eq!(Some(&real.files[0].path), fresh.rows[0].image_path.as_ref());
}

#[test]
fn bytes_beside_a_text_are_not_exported() {
    let mut s = Store::new();
    put(&mut s, "plain", 1);
    let x = export_json_file(&s, &vec![Some(vec![1, 2, 3])], SCHEMA_VERSION, 5);
    assert_eq!(x.entries[0].image_base64, None);
    assert_eq!((x.outcome.count, x.outcome.images, x.outcome.image_bytes), (1, 0, 0));
    assert_eq!(x.header.exported_at, 5);
}

#[test]
fn white_space_alone_makes_a_line_blank() {
    assert!(is_blank(""));
    assert!(is_blank(" \t\u{3000}"));
    assert!(!is_blank(" {}"));
}

#[test]
fn a_second_import_counts_every_entry_as_known() {
    let mut s = Store::new();
    put(&mut s, "one", 1);
    put(&mut s, "two", 2);
    let exp = export(&s, &[]);
    let with_fault = || {
        let mut v = lines(&exp.entries);
        v.push(Line::Broken);
        v
    };
    let cfg = Config::default();
    let mut fresh = Store::new();
    put(&mut fresh, "two", 9);
    assert_eq!(read_back(&mut fresh, with_fault(), &cfg, false), (1, 1, 1));
    let once = all(&fresh);
    assert_eq!(read_back(&mut fresh, with_fault(), &cfg, false), (0, 2, 1));
    assert_eq!(all(&fresh).len(), once.len());
}

#[test]
fn an_import_leaves_the_current_item_in_place() {
    let mut s = Store::new();
    put(&mut s, "newer one", 10);
    put(&mut s, "newer two", 11);
    let exp = export(&s, &[]);
    let mut mine = Store::new();
    put(&mut mine, "mine", 1);
    let cfg = Config { max_items: 2, ..Config::default() };
    assert_eq!(read_back(&mut mine, lines(&exp.entries), &cfg, false), (2, 0, 0));
    let texts: Vec<&str> = mine.rows.iter().map(|r| r.text.as_str()).collect();
    assert_eq!(texts, vec!["mine", "newer two"]);
}

#[test]
fn pinned_rows_above_the_limit_survive_export_and_import() {
    let mut s = Store::new();
    for (i, t) in ["one", "two", "three"].iter().enumerate() {
        put(&mut s, t, i as i64);
        s.rows[i].pinned = true;
    }
    let exp = export(&s, &[]);
    let cfg = Config { max_items: 1, ..Config::default() };
    let mut fresh = Store::new();
    assert_eq!(read_back(&mut fresh, lines(&exp.entries), &cfg, false), (3, 0, 0));
    assert_eq!(fresh.rows.len(), 3);
    assert_eq!(read_back(&mut fresh, lines(&exp.entries), &cfg, false), (0, 3, 0));
    assert_eq!(fresh.rows.len(), 3);
}

#[test]
fn a_second_import_into_a_full_history_adds_nothing() {
    let mut s = Store::new();
    put(&mut s, "newer one", 10);
    put(&mut s, "newer two", 11);
    let exp = export(&s, &[]);
    let mut full = Store::new();
    for i in 0..3 {
        put(&mut full, &format!("old {i}"), i);
    }
    let cfg = Config { max_items: 3, ..Config::default() };
    assert_eq!(read_back(&mut full, lines(&exp.entries), &cfg, false), (2, 0, 0));
    let once: Vec<i64> = full.rows.iter().map(|r| r.id).collect();
    assert_eq!(once, vec![3, 4, 5]);
    assert_eq!(read_back(&mut full, lines(&exp.entries), &cfg, false), (0, 2, 0));
    let twice: Vec<i64> = full.rows.iter().map(|r| r.id).collect();
    assert_eq!(twice, once);
}
