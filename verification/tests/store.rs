//! The history: capture, order, search, removal.

use chrono::TimeZone;
use niri_clip::config::{Config, ConfigFile};
use niri_clip::store::maintain::prune_before;
use niri_clip::store::query::{search_plan, SearchPlan};
use niri_clip::store::sync::{changes, Change};
use niri_clip::store::transfer::{
    cliphist_entries, copy_to_clipboard, day_start, migrate_from_cliphist, parse_local_date_ms,
    CopyJob, DateError, Decoded,
};
use niri_clip::store::{
    current_hash, delete, enforce_max_items, gc_images, get, hash_text, image_content_key, insert,
    insert_image, insert_image_with, insert_with, is_pinned, list, prune_orphan_images, search,
    should_ignore, stats, toggle_pin, touch_current, wipe, Clip, Row, Store, StoreError, TUI_LIMIT,
};
use rusqlite::Connection;

const IMAGES: &str = "/state/niri-clip/images";

fn put(s: &mut Store, text: &str, ts: i64) -> bool {
    insert(s, text.to_string(), None, None, ts).unwrap()
}

fn put_image(s: &mut Store, bytes: &[u8], ts: i64) -> niri_clip::store::InsertedImage {
    insert_image(s, "image/png", bytes, None, ts, IMAGES).unwrap().expect("stored")
}

fn all(s: &Store, limit: usize) -> Vec<Clip> {
    list(s, limit, &Config::default())
}

fn row_at<'a>(s: &'a mut Store, hash: &str) -> &'a mut Row {
    s.rows.iter_mut().find(|r| r.hash == hash).expect("row")
}

fn file_with(set: impl FnOnce(&mut ConfigFile)) -> Option<ConfigFile> {
    let mut f = ConfigFile::empty();
    set(&mut f);
    Some(f)
}

/// A search of the whole history, with a full-text index over the rows.
fn find(s: &Store, query: &str, limit: usize) -> Vec<Clip> {
    let ranked = match search_plan(query) {
        SearchPlan::Index { phrase } => {
            let conn = Connection::open_in_memory().unwrap();
            conn.execute_batch("CREATE VIRTUAL TABLE t USING fts5(text, tokenize='trigram');")
                .unwrap();
            for r in &s.rows {
                conn.execute("INSERT INTO t(rowid, text) VALUES (?1, ?2)", (r.id, &r.text))
                    .unwrap();
            }
            let mut stmt = conn
                .prepare("SELECT rowid FROM t WHERE t MATCH ?1 ORDER BY bm25(t), rowid DESC")
                .unwrap();
            let rows = stmt.query_map([phrase], |r| r.get::<_, i64>(0)).unwrap();
            rows.map(|r| r.unwrap()).collect()
        }
        _ => Vec::new(),
    };
    search(s, query, limit, &ranked)
}

fn ignores_secrets_and_short_input() {
    let cfg = Config::default();
    assert!(should_ignore("my password is hunter2", &cfg));
    assert!(should_ignore("", &cfg));
    let cfg2 = Config { min_store_length: 5, ..Config::default() };
    assert!(should_ignore("ab", &cfg2));
    assert!(!should_ignore("hello world", &cfg));
    assert!(!should_ignore("plain text", &cfg));
}

#[test]
fn store_tests_should_ignore_filters_secrets_and_short_input() {
    ignores_secrets_and_short_input();
}

#[test]
fn store_should_ignore_filters_secrets_and_short_input() {
    ignores_secrets_and_short_input();
}

fn same_text_takes_one_row() {
    let mut s = Store::new();
    assert!(put(&mut s, "dup-entry-a", 1));
    assert!(!put(&mut s, "dup-entry-a", 2));
    let hits = all(&s, 100).iter().filter(|c| c.text.contains("dup-entry-a")).count();
    assert_eq!(hits, 1);
    assert_eq!(s.rows[0].ts, 2);
}

#[test]
fn store_tests_upsert_dedups_same_hash_atomically() {
    same_text_takes_one_row();
}

#[test]
fn store_upsert_dedups_same_hash_atomically() {
    same_text_takes_one_row();
}

#[test]
fn insert_trims_whitespace_and_dedups_variants() {
    let mut s = Store::new();
    assert!(put(&mut s, "dup-entry-x\n", 1));
    assert!(!put(&mut s, "dup-entry-x", 2));
    assert!(!put(&mut s, "  dup-entry-x  ", 3));
    let hits = all(&s, 100).iter().filter(|c| c.text == "dup-entry-x").count();
    assert_eq!(hits, 1);
    assert!(!put(&mut s, "   \n\t ", 4));
    assert_eq!(s.rows.len(), 1);
}

fn images_are_told_apart_by_content() {
    let mut s = Store::new();
    let a = b"\x89PNG\r\n\x1a\n bytes-of-A ".to_vec();
    let img_a = insert_image(&mut s, "image/png", &a, None, 1, IMAGES)
        .unwrap()
        .expect("first insert");
    let clip_a = get(&s, img_a.id).unwrap();
    assert_eq!(clip_a.image_path.as_deref(), Some(img_a.path.as_str()));
    assert_eq!(img_a.path, format!("{IMAGES}/1.bin"));
    assert_eq!(clip_a.text, format!("[image image/png {} bytes]", a.len()));

    let again = insert_image(&mut s, "image/png", &a, None, 2, IMAGES).unwrap();
    assert!(again.is_none());

    let mut b = a.clone();
    b[10] ^= 0xFF;
    let img_b = insert_image(&mut s, "image/png", &b, None, 3, IMAGES)
        .unwrap()
        .expect("len equal but different bytes");
    assert_ne!(img_b.id, img_a.id);
    let total = s.rows.iter().filter(|r| r.mime.starts_with("image/")).count();
    assert_eq!(total, 2);
}

#[test]
fn store_tests_image_insert_associates_data_file_and_dedups_by_content_not_length() {
    images_are_told_apart_by_content();
}

#[test]
fn store_image_insert_associates_data_file_and_dedups_by_content_not_length() {
    images_are_told_apart_by_content();
}

#[test]
fn insert_rejects_oversize_text_at_boundary() {
    let mut s = Store::new();
    let file = file_with(|f| f.max_clip_bytes = Some(64));
    assert!(insert(&mut s, "x".repeat(64), None, file.clone(), 1).unwrap());
    assert!(!insert(&mut s, "y".repeat(65), None, file, 2).unwrap());
    let clips = all(&s, 10);
    assert_eq!(clips.len(), 1);
    assert!(clips[0].text.starts_with('x'));
}

#[test]
fn insert_image_rejects_oversize_payload_at_boundary() {
    let mut s = Store::new();
    let file = file_with(|f| f.max_image_bytes = Some(64));
    let big = vec![0u8; 65];
    assert!(insert_image(&mut s, "image/png", &big, file.clone(), 1, IMAGES).unwrap().is_none());
    assert!(s.rows.is_empty());
    let ok = vec![0u8; 64];
    let img = insert_image(&mut s, "image/png", &ok, file, 2, IMAGES).unwrap().expect("stored");
    assert_eq!(s.rows[0].id, img.id);
}

#[test]
fn current_pointer_tracks_capture_and_tops_list() {
    let mut s = Store::new();
    put(&mut s, "old-a", 1);
    put(&mut s, "old-b", 2);
    assert!(current_hash(&s).is_some());
    let clips = all(&s, 10);
    assert_eq!(clips[0].text, "old-b");

    toggle_pin(&mut s, clips[1].id).unwrap();
    assert_eq!(all(&s, 10)[0].text, "old-b");

    put(&mut s, "old-a", 3);
    let cur = current_hash(&s).unwrap();
    assert_eq!(all(&s, 10)[0].hash, cur);
    assert_eq!(cur, hash_text("old-a"));
}

#[test]
fn oversize_or_ignored_capture_does_not_move_current_pointer() {
    let mut s = Store::new();
    put(&mut s, "keep-me", 1);
    let cur = current_hash(&s).unwrap();
    let file = file_with(|f| f.max_clip_bytes = Some(8));
    insert(&mut s, "this is way beyond eight bytes".into(), None, file.clone(), 2).unwrap();
    assert_eq!(current_hash(&s).unwrap(), cur);
    insert(&mut s, "my password is hunter2".into(), None, file, 3).unwrap();
    assert_eq!(current_hash(&s).unwrap(), cur);
}

fn pinned_comes_first_within_the_limit() {
    let mut s = Store::new();
    for i in 0..5 {
        put(&mut s, &format!("item-{i}"), i);
    }
    let head_id = all(&s, TUI_LIMIT)[0].id;
    toggle_pin(&mut s, head_id).unwrap();
    let after = all(&s, TUI_LIMIT);
    assert_eq!(after[0].id, head_id);
    assert!(after[0].pinned);
    assert_eq!(all(&s, 3).len(), 3);
}

#[test]
fn store_tests_pin_orders_first_and_list_respects_limit() {
    pinned_comes_first_within_the_limit();
}

#[test]
fn store_pin_orders_first_and_list_respects_limit() {
    pinned_comes_first_within_the_limit();
}

#[test]
fn pinned_rows_stay_in_time_order_where_they_do_not_come_first() {
    let mut s = Store::new();
    put(&mut s, "first", 1);
    put(&mut s, "second", 2);
    put(&mut s, "third", 3);
    toggle_pin(&mut s, 1).unwrap();
    let texts = |cfg: &Config| -> Vec<String> {
        list(&s, 10, cfg).into_iter().map(|c| c.text).collect()
    };
    assert_eq!(texts(&Config::default()), vec!["third", "first", "second"]);
    let flat = Config { pinned_on_top: false, ..Config::default() };
    assert_eq!(texts(&flat), vec!["third", "second", "first"]);
}

#[test]
fn delete_and_wipe_remove_image_files() {
    let mut s = Store::new();
    let a = put_image(&mut s, b"\x89PNG-a", 1);
    let b = put_image(&mut s, b"\x89PNG-b", 2);
    assert_eq!(delete(&mut s, a.id), Some(a.path));
    assert_eq!(get(&s, b.id).unwrap().image_path, Some(b.path.clone()));
    assert_eq!(delete(&mut s, 77), None);
    wipe(&mut s);
    assert!(s.rows.is_empty());
    assert_eq!(prune_orphan_images(&s, &vec![b.path.clone()]), vec![b.path]);
}

#[test]
fn max_items_eviction_removes_image_files() {
    let mut s = Store::new();
    let file = file_with(|f| f.max_items = Some(1));
    let a = insert_image(&mut s, "image/png", b"\x89PNG-a", file.clone(), 1, IMAGES)
        .unwrap()
        .expect("insert a");
    let before = s.clone();
    let b = insert_image(&mut s, "image/png", b"\x89PNG-b", file, 2, IMAGES)
        .unwrap()
        .expect("insert b");
    assert!(get(&s, a.id).is_err());
    assert!(get(&s, b.id).is_ok());
    let gone: Vec<Option<String>> = changes(&before, &s)
        .into_iter()
        .filter_map(|c| match c {
            Change::Remove { image_path, .. } => Some(image_path),
            _ => None,
        })
        .collect();
    assert_eq!(gone, vec![Some(a.path)]);
}

#[test]
fn prune_orphan_images_removes_unreferenced_files() {
    let mut s = Store::new();
    let img = put_image(&mut s, b"\x89PNG-ok", 1);
    let orphan = format!("{IMAGES}/9999.bin");
    let tmp = format!("{IMAGES}/.tmp-1234.bin");
    let files = vec![img.path.clone(), orphan.clone(), tmp.clone()];
    let gone = prune_orphan_images(&s, &files);
    assert_eq!(gone, vec![orphan, tmp]);
    assert_eq!(prune_orphan_images(&s, &vec![img.path]).len(), 0);
}

#[test]
fn gc_images_evicts_oldest_first_and_protects_pinned_and_current() {
    let mut s = Store::new();
    let a = put_image(&mut s, &[7u8; 10], 1);
    let b = put_image(&mut s, &[8u8; 10], 4);
    let c = put_image(&mut s, &[9u8; 10], 7);
    toggle_pin(&mut s, b.id).unwrap();
    assert_eq!(current_hash(&s).unwrap(), image_content_key("image/png", &[9u8; 10]));
    assert_eq!(gc_images(&mut s, 25).unwrap(), 1);
    assert!(get(&s, a.id).is_err());
    assert!(get(&s, b.id).is_ok() && get(&s, c.id).is_ok());
    assert_eq!(s.rows.len(), 2);
    // Nothing else may go, whatever the quota.
    assert_eq!(gc_images(&mut s, 1).unwrap(), 0);
    assert_eq!(s.rows.len(), 2);
}

#[test]
fn gc_images_zero_means_unlimited_and_within_quota_is_noop() {
    let mut s = Store::new();
    put_image(&mut s, &[1u8; 10], 1);
    assert_eq!(gc_images(&mut s, 0).unwrap(), 0);
    assert_eq!(gc_images(&mut s, 1024).unwrap(), 0);
}

#[test]
fn fts_stays_in_sync_with_insert_and_delete() {
    let mut s = Store::new();
    put(&mut s, "the quick brown fox", 1);
    put(&mut s, "剪贴板历史管理器条目", 2);
    assert_eq!(find(&s, "quick brown", 10).len(), 1);
    let hit = find(&s, "板历史", 10).pop().unwrap();
    delete(&mut s, hit.id);
    assert!(find(&s, "板历史", 10).is_empty());
    assert_eq!(find(&s, "quick brown", 10).len(), 1);
}

#[test]
fn search_short_query_falls_back_to_like_and_escapes_wildcards() {
    let mut s = Store::new();
    put(&mut s, "100% pure path example", 1);
    put(&mut s, "ab filler", 2);
    assert_eq!(find(&s, "ab", 10).len(), 1);
    assert_eq!(find(&s, "%", 10).len(), 1);
    assert_eq!(find(&s, "_", 10).len(), 0);
    assert!(find(&s, "", 10).is_empty());
}

#[test]
fn search_match_phrase_syntax_from_user_input_is_safe() {
    let mut s = Store::new();
    put(&mut s, "quoted \"inner\" text", 1);
    assert_eq!(find(&s, "\"inner\"", 10).len(), 1);
    assert_eq!(find(&s, "inner", 10).len(), 1);
    assert_eq!(find(&s, "inner text", 10).len(), 0);
}

#[test]
fn search_plans_go_by_the_trimmed_length() {
    assert!(matches!(search_plan("  "), SearchPlan::Nothing));
    assert!(matches!(search_plan(" ab "), SearchPlan::Scan { needle } if needle == "ab"));
    assert!(matches!(search_plan("a\"c"), SearchPlan::Index { phrase } if phrase == "\"a\"\"c\""));
}

#[test]
fn short_search_gives_the_newest_first_and_folds_ascii_case() {
    let mut s = Store::new();
    put(&mut s, "Abc", 5);
    put(&mut s, "xaB", 9);
    put(&mut s, "nothing", 10);
    let ids: Vec<i64> = find(&s, "AB", 10).iter().map(|c| c.id).collect();
    assert_eq!(ids, vec![2, 1]);
    assert_eq!(find(&s, "AB", 1).len(), 1);
}

#[test]
fn search_by_index_keeps_its_order_and_skips_unknown_ids() {
    let mut s = Store::new();
    put(&mut s, "one apple", 1);
    put(&mut s, "two apples", 2);
    let ids: Vec<i64> = search(&s, "apple", 10, &vec![1, 99, 2]).iter().map(|c| c.id).collect();
    assert_eq!(ids, vec![1, 2]);
}

#[test]
fn stats_counts_and_sizes_match_disk() {
    let mut s = Store::new();
    put(&mut s, "hello world", 10);
    put(&mut s, "second entry", 20);
    put_image(&mut s, &[7u8; 100], 30);
    row_at(&mut s, &hash_text("hello world")).pinned = true;
    let r = stats(&s, 4096, 100).unwrap();
    assert_eq!(r.total, 3);
    assert_eq!(r.pinned, 1);
    assert_eq!(r.image_entries, 1);
    assert_eq!(r.text_bytes, ("hello world".len() + "second entry".len()) as i64);
    assert!(r.db_bytes > 0);
    assert_eq!(r.images_disk_bytes, 100);
    assert_eq!((r.oldest_ts, r.newest_ts), (Some(10), Some(30)));
}

#[test]
fn stats_of_an_empty_history() {
    let r = stats(&Store::new(), 0, 0).unwrap();
    assert_eq!((r.total, r.pinned, r.image_entries, r.text_bytes), (0, 0, 0, 0));
    assert_eq!((r.oldest_ts, r.newest_ts), (None, None));
}

fn old_and_fresh() -> (Store, niri_clip::store::InsertedImage) {
    let mut s = Store::new();
    let img = put_image(&mut s, &[9u8; 10], 1_800_000_000_000);
    for (i, t) in ["old plain", "old pinned", "old current", "fresh plain"].iter().enumerate() {
        put(&mut s, t, 1_800_000_000_001 + i as i64);
    }
    (s, img)
}

#[test]
fn prune_deletes_old_only_and_protects_pinned_and_current() {
    let old: i64 = 1_000;
    let (mut s, img) = old_and_fresh();
    for h in ["old plain", "old pinned", "old current"] {
        row_at(&mut s, &hash_text(h)).ts = old;
    }
    row_at(&mut s, &image_content_key("image/png", &[9u8; 10])).ts = old;
    row_at(&mut s, &hash_text("old pinned")).pinned = true;
    touch_current(&mut s, &hash_text("old current"));

    let cutoff = parse_local_date_ms("2026-08-01").unwrap();
    let out = prune_before(&mut s, cutoff, false).unwrap();
    assert_eq!(out.deleted, 2);
    assert_eq!(out.images_deleted, 1);
    assert_eq!(out.freed_bytes, ("old plain".len() + 10) as i64);
    assert!(get(&s, img.id).is_err());
    assert_eq!(s.rows.len(), 3);

    assert!(find(&s, "old plain", 10).is_empty());
    assert_eq!(find(&s, "old pinned", 10).len(), 1);
    assert_eq!(find(&s, "old current", 10).len(), 1);
    assert_eq!(find(&s, "fresh plain", 10).len(), 1);
    assert_eq!(current_hash(&s).unwrap(), hash_text("old current"));
}

#[test]
fn prune_dry_run_reports_without_deleting() {
    let old: i64 = 1_000;
    let mut s = Store::new();
    let img = put_image(&mut s, &[9u8; 10], 1_800_000_000_000);
    put(&mut s, "old plain", 1_800_000_000_001);
    put(&mut s, "fresh plain", 1_800_000_000_002);
    row_at(&mut s, &hash_text("old plain")).ts = old;
    row_at(&mut s, &image_content_key("image/png", &[9u8; 10])).ts = old;

    let cutoff = parse_local_date_ms("2026-08-01").unwrap();
    let out = prune_before(&mut s, cutoff, true).unwrap();
    assert_eq!(out.deleted, 2);
    assert_eq!(out.images_deleted, 1);
    assert_eq!(out.freed_bytes, ("old plain".len() + 10) as i64);
    assert_eq!(s.rows.len(), 3);
    assert!(get(&s, img.id).is_ok());

    let out2 = prune_before(&mut s, cutoff, false).unwrap();
    assert_eq!(out2.deleted, out.deleted);
    assert_eq!(out2.images_deleted, out.images_deleted);
    assert_eq!(out2.freed_bytes, out.freed_bytes);
    assert!(get(&s, img.id).is_err());
}

#[test]
fn parse_local_date_ms_uses_local_midnight_and_rejects_garbage() {
    let want = chrono::Local
        .with_ymd_and_hms(2026, 8, 1, 0, 0, 0)
        .single()
        .unwrap()
        .timestamp_millis();
    assert_eq!(parse_local_date_ms("2026-08-01").unwrap(), want);
    assert_eq!(parse_local_date_ms(" 2026-08-01 ").unwrap(), want);
    assert!(parse_local_date_ms("not-a-date").is_err());
    assert!(parse_local_date_ms("2026-13-01").is_err());
    assert_eq!(parse_local_date_ms(""), Err(DateError::Format));
}

#[test]
fn a_day_without_one_midnight_is_ambiguous() {
    assert_eq!(day_start(None), Err(DateError::Ambiguous));
    assert_eq!(day_start(Some(86_400_000)), Ok(86_400_000));
}

#[test]
fn eviction_drops_the_oldest_and_spares_the_pinned() {
    let mut s = Store::new();
    for i in 0..4 {
        put(&mut s, &format!("n{i}"), 10 + i);
    }
    toggle_pin(&mut s, 1).unwrap();
    enforce_max_items(&mut s, 2);
    let ids: Vec<i64> = s.rows.iter().map(|r| r.id).collect();
    assert_eq!(ids, vec![1, 4]);
}

#[test]
fn lookups_of_unknown_entries_fail() {
    let mut s = Store::new();
    assert!(matches!(get(&s, 1), Err(StoreError::NotFound)));
    assert_eq!(is_pinned(&s, 1), Err(StoreError::NotFound));
    assert_eq!(toggle_pin(&mut s, 1), Err(StoreError::NotFound));
    put(&mut s, "here", 1);
    assert_eq!(is_pinned(&s, 1), Ok(false));
    assert_eq!(toggle_pin(&mut s, 1), Ok(true));
    assert_eq!(is_pinned(&s, 1), Ok(true));
    assert_eq!(toggle_pin(&mut s, 1), Ok(false));
}

#[test]
fn a_full_history_takes_no_new_entry() {
    let mut s = Store::new();
    put(&mut s, "one", 1);
    s.last_id = i64::MAX;
    let r = insert(&mut s, "two".into(), None, None, 2);
    assert_eq!(r, Err(StoreError::Full));
    assert!(!put(&mut s, "one", 3));
    let cfg = Config::default();
    let r = insert_image_with(&mut s, "image/png", &[1], &cfg, 4, IMAGES);
    assert!(matches!(r, Err(StoreError::Full)));
}

#[test]
fn sizes_that_do_not_fit_are_reported() {
    let mut s = Store::new();
    put(&mut s, "a1", 1);
    put(&mut s, "b2", 2);
    put(&mut s, "c3", 3);
    s.rows[0].size = i64::MAX;
    s.rows[1].size = i64::MAX;
    assert!(matches!(prune_before(&mut s, 3, true), Err(StoreError::SumOverflow)));
    assert!(matches!(stats(&s, 0, 0), Err(StoreError::SumOverflow)));
}

#[test]
fn a_mime_type_is_kept_and_defaults_to_plain_text() {
    let mut s = Store::new();
    let cfg = Config::default();
    insert_with(&mut s, "one".into(), Some("text/html".into()), &cfg, 1).unwrap();
    insert_with(&mut s, "two".into(), None, &cfg, 2).unwrap();
    assert_eq!(s.rows[0].mime, "text/html");
    assert_eq!(s.rows[1].mime, "text/plain");
    assert_eq!(s.rows[1].size, 3);
}

#[test]
fn fingerprints_are_the_published_ones() {
    assert_eq!(
        hash_text(""),
        "af1349b9f5f9a1a6a0404dea36dcc9499bcb25c9adc112b7cc9a93cae41f3262"
    );
    assert_eq!(
        hash_text("hello"),
        blake3::hash("hello".as_bytes()).to_hex().to_string()
    );
    // The 64-bit FNV-1a value of "a".
    assert_eq!(image_content_key("image/png", b"a"), "img:image/png:af63dc4c8601ec8c-1");
    assert_eq!(image_content_key("image/png", b""), "img:image/png:cbf29ce484222325-0");
}

#[test]
fn copies_of_texts_and_images() {
    let mut s = Store::new();
    put(&mut s, "plain", 1);
    let img = put_image(&mut s, &[3u8; 4], 2);
    match copy_to_clipboard(&s, 1) {
        Ok(CopyJob::Text { text, hash }) => {
            assert_eq!(text, "plain");
            assert_eq!(hash, hash_text("plain"));
        }
        other => panic!("{other:?}"),
    }
    match copy_to_clipboard(&s, img.id) {
        Ok(CopyJob::Image { type_arg, path, hash }) => {
            assert_eq!(type_arg, "--type=image/png");
            assert_eq!(path, img.path);
            assert_eq!(hash, image_content_key("image/png", &[3u8; 4]));
        }
        other => panic!("{other:?}"),
    }
    assert!(matches!(copy_to_clipboard(&s, 9), Err(StoreError::NotFound)));
    s.rows[1].image_path = None;
    assert!(matches!(copy_to_clipboard(&s, img.id), Err(StoreError::NoImageFile)));
}

#[test]
fn cliphist_lists_are_read_and_merged_without_moving_the_pointer() {
    let listed = cliphist_entries("12\thello\nbroken\nx\ty\n-3\ta\tb\n");
    let got: Vec<(i64, String)> = listed.into_iter().map(|l| (l.id, l.preview)).collect();
    assert_eq!(got, vec![(12, "hello".to_string()), (-3, "a\tb".to_string())]);

    let mut s = Store::new();
    put(&mut s, "mine", 1);
    let before = current_hash(&s);
    let entries = vec![
        Decoded { content: "new one".into(), ts: 5 },
        Decoded { content: "mine".into(), ts: 6 },
        Decoded { content: "my token".into(), ts: 7 },
    ];
    assert_eq!(migrate_from_cliphist(&mut s, &entries, &Config::default()), Ok(1));
    assert_eq!(current_hash(&s), before);
    assert_eq!(s.rows.len(), 2);
}

#[test]
fn a_pointer_of_blanks_points_nowhere() {
    let mut s = Store::new();
    touch_current(&mut s, "  \n");
    assert_eq!(current_hash(&s), None);
    touch_current(&mut s, " abc\n");
    assert_eq!(current_hash(&s).as_deref(), Some("abc"));
}

#[test]
fn loading_refuses_rows_that_are_no_history() {
    let mut s = Store::new();
    put(&mut s, "one", 1);
    put(&mut s, "two", 2);
    let good = Store::load(s.rows.clone(), 2, None);
    assert!(good.is_ok());
    assert!(matches!(Store::load(s.rows.clone(), 1, None), Err(StoreError::Invalid)));
    let mut twice = s.rows.clone();
    twice[1].hash = twice[0].hash.clone();
    assert!(matches!(Store::load(twice, 2, None), Err(StoreError::Invalid)));
}

#[test]
fn changes_lead_from_one_state_to_the_other() {
    let mut s = Store::new();
    put(&mut s, "stays", 1);
    put(&mut s, "goes", 2);
    let before = s.clone();
    delete(&mut s, 2);
    toggle_pin(&mut s, 1).unwrap();
    put(&mut s, "comes", 3);
    let kinds: Vec<String> = changes(&before, &s)
        .into_iter()
        .map(|c| match c {
            Change::Remove { id, .. } => format!("remove {id}"),
            Change::Insert(r) => format!("insert {}", r.id),
            Change::Update(r) => format!("update {}", r.id),
        })
        .collect();
    assert_eq!(kinds, vec!["remove 2", "update 1", "insert 3"]);
    assert!(changes(&s, &s.clone()).is_empty());
}

#[test]
fn the_cut_to_the_limit_spares_the_entry_just_captured() {
    let mut s = Store::new();
    let cfg = Config { max_items: 2, ..Config::default() };
    for (i, t) in ["one", "two", "three", "two"].iter().enumerate() {
        insert_with(&mut s, t.to_string(), None, &cfg, i as i64).unwrap();
        assert_eq!(current_hash(&s), Some(hash_text(t)));
        let clips = list(&s, 10, &cfg);
        assert!(clips.len() <= 2);
        assert_eq!(clips[0].text, *t);
    }
}

#[test]
fn the_current_item_stays_however_many_are_pinned() {
    let mut s = Store::new();
    let cfg = Config { max_items: 1, ..Config::default() };
    assert_eq!(insert_with(&mut s, "a".into(), None, &cfg, 1), Ok(true));
    toggle_pin(&mut s, 1).unwrap();
    assert_eq!(insert_with(&mut s, "b".into(), None, &cfg, 2), Ok(true));
    assert_eq!(get(&s, 2).unwrap().text, "b");
    assert_eq!(get(&s, 1).unwrap().text, "a");
    assert_eq!(list(&s, 10, &cfg)[0].text, "b");
    // The next one takes the place of the one that was current.
    assert_eq!(insert_with(&mut s, "c".into(), None, &cfg, 3), Ok(true));
    let texts: Vec<&str> = s.rows.iter().map(|r| r.text.as_str()).collect();
    assert_eq!(texts, vec!["a", "c"]);
}

#[test]
fn the_current_item_stays_though_the_clock_went_back() {
    let mut s = Store::new();
    let cfg = Config { max_items: 2, ..Config::default() };
    for (t, ts) in [("one", 100), ("two", 200), ("three", 50)] {
        insert_with(&mut s, t.into(), None, &cfg, ts).unwrap();
    }
    let texts: Vec<&str> = s.rows.iter().map(|r| r.text.as_str()).collect();
    assert_eq!(texts, vec!["two", "three"]);
}

#[test]
fn a_takeover_leaves_the_current_item_in_place() {
    let mut s = Store::new();
    let cfg = Config { max_items: 2, ..Config::default() };
    insert_with(&mut s, "mine".into(), None, &cfg, 1).unwrap();
    let entries: Vec<Decoded> =
        (0..3).map(|i| Decoded { content: format!("taken {i}"), ts: 10 + i }).collect();
    assert_eq!(migrate_from_cliphist(&mut s, &entries, &cfg), Ok(3));
    let texts: Vec<&str> = s.rows.iter().map(|r| r.text.as_str()).collect();
    assert_eq!(texts, vec!["mine", "taken 2"]);
    assert_eq!(current_hash(&s), Some(hash_text("mine")));
}
