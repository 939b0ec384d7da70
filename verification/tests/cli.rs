//! Reports and notices.

use niri_clip::backup::{ExportOutcome, ImportOutcome};
use niri_clip::cli::{
    copy_report, date_at, date_or_number, delete_report, export_report, fmt_date, freed, images_percent,
    import_report, migrate_report, pin_report, prune_report, recent_lines, reclaimed,
    settings_lines, stats_lines, vacuum_report, DELETE_PENDING, FIRST_DATED_MS, LAST_DATED_MS,
};
use niri_clip::config::Config;
use niri_clip::confirm::Decision;
use niri_clip::notify::send;
use niri_clip::store::{Clip, PruneOutcome, StoreStats};

#[test]
fn send_is_safe_without_notification_daemon() {
    let v = send("niri-clip notify helper 测试");
    assert_eq!(
        v,
        vec![
            "timeout",
            "5s",
            "notify-send",
            "--app-name=niri-clip",
            "niri-clip",
            "niri-clip notify helper 测试"
        ]
    );
}

#[test]
fn reports_of_single_entries() {
    assert_eq!(pin_report(3, true), "已固定 3");
    assert_eq!(pin_report(3, false), "已取消固定 3");
    assert_eq!(copy_report(-4), "copied -4");
    assert_eq!(delete_report(Decision::Deleted, 5, true).as_deref(), Some("deleted 5"));
    assert_eq!(delete_report(Decision::Pending, 5, false).as_deref(), Some(DELETE_PENDING));
    assert_eq!(delete_report(Decision::Pending, 5, true), None);
}

#[test]
fn the_share_of_images_is_rounded_down() {
    assert_eq!(images_percent(0, 0), 0);
    assert_eq!(images_percent(2, 1), 33);
    assert_eq!(images_percent(0, 9), 100);
    assert_eq!(images_percent(u64::MAX, u64::MAX), 50);
}

#[test]
fn statistics_in_lines() {
    let s = StoreStats {
        total: 7,
        pinned: 2,
        image_entries: 1,
        text_bytes: 0,
        db_bytes: 3,
        images_disk_bytes: 1,
        oldest_ts: Some(1),
        newest_ts: Some(2),
    };
    let day = |d: &str| Some(d.to_string());
    let v = stats_lines(&s, "3 B", "1 B", "4 B", &day("2026-01-01"), &day("2026-02-02"));
    assert_eq!(
        v,
        vec![
            "条目 7（星标 2，图片 1）",
            "库 3 B + 图片 1 B = 4 B（图片占 25%）",
            "最旧 2026-01-01 · 最新 2026-02-02"
        ]
    );
    assert_eq!(stats_lines(&s, "", "", "", &None, &None)[2], "库为空");
}

#[test]
fn reports_of_maintenance() {
    let o = PruneOutcome { deleted: 4, images_deleted: 1, freed_bytes: -1 };
    assert_eq!(freed(&o), 0);
    assert_eq!(freed(&PruneOutcome { freed_bytes: 9, ..o }), 9);
    assert_eq!(
        prune_report(&o, true, "9 B"),
        "dry-run: 将删除 4 条（图片 1，载荷约 9 B）；实际执行请去掉 --dry-run"
    );
    assert_eq!(
        prune_report(&o, false, "9 B"),
        "已删除 4 条（图片 1，回收载荷 9 B）；库文件体积回落请再执行 niri-clip vacuum"
    );
    assert_eq!((reclaimed(9, 4), reclaimed(4, 9)), (5, 0));
    assert_eq!(vacuum_report("9 B", "4 B", "5 B"), "vacuum: 9 B -> 4 B（回收 5 B）");
    assert_eq!(migrate_report(12), "migrated 12 items from cliphist");
}

#[test]
fn reports_of_backups() {
    let e = ExportOutcome { count: 3, images: 1, image_bytes: 10 };
    assert_eq!(export_report(&e, "10 B", "stdout"), "已导出 3 条（图片 1，图片载荷 10 B）→ stdout");
    let i = ImportOutcome { imported: 2, exists: 1, invalid: 3 };
    assert_eq!(import_report(&i, false), "已导入 2 条（已存在 1，无效 3）");
    assert_eq!(
        import_report(&i, true),
        "dry-run: 将导入 2 条（已存在 1，无效 3）；实际执行请去掉 --dry-run"
    );
}

#[test]
fn the_status_lists_settings_and_entries() {
    let v = settings_lines(&Config::default());
    assert_eq!(v[0], "  条目上限 max_items=750");
    assert_eq!(v[2], "  预览 enable_preview=true · 图片捕获 enable_image_preview=false");
    assert_eq!(
        v[4],
        "  体积上限 max_clip_bytes=1048576 max_image_bytes=10485760 max_image_total_bytes=209715200"
    );
    let c = Clip {
        id: 8,
        hash: String::new(),
        text: "a\nb".into(),
        mime: "text/plain".into(),
        pinned: true,
        image_path: None,
    };
    let plain = Clip { id: 9, pinned: false, ..c.clone() };
    let lines = recent_lines(&vec![c, plain]);
    assert_eq!(lines, vec!["recent 2 clips:", "  ★ 8 a ↵ b", "    9 a ↵ b"]);
}

#[test]
fn dates_are_those_of_the_machine() {
    for ms in [0, 1_700_000_000_000, -1, FIRST_DATED_MS, LAST_DATED_MS] {
        let t = chrono::DateTime::from_timestamp_millis(ms).unwrap();
        let here = t.with_timezone(&chrono::Local);
        assert_eq!(fmt_date(ms), here.format("%Y-%m-%d").to_string());
    }
    assert_eq!(chrono::DateTime::<chrono::Utc>::MIN_UTC.timestamp_millis(), FIRST_DATED_MS);
    assert_eq!(chrono::DateTime::<chrono::Utc>::MAX_UTC.timestamp_millis(), LAST_DATED_MS);
    assert_eq!(fmt_date(LAST_DATED_MS + 1), "8210266876800000");
    assert_eq!(fmt_date(i64::MIN), "-9223372036854775808");
    assert_eq!(date_or_number(Some("2024-02-29".into()), 7), "2024-02-29");
    assert_eq!(date_or_number(None, 7), "7");
}

#[test]
fn dates_go_by_the_offset_of_the_zone() {
    // Half an hour before midnight in Greenwich.
    let ms = 1_709_249_400_000;
    assert_eq!(date_at(ms, 0), "2024-02-29");
    assert_eq!(date_at(ms, 8 * 3600), "2024-03-01");
    assert_eq!(date_at(ms, -12 * 3600), "2024-02-29");
    assert_eq!(date_at(-1, 0), "1969-12-31");
    assert_eq!(date_at(0, 86_400), "0");
    assert_eq!(date_at(LAST_DATED_MS, 0), "+262142-12-31");
    assert_eq!(date_at(FIRST_DATED_MS, 0), "-262143-01-01");
    assert_eq!(date_at(LAST_DATED_MS + 1, 0), "8210266876800000");
}
