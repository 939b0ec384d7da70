//! What the commands report. Sizes come as texts, in the form in which they are
//! printed.

use crate::backup::{ExportOutcome, ImportOutcome};
use crate::config::Config;
use crate::confirm::Decision;
use crate::preview;
use crate::store;
use crate::store::transfer::DATE_FORMAT;
use crate::store::{Clip, ClipView, PruneOutcome, StoreStats};
use crate::text;
use vstd::prelude::*;

verus! {

/// The characters of an entry that the status shows.
pub const STATUS_WIDTH: usize = 60;

/// How many entries the status shows.
pub const STATUS_CLIPS: usize = 5;

/// The report of a deletion that must be asked for once more.
pub const DELETE_PENDING: &'static str =
    "pending: ★ 条目需二次确认，15 秒内再次执行同一命令即删除（或加 --force）";

/// The report of a change of the pin, which is a notice too.
pub fn pin_report(id: i64, pinned: bool) -> (r: String)
    ensures
        r@ == (if pinned {
            "已固定 "@
        } else {
            "已取消固定 "@
        }) + text::dec_int(id as int),
{
    let mut r = if pinned {
        "已固定 ".to_owned()
    } else {
        "已取消固定 ".to_owned()
    };
    text::push_i64(&mut r, id);
    r
}

/// The report of a copy.
pub fn copy_report(id: i64) -> (r: String)
    ensures
        r@ == "copied "@ + text::dec_int(id as int),
{
    let mut r = "copied ".to_owned();
    text::push_i64(&mut r, id);
    r
}

/// The report of a request to delete. In `fzf` a pending deletion shows in the
/// rows, and nothing is reported.
pub fn delete_report(decision: Decision, id: i64, in_fzf: bool) -> (r: Option<String>)
    ensures
        store::opt_text(r) == match decision {
            Decision::Deleted => Some("deleted "@ + text::dec_int(id as int)),
            Decision::Pending => if in_fzf {
                None
            } else {
                Some(DELETE_PENDING@)
            },
        },
{
    match decision {
        Decision::Deleted => {
            let mut r = "deleted ".to_owned();
            text::push_i64(&mut r, id);
            Some(r)
        },
        Decision::Pending => if in_fzf {
            None
        } else {
            Some(DELETE_PENDING.to_owned())
        },
    }
}

/// The part that images take of the disk space, in whole per cent.
pub open spec fn percent_of(db_bytes: nat, images_bytes: nat) -> nat {
    if db_bytes + images_bytes == 0 {
        0
    } else {
        (images_bytes * 100) / (db_bytes + images_bytes)
    }
}

/// The part of the disk space that images take, in whole per cent, rounded down.
pub fn images_percent(db_bytes: u64, images_bytes: u64) -> (p: u64)
    ensures
        p == percent_of(db_bytes as nat, images_bytes as nat),
{
    let total: u128 = db_bytes as u128 + images_bytes as u128;
    if total == 0 {
        return 0;
    }
    let part: u128 = images_bytes as u128 * 100;
    let p: u128 = part / total;
    assert(p <= 100) by (nonlinear_arith)
        requires
            total > 0,
            p == part / total,
            part <= total * 100,
    ;
    p as u64
}

/// The first moment that has a date, in milliseconds since the epoch: the year
/// 262144 before our era begins.
pub const FIRST_DATED_MS: i64 = -8_334_601_228_800_000;

/// The last moment that has a date: the year 262142 ends.
pub const LAST_DATED_MS: i64 = 8_210_266_876_799_999;

/// Whether a character is a decimal digit.
pub open spec fn is_digit(c: char) -> bool {
    '0' <= c <= '9'
}

/// Whether a text is a year of four characters or more, a month and a day, two
/// digits each, with hyphens between them.
pub open spec fn is_date(d: Seq<char>) -> bool {
    let n = d.len() as int;
    &&& n >= 10
    &&& d[n - 6] == '-' && is_digit(d[n - 5]) && is_digit(d[n - 4])
    &&& d[n - 3] == '-' && is_digit(d[n - 2]) && is_digit(d[n - 1])
}

/// Whether a moment has a date.
pub open spec fn is_dated(ms: int) -> bool {
    FIRST_DATED_MS <= ms <= LAST_DATED_MS
}

/// Whether a time zone can be so many seconds ahead of Greenwich: less than a day
/// either way.
pub open spec fn is_offset(seconds: int) -> bool {
    -86_400 < seconds < 86_400
}

/// `DateTime::with_timezone` with `Local`, of what `DateTime::from_timestamp_millis`
/// makes of a moment: how many seconds the time zone of the machine is ahead of
/// Greenwich at that moment, `None` for a moment outside the range of the calendar.
/// The zone is taken to be less than a day off, as a `FixedOffset` has to be. Which
/// offset it is depends on the machine, and is left open.
#[verifier::external_body]
fn local_offset(ms: i64) -> (r: Option<i32>)
    ensures
        r is Some <==> is_dated(ms as int),
        r matches Some(o) ==> is_offset(o as int),
{
    let t = chrono::DateTime::from_timestamp_millis(ms)?;
    Some(t.with_timezone(&chrono::Local).offset().local_minus_utc())
}

/// What `DateTime::format` makes of a moment in a time zone that is so many seconds
/// ahead of Greenwich.
pub uninterp spec fn date_text(ms: int, offset: int, format: Seq<char>) -> Option<Seq<char>>;

/// `DateTime::from_timestamp_millis`, `DateTime::with_timezone` with
/// `FixedOffset::east_opt` and `DateTime::format`: the date is a function of the
/// moment, the offset and the format, named `date_text`. There is one for every
/// moment in the range of the calendar and every offset of less than a day, and it
/// has the shape of a date.
#[verifier::external_body]
fn format_date(ms: i64, offset: i32, format: &str) -> (r: Option<String>)
    requires
        format@ == DATE_FORMAT@,
    ensures
        match r {
            Some(d) => date_text(ms as int, offset as int, format@) == Some(d@),
            None => date_text(ms as int, offset as int, format@) is None,
        },
        r matches Some(d) ==> is_date(d@),
        r is Some <==> (is_dated(ms as int) && is_offset(offset as int)),
{
    let t = chrono::DateTime::from_timestamp_millis(ms)?;
    let zone = chrono::FixedOffset::east_opt(offset)?;
    Some(t.with_timezone(&zone).format(format).to_string())
}

/// The date of a moment, or the moment itself where it has none.
pub fn date_or_number(date: Option<String>, ms: i64) -> (r: String)
    ensures
        r@ == match date {
            Some(d) => d@,
            None => text::dec_int(ms as int),
        },
{
    match date {
        Some(d) => d,
        None => {
            let mut r = String::new();
            text::push_i64(&mut r, ms);
            assert(r@ =~= text::dec_int(ms as int));
            r
        },
    }
}

/// The date of a moment, in milliseconds since the epoch, in a time zone that is so
/// many seconds ahead of Greenwich; the moment itself where it has none.
pub fn date_at(ms: i64, offset: i32) -> (r: String)
    ensures
        match date_text(ms as int, offset as int, DATE_FORMAT@) {
            Some(d) => r@ == d && is_date(d),
            None => r@ == text::dec_int(ms as int),
        },
        date_text(ms as int, offset as int, DATE_FORMAT@) is Some <==> is_dated(ms as int)
            && is_offset(offset as int),
{
    date_or_number(format_date(ms, offset, DATE_FORMAT), ms)
}

/// The date of a moment, in milliseconds since the epoch, where the machine is: the
/// date under some offset that a time zone can have.
pub fn fmt_date(ms: i64) -> (r: String)
    ensures
        if is_dated(ms as int) {
            &&& is_date(r@)
            &&& exists|o: int|
                is_offset(o) && #[trigger] date_text(ms as int, o, DATE_FORMAT@) == Some(r@)
        } else {
            r@ == text::dec_int(ms as int)
        },
{
    match local_offset(ms) {
        Some(o) => date_at(ms, o),
        None => date_or_number(None, ms),
    }
}

/// The lines of the statistics.
pub fn stats_lines(
    s: &StoreStats,
    db: &str,
    images: &str,
    both: &str,
    oldest: &Option<String>,
    newest: &Option<String>,
) -> (v: Vec<String>)
    ensures
        text::texts(v@) == seq![
            "条目 "@ + text::dec_int(s.total as int) + "（星标 "@ + text::dec_int(s.pinned as int)
                + "，图片 "@ + text::dec_int(s.image_entries as int) + "）"@,
            "库 "@ + db@ + " + 图片 "@ + images@ + " = "@ + both@ + "（图片占 "@ + text::dec_nat(
                percent_of(s.db_bytes as nat, s.images_disk_bytes as nat),
            ) + "%）"@,
            match (store::opt_text(*oldest), store::opt_text(*newest)) {
                (Some(o), Some(n)) => "最旧 "@ + o + " · 最新 "@ + n,
                _ => "库为空"@,
            },
        ],
{
    let mut a = "条目 ".to_owned();
    text::push_i64(&mut a, s.total);
    a.append("（星标 ");
    text::push_i64(&mut a, s.pinned);
    a.append("，图片 ");
    text::push_i64(&mut a, s.image_entries);
    a.append("）");
    let mut b = "库 ".to_owned();
    b.append(db);
    b.append(" + 图片 ");
    b.append(images);
    b.append(" = ");
    b.append(both);
    b.append("（图片占 ");
    text::push_u64(&mut b, images_percent(s.db_bytes, s.images_disk_bytes));
    b.append("%）");
    let c = match (oldest, newest) {
        (Some(o), Some(n)) => {
            let mut c = "最旧 ".to_owned();
            c.append(o.as_str());
            c.append(" · 最新 ");
            c.append(n.as_str());
            c
        },
        _ => "库为空".to_owned(),
    };
    let mut v: Vec<String> = Vec::new();
    v.push(a);
    v.push(b);
    v.push(c);
    assert(text::texts(v@) =~= seq![a@, b@, c@]);
    v
}

/// How many bytes a compaction gave back.
pub fn reclaimed(before: u64, after: u64) -> (n: u64)
    ensures
        n == if before > after {
            before - after
        } else {
            0
        },
{
    if before > after {
        before - after
    } else {
        0
    }
}

/// The report of a compaction.
pub fn vacuum_report(before: &str, after: &str, gained: &str) -> (r: String)
    ensures
        r@ == "vacuum: "@ + before@ + " -> "@ + after@ + "（回收 "@ + gained@ + "）"@,
{
    let mut r = "vacuum: ".to_owned();
    r.append(before);
    r.append(" -> ");
    r.append(after);
    r.append("（回收 ");
    r.append(gained);
    r.append("）");
    r
}

/// The bytes that a removal of old entries reports: never less than none.
pub fn freed(o: &PruneOutcome) -> (n: u64)
    ensures
        n == if o.freed_bytes > 0 {
            o.freed_bytes as int
        } else {
            0
        },
{
    if o.freed_bytes > 0 {
        o.freed_bytes as u64
    } else {
        0
    }
}

/// The report of a removal of old entries.
pub fn prune_report(o: &PruneOutcome, dry_run: bool, size: &str) -> (r: String)
    ensures
        r@ == if dry_run {
            "dry-run: 将删除 "@ + text::dec_nat(o.deleted as nat) + " 条（图片 "@ + text::dec_nat(
                o.images_deleted as nat,
            ) + "，载荷约 "@ + size@ + "）；实际执行请去掉 --dry-run"@
        } else {
            "已删除 "@ + text::dec_nat(o.deleted as nat) + " 条（图片 "@ + text::dec_nat(
                o.images_deleted as nat,
            ) + "，回收载荷 "@ + size@
                + "）；库文件体积回落请再执行 niri-clip vacuum"@
        },
{
    let mut r = if dry_run {
        "dry-run: 将删除 ".to_owned()
    } else {
        "已删除 ".to_owned()
    };
    text::push_u64(&mut r, o.deleted as u64);
    r.append(" 条（图片 ");
    text::push_u64(&mut r, o.images_deleted as u64);
    if dry_run {
        r.append("，载荷约 ");
        r.append(size);
        r.append("）；实际执行请去掉 --dry-run");
    } else {
        r.append("，回收载荷 ");
        r.append(size);
        r.append("）；库文件体积回落请再执行 niri-clip vacuum");
    }
    r
}

/// The report of an export.
pub fn export_report(o: &ExportOutcome, size: &str, to: &str) -> (r: String)
    ensures
        r@ == "已导出 "@ + text::dec_nat(o.count as nat) + " 条（图片 "@ + text::dec_nat(
            o.images as nat,
        ) + "，图片载荷 "@ + size@ + "）→ "@ + to@,
{
    let mut r = "已导出 ".to_owned();
    text::push_u64(&mut r, o.count as u64);
    r.append(" 条（图片 ");
    text::push_u64(&mut r, o.images as u64);
    r.append("，图片载荷 ");
    r.append(size);
    r.append("）→ ");
    r.append(to);
    r
}

/// The report of an import.
pub fn import_report(o: &ImportOutcome, dry_run: bool) -> (r: String)
    ensures
        r@ == (if dry_run {
            "dry-run: 将导入 "@
        } else {
            "已导入 "@
        }) + text::dec_nat(o.imported as nat) + " 条（已存在 "@ + text::dec_nat(o.exists as nat)
            + "，无效 "@ + text::dec_nat(o.invalid as nat) + (if dry_run {
            "）；实际执行请去掉 --dry-run"@
        } else {
            "）"@
        }),
{
    let mut r = if dry_run {
        "dry-run: 将导入 ".to_owned()
    } else {
        "已导入 ".to_owned()
    };
    text::push_u64(&mut r, o.imported as u64);
    r.append(" 条（已存在 ");
    text::push_u64(&mut r, o.exists as u64);
    r.append("，无效 ");
    text::push_u64(&mut r, o.invalid as u64);
    if dry_run {
        r.append("）；实际执行请去掉 --dry-run");
    } else {
        r.append("）");
    }
    r
}

/// The report of a migration from `cliphist`.
pub fn migrate_report(n: usize) -> (r: String)
    ensures
        r@ == "migrated "@ + text::dec_nat(n as nat) + " items from cliphist"@,
{
    let mut r = "migrated ".to_owned();
    text::push_u64(&mut r, n as u64);
    r.append(" items from cliphist");
    r
}

/// A truth value in words.
pub open spec fn bool_word(b: bool) -> Seq<char> {
    if b {
        "true"@
    } else {
        "false"@
    }
}

fn push_bool(r: &mut String, b: bool)
    ensures
        final(r)@ == old(r)@ + bool_word(b),
{
    if b {
        r.append("true");
    } else {
        r.append("false");
    }
}

/// The settings that the status shows.
pub fn settings_lines(cfg: &Config) -> (v: Vec<String>)
    ensures
        text::texts(v@) == seq![
            "  条目上限 max_items="@ + text::dec_nat(cfg.max_items as nat),
            "  后端 tui_backend="@ + cfg.tui_backend@,
            "  预览 enable_preview="@ + bool_word(cfg.enable_preview)
                + " · 图片捕获 enable_image_preview="@ + bool_word(cfg.enable_image_preview),
            "  通知 notify_enabled="@ + bool_word(cfg.notify_enabled),
            "  体积上限 max_clip_bytes="@ + text::dec_nat(cfg.max_clip_bytes as nat)
                + " max_image_bytes="@ + text::dec_nat(cfg.max_image_bytes as nat)
                + " max_image_total_bytes="@ + text::dec_nat(cfg.max_image_total_bytes as nat),
        ],
{
    let mut a = "  条目上限 max_items=".to_owned();
    text::push_u64(&mut a, cfg.max_items as u64);
    let mut b = "  后端 tui_backend=".to_owned();
    b.append(cfg.tui_backend.as_str());
    let mut c = "  预览 enable_preview=".to_owned();
    push_bool(&mut c, cfg.enable_preview);
    c.append(" · 图片捕获 enable_image_preview=");
    push_bool(&mut c, cfg.enable_image_preview);
    let mut d = "  通知 notify_enabled=".to_owned();
    push_bool(&mut d, cfg.notify_enabled);
    let mut e = "  体积上限 max_clip_bytes=".to_owned();
    text::push_u64(&mut e, cfg.max_clip_bytes as u64);
    e.append(" max_image_bytes=");
    text::push_u64(&mut e, cfg.max_image_bytes as u64);
    e.append(" max_image_total_bytes=");
    text::push_u64(&mut e, cfg.max_image_total_bytes as u64);
    let mut v: Vec<String> = Vec::new();
    v.push(a);
    v.push(b);
    v.push(c);
    v.push(d);
    v.push(e);
    assert(text::texts(v@) =~= seq![a@, b@, c@, d@, e@]);
    v
}

/// An entry in the status.
pub open spec fn clip_line(c: ClipView) -> Seq<char> {
    "  "@ + (if c.pinned {
        "★ "@
    } else {
        "  "@
    }) + text::dec_int(c.id) + " "@ + preview::one_line(c.text, STATUS_WIDTH as nat)
}

/// The entries that the status shows, below their number.
pub fn recent_lines(clips: &Vec<Clip>) -> (v: Vec<String>)
    ensures
        text::texts(v@) == seq![
            "recent "@ + text::dec_nat(clips.len() as nat) + " clips:"@,
        ] + store::clips_view(clips@).map_values(|c: ClipView| clip_line(c)),
{
    let ghost lines = store::clips_view(clips@).map_values(|c: ClipView| clip_line(c));
    let mut first = "recent ".to_owned();
    text::push_u64(&mut first, clips.len() as u64);
    first.append(" clips:");
    let ghost top = first@;
    let mut v: Vec<String> = Vec::new();
    v.push(first);
    assert(text::texts(v@) =~= seq![top] + lines.take(0));
    let mut i: usize = 0;
    while i < clips.len()
        invariant
            i <= clips.len(),
            lines == store::clips_view(clips@).map_values(|c: ClipView| clip_line(c)),
            text::texts(v@) == seq![top] + lines.take(i as int),
        decreases clips.len() - i,
    {
        let c = &clips[i];
        let mut line = "  ".to_owned();
        if c.pinned {
            line.append("★ ");
        } else {
            line.append("  ");
        }
        text::push_i64(&mut line, c.id);
        line.append(" ");
        line.append(preview::preview_text(c, STATUS_WIDTH).as_str());
        proof {
            assert(store::clips_view(clips@)[i as int] == c@);
            assert(lines[i as int] == line@);
            text::lemma_texts_push(v@, line);
            assert(seq![top] + lines.take(i + 1) =~= (seq![top] + lines.take(i as int)).push(
                line@,
            ));
        }
        v.push(line);
        i += 1;
    }
    assert(lines.take(clips.len() as int) =~= lines);
    v
}

/// The share of the images is a percentage, rounded down.
pub proof fn law_percentage(db_bytes: nat, images_bytes: nat)
    ensures
        ({
            let p = percent_of(db_bytes, images_bytes);
            let all = db_bytes + images_bytes;
            &&& p <= 100
            &&& all > 0 ==> p * all <= images_bytes * 100 < (p + 1) * all
            &&& images_bytes == 0 ==> p == 0
        }),
{
    let all = db_bytes + images_bytes;
    let p = percent_of(db_bytes, images_bytes);
    if all > 0 {
        let x = images_bytes * 100;
        vstd::arithmetic::div_mod::lemma_fundamental_div_mod(x as int, all as int);
        assert(p * all <= x < (p + 1) * all) by (nonlinear_arith)
            requires
                x == all * (x / all) + x % all,
                0 <= x % all < all,
                p == x / all,
        ;
        assert(p <= 100) by (nonlinear_arith)
            requires
                p * all <= images_bytes * 100,
                images_bytes <= all,
                all > 0,
        ;
        if images_bytes == 0 {
            assert(p == 0) by (nonlinear_arith)
                requires
                    p * all <= 0,
                    all > 0,
            ;
        }
    }
}

/// The line of an entry in the status ends with its preview, and tells a pinned one by a
/// star.
pub proof fn law_status_line_shows_the_entry(c: ClipView)
    ensures
        ({
            let l = clip_line(c);
            let o = preview::one_line(c.text, 60);
            &&& l.len() > o.len()
            &&& l.skip(l.len() - o.len()) == o
            &&& l[2] == '★' <==> c.pinned
        }),
{
    reveal_strlit("  ");
    reveal_strlit("★ ");
    reveal_strlit(" ");
    let l = clip_line(c);
    let o = preview::one_line(c.text, 60);
    assert(l.skip(l.len() - o.len()) == o);
}

} // verus!
