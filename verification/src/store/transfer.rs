//! Entries on their way out and in: copying one to the clipboard, taking over
//! the history of another manager, and the dates that limit a pruning.

use super::capture;
use super::query;
use super::{ClipView, Store, StoreError, StoreView};
use crate::config::Config;
use crate::store;
use crate::text;
use chrono::NaiveDate;
use chrono::TimeZone;
use vstd::prelude::*;

verus! {

/// How an entry is handed to `wl-copy`.
#[derive(Debug, Clone)]
pub enum CopyJob {
    /// The text goes through standard input.
    Text { text: String, hash: String },
    /// The data file becomes standard input, under this type argument.
    Image { type_arg: String, path: String, hash: String },
}

/// Whether an entry is an image.
pub open spec fn is_image(mime: Seq<char>) -> bool {
    text::has_prefix(mime, "image/"@)
}

/// How an entry is handed over. The text of an image entry only stands for the
/// image and is never copied in its place.
pub open spec fn is_copy_job(c: ClipView, j: CopyJob) -> bool {
    match j {
        CopyJob::Text { text, hash } => !is_image(c.mime) && text@ == c.text && hash@ == c.hash,
        CopyJob::Image { type_arg, path, hash } => {
            &&& is_image(c.mime)
            &&& type_arg@ == "--type="@ + c.mime
            &&& c.image_path == Some(path@)
            &&& hash@ == c.hash
        },
    }
}

/// How the entry with the given id is handed to `wl-copy`. Once that has
/// happened, the entry with this hash is the current item.
pub fn copy_to_clipboard(s: &Store, id: i64) -> (r: Result<CopyJob, StoreError>)
    requires
        s.wf(),
    ensures
        ({
            let rows = s@.rows;
            let c = query::clip_at(rows, id as int);
            match r {
                Ok(j) => store::has_id(rows, id as int) && is_copy_job(c, j),
                Err(e) => if store::has_id(rows, id as int) {
                    is_image(c.mime) && c.image_path is None && e == StoreError::NoImageFile
                } else {
                    e == StoreError::NotFound
                },
            }
        }),
{
    let c = query::get(s, id)?;
    if text::starts_with(c.mime.as_str(), "image/") {
        match c.image_path {
            Some(path) => {
                let mut type_arg = "--type=".to_owned();
                type_arg.append(c.mime.as_str());
                Ok(CopyJob::Image { type_arg, path, hash: c.hash })
            },
            None => Err(StoreError::NoImageFile),
        }
    } else {
        Ok(CopyJob::Text { text: c.text, hash: c.hash })
    }
}

/// An entry of another manager's list: its id there and its preview.
#[derive(Debug, Clone)]
pub struct Listed {
    pub id: i64,
    pub preview: String,
}

/// The contents of a listed entry.
pub struct ListedView {
    pub id: int,
    pub preview: Seq<char>,
}

impl View for Listed {
    type V = ListedView;

    open spec fn view(&self) -> ListedView {
        ListedView { id: self.id as int, preview: self.preview@ }
    }
}

/// The contents of a list of entries.
pub open spec fn listed_views(s: Seq<Listed>) -> Seq<ListedView> {
    s.map_values(|l: Listed| l@)
}

/// The entry of a line of the list: an id, a tab and a preview.
pub open spec fn listed_line(line: Seq<char>) -> Option<ListedView> {
    let n = text::first_index(line, '\t');
    if n >= line.len() {
        None
    } else {
        match text::within(
            text::int_literal(line.take(n as int)),
            i64::MIN as int,
            i64::MAX as int,
        ) {
            Some(id) => Some(ListedView { id, preview: line.skip(n as int + 1) }),
            None => None,
        }
    }
}

/// The entries of a list.
pub open spec fn listed_lines(lines: Seq<Seq<char>>) -> Seq<ListedView>
    decreases lines.len(),
{
    if lines.len() == 0 {
        Seq::empty()
    } else {
        let front = listed_lines(lines.drop_last());
        match listed_line(lines.last()) {
            Some(l) => front.push(l),
            None => front,
        }
    }
}

fn read_line(line: &str) -> (r: Option<Listed>)
    ensures
        match r {
            Some(l) => listed_line(line@) == Some(l@),
            None => listed_line(line@) is None,
        },
{
    let v = text::chars_of(line);
    assert(v@.skip(0) == v@);
    let n: usize = text::find_char(&v, 0, '\t');
    if n == v.len() {
        return None;
    }
    assert(v@.take(n as int) == v@.subrange(0, n as int));
    assert(v@.skip(n + 1) == v@.subrange(n + 1, v.len() as int));
    match text::parse_i64(text::str_of(&v, 0, n).as_str()) {
        Some(id) => Some(Listed { id, preview: text::str_of(&v, n + 1, v.len()) }),
        None => None,
    }
}

/// The entries in the output of `cliphist list`. Lines that are none are
/// skipped.
pub fn cliphist_entries(listing: &str) -> (r: Vec<Listed>)
    ensures
        listed_views(r@) == listed_lines(text::lines_of(listing@)),
{
    let lines = text::lines(listing);
    let ghost all = text::texts(lines@);
    let mut r: Vec<Listed> = Vec::new();
    let mut i: usize = 0;
    assert(listed_views(r@) == listed_lines(all.take(0)));
    while i < lines.len()
        invariant
            i <= lines.len(),
            all == text::texts(lines@),
            listed_views(r@) == listed_lines(all.take(i as int)),
        decreases lines.len() - i,
    {
        proof {
            assert(all.take(i + 1).drop_last() == all.take(i as int));
            assert(all.take(i + 1).last() == lines@[i as int]@);
        }
        if let Some(l) = read_line(lines[i].as_str()) {
            let ghost r0 = r@;
            r.push(l);
            assert(listed_views(r@) == listed_views(r0).push(l@));
        }
        i += 1;
    }
    assert(all.take(lines.len() as int) == all);
    r
}

/// A decoded entry of another manager and the time at which it is taken over.
#[derive(Debug, Clone)]
pub struct Decoded {
    pub content: String,
    pub ts: i64,
}

/// The history after the given entries were taken in one after another, up to
/// the first that fails.
pub open spec fn after_all(s: StoreView, entries: Seq<Decoded>, cfg: Config) -> StoreView
    decreases entries.len(),
{
    if entries.len() == 0 {
        s
    } else {
        let e = entries.last();
        let t = after_all(s, entries.drop_last(), cfg);
        if failed(s, entries.drop_last(), cfg) {
            t
        } else {
            capture::after_text_in(t, e.content@, "text/plain"@, cfg, e.ts as int)
        }
    }
}

/// Whether taking in the entries one after another fails at one of them.
pub open spec fn failed(s: StoreView, entries: Seq<Decoded>, cfg: Config) -> bool
    decreases entries.len(),
{
    if entries.len() == 0 {
        false
    } else {
        failed(s, entries.drop_last(), cfg) || capture::text_result(
            after_all(s, entries.drop_last(), cfg),
            entries.last().content@,
            cfg,
        ) is Err
    }
}

/// How many of the entries became rows.
pub open spec fn taken_over(s: StoreView, entries: Seq<Decoded>, cfg: Config) -> nat
    decreases entries.len(),
{
    if entries.len() == 0 {
        0
    } else {
        let front = taken_over(s, entries.drop_last(), cfg);
        if capture::text_result(
            after_all(s, entries.drop_last(), cfg),
            entries.last().content@,
            cfg,
        ) == Ok::<bool, StoreError>(true) {
            front + 1
        } else {
            front
        }
    }
}

/// Takes over the history of another manager. The clipboard has not changed, so
/// the current item is as before, and stays in the history. Returns how many
/// entries were added.
pub fn migrate_from_cliphist(s: &mut Store, entries: &Vec<Decoded>, cfg: &Config) -> (r: Result<
    usize,
    StoreError,
>)
    requires
        old(s).wf(),
    ensures
        final(s).wf(),
        match r {
            Ok(n) => {
                &&& !failed(old(s)@, entries@, *cfg)
                &&& n == taken_over(old(s)@, entries@, *cfg)
            },
            Err(e) => {
                &&& failed(old(s)@, entries@, *cfg)
                &&& e == StoreError::Full
            },
        },
        final(s)@ == after_all(old(s)@, entries@, *cfg),
        final(s)@.current == old(s)@.current,
        store::holds_current(old(s)@) ==> store::holds_current(final(s)@),
{
    let ghost before = s@;
    let mut n: usize = 0;
    let mut i: usize = 0;
    assert(entries@.take(0).len() == 0);
    while i < entries.len()
        invariant
            i <= entries.len(),
            n <= i,
            s.wf(),
            before == old(s)@,
            !failed(before, entries@.take(i as int), *cfg),
            n == taken_over(before, entries@.take(i as int), *cfg),
            s@ == after_all(before, entries@.take(i as int), *cfg),
            s@.current == before.current,
            store::holds_current(before) ==> store::holds_current(s@),
        decreases entries.len() - i,
    {
        assert(entries@.take(i + 1).drop_last() == entries@.take(i as int));
        match capture::take_in(s, entries[i].content.as_str(), cfg, entries[i].ts) {
            Ok(true) => {
                n += 1;
            },
            Ok(false) => {},
            Err(e) => {
                proof {
                    lemma_failed_stays(before, entries@, *cfg, i + 1);
                }
                return Err(e);
            },
        }
        i += 1;
    }
    assert(entries@.take(entries.len() as int) == entries@);
    Ok(n)
}

proof fn lemma_failed_stays(s: StoreView, entries: Seq<Decoded>, cfg: Config, n: int)
    requires
        0 <= n <= entries.len(),
        failed(s, entries.take(n), cfg),
    ensures
        failed(s, entries, cfg),
        after_all(s, entries, cfg) == after_all(s, entries.take(n), cfg),
    decreases entries.len(),
{
    if n == entries.len() {
        assert(entries.take(n) == entries);
    } else {
        assert(entries.drop_last().take(n) == entries.take(n));
        lemma_failed_stays(s, entries.drop_last(), cfg, n);
    }
}

/// The day that `NaiveDate::parse_from_str` makes of a text under a format,
/// counted from the first of January 1970.
pub uninterp spec fn date_of(date: Seq<char>, format: Seq<char>) -> Option<int>;

/// `NaiveDate::parse_from_str` with the error dropped, and
/// `NaiveDate::to_epoch_days`: the day is a function of the text and the format,
/// named `date_of`.
#[verifier::external_body]
fn parse_date(date: &str, format: &str) -> (r: Option<i32>)
    ensures
        match r {
            Some(day) => date_of(date@, format@) == Some(day as int),
            None => date_of(date@, format@) is None,
        },
{
    NaiveDate::parse_from_str(date, format).ok().map(|d| d.to_epoch_days())
}

/// Milliseconds of a day.
pub const DAY_MS: i64 = 86_400_000;

/// `TimeZone::from_local_datetime` of `Local` at the start of the given day,
/// counted from the first of January 1970, in milliseconds since the epoch:
/// `None` where not exactly one moment has that local time. Which moment it is
/// depends on the time zone of the machine and is left open, but no offset of a
/// time zone reaches a whole day.
#[verifier::external_body]
fn local_midnight(day: i32) -> (r: Option<i64>)
    ensures
        r matches Some(ms) ==> (day - 1) * DAY_MS < ms < (day + 1) * DAY_MS,
{
    let midnight = NaiveDate::from_epoch_days(day)?.and_time(chrono::NaiveTime::MIN);
    chrono::Local.from_local_datetime(&midnight).single().map(|t| t.timestamp_millis())
}

/// Why a date is no limit for a pruning.
#[derive(Debug, Clone, Copy, PartialEq, Eq, Structural)]
pub enum DateError {
    /// Not a date in the form `YYYY-MM-DD`.
    Format,
    /// That day has no start, or two, in the local time zone.
    Ambiguous,
}

/// The format of the dates that limit a pruning.
pub const DATE_FORMAT: &'static str = "%Y-%m-%d";

/// The moment at which a day starts, given what the time zone says of it.
pub fn day_start(midnight: Option<i64>) -> (r: Result<i64, DateError>)
    ensures
        match midnight {
            Some(ms) => r == Ok::<i64, DateError>(ms),
            None => r == Err::<i64, DateError>(DateError::Ambiguous),
        },
{
    match midnight {
        Some(ms) => Ok(ms),
        None => Err(DateError::Ambiguous),
    }
}

/// The start of a day in the local time zone, in milliseconds since the epoch.
/// It lies less than a day from where the day starts at Greenwich.
pub fn parse_local_date_ms(date: &str) -> (r: Result<i64, DateError>)
    ensures
        r == Err::<i64, DateError>(DateError::Format) <==> date_of(
            text::trimmed(date@),
            DATE_FORMAT@,
        ) is None,
        r matches Ok(ms) ==> {
            let day = date_of(text::trimmed(date@), DATE_FORMAT@)->0;
            (day - 1) * DAY_MS < ms < (day + 1) * DAY_MS
        },
{
    match parse_date(text::trim(date).as_str(), DATE_FORMAT) {
        Some(d) => day_start(local_midnight(d)),
        None => Err(DateError::Format),
    }
}

} // verus!
