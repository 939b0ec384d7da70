//! Changing and measuring the history: deletion, pins, pruning, statistics.

use super::capture;
use super::query;
use super::{Row, RowView, Store, StoreError, StoreView};
use crate::store;
use crate::text;
use vstd::prelude::*;

verus! {

/// The rows without the one that has the given id.
pub open spec fn without_id(rows: Seq<RowView>, id: int) -> Seq<RowView> {
    if store::has_id(rows, id) {
        rows.remove(store::id_index(rows, id))
    } else {
        rows
    }
}

/// Deletes the entry with the given id, if there is one. Returns its data file,
/// which is to be removed too.
pub fn delete(s: &mut Store, id: i64) -> (file: Option<String>)
    requires
        old(s).wf(),
    ensures
        final(s).wf(),
        final(s)@ == (StoreView { rows: without_id(old(s)@.rows, id as int), ..old(s)@ }),
        store::opt_text(file) == if store::has_id(old(s)@.rows, id as int) {
            old(s)@.rows[store::id_index(old(s)@.rows, id as int)].image_path
        } else {
            None
        },
{
    match store::find_id(&s.rows, id) {
        Some(i) => {
            let ghost before = s@;
            proof {
                assert(before.rows[i as int] == s.rows@[i as int]@);
                query::lemma_id_unique(before.rows, id as int, i as int);
                super::evict::lemma_remove_valid(before, i as int);
            }
            let row = s.rows.remove(i);
            assert(s@.rows == before.rows.remove(i as int));
            row.image_path
        },
        None => None,
    }
}

/// Deletes every entry. No file under the image directory has an owner then.
pub fn wipe(s: &mut Store)
    requires
        old(s).wf(),
    ensures
        final(s).wf(),
        final(s)@ == (StoreView { rows: Seq::empty(), ..old(s)@ }),
{
    s.rows.clear();
    assert(s@.rows == Seq::<RowView>::empty());
}

/// The rows after the pin of the one at `i` was turned over.
pub open spec fn pin_turned(rows: Seq<RowView>, i: int) -> Seq<RowView> {
    rows.update(i, RowView { pinned: !rows[i].pinned, ..rows[i] })
}

/// Pins an entry, or unpins a pinned one. Returns whether it is pinned now.
pub fn toggle_pin(s: &mut Store, id: i64) -> (r: Result<bool, StoreError>)
    requires
        old(s).wf(),
    ensures
        final(s).wf(),
        ({
            let rows = old(s)@.rows;
            let i = store::id_index(rows, id as int);
            if store::has_id(rows, id as int) {
                &&& r == Ok::<bool, StoreError>(!rows[i].pinned)
                &&& final(s)@ == (StoreView { rows: pin_turned(rows, i), ..old(s)@ })
            } else {
                r == Err::<bool, StoreError>(StoreError::NotFound) && final(s)@ == old(s)@
            }
        }),
{
    match store::find_id(&s.rows, id) {
        Some(i) => {
            let ghost before = s@;
            proof {
                assert(before.rows[i as int] == s.rows@[i as int]@);
                query::lemma_id_unique(before.rows, id as int, i as int);
                lemma_pin_turned_valid(before, i as int);
            }
            let mut row = s.rows[i].copy();
            let pinned = !row.pinned;
            row.pinned = pinned;
            s.rows.set(i, row);
            assert(s@.rows == pin_turned(before.rows, i as int));
            Ok(pinned)
        },
        None => Err(StoreError::NotFound),
    }
}

/// A history stays one when a pin is turned over.
pub proof fn lemma_pin_turned_valid(s: StoreView, i: int)
    requires
        s.valid(),
        0 <= i < s.rows.len(),
    ensures
        (StoreView { rows: pin_turned(s.rows, i), ..s }).valid(),
{
    let t = pin_turned(s.rows, i);
    assert forall|a: int| 0 <= a < t.len() implies store::row_valid(#[trigger] t[a], s.last_id) by {
        assert(store::row_valid(s.rows[a], s.last_id));
    }
    assert forall|a: int, b: int| 0 <= a < b < t.len() implies (#[trigger] t[a]).id < (
    #[trigger] t[b]).id && t[a].hash != t[b].hash by {
        assert(s.rows[a].id < s.rows[b].id);
    }
}

/// What a pruning removed, or would remove.
#[derive(Debug, Clone, Copy)]
pub struct PruneOutcome {
    pub deleted: usize,
    pub images_deleted: usize,
    /// The bytes of the contents, not of the database file.
    pub freed_bytes: i64,
}

/// The rows that a pruning removes: older than the cutoff, neither pinned nor
/// the current item.
pub open spec fn prunable(cutoff_ms: int, cur: Seq<char>) -> spec_fn(RowView) -> bool {
    |r: RowView| r.ts < cutoff_ms && !r.pinned && r.hash != cur
}

/// The other rows.
pub open spec fn not_prunable(cutoff_ms: int, cur: Seq<char>) -> spec_fn(RowView) -> bool {
    |r: RowView| !(r.ts < cutoff_ms && !r.pinned && r.hash != cur)
}

/// The rows with a data file.
pub open spec fn has_image() -> spec_fn(RowView) -> bool {
    |r: RowView| r.image_path is Some
}

/// The rows without a data file.
pub open spec fn no_image() -> spec_fn(RowView) -> bool {
    |r: RowView| r.image_path is None
}

/// The pinned rows.
pub open spec fn is_pin() -> spec_fn(RowView) -> bool {
    |r: RowView| r.pinned
}

/// The sizes of the rows together.
pub open spec fn total_size(rows: Seq<RowView>) -> int
    decreases rows.len(),
{
    if rows.len() == 0 {
        0
    } else {
        total_size(rows.drop_last()) + rows.last().size
    }
}

/// Some of a history's rows, in their order, form a history too.
pub proof fn lemma_filter_valid(s: StoreView, p: spec_fn(RowView) -> bool)
    requires
        s.valid(),
    ensures
        (StoreView { rows: s.rows.filter(p), ..s }).valid(),
    decreases s.rows.len(),
{
    reveal(Seq::filter);
    if s.rows.len() > 0 {
        let n = s.rows.len() - 1;
        let front = StoreView { rows: s.rows.drop_last(), ..s };
        assert forall|i: int| 0 <= i < front.rows.len() implies store::row_valid(
            #[trigger] front.rows[i],
            s.last_id,
        ) by {
            assert(store::row_valid(s.rows[i], s.last_id));
        }
        assert(front.valid());
        lemma_filter_valid(front, p);
        let kept = front.rows.filter(p);
        let last = s.rows[n];
        if p(last) {
            let t = kept.push(last);
            assert(s.rows.filter(p) == t);
            assert forall|i: int| 0 <= i < kept.len() implies (#[trigger] kept[i]).id < last.id
                && kept[i].hash != last.hash by {
                assert(kept.contains(kept[i]));
                front.rows.lemma_filter_contains_rev(p, kept[i]);
                let k = choose|k: int| 0 <= k < front.rows.len() && front.rows[k] == kept[i];
                assert(s.rows[k].id < s.rows[n].id && s.rows[k].hash != s.rows[n].hash);
            }
            assert forall|i: int| 0 <= i < t.len() implies store::row_valid(
                #[trigger] t[i],
                s.last_id,
            ) by {
                if i < kept.len() {
                    assert(store::row_valid(kept[i], s.last_id));
                } else {
                    assert(store::row_valid(s.rows[n], s.last_id));
                }
            }
            assert forall|i: int, j: int| 0 <= i < j < t.len() implies (#[trigger] t[i]).id < (
            #[trigger] t[j]).id && t[i].hash != t[j].hash by {
                if j < kept.len() {
                    assert(kept[i].id < kept[j].id);
                }
            }
        }
    }
}

proof fn lemma_filter_step(rows: Seq<RowView>, i: int, p: spec_fn(RowView) -> bool)
    requires
        0 <= i < rows.len(),
    ensures
        rows.take(i + 1).filter(p) == if p(rows[i]) {
            rows.take(i).filter(p).push(rows[i])
        } else {
            rows.take(i).filter(p)
        },
{
    reveal(Seq::filter);
    assert(rows.take(i + 1).drop_last() == rows.take(i));
}

/// What is counted of some of a history's rows.
struct Tally {
    count: usize,
    images: usize,
    bytes: u128,
}

/// Counts the rows that `chosen` marks.
fn tally(s: &Store, chosen: &Vec<bool>, Ghost(p): Ghost<spec_fn(RowView) -> bool>) -> (t: Tally)
    requires
        s.wf(),
        chosen.len() == s.rows.len(),
        forall|i: int| 0 <= i < chosen.len() ==> #[trigger] chosen@[i] == p(s@.rows[i]),
    ensures
        t.count == s@.rows.filter(p).len(),
        t.images == s@.rows.filter(p).filter(has_image()).len(),
        t.bytes == total_size(s@.rows.filter(p)),
{
    let ghost view = s@.rows;
    let mut t = Tally { count: 0, images: 0, bytes: 0 };
    let mut i: usize = 0;
    proof {
        reveal(Seq::filter);
    }
    while i < s.rows.len()
        invariant
            i <= s.rows.len(),
            s.wf(),
            view == s@.rows,
            chosen.len() == s.rows.len(),
            forall|i: int| 0 <= i < chosen.len() ==> #[trigger] chosen@[i] == p(view[i]),
            t.count == view.take(i as int).filter(p).len(),
            t.images == view.take(i as int).filter(p).filter(has_image()).len(),
            t.bytes == total_size(view.take(i as int).filter(p)),
            t.count <= i,
            t.images <= i,
            t.bytes <= i * 0x7fff_ffff_ffff_ffff,
        decreases s.rows.len() - i,
    {
        proof {
            lemma_filter_step(view, i as int, p);
            let kept = view.take(i as int).filter(p);
            assert(view[i as int] == s.rows@[i as int]@);
            assert(store::row_valid(view[i as int], s@.last_id));
            assert(kept.push(view[i as int]).drop_last() == kept);
            reveal(Seq::filter);
            assert(i * 0x7fff_ffff_ffff_ffff + 0x7fff_ffff_ffff_ffff == (i + 1)
                * 0x7fff_ffff_ffff_ffff) by (nonlinear_arith);
            assert((i + 1) * 0x7fff_ffff_ffff_ffff <= u128::MAX) by (nonlinear_arith)
                requires
                    i + 1 <= 0x1_0000_0000_0000_0000,
            ;
        }
        if chosen[i] {
            t.count += 1;
            if s.rows[i].image_path.is_some() {
                t.images += 1;
            }
            t.bytes = t.bytes + s.rows[i].size as u128;
        }
        i += 1;
    }
    assert(view.take(s.rows.len() as int) == view);
    t
}

/// Removes the entries captured before the cutoff, except pinned ones and the
/// current item. A dry run only counts.
pub fn prune_before(s: &mut Store, cutoff_ms: i64, dry_run: bool) -> (r: Result<
    PruneOutcome,
    StoreError,
>)
    requires
        old(s).wf(),
    ensures
        final(s).wf(),
        ({
            let rows = old(s)@.rows;
            let cur = store::pointed_or_empty(old(s)@.current);
            let gone = rows.filter(prunable(cutoff_ms as int, cur));
            match r {
                Ok(o) => {
                    &&& o.deleted == gone.len()
                    &&& o.images_deleted == gone.filter(has_image()).len()
                    &&& o.freed_bytes == total_size(gone)
                    &&& final(s)@ == if dry_run {
                        old(s)@
                    } else {
                        StoreView {
                            rows: rows.filter(not_prunable(cutoff_ms as int, cur)),
                            ..old(s)@
                        }
                    }
                },
                Err(e) => {
                    &&& total_size(gone) > i64::MAX
                    &&& e == StoreError::SumOverflow
                    &&& final(s)@ == old(s)@
                },
            }
        }),
{
    let cur = store::current_or_empty(s);
    let ghost before = s@;
    let ghost p = prunable(cutoff_ms as int, cur@);
    let mut chosen: Vec<bool> = Vec::new();
    let mut i: usize = 0;
    while i < s.rows.len()
        invariant
            i <= s.rows.len(),
            chosen.len() == i,
            p == prunable(cutoff_ms as int, cur@),
            forall|x: int| 0 <= x < i ==> #[trigger] chosen@[x] == p(s@.rows[x]),
        decreases s.rows.len() - i,
    {
        assert(s@.rows[i as int] == s.rows@[i as int]@);
        chosen.push(s.rows[i].ts < cutoff_ms && !s.rows[i].pinned && s.rows[i].hash != cur);
        i += 1;
    }
    let t = tally(s, &chosen, Ghost(p));
    if t.bytes > 0x7fff_ffff_ffff_ffff {
        return Err(StoreError::SumOverflow);
    }
    if !dry_run {
        let ghost q = not_prunable(cutoff_ms as int, cur@);
        let mut kept: Vec<Row> = Vec::new();
        let mut i: usize = 0;
        proof {
            reveal(Seq::filter);
            assert(store::rows_view(kept@) == s@.rows.take(0).filter(q));
        }
        while i < s.rows.len()
            invariant
                i <= s.rows.len(),
                chosen.len() == s.rows.len(),
                p == prunable(cutoff_ms as int, cur@),
                q == not_prunable(cutoff_ms as int, cur@),
                forall|x: int| 0 <= x < chosen.len() ==> #[trigger] chosen@[x] == p(s@.rows[x]),
                store::rows_view(kept@) == s@.rows.take(i as int).filter(q),
            decreases s.rows.len() - i,
        {
            proof {
                lemma_filter_step(s@.rows, i as int, q);
                assert(s@.rows[i as int] == s.rows@[i as int]@);
            }
            if !chosen[i] {
                let ghost kept0 = kept@;
                let row = s.rows[i].copy();
                kept.push(row);
                assert(store::rows_view(kept@) == store::rows_view(kept0).push(row@));
            }
            i += 1;
        }
        proof {
            assert(s@.rows.take(s.rows.len() as int) == s@.rows);
            lemma_filter_valid(before, q);
        }
        s.rows = kept;
    }
    Ok(
        PruneOutcome {
            deleted: t.count,
            images_deleted: t.images,
            freed_bytes: t.bytes as i64,
        },
    )
}

/// The last component of a path.
pub open spec fn file_name(path: Seq<char>) -> Seq<char>
    decreases path.len(),
{
    let n = text::first_index(path, '/');
    if n >= path.len() {
        path
    } else {
        file_name(path.skip(n as int + 1))
    }
}

/// Whether a row names the path as its data file.
pub open spec fn is_referenced(rows: Seq<RowView>, path: Seq<char>) -> bool {
    exists|i: int| 0 <= i < rows.len() && (#[trigger] rows[i]).image_path == Some(path)
}

/// Whether a file of the image directory is to go: it was left by an aborted
/// write, or no row names it.
pub open spec fn is_orphan(rows: Seq<RowView>, path: Seq<char>) -> bool {
    text::has_prefix(file_name(path), ".tmp-"@) || !is_referenced(rows, path)
}

/// The files that are to go.
pub open spec fn orphans(rows: Seq<RowView>) -> spec_fn(Seq<char>) -> bool {
    |path: Seq<char>| is_orphan(rows, path)
}

fn name_of(path: &str) -> (r: String)
    ensures
        r@ == file_name(path@),
{
    let v = text::chars_of(path);
    let mut from: usize = 0;
    assert(v@.skip(0) == v@);
    loop
        invariant_except_break
            from <= v.len(),
            file_name(v@.skip(from as int)) == file_name(v@),
        ensures
            from <= v.len(),
            file_name(v@) == v@.skip(from as int),
        decreases v.len() - from,
    {
        let n: usize = text::find_char(&v, from, '/');
        if n == v.len() {
            break;
        }
        assert(v@.skip(from as int).skip(n - from + 1) == v@.skip(n + 1));
        from = n + 1;
    }
    assert(v@.skip(from as int) == v@.subrange(from as int, v.len() as int));
    text::str_of(&v, from, v.len())
}

fn referenced(s: &Store, path: &String) -> (b: bool)
    ensures
        b == is_referenced(s@.rows, path@),
{
    let mut i: usize = 0;
    while i < s.rows.len()
        invariant
            i <= s.rows.len(),
            forall|k: int| 0 <= k < i ==> (#[trigger] s@.rows[k]).image_path != Some(path@),
        decreases s.rows.len() - i,
    {
        assert(s@.rows[i as int] == s.rows@[i as int]@);
        if let Some(p) = &s.rows[i].image_path {
            if *p == *path {
                assert(s@.rows[i as int].image_path == Some(path@));
                return true;
            }
        }
        i += 1;
    }
    false
}

/// Which of the files in the image directory are to go: remains of aborted
/// writes, and files that no entry names.
pub fn prune_orphan_images(s: &Store, files: &Vec<String>) -> (r: Vec<String>)
    ensures
        text::texts(r@) == text::texts(files@).filter(orphans(s@.rows)),
{
    let ghost all = text::texts(files@);
    let ghost p = orphans(s@.rows);
    let mut r: Vec<String> = Vec::new();
    let mut i: usize = 0;
    proof {
        reveal(Seq::filter);
        assert(text::texts(r@) == all.take(0).filter(p));
    }
    while i < files.len()
        invariant
            i <= files.len(),
            all == text::texts(files@),
            p == orphans(s@.rows),
            text::texts(r@) == all.take(i as int).filter(p),
        decreases files.len() - i,
    {
        proof {
            reveal(Seq::filter);
            assert(all.take(i + 1).drop_last() == all.take(i as int));
            assert(all.take(i + 1).last() == files@[i as int]@);
        }
        let name = name_of(files[i].as_str());
        if text::starts_with(name.as_str(), ".tmp-") || !referenced(s, &files[i]) {
            let ghost r0 = r@;
            let f = files[i].clone();
            r.push(f);
            assert(text::texts(r@) == text::texts(r0).push(f@));
        }
        i += 1;
    }
    assert(all.take(files.len() as int) == all);
    r
}

/// Counts and sizes of the history.
#[derive(Debug, Clone, Copy)]
pub struct StoreStats {
    pub total: i64,
    pub pinned: i64,
    pub image_entries: i64,
    /// The sizes of the entries without a data file together.
    pub text_bytes: i64,
    /// The database on disk, with its write-ahead log.
    pub db_bytes: u64,
    /// The files in the image directory.
    pub images_disk_bytes: u64,
    pub oldest_ts: Option<i64>,
    pub newest_ts: Option<i64>,
}

/// Whether `t` is the earliest time of the rows, if there are any.
pub open spec fn is_oldest_ts(rows: Seq<RowView>, t: Option<i64>) -> bool {
    match t {
        Some(t) => {
            &&& exists|i: int| 0 <= i < rows.len() && (#[trigger] rows[i]).ts == t
            &&& forall|i: int| 0 <= i < rows.len() ==> t <= (#[trigger] rows[i]).ts
        },
        None => rows.len() == 0,
    }
}

/// Whether `t` is the latest time of the rows, if there are any.
pub open spec fn is_newest_ts(rows: Seq<RowView>, t: Option<i64>) -> bool {
    match t {
        Some(t) => {
            &&& exists|i: int| 0 <= i < rows.len() && (#[trigger] rows[i]).ts == t
            &&& forall|i: int| 0 <= i < rows.len() ==> (#[trigger] rows[i]).ts <= t
        },
        None => rows.len() == 0,
    }
}

/// Measures the history. The sizes on disk are given.
pub fn stats(s: &Store, db_bytes: u64, images_disk_bytes: u64) -> (r: Result<
    StoreStats,
    StoreError,
>)
    requires
        s.wf(),
    ensures
        ({
            let rows = s@.rows;
            match r {
                Ok(t) => {
                    &&& t.total == capture::size_of(rows.len())
                    &&& t.pinned == capture::size_of(rows.filter(is_pin()).len())
                    &&& t.image_entries == capture::size_of(rows.filter(has_image()).len())
                    &&& t.text_bytes == total_size(rows.filter(no_image()))
                    &&& t.db_bytes == db_bytes
                    &&& t.images_disk_bytes == images_disk_bytes
                    &&& is_oldest_ts(rows, t.oldest_ts)
                    &&& is_newest_ts(rows, t.newest_ts)
                },
                Err(e) => total_size(rows.filter(no_image())) > i64::MAX && e
                    == StoreError::SumOverflow,
            }
        }),
{
    let mut pins: Vec<bool> = Vec::new();
    let mut images: Vec<bool> = Vec::new();
    let mut texts: Vec<bool> = Vec::new();
    let mut oldest_ts: Option<i64> = None;
    let mut newest_ts: Option<i64> = None;
    let mut i: usize = 0;
    while i < s.rows.len()
        invariant
            i <= s.rows.len(),
            pins.len() == i,
            images.len() == i,
            texts.len() == i,
            forall|x: int| 0 <= x < i ==> #[trigger] pins@[x] == is_pin()(s@.rows[x]),
            forall|x: int| 0 <= x < i ==> #[trigger] images@[x] == has_image()(s@.rows[x]),
            forall|x: int| 0 <= x < i ==> #[trigger] texts@[x] == no_image()(s@.rows[x]),
            is_oldest_ts(s@.rows.take(i as int), oldest_ts),
            is_newest_ts(s@.rows.take(i as int), newest_ts),
        decreases s.rows.len() - i,
    {
        assert(s@.rows[i as int] == s.rows@[i as int]@);
        pins.push(s.rows[i].pinned);
        images.push(s.rows[i].image_path.is_some());
        texts.push(s.rows[i].image_path.is_none());
        let ts: i64 = s.rows[i].ts;
        let ghost part = s@.rows.take(i as int);
        let ghost more = s@.rows.take(i + 1);
        let earlier = match oldest_ts {
            Some(t) => ts < t,
            None => true,
        };
        let later = match newest_ts {
            Some(t) => ts > t,
            None => true,
        };
        proof {
            assert(more[i as int].ts == ts);
            if oldest_ts is Some {
                let k = choose|k: int| 0 <= k < part.len() && (#[trigger] part[k]).ts == oldest_ts->0;
                assert(more[k].ts == oldest_ts->0);
            }
            if newest_ts is Some {
                let k = choose|k: int| 0 <= k < part.len() && (#[trigger] part[k]).ts == newest_ts->0;
                assert(more[k].ts == newest_ts->0);
            }
            assert forall|k: int| 0 <= k < more.len() implies more[k] == s@.rows[k] && (k < i
                ==> more[k] == #[trigger] part[k]) by {}
        }
        if earlier {
            oldest_ts = Some(ts);
        }
        if later {
            newest_ts = Some(ts);
        }
        i += 1;
    }
    assert(s@.rows.take(s.rows.len() as int) == s@.rows);
    let pinned = tally(s, &pins, Ghost(is_pin()));
    let image_entries = tally(s, &images, Ghost(has_image()));
    let plain = tally(s, &texts, Ghost(no_image()));
    if plain.bytes > 0x7fff_ffff_ffff_ffff {
        return Err(StoreError::SumOverflow);
    }
    Ok(
        StoreStats {
            total: capture::size_from(s.rows.len()),
            pinned: capture::size_from(pinned.count),
            image_entries: capture::size_from(image_entries.count),
            text_bytes: plain.bytes as i64,
            db_bytes,
            images_disk_bytes,
            oldest_ts,
            newest_ts,
        },
    )
}

} // verus!
