//! What holds of the history as a whole.

use super::capture;
use super::digest;
use super::evict;
use super::maintain;
use super::query;
use super::{RowView, StoreView};
use crate::config::Config;
use crate::order;
use crate::store;
use crate::text;
use vstd::prelude::*;

verus! {

/// A text that is refused changes nothing, not even the pointer to the current
/// item.
pub proof fn law_refused_text_changes_nothing(
    s: StoreView,
    content: Seq<char>,
    mime: Seq<char>,
    cfg: Config,
    now_ms: int,
)
    requires
        !capture::storable(text::trimmed(content), cfg),
    ensures
        capture::after_text(s, content, mime, cfg, now_ms) == s,
        capture::text_result(s, content, cfg) == Ok::<bool, store::StoreError>(false),
{
}

/// White space at the ends of a text makes no difference.
pub proof fn law_outer_white_space_does_not_count(
    s: StoreView,
    a: Seq<char>,
    b: Seq<char>,
    mime: Seq<char>,
    cfg: Config,
    now_ms: int,
)
    requires
        text::trimmed(a) == text::trimmed(b),
    ensures
        capture::after_text(s, a, mime, cfg, now_ms) == capture::after_text(
            s,
            b,
            mime,
            cfg,
            now_ms,
        ),
        capture::text_result(s, a, cfg) == capture::text_result(s, b, cfg),
{
}

/// Content that is in the history adds no row: only its time changes.
pub proof fn law_known_text_adds_no_row(
    s: StoreView,
    content: Seq<char>,
    mime: Seq<char>,
    cfg: Config,
    now_ms: int,
)
    requires
        capture::storable(text::trimmed(content), cfg),
        store::has_hash(s.rows, digest::text_hash(text::trimmed(content))),
    ensures
        ({
            let h = digest::text_hash(text::trimmed(content));
            let t = capture::after_text(s, content, mime, cfg, now_ms);
            &&& capture::text_result(s, content, cfg) == Ok::<bool, store::StoreError>(false)
            &&& t.rows.len() == s.rows.len()
            &&& t.last_id == s.last_id
            &&& forall|i: int|
                0 <= i < s.rows.len() ==> #[trigger] t.rows[i] == if s.rows[i].hash == h {
                    RowView { ts: now_ms, ..s.rows[i] }
                } else {
                    s.rows[i]
                }
        }),
{
}

/// An image that was captured last is the current item.
pub proof fn law_captured_image_is_current(
    s: StoreView,
    row: RowView,
    max_items: nat,
    mime: Seq<char>,
    bytes: Seq<u8>,
)
    requires
        row.hash == digest::image_key(mime, bytes),
    ensures
        store::pointed(capture::captured(s, row, max_items).current) == Some(
            digest::image_key(mime, bytes),
        ),
{
    capture::lemma_image_key_clean(mime, bytes);
}

proof fn lemma_by_rank_transitive(rank: spec_fn(RowView) -> int)
    ensures
        order::transitive(query::by_rank(rank)),
{
}

proof fn lemma_comparable(rows: Seq<RowView>, rank: spec_fn(RowView) -> int)
    requires
        store::ids_increase(rows),
    ensures
        order::comparable(rows, query::by_rank(rank)),
{
    let before = query::by_rank(rank);
    assert forall|i: int, j: int| 0 <= i < j < rows.len() implies before(
        #[trigger] rows[i],
        #[trigger] rows[j],
    ) || before(rows[j], rows[i]) by {
        assert(rows[i].id < rows[j].id);
    }
}

/// The list holds every row of the history once: the current item first, then
/// the pinned ones where they come first, then the newest.
pub proof fn law_list_holds_every_row(s: StoreView, pinned_on_top: bool)
    requires
        s.valid(),
    ensures
        ({
            let l = query::listed(s, pinned_on_top);
            let cur = store::pointed_or_empty(s.current);
            &&& l.len() == s.rows.len()
            &&& forall|r: RowView| #![auto] l.contains(r) <==> s.rows.contains(r)
            &&& forall|i: int, j: int|
                0 <= i < j < l.len() ==> {
                    let a = #[trigger] l[i];
                    let b = #[trigger] l[j];
                    &&& b.hash == cur ==> a.hash == cur
                    &&& pinned_on_top && a.hash != cur && b.pinned ==> a.pinned
                    &&& a.hash != cur && (!pinned_on_top || a.pinned == b.pinned) ==> query::newer(
                        a,
                        b,
                    )
                }
        }),
{
    let cur = store::pointed_or_empty(s.current);
    let rank = query::list_rank(cur, pinned_on_top);
    query::lemma_by_rank_asymmetric(rank);
    lemma_by_rank_transitive(rank);
    lemma_comparable(s.rows, rank);
    order::lemma_arrangement_exists(s.rows, query::by_rank(rank));
    let l = query::listed(s, pinned_on_top);
    let before = query::by_rank(rank);
    assert forall|i: int, j: int| 0 <= i < j < l.len() implies {
        let a = #[trigger] l[i];
        let b = #[trigger] l[j];
        &&& b.hash == cur ==> a.hash == cur
        &&& pinned_on_top && a.hash != cur && b.pinned ==> a.pinned
        &&& a.hash != cur && (!pinned_on_top || a.pinned == b.pinned) ==> query::newer(a, b)
    } by {
        assert(before(l[i], l[j]));
    }
}

/// The current item stands in the first row of the list if it is in the history.
pub proof fn law_current_item_is_first(s: StoreView, pinned_on_top: bool, h: Seq<char>)
    requires
        s.valid(),
        store::pointed(s.current) == Some(h),
        store::has_hash(s.rows, h),
    ensures
        query::listed(s, pinned_on_top).len() > 0,
        query::listed(s, pinned_on_top)[0].hash == h,
{
    law_list_holds_every_row(s, pinned_on_top);
    let l = query::listed(s, pinned_on_top);
    let i = choose|i: int| 0 <= i < s.rows.len() && (#[trigger] s.rows[i]).hash == h;
    assert(s.rows.contains(s.rows[i]));
    assert(l.contains(s.rows[i]));
    let k = choose|k: int| 0 <= k < l.len() && l[k] == s.rows[i];
    if k > 0 {
        assert(l[0].hash == h) by {
            let a = l[0];
            let b = l[k];
            assert(b.hash == store::pointed_or_empty(s.current));
        }
    }
}

/// A search for a short query finds every row that mentions it and no other, the
/// newest first.
pub proof fn law_short_search_finds_every_mention(s: StoreView, needle: Seq<char>)
    requires
        s.valid(),
    ensures
        ({
            let f = query::scanned(s.rows, needle);
            &&& forall|r: RowView| #![auto]
                f.contains(r) <==> s.rows.contains(r) && text::found_in(r.text, needle)
            &&& forall|i: int, j: int|
                0 <= i < j < f.len() ==> query::newer(#[trigger] f[i], #[trigger] f[j])
        }),
{
    let p = query::mentions(needle);
    let rank = query::no_rank();
    let items = s.rows.filter(p);
    maintain::lemma_filter_valid(s, p);
    query::lemma_by_rank_asymmetric(rank);
    lemma_by_rank_transitive(rank);
    lemma_comparable(items, rank);
    order::lemma_arrangement_exists(items, query::by_rank(rank));
    let f = query::scanned(s.rows, needle);
    assert forall|r: RowView| #![auto] f.contains(r) <==> s.rows.contains(r) && text::found_in(
        r.text,
        needle,
    ) by {
        if items.contains(r) {
            s.rows.lemma_filter_contains_rev(p, r);
            let k = choose|k: int| 0 <= k < items.len() && items[k] == r;
            s.rows.lemma_filter_pred(p, k);
        }
        if s.rows.contains(r) && p(r) {
            let k = choose|k: int| 0 <= k < s.rows.len() && s.rows[k] == r;
            s.rows.lemma_filter_contains(p, k);
        }
    }
    assert forall|i: int, j: int| 0 <= i < j < f.len() implies query::newer(
        #[trigger] f[i],
        #[trigger] f[j],
    ) by {
        assert(query::by_rank(rank)(f[i], f[j]));
    }
}

pub(crate) proof fn lemma_without_oldest(rows: Seq<RowView>, may: spec_fn(RowView) -> bool, last_id: int)
    requires
        (StoreView { rows, last_id, current: None }).valid(),
        evict::some_may(rows, may),
    ensures
        ({
            let gone = rows[evict::oldest(rows, may)];
            let rest = rows.remove(evict::oldest(rows, may));
            &&& 0 <= evict::oldest(rows, may) < rows.len()
            &&& (StoreView { rows: rest, last_id, current: None }).valid()
            &&& may(gone)
            &&& forall|r: RowView| #![auto] rest.contains(r) <==> rows.contains(r) && r != gone
            &&& forall|r: RowView| #[trigger] rest.contains(r) && may(r) ==> evict::older(gone, r)
        }),
{
    evict::lemma_oldest_exists(rows, may);
    let i = evict::oldest(rows, may);
    let rest = rows.remove(i);
    evict::lemma_remove_valid(StoreView { rows, last_id, current: None }, i);
    assert forall|r: RowView| #![auto] rest.contains(r) <==> rows.contains(r) && r != rows[i] by {
        if rest.contains(r) {
            let x = choose|x: int| 0 <= x < rest.len() && rest[x] == r;
            let y = if x < i {
                x
            } else {
                x + 1
            };
            assert(rows[y] == r);
            if y < i {
                assert(rows[y].id < rows[i].id);
            } else {
                assert(rows[i].id < rows[y].id);
            }
        }
        if rows.contains(r) && r != rows[i] {
            let x = choose|x: int| 0 <= x < rows.len() && rows[x] == r;
            let y = if x < i {
                x
            } else {
                x - 1
            };
            assert(rest[y] == r);
        }
    }
    assert forall|r: RowView| #[trigger] rest.contains(r) && may(r) implies evict::older(
        rows[i],
        r,
    ) by {
        assert(rows.contains(r));
        let z = choose|z: int| 0 <= z < rows.len() && rows[z] == r;
        assert(!evict::older(rows[z], rows[i]));
        if z < i {
            assert(rows[z].id < rows[i].id);
        } else if z > i {
            assert(rows[i].id < rows[z].id);
        }
    }
}

proof fn lemma_drop_oldest(rows: Seq<RowView>, may: spec_fn(RowView) -> bool, k: nat, last_id: int)
    requires
        (StoreView { rows, last_id, current: None }).valid(),
    ensures
        ({
            let kept = evict::drop_oldest(rows, may, k);
            &&& (StoreView { rows: kept, last_id, current: None }).valid()
            &&& forall|r: RowView| kept.contains(r) ==> #[trigger] rows.contains(r)
            &&& forall|r: RowView| #[trigger] rows.contains(r) && !may(r) ==> kept.contains(r)
            &&& forall|a: RowView, b: RowView|
                #![trigger rows.contains(a), kept.contains(b)]
                rows.contains(a) && !kept.contains(a) && kept.contains(b) && may(b)
                    ==> evict::older(a, b)
            &&& rows.len() - k <= kept.len() <= rows.len()
            &&& kept.len() == rows.len() - k || !evict::some_may(kept, may)
        }),
    decreases k,
{
    let kept = evict::drop_oldest(rows, may, k);
    if k > 0 && evict::some_may(rows, may) {
        let rest = rows.remove(evict::oldest(rows, may));
        lemma_without_oldest(rows, may, last_id);
        lemma_drop_oldest(rest, may, (k - 1) as nat, last_id);
        assert forall|r: RowView| kept.contains(r) implies #[trigger] rows.contains(r) by {
            assert(rest.contains(r));
        }
        assert forall|r: RowView| #[trigger] rows.contains(r) && !may(r) implies kept.contains(
            r,
        ) by {
            assert(rest.contains(r));
        }
        assert forall|a: RowView, b: RowView|
            #![trigger rows.contains(a), kept.contains(b)]
            rows.contains(a) && !kept.contains(a) && kept.contains(b) && may(b) implies evict::older(
            a,
            b,
        ) by {
            assert(rest.contains(b));
            assert(rest.contains(a) || a == rows[evict::oldest(rows, may)]);
        }
    }
}

/// The cut to the limit never drops a pinned row or the current item, drops the
/// oldest of the others, and no more of them than needed.
pub proof fn law_cut_drops_the_oldest(s: StoreView, max: nat)
    requires
        s.valid(),
    ensures
        ({
            let cur = store::pointed_or_empty(s.current);
            let kept = evict::cut_to(s.rows, cur, max);
            &&& (StoreView { rows: kept, ..s }).valid()
            &&& forall|r: RowView| kept.contains(r) ==> #[trigger] s.rows.contains(r)
            &&& forall|r: RowView| #[trigger]
                s.rows.contains(r) && (r.pinned || r.hash == cur) ==> kept.contains(r)
            &&& forall|a: RowView, b: RowView|
                #![trigger s.rows.contains(a), kept.contains(b)]
                s.rows.contains(a) && !kept.contains(a) && kept.contains(b) && !b.pinned && b.hash
                    != cur ==> evict::older(a, b)
            &&& s.rows.len() <= max ==> kept == s.rows
            &&& s.rows.len() > max ==> kept.len() >= max
            &&& kept.len() <= max || !evict::some_may(kept, evict::spare(cur))
        }),
{
    if s.rows.len() > max {
        let cur = store::pointed_or_empty(s.current);
        lemma_drop_oldest(
            s.rows,
            evict::spare(cur),
            (s.rows.len() - max) as nat,
            s.last_id,
        );
        let kept = evict::cut_to(s.rows, cur, max);
        assert forall|i: int| 0 <= i < kept.len() implies store::row_valid(
            #[trigger] kept[i],
            s.last_id,
        ) by {
            let t = StoreView { rows: kept, last_id: s.last_id, current: None };
            assert(store::row_valid(t.rows[i], t.last_id));
        }
    }
}

/// A second cut to the same limit changes nothing.
pub proof fn law_cut_again_changes_nothing(rows: Seq<RowView>, cur: Seq<char>, max: nat)
    ensures
        evict::cut_to(evict::cut_to(rows, cur, max), cur, max) == evict::cut_to(rows, cur, max),
{
    if rows.len() > max {
        lemma_drop_oldest_settles(rows, evict::spare(cur), (rows.len() - max) as nat);
    }
}

proof fn lemma_drop_oldest_settles(rows: Seq<RowView>, may: spec_fn(RowView) -> bool, k: nat)
    requires
        k <= rows.len(),
    ensures
        ({
            let kept = evict::drop_oldest(rows, may, k);
            kept.len() == rows.len() - k || !evict::some_may(kept, may)
        }),
    decreases k,
{
    if k > 0 && evict::some_may(rows, may) {
        evict::lemma_oldest_exists(rows, may);
        lemma_drop_oldest_settles(rows.remove(evict::oldest(rows, may)), may, (k - 1) as nat);
    }
}

/// The current item is in the history after every cut, whatever the limit and
/// however many entries are pinned.
pub proof fn law_cut_keeps_the_current_item(s: StoreView, max: nat)
    requires
        s.valid(),
        store::holds_current(s),
    ensures
        store::holds_current(
            StoreView {
                rows: evict::cut_to(s.rows, store::pointed_or_empty(s.current), max),
                ..s
            },
        ),
{
    law_cut_drops_the_oldest(s, max);
    let h = store::pointed(s.current)->0;
    let kept = evict::cut_to(s.rows, h, max);
    let i = choose|i: int| 0 <= i < s.rows.len() && (#[trigger] s.rows[i]).hash == h;
    assert(s.rows.contains(s.rows[i]));
    assert(kept.contains(s.rows[i]));
    let k = choose|k: int| 0 <= k < kept.len() && kept[k] == s.rows[i];
    assert(kept[k].hash == h);
}

/// What is taken in from elsewhere never pushes out the current item, nor becomes
/// it.
pub proof fn law_taking_in_keeps_the_current_item(s: StoreView, r: RowView, max: nat)
    requires
        s.valid(),
        r.id == s.last_id + 1,
        store::row_valid(r, r.id),
    ensures
        ({
            let t = capture::taken_in(s, r, max);
            &&& t.valid()
            &&& t.current == s.current
            &&& store::holds_current(s) ==> store::holds_current(t)
        }),
{
    let u = StoreView { current: s.current, ..capture::upserted(s, r) };
    if store::has_hash(s.rows, r.hash) {
        capture::lemma_refreshed_valid(s, r.hash, r.ts);
    } else {
        capture::lemma_push_valid(s, r);
    }
    law_cut_drops_the_oldest(u, max);
    if store::holds_current(s) {
        let h = store::pointed(s.current)->0;
        let k = choose|k: int| 0 <= k < s.rows.len() && (#[trigger] s.rows[k]).hash == h;
        assert(u.rows[k].hash == h);
        law_cut_keeps_the_current_item(u, max);
    }
}

/// What was captured last comes first in the list, whatever the limit and however
/// many entries are pinned.
pub proof fn law_captured_content_comes_first(
    s: StoreView,
    r: RowView,
    max: nat,
    pinned_on_top: bool,
)
    requires
        s.valid(),
        r.id == s.last_id + 1,
        store::row_valid(r, r.id),
    ensures
        ({
            let t = capture::captured(s, r, max);
            let l = query::listed(t, pinned_on_top);
            &&& t.valid()
            &&& l.len() > 0
            &&& l[0].hash == r.hash
            &&& !store::has_hash(s.rows, r.hash) ==> l[0] == r
        }),
{
    let t = capture::captured(s, r, max);
    assert(store::pointed(t.current) == Some(r.hash));
    if store::has_hash(s.rows, r.hash) {
        capture::lemma_refreshed_valid(s, r.hash, r.ts);
        let k = choose|k: int| 0 <= k < s.rows.len() && (#[trigger] s.rows[k]).hash == r.hash;
        assert(t.rows[k].hash == r.hash);
    } else {
        capture::lemma_push_valid(s, r);
        let u = capture::upserted(s, r);
        assert(u.rows[s.rows.len() as int] == r);
        assert(u.rows.contains(r));
        law_cut_drops_the_oldest(u, max);
        assert(t.rows.contains(r));
        let k = choose|k: int| 0 <= k < t.rows.len() && t.rows[k] == r;
        assert(t.rows[k].hash == r.hash);
    }
    law_current_item_is_first(t, pinned_on_top, r.hash);
    let l = query::listed(t, pinned_on_top);
    if !store::has_hash(s.rows, r.hash) {
        law_list_holds_every_row(t, pinned_on_top);
        assert(l.contains(l[0]));
        let a = choose|a: int| 0 <= a < t.rows.len() && t.rows[a] == l[0];
        let b = choose|b: int| 0 <= b < t.rows.len() && t.rows[b] == r;
        assert(t.rows.contains(r));
        if a < b {
            assert(t.rows[a].hash != t.rows[b].hash);
        } else if b < a {
            assert(t.rows[b].hash != t.rows[a].hash);
        }
    }
}

pub(crate) proof fn lemma_drop_images(rows: Seq<RowView>, cur: Seq<char>, need: int, last_id: int)
    requires
        (StoreView { rows, last_id, current: None }).valid(),
    ensures
        ({
            let kept = evict::drop_images(rows, cur, need);
            let may = evict::spare_image(cur);
            &&& (StoreView { rows: kept, last_id, current: None }).valid()
            &&& forall|r: RowView| kept.contains(r) ==> #[trigger] rows.contains(r)
            &&& forall|r: RowView| #[trigger] rows.contains(r) && !may(r) ==> kept.contains(r)
            &&& forall|a: RowView, b: RowView|
                #![trigger rows.contains(a), kept.contains(b)]
                rows.contains(a) && !kept.contains(a) && kept.contains(b) && may(b)
                    ==> evict::older(a, b)
            &&& evict::image_total(rows) - evict::image_total(kept) >= need || !evict::some_may(
                kept,
                may,
            )
        }),
    decreases rows.len(),
{
    let may = evict::spare_image(cur);
    let kept = evict::drop_images(rows, cur, need);
    if need > 0 && evict::some_may(rows, may) {
        let i = evict::oldest(rows, may);
        let rest = rows.remove(i);
        lemma_without_oldest(rows, may, last_id);
        lemma_drop_images(rest, cur, need - rows[i].size, last_id);
        lemma_image_total_remove(rows, i);
        assert forall|r: RowView| kept.contains(r) implies #[trigger] rows.contains(r) by {
            assert(rest.contains(r));
        }
        assert forall|r: RowView| #[trigger] rows.contains(r) && !may(r) implies kept.contains(
            r,
        ) by {
            assert(rest.contains(r));
        }
        assert forall|a: RowView, b: RowView|
            #![trigger rows.contains(a), kept.contains(b)]
            rows.contains(a) && !kept.contains(a) && kept.contains(b) && may(b) implies evict::older(
            a,
            b,
        ) by {
            assert(rest.contains(b));
            assert(rest.contains(a) || a == rows[i]);
        }
    }
}

pub(crate) proof fn lemma_image_total_remove(rows: Seq<RowView>, i: int)
    requires
        0 <= i < rows.len(),
    ensures
        evict::image_total(rows.remove(i)) == evict::image_total(rows) - if rows[i].image_path is Some {
            rows[i].size
        } else {
            0
        },
    decreases rows.len(),
{
    let n = rows.len() - 1;
    if i == n {
        assert(rows.remove(i) == rows.drop_last());
    } else {
        lemma_image_total_remove(rows.drop_last(), i);
        assert(rows.remove(i).drop_last() == rows.drop_last().remove(i));
        assert(rows.remove(i).last() == rows.last());
    }
}

/// The image quota never costs a text, a pinned entry or the current item, and of
/// the other images it takes the oldest. When it is done, the images fit, or none
/// is left that may go; where they fit from the start, nothing goes.
pub proof fn law_quota_spares_what_is_protected(s: StoreView, max_bytes: int)
    requires
        s.valid(),
    ensures
        ({
            let cur = store::pointed_or_empty(s.current);
            let kept = evict::drop_images(s.rows, cur, evict::image_total(s.rows) - max_bytes);
            &&& (StoreView { rows: kept, ..s }).valid()
            &&& forall|r: RowView| kept.contains(r) ==> #[trigger] s.rows.contains(r)
            &&& forall|r: RowView| #[trigger]
                s.rows.contains(r) && (r.pinned || r.image_path is None || r.hash == cur)
                    ==> kept.contains(r)
            &&& forall|a: RowView, b: RowView|
                #![trigger s.rows.contains(a), kept.contains(b)]
                s.rows.contains(a) && !kept.contains(a) && kept.contains(b) && evict::spare_image(
                    cur,
                )(b) ==> evict::older(a, b)
            &&& evict::image_total(s.rows) <= max_bytes ==> kept == s.rows
            &&& evict::image_total(kept) <= max_bytes || !evict::some_may(
                kept,
                evict::spare_image(cur),
            )
        }),
{
    let cur = store::pointed_or_empty(s.current);
    let need = evict::image_total(s.rows) - max_bytes;
    lemma_drop_images(s.rows, cur, need, s.last_id);
    let kept = evict::drop_images(s.rows, cur, need);
    assert forall|i: int| 0 <= i < kept.len() implies store::row_valid(
        #[trigger] kept[i],
        s.last_id,
    ) by {
        let t = StoreView { rows: kept, last_id: s.last_id, current: None };
        assert(store::row_valid(t.rows[i], t.last_id));
    }
}

/// A pruning keeps pinned entries, the current item and all that is recent
/// enough, and nothing else.
pub proof fn law_prune_spares_what_is_protected(s: StoreView, cutoff_ms: int, r: RowView)
    ensures
        ({
            let cur = store::pointed_or_empty(s.current);
            s.rows.filter(maintain::not_prunable(cutoff_ms, cur)).contains(r) <==> s.rows.contains(
                r,
            ) && (r.pinned || r.hash == cur || r.ts >= cutoff_ms)
        }),
{
    let p = maintain::not_prunable(cutoff_ms, store::pointed_or_empty(s.current));
    if s.rows.filter(p).contains(r) {
        s.rows.lemma_filter_contains_rev(p, r);
        let k = choose|k: int| 0 <= k < s.rows.filter(p).len() && s.rows.filter(p)[k] == r;
        s.rows.lemma_filter_pred(p, k);
    }
    if s.rows.contains(r) && p(r) {
        let k = choose|k: int| 0 <= k < s.rows.len() && s.rows[k] == r;
        s.rows.lemma_filter_contains(p, k);
    }
}

proof fn lemma_filter_all<A>(s: Seq<A>, p: spec_fn(A) -> bool)
    requires
        forall|i: int| 0 <= i < s.len() ==> p(#[trigger] s[i]),
    ensures
        s.filter(p) == s,
    decreases s.len(),
{
    reveal(Seq::filter);
    if s.len() > 0 {
        let front = s.drop_last();
        assert forall|i: int| 0 <= i < front.len() implies p(#[trigger] front[i]) by {
            assert(p(s[i]));
        }
        lemma_filter_all(front, p);
        assert(p(s[s.len() - 1]));
        assert(front.push(s.last()) == s);
    }
}

/// Pruning twice up to the same moment is pruning once.
pub proof fn law_prune_twice_is_once(s: StoreView, cutoff_ms: int)
    ensures
        ({
            let p = maintain::not_prunable(cutoff_ms, store::pointed_or_empty(s.current));
            s.rows.filter(p).filter(p) == s.rows.filter(p)
        }),
{
    let p = maintain::not_prunable(cutoff_ms, store::pointed_or_empty(s.current));
    let t = s.rows.filter(p);
    assert forall|i: int| 0 <= i < t.len() implies p(#[trigger] t[i]) by {
        s.rows.lemma_filter_pred(p, i);
    }
    lemma_filter_all(t, p);
}

/// Turning a pin over twice leaves the history as it was.
pub proof fn law_pin_twice_is_nothing(rows: Seq<RowView>, i: int)
    requires
        0 <= i < rows.len(),
    ensures
        maintain::pin_turned(maintain::pin_turned(rows, i), i) == rows,
{
    assert(maintain::pin_turned(maintain::pin_turned(rows, i), i) == rows);
}

/// After a deletion the entry is gone and every other is where it was.
pub proof fn law_delete_removes_one_entry(s: StoreView, id: int, r: RowView)
    requires
        s.valid(),
    ensures
        !store::has_id(maintain::without_id(s.rows, id), id),
        maintain::without_id(s.rows, id).contains(r) <==> s.rows.contains(r) && r.id != id,
{
    let t = maintain::without_id(s.rows, id);
    if store::has_id(s.rows, id) {
        let i = store::id_index(s.rows, id);
        assert forall|k: int| 0 <= k < t.len() implies (#[trigger] t[k]).id != id by {
            let x = if k < i {
                k
            } else {
                k + 1
            };
            assert(t[k] == s.rows[x]);
            if x < i {
                assert(s.rows[x].id < s.rows[i].id);
            } else {
                assert(s.rows[i].id < s.rows[x].id);
            }
        }
        if t.contains(r) {
            let k = choose|k: int| 0 <= k < t.len() && t[k] == r;
            let x = if k < i {
                k
            } else {
                k + 1
            };
            assert(s.rows[x] == r);
            assert(t[k].id != id);
        }
        if s.rows.contains(r) && r.id != id {
            let x = choose|x: int| 0 <= x < s.rows.len() && s.rows[x] == r;
            let k = if x < i {
                x
            } else {
                x - 1
            };
            assert(t[k] == r);
        }
    } else if s.rows.contains(r) {
        let x = choose|x: int| 0 <= x < s.rows.len() && s.rows[x] == r;
        assert(s.rows[x].id == r.id);
    }
}

/// A sweep of the image directory leaves nothing for a second one.
pub proof fn law_sweep_twice_finds_nothing(rows: Seq<RowView>, files: Seq<Seq<char>>)
    ensures
        files.filter(|f: Seq<char>| !maintain::is_orphan(rows, f)).filter(
            maintain::orphans(rows),
        ).len() == 0,
{
    let q = |f: Seq<char>| !maintain::is_orphan(rows, f);
    let p = maintain::orphans(rows);
    let kept = files.filter(q);
    let again = kept.filter(p);
    if again.len() > 0 {
        kept.lemma_filter_pred(p, 0);
        assert(again.contains(again[0]));
        kept.lemma_filter_contains_rev(p, again[0]);
        let k = choose|k: int| 0 <= k < kept.len() && kept[k] == again[0];
        files.lemma_filter_pred(q, k);
    }
}

/// The same bytes under two types are two images.
pub proof fn law_type_is_part_of_the_image(a: Seq<char>, b: Seq<char>, bytes: Seq<u8>)
    requires
        a != b,
    ensures
        digest::image_key(a, bytes) != digest::image_key(b, bytes),
{
    let tail = ":"@ + text::hex_nat(digest::fnv(bytes) as nat) + "-"@ + text::dec_nat(bytes.len());
    let x = digest::image_key(a, bytes);
    let y = digest::image_key(b, bytes);
    let p = "img:"@.len() as int;
    assert(x == "img:"@ + a + tail);
    assert(y == "img:"@ + b + tail);
    if x == y {
        assert(a.len() == b.len());
        assert(x.subrange(p, p + a.len()) == a);
        assert(y.subrange(p, p + b.len()) == b);
    }
}

} // verus!
