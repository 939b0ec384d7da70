//! What holds of the window whatever is shown in it.

use super::app;
use super::app::{App, AppView, Effect, EffectView, Key, Message, Modifiers};
use super::filter;
use super::search;
use super::update;
use crate::config::Config;
use crate::confirm;
use crate::order;
use crate::store::{Clip, ClipView, MENU_LIMIT};
use crate::text;
use vstd::prelude::*;

verus! {

/// When the rows change, the selection stays on its entry as long as that is
/// drawn.
pub proof fn law_selection_follows_its_entry(s: AppView, id: int, row: int)
    requires
        s.selected_id == Some(id),
        0 <= row < s.visible_len(),
        s.filtered()[row].id == id,
    ensures
        s.relocate().selected_id == Some(id),
        s.relocate().target() is Some,
        s.relocate().target()->0.id == id,
{
    lemma_first_is_first(s.filtered(), id, row);
    app::lemma_first_with_id(s.filtered(), id);
}

proof fn lemma_first_is_first(rows: Seq<ClipView>, id: int, row: int)
    requires
        0 <= row < rows.len(),
        rows[row].id == id,
    ensures
        app::first_with_id(rows, id) <= row,
    decreases rows.len(),
{
    if rows[0].id != id {
        assert(rows.skip(1)[row - 1] == rows[row]);
        lemma_first_is_first(rows.skip(1), id, row - 1);
    }
}

/// Search results that are for another query, or for a list that was read again
/// since, change nothing.
pub proof fn law_stale_results_are_dropped(
    s: AppView,
    p: Option<Seq<char>>,
    query: Seq<char>,
    gen: u64,
    hits: Seq<ClipView>,
)
    requires
        query != s.query || gen != s.clips_gen,
    ensures
        app::on_search_done(s, p, query, gen, hits).app == s,
{
}

/// Without a query the window shows the loaded entries in their order.
pub proof fn law_no_query_shows_the_list(s: AppView)
    requires
        s.query.len() == 0,
    ensures
        s.filtered() == s.clips,
{
    assert(!s.shows_hits());
    assert(s.filtered() =~= s.clips);
}

proof fn lemma_matching_increases(texts: Seq<Seq<char>>, q: Seq<char>, n: nat)
    requires
        n <= texts.len(),
    ensures
        ({
            let p = |i: int| search::score_of(q, texts[i]) is Some;
            let m = filter::all_positions(n).filter(p);
            &&& forall|x: int| 0 <= x < m.len() ==> 0 <= #[trigger] m[x] < n
            &&& forall|x: int, y: int| 0 <= x < y < m.len() ==> #[trigger] m[x] < #[trigger] m[y]
        }),
    decreases n,
{
    reveal(Seq::filter);
    let p = |i: int| search::score_of(q, texts[i]) is Some;
    if n > 0 {
        let k = (n - 1) as nat;
        lemma_matching_increases(texts, q, k);
        assert(filter::all_positions(n).drop_last() =~= filter::all_positions(k));
        let front = filter::all_positions(k).filter(p);
        let m = filter::all_positions(n).filter(p);
        assert(m =~= front || m =~= front.push(n - 1));
    }
}

/// What is shown for a query: the entries that match it and no others, except
/// that search results of which none matches are all shown.
pub proof fn law_shown_entries_match(s: AppView)
    requires
        s.query.len() > 0,
    ensures
        ({
            let q = filter::lowercase(s.query);
            ||| s.shows_hits() && s.filtered() == s.hits && forall|i: int|
                0 <= i < s.hits.len() ==> search::score_of(q, (#[trigger] s.hits[i]).text) is None
            ||| {
                &&& forall|i: int|
                    0 <= i < s.filtered().len() ==> search::score_of(
                        q,
                        (#[trigger] s.filtered()[i]).text,
                    ) is Some
                &&& forall|i: int|
                    0 <= i < s.source().len() && search::score_of(
                        q,
                        (#[trigger] s.source()[i]).text,
                    ) is Some ==> s.filtered().contains(s.source()[i])
            }
        }),
{
    let q = filter::lowercase(s.query);
    let texts = app::texts_of(s.source());
    let p = |i: int| search::score_of(q, texts[i]) is Some;
    let every = filter::all_positions(texts.len());
    let items = filter::matching(texts, q);
    let before = filter::better(texts, q);
    lemma_matching_increases(texts, q, texts.len());
    assert(items == every.filter(p));
    filter::lemma_better_asymmetric(texts, q);
    assert(order::comparable(items, before));
    assert(order::transitive(before));
    order::lemma_arrangement_exists(items, before);
    let best = filter::best_first(texts, q);
    assert forall|i: int| 0 <= i < s.source().len() && search::score_of(
        q,
        (#[trigger] s.source()[i]).text,
    ) is Some implies best.contains(i) by {
        assert(texts[i] == s.source()[i].text);
        assert(every[i] == i && p(every[i]));
        every.lemma_filter_contains(p, i);
        assert(items.contains(i));
    }
    if s.shows_hits() && best.len() == 0 {
        assert(s.filtered() =~= s.hits);
        assert forall|i: int| 0 <= i < s.hits.len() implies search::score_of(
            q,
            (#[trigger] s.hits[i]).text,
        ) is None by {
            assert(s.source()[i] == s.hits[i]);
        }
    } else {
        assert(s.places() == best);
        assert forall|i: int| 0 <= i < s.filtered().len() implies search::score_of(
            q,
            (#[trigger] s.filtered()[i]).text,
        ) is Some by {
            assert(best.contains(best[i]));
            assert(items.contains(best[i]));
            let k = choose|k: int| 0 <= k < items.len() && items[k] == best[i];
            every.lemma_filter_pred(p, k);
            assert(texts[best[i]] == s.source()[best[i]].text);
        }
        assert forall|i: int| 0 <= i < s.source().len() && search::score_of(
            q,
            (#[trigger] s.source()[i]).text,
        ) is Some implies s.filtered().contains(s.source()[i]) by {
            assert(best.contains(i));
            let k = choose|k: int| 0 <= k < best.len() && best[k] == i;
            assert(s.filtered()[k] == s.source()[i]);
        }
    }
}

/// Whatever happens, no more images are kept than fit.
pub proof fn law_image_cache_is_bounded(
    s: AppView,
    p: Option<Seq<char>>,
    now_ms: nat,
    m: Message,
)
    requires
        s.cached.len() <= app::IMAGE_CACHE_CAP,
    ensures
        app::updated(s, p, now_ms, m).app.cached.len() <= app::IMAGE_CACHE_CAP,
{
    let r = app::refreshed(s, p, now_ms);
    assert(r.cached == s.cached);
    let t = app::on_message(r, p, now_ms, m);
    if let Message::ImageReady { id, ok } = m {
        assert(t == app::on_image(r, p, id as int, ok));
    } else {
        lemma_cached_stays(r, p, now_ms, m);
    }
    assert(app::decoding_asked(t).app.cached == t.app.cached);
}

proof fn lemma_cached_stays(s: AppView, p: Option<Seq<char>>, now_ms: nat, m: Message)
    requires
        !(m is ImageReady),
    ensures
        app::on_message(s, p, now_ms, m).app.cached == s.cached,
{
    match m {
        Message::Query(q) => {
            assert(app::on_query(s, p, q@).app.cached == s.cached);
        },
        Message::Key(k, mods) => {
            lemma_cached_stays_on_key(s, p, now_ms, k, mods);
        },
        Message::PinFinished { ok, clips } => {
            lemma_cached_stays_on_list(s, p, app::opt_clips(clips), app::report_unless(s, ok, "固定/取消固定失败"@));
        },
        Message::DeleteFinished { ok, clips } => {
            lemma_cached_stays_on_list(s, p, app::opt_clips(clips), app::report_unless(s, ok, "删除失败"@));
        },
        Message::ListReloaded(clips) => {
            lemma_cached_stays_on_list(s, p, app::opt_clips(clips), Seq::empty());
        },
        Message::DeleteReloaded(clips) => {
            lemma_cached_stays_on_list(s, p, app::opt_clips(clips), Seq::empty());
        },
        _ => {},
    }
}

proof fn lemma_cached_stays_on_list(
    s: AppView,
    p: Option<Seq<char>>,
    clips: Option<Seq<ClipView>>,
    first: Seq<EffectView>,
)
    ensures
        app::on_list(s, p, clips, first).app.cached == s.cached,
        app::on_quiet_list(s, p, clips, first).app.cached == s.cached,
{
}

proof fn lemma_cached_stays_on_key(
    s: AppView,
    p: Option<Seq<char>>,
    now_ms: nat,
    k: Key,
    m: Modifiers,
)
    ensures
        app::on_key(s, p, now_ms, k, m).app.cached == s.cached,
{
    match k {
        Key::Up => {
            assert(app::on_move(s, p, -1).app.cached == s.cached);
        },
        Key::Down => {
            assert(app::on_move(s, p, 1).app.cached == s.cached);
        },
        Key::Escape => {
            assert(app::on_escape(s, p).app.cached == s.cached);
        },
        Key::Character(c) => {
            assert(app::on_delete(s, p, now_ms).app.cached == s.cached);
            assert(app::on_quick(s, p, app::quick_row(c@)->0).app.cached == s.cached);
        },
        _ => {},
    }
}

/// A pinned entry is not deleted by one request. A second one that comes in time
/// deletes it, and one that comes too late starts anew.
pub proof fn law_window_asks_twice(
    s: AppView,
    p: Option<Seq<char>>,
    first_ms: nat,
    second_ms: nat,
)
    requires
        s.target() is Some,
        s.target()->0.pinned,
        i64::MIN <= s.target()->0.id <= i64::MAX,
        first_ms <= u128::MAX,
        confirm::armed(p, first_ms) != Some(s.target()->0.id),
    ensures
        ({
            let id = s.target()->0.id;
            let t = app::on_delete(s, p, first_ms);
            let u = app::on_delete(t.app, t.pending, second_ms);
            &&& t.effects.len() == 0
            &&& t.app.confirm_delete
            &&& if second_ms <= first_ms + confirm::PENDING_TTL_MS {
                u.effects == seq![EffectView::Delete { id }] && !u.app.confirm_delete
            } else {
                u.effects.len() == 0 && u.app.confirm_delete
            }
        }),
{
    confirm::law_pinned_needs_two_requests(p, s.target()->0.id, first_ms, second_ms);
    let t = app::on_delete(s, p, first_ms).app;
    assert(t.places() == s.places());
    assert(t.source() == s.source());
    assert(t.filtered() == s.filtered());
}

/// When the selected entry is deleted, the one below it is selected, or the one
/// above it where it was the last.
pub proof fn law_deletion_selects_the_neighbour(
    s: AppView,
    p: Option<Seq<char>>,
    first: Seq<EffectView>,
)
    requires
        s.query.len() == 0,
        s.clips.len() <= MENU_LIMIT,
        s.settled(),
        s.target() is Some,
        forall|i: int, j: int|
            0 <= i < j < s.clips.len() ==> (#[trigger] s.clips[i]).id != (#[trigger] s.clips[j]).id,
    ensures
        ({
            let k = s.selected;
            let t = app::on_quiet_list(s, p, Some(s.clips.remove(k)), first).app;
            if k + 1 < s.clips.len() {
                t.target() == Some(s.clips[k + 1])
            } else if k > 0 {
                t.target() == Some(s.clips[k - 1])
            } else {
                t.target() is None
            }
        }),
{
    law_no_query_shows_the_list(s);
    let k = s.selected;
    let rest = s.clips.remove(k);
    let u = AppView { mouse_follow: false, ..s.loaded(rest).search_asked() };
    let t = app::on_quiet_list(s, p, Some(rest), first).app;
    law_no_query_shows_the_list(u);
    law_no_query_shows_the_list(u.relocate());
    law_no_query_shows_the_list(t);
    app::lemma_first_with_id(rest, s.clips[k].id);
    let f = app::first_with_id(rest, s.clips[k].id);
    if f < rest.len() {
        if f < k {
            assert(rest[f] == s.clips[f]);
        } else {
            assert(rest[f] == s.clips[f + 1]);
        }
        assert(false);
    }
}

/// The entries that match are ranked: the better score first, and of equal scores the
/// one that comes first in the list. Every entry with a score is there, once.
pub proof fn law_best_match_comes_first(texts: Seq<Seq<char>>, q: Seq<char>, i: int)
    ensures
        ({
            let best = filter::best_first(texts, q);
            &&& best.contains(i) <==> 0 <= i < texts.len() && search::score_of(q, texts[i]) is Some
            &&& forall|x: int, y: int|
                0 <= x < y < best.len() ==> {
                    let a = search::score_of(q, texts[#[trigger] best[x]])->0;
                    let b = search::score_of(q, texts[#[trigger] best[y]])->0;
                    a > b || (a == b && best[x] < best[y])
                }
        }),
{
    let p = |i: int| search::score_of(q, texts[i]) is Some;
    let every = filter::all_positions(texts.len());
    let items = filter::matching(texts, q);
    let before = filter::better(texts, q);
    lemma_matching_increases(texts, q, texts.len());
    filter::lemma_better_asymmetric(texts, q);
    assert(order::comparable(items, before));
    assert(order::transitive(before));
    order::lemma_arrangement_exists(items, before);
    let best = filter::best_first(texts, q);
    if 0 <= i < texts.len() && search::score_of(q, texts[i]) is Some {
        assert(every[i] == i && p(every[i]));
        every.lemma_filter_contains(p, i);
        assert(items.contains(i));
    }
    if best.contains(i) {
        assert(items.contains(i));
        let k = choose|k: int| 0 <= k < items.len() && items[k] == i;
        every.lemma_filter_pred(p, k);
        every.lemma_filter_contains_rev(p, i);
    }
    assert forall|x: int, y: int| 0 <= x < y < best.len() implies {
        let a = search::score_of(q, texts[#[trigger] best[x]])->0;
        let b = search::score_of(q, texts[#[trigger] best[y]])->0;
        a > b || (a == b && best[x] < best[y])
    } by {
        assert(before(best[x], best[y]));
    }
}

/// At most three hundred rows are drawn, and all where there are fewer.
pub proof fn law_window_is_limited(s: AppView)
    ensures
        s.visible_len() == if s.filtered().len() < 300 {
            s.filtered().len()
        } else {
            300
        },
{
}

/// Whether the window shows the same entries, for the same query.
pub open spec fn same_rows(s: AppView, t: AppView) -> bool {
    &&& t.clips == s.clips && t.clips_gen == s.clips_gen && t.query == s.query
    &&& t.hits == s.hits && t.hits_query == s.hits_query && t.hits_gen == s.hits_gen
}

/// Enter copies the entry of the selected row and closes the window; the key to copy
/// and stay copies the same entry and does not close it. Nothing else changes.
pub proof fn law_enter_copies_the_selected_entry(
    s: AppView,
    p: Option<Seq<char>>,
    now_ms: nat,
    m: Modifiers,
)
    requires
        0 <= s.selected < s.filtered().len(),
    ensures
        ({
            let c = s.filtered()[s.selected];
            let t = app::on_key(s, p, now_ms, Key::Enter, m);
            let u = app::on_character(s, p, now_ms, "y"@, true, m.alt);
            &&& t.app == s && t.pending == p
            &&& t.effects == seq![EffectView::Copy { id: c.id, exit: true }]
            &&& u.app == s && u.pending == p
            &&& u.effects == seq![EffectView::Copy { id: c.id, exit: false }]
        }),
{
    reveal_strlit("y");
    reveal_strlit("/");
    reveal_strlit("f");
    assert("y"@[0] != "/"@[0] && "y"@[0] != "f"@[0]);
}

/// A digit picks the row that bears it, the zero the tenth: its entry is selected,
/// copied, and the window closes. With no row of that number nothing happens.
pub proof fn law_digits_pick_their_rows(
    s: AppView,
    p: Option<Seq<char>>,
    now_ms: nat,
    d: char,
    alt: bool,
)
    requires
        '0' <= d <= '9',
        alt || s.query.len() == 0,
    ensures
        ({
            let row = if d == '0' {
                9
            } else {
                d as int - '1' as int
            };
            let t = app::on_character(s, p, now_ms, seq![d], false, alt);
            if row < s.visible_len() {
                &&& t.app.selected == row
                &&& t.app.selected_id == Some(s.filtered()[row].id)
                &&& same_rows(s, t.app)
                &&& t.effects == seq![EffectView::Copy { id: s.filtered()[row].id, exit: true }]
            } else {
                t.app == s && t.effects.len() == 0
            }
        }),
{
    reveal_strlit("/");
    assert(seq![d][0] == d);
    let row = app::quick_row(seq![d])->0;
    let t = s.select(row);
    assert(t.places() == s.places());
    assert(t.filtered() == s.filtered());
}

/// The arrow keys move the selection by one row and stop at the first and the last; the
/// selected entry is that of the row. A pending confirmation ends where the row changes.
pub proof fn law_arrows_move_by_one(
    s: AppView,
    p: Option<Seq<char>>,
    now_ms: nat,
    m: Modifiers,
    down: bool,
)
    requires
        s.settled(),
    ensures
        ({
            let k = if down {
                Key::Down
            } else {
                Key::Up
            };
            let n = s.visible_len();
            let t = app::on_key(s, p, now_ms, k, m);
            let next = if down {
                if s.selected + 1 < n {
                    s.selected + 1
                } else {
                    s.selected
                }
            } else if s.selected > 0 {
                s.selected - 1
            } else {
                s.selected
            };
            &&& n > 0 ==> t.app.selected == next && t.app.selected_id == Some(s.filtered()[next].id)
            &&& n == 0 ==> t.app.selected == s.selected
            &&& same_rows(s, t.app)
            &&& !t.app.mouse_follow
            &&& t.app.selected != s.selected ==> !t.app.confirm_delete
            &&& t.app.selected == s.selected ==> t.app.confirm_delete == s.confirm_delete
            &&& t.pending == if t.app.selected != s.selected && s.confirm_delete {
                None
            } else {
                p
            }
            &&& n > 0 ==> t.effects == seq![EffectView::Scroll]
            &&& n == 0 ==> t.effects.len() == 0
        }),
{
    let t = AppView { mouse_follow: false, ..s };
    assert(t.places() == s.places());
    assert(t.filtered() == s.filtered());
}

/// A new query is looked for: the first row is selected, a pending confirmation ends,
/// and the whole history is searched for it unless that was done or it is blank.
pub proof fn law_new_query_is_looked_for(s: AppView, p: Option<Seq<char>>, q: Seq<char>)
    requires
        q != s.query,
    ensures
        ({
            let t = app::on_query(s, p, q);
            let known = s.hits_query == q && s.hits_gen == s.clips_gen;
            &&& t.app.query == q
            &&& t.app.selected == 0
            &&& t.app.clips == s.clips && t.app.clips_gen == s.clips_gen && t.app.hits == s.hits
            &&& !t.app.confirm_delete
            &&& t.pending == if s.confirm_delete {
                None
            } else {
                p
            }
            &&& t.app.hits_query == if text::trimmed(q).len() > 0 && known {
                q
            } else {
                Seq::empty()
            }
            &&& t.effects.contains(EffectView::Scroll)
            &&& text::trimmed(q).len() > 0 && !known ==> t.effects.contains(
                EffectView::Search { query: text::trimmed(q), gen: s.clips_gen },
            )
            &&& forall|x: Seq<char>, gen: u64|
                #[trigger] t.effects.contains(EffectView::Search { query: x, gen }) ==> x
                    == text::trimmed(q) && x.len() > 0 && gen == s.clips_gen && !known
        }),
{
    let t = app::on_query(s, p, q);
    let u = AppView { query: q, ..s };
    assert(t.effects[0] == EffectView::Scroll);
    if text::trimmed(q).len() > 0 && !u.searched() {
        assert(t.effects[1] == EffectView::Search { query: text::trimmed(q), gen: s.clips_gen });
    }
}

/// Search results that are for the query and the list as they are become what is
/// searched in.
pub proof fn law_fresh_results_are_taken(
    s: AppView,
    p: Option<Seq<char>>,
    hits: Seq<ClipView>,
)
    requires
        s.query.len() > 0,
        hits.len() > 0,
    ensures
        ({
            let t = app::on_search_done(s, p, s.query, s.clips_gen, hits).app;
            &&& t.hits == hits
            &&& t.source() == hits
            &&& t.query == s.query && t.clips == s.clips
        }),
{
    let t = app::on_search_done(s, p, s.query, s.clips_gen, hits).app;
    assert(app::texts_of(t.hits).len() == hits.len());
}

/// Escape first leaves the search and its query, then a pending confirmation, and then
/// the window.
pub proof fn law_escape_leaves_step_by_step(s: AppView, p: Option<Seq<char>>)
    ensures
        ({
            let t = app::on_escape(s, p);
            let closes = t.effects.contains(EffectView::Exit);
            &&& closes <==> !s.search_mode && s.query.len() == 0 && !s.confirm_delete
            &&& t.app.query.len() == 0
            &&& !t.app.search_mode
            &&& !t.app.confirm_delete
            &&& s.confirm_delete ==> t.pending is None
            &&& t.app.clips == s.clips
        }),
{
    let t = app::on_escape(s, p);
    if s.search_mode || s.query.len() > 0 {
        assert(t.effects[0] == EffectView::BlurSearch && t.effects[1] == EffectView::Scroll);
    } else if !s.confirm_delete {
        assert(t.effects[0] == EffectView::Exit);
    }
}

/// The keys to pin and to delete act on the selected entry: the pin is turned over, and
/// an entry without a pin is deleted at once. Without a selected entry they do nothing.
pub proof fn law_keys_act_on_the_selected_entry(
    s: AppView,
    p: Option<Seq<char>>,
    now_ms: nat,
    alt: bool,
)
    ensures
        ({
            let pin = app::on_character(s, p, now_ms, "p"@, true, alt);
            let del = app::on_character(s, p, now_ms, "x"@, true, alt);
            if 0 <= s.selected < s.filtered().len() {
                let c = s.filtered()[s.selected];
                &&& pin.app == s && pin.effects == seq![EffectView::TogglePin { id: c.id }]
                &&& !c.pinned ==> del.effects == seq![EffectView::Delete { id: c.id }]
                &&& del.effects.len() > 0 ==> del.effects == seq![EffectView::Delete { id: c.id }]
            } else {
                pin.effects.len() == 0 && del.effects.len() == 0 && pin.app == s && del.app == s
            }
        }),
{
    reveal_strlit("p");
    reveal_strlit("x");
    reveal_strlit("y");
    reveal_strlit("/");
    reveal_strlit("f");
    assert("p"@[0] != "/"@[0] && "p"@[0] != "f"@[0] && "p"@[0] != "y"@[0]);
    assert("x"@[0] != "/"@[0] && "x"@[0] != "f"@[0] && "x"@[0] != "y"@[0] && "x"@[0] != "p"@[0]);
}

/// A click copies the entry of the row that was clicked, and closes the window or not
/// as asked.
pub proof fn law_click_copies_its_row(s: AppView, p: Option<Seq<char>>, i: int, exit: bool)
    requires
        0 <= i < s.visible_len(),
    ensures
        ({
            let t = app::on_pick(s, p, i, exit);
            &&& t.app.selected == i
            &&& t.app.selected_id == Some(s.filtered()[i].id)
            &&& same_rows(s, t.app)
            &&& t.effects.contains(EffectView::Copy { id: s.filtered()[i].id, exit })
            &&& t.effects.contains(EffectView::Scroll)
            &&& t.pending == p
            &&& forall|id: int, e: bool|
                #[trigger] t.effects.contains(EffectView::Copy { id, exit: e }) ==> id
                    == s.filtered()[i].id && e == exit
        }),
{
    let u = s.select(i);
    assert(u.places() == s.places());
    assert(u.filtered() == s.filtered());
    let t = app::on_pick(s, p, i, exit);
    assert(t.effects[0] == EffectView::Scroll);
    assert(t.effects[1] == EffectView::Copy { id: s.filtered()[i].id, exit });
}

/// The pointer takes the selection only where it was moved by hand, and only over a row.
pub proof fn law_pointer_selects_after_it_moved(s: AppView, p: Option<Seq<char>>, i: int)
    requires
        i >= 0,
    ensures
        ({
            let t = app::on_hover(s, p, i).app;
            if s.mouse_follow && i < s.visible_len() {
                &&& t.selected == i && t.selected_id == Some(s.filtered()[i].id) && same_rows(s, t)
                &&& !t.confirm_delete
                &&& s.confirm_delete ==> app::on_hover(s, p, i).pending is None
            } else {
                t == s && app::on_hover(s, p, i).pending == p
            }
        }),
        app::on_hover(s, p, i).effects.len() == 0,
{
}

/// After a copy the window closes or starts anew as asked; a failure is reported, and
/// only a failure.
pub proof fn law_copies_end_as_asked(s: AppView, p: Option<Seq<char>>, exit: bool, ok: bool)
    ensures
        ({
            let t = app::on_copied(s, p, exit, ok);
            &&& t.effects.contains(EffectView::Exit) <==> exit
            &&& t.effects.contains(EffectView::ReloadList) <==> !exit
            &&& (exists|m: Seq<char>, n: bool| #[trigger]
                t.effects.contains(EffectView::Report { message: m, notify: n })) <==> !ok
            &&& exit ==> t.app == s
            &&& !exit ==> t.app.query.len() == 0 && t.app.selected == 0 && t.app.clips == s.clips
        }),
{
    let t = app::on_copied(s, p, exit, ok);
    let k = if ok {
        0int
    } else {
        1
    };
    if !ok {
        assert(t.effects[0] == EffectView::Report {
            message: "复制失败"@,
            notify: s.notify_enabled,
        });
        assert(t.effects.contains(
            EffectView::Report { message: "复制失败"@, notify: s.notify_enabled },
        ));
    }
    if exit {
        assert(t.effects[k] == EffectView::Exit);
        assert(t.effects.len() == k + 1);
    } else {
        assert(t.effects[k] == EffectView::ReloadList);
        assert(t.effects[k + 1] == EffectView::Scroll);
        assert(t.effects.len() == k + 2);
    }
}

/// A list that was read again is shown from then on, and counts as another list; one
/// that could not be read changes nothing.
pub proof fn law_reloaded_list_is_shown(
    s: AppView,
    p: Option<Seq<char>>,
    clips: Seq<ClipView>,
    first: Seq<EffectView>,
)
    ensures
        ({
            let t = app::on_list(s, p, Some(clips), first).app;
            let u = app::on_quiet_list(s, p, Some(clips), first).app;
            &&& t.clips == clips && u.clips == clips
            &&& t.clips_gen != s.clips_gen && u.clips_gen != s.clips_gen
            &&& t.query == s.query && u.query == s.query
            &&& t.hits == s.hits && u.hits == s.hits
            &&& !u.confirm_delete && (s.confirm_delete ==> app::on_quiet_list(
                s,
                p,
                Some(clips),
                first,
            ).pending is None)
            &&& app::on_list(s, p, Some(clips), first).effects.take(first.len() as int) == first
            &&& app::on_quiet_list(s, p, Some(clips), first).effects.take(first.len() as int) == first
            &&& text::trimmed(s.query).len() > 0 && s.hits_gen != t.clips_gen ==> app::on_list(
                s,
                p,
                Some(clips),
                first,
            ).effects.contains(
                EffectView::Search { query: text::trimmed(s.query), gen: t.clips_gen },
            )
        }),
        app::on_list(s, p, None, first).app == s,
        app::on_quiet_list(s, p, None, first).app == s,
        app::on_list(s, p, None, first).effects == first,
        app::on_quiet_list(s, p, None, first).effects == first,
{
    assert(s.clips_gen.wrapping_add(1) != s.clips_gen);
    let t = app::on_list(s, p, Some(clips), first);
    let u = app::on_quiet_list(s, p, Some(clips), first);
    assert(t.effects.take(first.len() as int) == first);
    assert(u.effects.take(first.len() as int) == first);
    if text::trimmed(s.query).len() > 0 && s.hits_gen != t.app.clips_gen {
        assert(t.effects[first.len() as int + 1] == EffectView::Search {
            query: text::trimmed(s.query),
            gen: t.app.clips_gen,
        });
    }
}

/// An image is decoded where it is the selected entry, images are shown, and it was not
/// decoded, is not being decoded and did not fail; and only there. Its own file is read.
pub proof fn law_selected_image_is_decoded(s: AppView)
    ensures
        ({
            let shown = 0 <= s.selected < s.filtered().len();
            let c = s.filtered()[s.selected];
            let due = {
                &&& shown && s.enable_preview && s.image_preview_enabled
                &&& text::has_prefix(c.mime, "image/"@) && c.image_path is Some
                &&& !s.cached.contains(c.id) && !s.decoding.contains(c.id)
                &&& !s.decode_failed.contains(c.id)
            };
            s.wanted_image() == if due {
                Some((c.id, c.image_path->0))
            } else {
                None
            }
        }),
{
}

/// A decoded image is the latest that is kept, in front of those kept before; one that
/// failed is not asked for again. Either way it is no longer being decoded.
pub proof fn law_decoded_image_is_kept(s: AppView, p: Option<Seq<char>>, id: int, ok: bool)
    ensures
        ({
            let t = app::on_image(s, p, id, ok).app;
            &&& !t.decoding.contains(id)
            &&& ok ==> t.cached.len() > 0 && t.cached[0] == id
            &&& ok ==> forall|i: int| 0 < i < t.cached.len() ==> #[trigger] t.cached[i] == s.cached[i - 1]
            &&& ok && s.cached.len() < 4 ==> t.cached.len() == s.cached.len() + 1
            &&& !ok ==> t.cached == s.cached && t.decode_failed.contains(id)
            &&& forall|x: int| x != id ==> (s.decoding.contains(x) <==> #[trigger] t.decoding.contains(x))
        }),
{
}

/// Search results are shown where there are some, and they are those of the query and of
/// the list as they are; and only there.
pub proof fn law_results_are_shown_while_fresh(s: AppView)
    ensures
        s.shows_hits() <==> s.query.len() > 0 && s.hits.len() > 0 && s.hits_query == s.query
            && s.hits_gen == s.clips_gen,
        s.source() == if s.shows_hits() {
            s.hits
        } else {
            s.clips
        },
{
    assert(app::texts_of(s.hits).len() == s.hits.len());
}

/// The window opens with the list as it is, without a query, on the first row.
pub proof fn law_window_opens_on_the_first_row(clips: Seq<ClipView>, cfg: Config)
    ensures
        ({
            let s = update::opened(clips, cfg);
            &&& s.clips == clips && s.filtered() == clips
            &&& s.query.len() == 0 && !s.search_mode && !s.confirm_delete
            &&& s.selected == 0
            &&& clips.len() > 0 ==> s.selected_id == Some(clips[0].id)
            &&& s.preview_width == cfg.preview_width
            &&& s.image_preview_enabled == cfg.enable_image_preview
            &&& s.enable_preview == cfg.enable_preview && s.notify_enabled == cfg.notify_enabled
        }),
{
    law_no_query_shows_the_list(update::blank(clips, cfg));
    law_no_query_shows_the_list(update::opened(clips, cfg));
}

/// The keys for the search open it; nothing else does.
pub proof fn law_search_is_opened_by_its_keys(
    s: AppView,
    p: Option<Seq<char>>,
    now_ms: nat,
    c: Seq<char>,
    control: bool,
    alt: bool,
)
    ensures
        ({
            let t = app::on_character(s, p, now_ms, c, control, alt);
            let asked = (c == "/"@ && !control) || (c == "f"@ && control);
            &&& t.app.search_mode <==> s.search_mode || asked
            &&& t.effects.contains(EffectView::FocusSearch) <==> !s.search_mode && asked
            &&& t.app.query == s.query && t.app.clips == s.clips && t.app.hits == s.hits
        }),
{
    let t = app::on_character(s, p, now_ms, c, control, alt);
    let asked = (c == "/"@ && !control) || (c == "f"@ && control);
    if !s.search_mode && asked {
        assert(t.effects[0] == EffectView::FocusSearch);
    } else {
        assert(t.effects.len() <= 1);
        if t.effects.len() == 1 {
            assert(t.effects[0] != EffectView::FocusSearch);
        }
    }
}

/// What the mouse and the window system tell leads to what it is for: a click copies and
/// closes, one with the right button copies and stays, a move lets the selection follow
/// the pointer, and a focus reads the list again.
pub proof fn law_messages_of_the_mouse(
    s: AppView,
    p: Option<Seq<char>>,
    now_ms: nat,
    i: usize,
)
    requires
        i < s.visible_len(),
    ensures
        app::on_message(s, p, now_ms, Message::Pick(i)).effects.contains(
            EffectView::Copy { id: s.filtered()[i as int].id, exit: true },
        ),
        app::on_message(s, p, now_ms, Message::PickStay(i)).effects.contains(
            EffectView::Copy { id: s.filtered()[i as int].id, exit: false },
        ),
        app::on_message(s, p, now_ms, Message::MouseMove).app == (AppView {
            mouse_follow: true,
            ..s
        }),
        app::on_message(s, p, now_ms, Message::Refocus).effects == seq![EffectView::ReloadQuietly],
        app::on_message(s, p, now_ms, Message::Refocus).app == s,
        s.mouse_follow ==> app::on_message(s, p, now_ms, Message::Hover(i)).app.selected == i,
        app::on_message(s, p, now_ms, Message::Tick).app == s,
{
    law_click_copies_its_row(s, p, i as int, true);
    law_click_copies_its_row(s, p, i as int, false);
    law_pointer_selects_after_it_moved(s, p, i as int);
}

/// A confirmation that came too late is no longer waited for; apart from that, and from
/// an image that is to be decoded, what a message leads to is what the message is for.
pub proof fn law_turns_follow_their_messages(
    s: AppView,
    p: Option<Seq<char>>,
    now_ms: nat,
    m: Message,
)
    ensures
        ({
            let r = app::refreshed(s, p, now_ms);
            let t = app::on_message(r, p, now_ms, m);
            let u = app::updated(s, p, now_ms, m);
            &&& r.confirm_delete <==> s.confirm_delete && confirm::armed(p, now_ms) is Some
            &&& r == (AppView { confirm_delete: r.confirm_delete, ..s })
            &&& u.pending == t.pending
            &&& u.app == (AppView { decoding: u.app.decoding, ..t.app })
            &&& u.effects.len() >= t.effects.len()
            &&& u.effects.take(t.effects.len() as int) == t.effects
            &&& t.app.wanted_image() matches Some((id, path)) ==> u.effects == t.effects.push(
                EffectView::Decode { id, path },
            ) && u.app.decoding.contains(id)
            &&& t.app.wanted_image() is None ==> u == t
        }),
{
    let r = app::refreshed(s, p, now_ms);
    let t = app::on_message(r, p, now_ms, m);
    let u = app::updated(s, p, now_ms, m);
    assert(u.effects.take(t.effects.len() as int) == t.effects);
    if t.app.wanted_image() is Some {
        assert(u.effects == t.effects.push(u.effects.last()));
    }
}

/// A key without a meaning of its own does nothing.
pub proof fn law_other_keys_do_nothing(
    s: AppView,
    p: Option<Seq<char>>,
    now_ms: nat,
    c: Seq<char>,
    alt: bool,
)
    requires
        c != "/"@,
        c.len() != 1 || !('0' <= c[0] <= '9'),
    ensures
        app::on_character(s, p, now_ms, c, false, alt) == (app::Turn {
            app: s,
            pending: p,
            effects: Seq::empty(),
        }),
{
}

/// When the selected entry is drawn no longer, the selection stays in its row, or goes to
/// the last where there are fewer.
pub proof fn law_selection_stays_in_its_row(s: AppView)
    requires
        s.selected >= 0,
        s.visible_len() > 0,
        s.selected_id is None || forall|i: int|
            0 <= i < s.visible_len() ==> (#[trigger] s.filtered()[i]).id != s.selected_id->0,
    ensures
        ({
            let t = s.relocate();
            &&& t.selected == if s.selected < s.visible_len() {
                s.selected
            } else {
                s.visible_len() - 1
            }
            &&& t.selected_id == Some(s.filtered()[t.selected].id)
        }),
{
    if s.selected_id is Some {
        let f = app::first_with_id(s.filtered(), s.selected_id->0);
        app::lemma_first_with_id(s.filtered(), s.selected_id->0);
        if f < s.visible_len() {
            assert(s.filtered()[f].id != s.selected_id->0);
        }
    }
}

/// What contracts speak of is what the window and its effects hold.
pub proof fn law_window_is_its_fields(a: App, v: Seq<Effect>, clips: Option<Vec<Clip>>, i: int)
    ensures
        a@.search_mode == a.search_mode && a@.query == a.query@,
        a@.clips.len() == a.clips.len() && a@.clips_gen == a.clips_gen,
        0 <= i < a.clips.len() ==> a@.clips[i] == a.clips@[i]@,
        a@.hits.len() == a.search_hits.len() && a@.hits_gen == a.search_hits_gen,
        0 <= i < a.search_hits.len() ==> a@.hits[i] == a.search_hits@[i]@,
        a@.hits_query == a.search_hits_query@,
        a@.selected == a.selected && a@.confirm_delete == a.confirm_delete,
        a@.mouse_follow == a.mouse_follow && a@.preview_width == a.preview_width,
        a.selected_id matches Some(id) ==> a@.selected_id == Some(id as int),
        a.selected_id is None ==> a@.selected_id is None,
        a@.cached.len() == a.cached.len(),
        0 <= i < a.cached.len() ==> a@.cached[i] == a.cached@[i],
        a@.image_preview_enabled == a.image_preview_enabled,
        a@.enable_preview == a.enable_preview && a@.notify_enabled == a.notify_enabled,
        app::effects_view(v).len() == v.len(),
        0 <= i < v.len() ==> match v[i] {
            Effect::Scroll => app::effects_view(v)[i] is Scroll,
            Effect::Copy { id, exit } => app::effects_view(v)[i] == (EffectView::Copy {
                id: id as int,
                exit,
            }),
            Effect::ReloadList => app::effects_view(v)[i] is ReloadList,
            Effect::ReloadQuietly => app::effects_view(v)[i] is ReloadQuietly,
            Effect::TogglePin { id } => app::effects_view(v)[i] == (EffectView::TogglePin {
                id: id as int,
            }),
            Effect::Delete { id } => app::effects_view(v)[i] == (EffectView::Delete {
                id: id as int,
            }),
            Effect::Search { query, gen } => app::effects_view(v)[i] == (EffectView::Search {
                query: query@,
                gen,
            }),
            Effect::FocusSearch => app::effects_view(v)[i] is FocusSearch,
            Effect::BlurSearch => app::effects_view(v)[i] is BlurSearch,
            Effect::Exit => app::effects_view(v)[i] is Exit,
            Effect::Report { message, notify } => app::effects_view(v)[i] == (EffectView::Report {
                message: message@,
                notify,
            }),
            Effect::Decode { id, path } => app::effects_view(v)[i] == (EffectView::Decode {
                id: id as int,
                path: path@,
            }),
        },
        clips is None <==> app::opt_clips(clips) is None,
        clips matches Some(c) ==> app::opt_clips(clips)->0.len() == c.len() && (0 <= i < c.len()
            ==> app::opt_clips(clips)->0[i] == c@[i]@),
{
}

} // verus!
