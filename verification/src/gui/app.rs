//! The state of the window and its transitions.
//!
//! A message changes the state and asks for effects; what the effects lead to
//! comes back as further messages. Whatever the messages, the selected row is
//! one that is shown, and its identity is known.

use super::filter;
use crate::confirm;
use crate::confirm::Decision;
use crate::order;
use crate::store;
use crate::store::transfer;
use crate::store::{Clip, ClipView, MENU_LIMIT};
use crate::text;
use vstd::prelude::*;

verus! {

/// How many decoded images are kept.
pub const IMAGE_CACHE_CAP: usize = 4;

/// A key that was pressed.
#[derive(Debug, Clone)]
pub enum Key {
    Up,
    Down,
    Escape,
    Enter,
    /// A key with a character.
    Character(String),
    Other,
}

/// The modifiers held with a key.
#[derive(Debug, Clone, Copy)]
pub struct Modifiers {
    pub control: bool,
    pub alt: bool,
}

/// What can happen to the window.
#[derive(Debug)]
pub enum Message {
    /// The query in the input field changed.
    Query(String),
    /// A search of the whole history is done.
    SearchDone { query: String, gen: u64, hits: Vec<Clip> },
    Key(Key, Modifiers),
    /// Copy the selected entry, and close the window after that or not.
    Copy { exit: bool },
    CopyFinished { exit: bool, ok: bool },
    /// A pin was turned over; the list was read again if possible.
    PinFinished { ok: bool, clips: Option<Vec<Clip>> },
    /// An entry was deleted; the list was read again if possible.
    DeleteFinished { ok: bool, clips: Option<Vec<Clip>> },
    /// The list was read again after a change made here.
    ListReloaded(Option<Vec<Clip>>),
    /// The list was read again after a change made elsewhere.
    DeleteReloaded(Option<Vec<Clip>>),
    /// The window got the focus.
    Refocus,
    /// The pointer is over a row.
    Hover(usize),
    /// The pointer was moved by hand.
    MouseMove,
    /// A row was clicked.
    Pick(usize),
    /// A row was clicked with the right button.
    PickStay(usize),
    /// An image was decoded, or could not be.
    ImageReady { id: i64, ok: bool },
    /// Nothing but a reason to look for images to decode.
    Tick,
}

/// What the window asks for.
#[derive(Debug, Clone)]
pub enum Effect {
    /// Scroll the selected row into view.
    Scroll,
    /// Copy an entry in the background.
    Copy { id: i64, exit: bool },
    /// Read the list again after a change made here.
    ReloadList,
    /// Read the list again after a change made elsewhere.
    ReloadQuietly,
    /// Turn a pin over in the background and read the list again.
    TogglePin { id: i64 },
    /// Delete an entry in the background and read the list again.
    Delete { id: i64 },
    /// Search the whole history in the background.
    Search { query: String, gen: u64 },
    /// Give the input field the focus.
    FocusSearch,
    /// Take the focus from the input field.
    BlurSearch,
    /// Close the window.
    Exit,
    /// Tell that something failed: by a notification, or else in the log.
    Report { message: String, notify: bool },
    /// Decode an image file in the background.
    Decode { id: i64, path: String },
}

/// The contents of an effect.
pub enum EffectView {
    Scroll,
    Copy { id: int, exit: bool },
    ReloadList,
    ReloadQuietly,
    TogglePin { id: int },
    Delete { id: int },
    Search { query: Seq<char>, gen: u64 },
    FocusSearch,
    BlurSearch,
    Exit,
    Report { message: Seq<char>, notify: bool },
    Decode { id: int, path: Seq<char> },
}

impl View for Effect {
    type V = EffectView;

    open spec fn view(&self) -> EffectView {
        match self {
            Effect::Scroll => EffectView::Scroll,
            Effect::Copy { id, exit } => EffectView::Copy { id: *id as int, exit: *exit },
            Effect::ReloadList => EffectView::ReloadList,
            Effect::ReloadQuietly => EffectView::ReloadQuietly,
            Effect::TogglePin { id } => EffectView::TogglePin { id: *id as int },
            Effect::Delete { id } => EffectView::Delete { id: *id as int },
            Effect::Search { query, gen } => EffectView::Search { query: query@, gen: *gen },
            Effect::FocusSearch => EffectView::FocusSearch,
            Effect::BlurSearch => EffectView::BlurSearch,
            Effect::Exit => EffectView::Exit,
            Effect::Report { message, notify } => EffectView::Report {
                message: message@,
                notify: *notify,
            },
            Effect::Decode { id, path } => EffectView::Decode { id: *id as int, path: path@ },
        }
    }
}

/// The contents of a list of effects.
pub open spec fn effects_view(v: Seq<Effect>) -> Seq<EffectView> {
    v.map_values(|e: Effect| e@)
}

/// The state of the window.
#[derive(Debug)]
pub struct App {
    /// Whether the input field takes what is typed.
    pub search_mode: bool,
    /// The entries that are loaded.
    pub clips: Vec<Clip>,
    /// How often they were loaded.
    pub clips_gen: u64,
    /// The results of the last search, and what it was for.
    pub search_hits: Vec<Clip>,
    pub search_hits_query: String,
    pub search_hits_gen: u64,
    pub query: String,
    /// What is shown: whether search results, and which of them.
    pub from_hits: bool,
    pub idxs: Vec<usize>,
    pub selected: usize,
    /// The entry in the selected row.
    pub selected_id: Option<i64>,
    /// Whether a deletion waits for its confirmation.
    pub confirm_delete: bool,
    /// Whether the selection follows the pointer.
    pub mouse_follow: bool,
    /// The images that are decoded, the latest first.
    pub cached: Vec<i64>,
    pub decoding: Vec<i64>,
    pub decode_failed: Vec<i64>,
    pub preview_width: usize,
    pub image_preview_enabled: bool,
    pub enable_preview: bool,
    pub notify_enabled: bool,
}

/// The contents of the state.
pub struct AppView {
    pub search_mode: bool,
    pub clips: Seq<ClipView>,
    pub clips_gen: u64,
    pub hits: Seq<ClipView>,
    pub hits_query: Seq<char>,
    pub hits_gen: u64,
    pub query: Seq<char>,
    pub selected: int,
    pub selected_id: Option<int>,
    pub confirm_delete: bool,
    pub mouse_follow: bool,
    pub cached: Seq<int>,
    pub decoding: Set<int>,
    pub decode_failed: Set<int>,
    pub preview_width: nat,
    pub image_preview_enabled: bool,
    pub enable_preview: bool,
    pub notify_enabled: bool,
}

/// The contents of an optional id.
pub open spec fn opt_id(o: Option<i64>) -> Option<int> {
    match o {
        Some(id) => Some(id as int),
        None => None,
    }
}

/// The contents of a list of ids.
pub open spec fn ids_view(v: Seq<i64>) -> Seq<int> {
    v.map_values(|id: i64| id as int)
}

impl View for App {
    type V = AppView;

    open spec fn view(&self) -> AppView {
        AppView {
            search_mode: self.search_mode,
            clips: store::clips_view(self.clips@),
            clips_gen: self.clips_gen,
            hits: store::clips_view(self.search_hits@),
            hits_query: self.search_hits_query@,
            hits_gen: self.search_hits_gen,
            query: self.query@,
            selected: self.selected as int,
            selected_id: opt_id(self.selected_id),
            confirm_delete: self.confirm_delete,
            mouse_follow: self.mouse_follow,
            cached: ids_view(self.cached@),
            decoding: ids_view(self.decoding@).to_set(),
            decode_failed: ids_view(self.decode_failed@).to_set(),
            preview_width: self.preview_width as nat,
            image_preview_enabled: self.image_preview_enabled,
            enable_preview: self.enable_preview,
            notify_enabled: self.notify_enabled,
        }
    }
}

/// The texts of a list of entries.
pub open spec fn texts_of(clips: Seq<ClipView>) -> Seq<Seq<char>> {
    clips.map_values(|c: ClipView| c.text)
}

impl AppView {
    /// Whether search results are shown.
    pub open spec fn shows_hits(self) -> bool {
        filter::shows_hits(
            self.query,
            texts_of(self.hits),
            self.hits_query,
            self.hits_gen,
            self.clips_gen,
        )
    }

    /// The entries of which some are shown.
    pub open spec fn source(self) -> Seq<ClipView> {
        if self.shows_hits() {
            self.hits
        } else {
            self.clips
        }
    }

    /// The positions of the entries that are shown.
    pub open spec fn places(self) -> Seq<int> {
        filter::shown(texts_of(self.source()), self.query, self.shows_hits())
    }

    /// The entries that are shown, in their order.
    pub open spec fn filtered(self) -> Seq<ClipView> {
        self.places().map_values(|i: int| self.source()[i])
    }

    /// How many rows are drawn.
    pub open spec fn visible_len(self) -> int {
        if self.filtered().len() <= MENU_LIMIT {
            self.filtered().len() as int
        } else {
            MENU_LIMIT as int
        }
    }

    /// The entry in a row.
    pub open spec fn row_id(self, i: int) -> Option<int> {
        if 0 <= i < self.filtered().len() {
            Some(self.filtered()[i].id)
        } else {
            None
        }
    }

    /// Whether the selected row is one that is drawn, if any is, and its entry
    /// is known.
    pub open spec fn settled(self) -> bool {
        &&& self.selected_id == self.row_id(self.selected)
        &&& 0 <= self.selected
        &&& self.selected < self.visible_len() || (self.selected == 0 && self.visible_len() == 0)
    }

    /// With another row selected.
    pub open spec fn select(self, i: int) -> AppView {
        AppView { selected: i, selected_id: self.row_id(i), ..self }
    }

    /// With the selection on the entry it was on, if that is still shown; else
    /// on the same row, or on the last.
    pub open spec fn relocate(self) -> AppView {
        let n = self.visible_len();
        if n == 0 {
            AppView { selected: 0, selected_id: None, ..self }
        } else if self.selected_id is Some && first_with_id(self.filtered(), self.selected_id->0)
            < n {
            AppView { selected: first_with_id(self.filtered(), self.selected_id->0), ..self }
        } else if self.selected >= n {
            self.select(n - 1)
        } else {
            self.select(self.selected)
        }
    }

    /// Whether results of a search for the query are there.
    pub open spec fn searched(self) -> bool {
        self.hits_query == self.query && self.hits_gen == self.clips_gen
    }

    /// After a search for the query was asked for, if it is needed: results for
    /// another query no longer count.
    pub open spec fn search_asked(self) -> AppView {
        if text::trimmed(self.query).len() > 0 && self.searched() {
            self
        } else {
            AppView { hits_query: Seq::empty(), ..self }
        }
    }

    /// The search that is asked for.
    pub open spec fn search_effects(self) -> Seq<EffectView> {
        if text::trimmed(self.query).len() > 0 && !self.searched() {
            seq![EffectView::Search { query: text::trimmed(self.query), gen: self.clips_gen }]
        } else {
            Seq::empty()
        }
    }

    /// With the confirmation no longer awaited.
    pub open spec fn unconfirmed(self) -> AppView {
        AppView { confirm_delete: false, ..self }
    }

    /// With other entries loaded.
    pub open spec fn loaded(self, clips: Seq<ClipView>) -> AppView {
        AppView { clips, clips_gen: next_gen(self.clips_gen), ..self }
    }

    /// The entry in the selected row.
    pub open spec fn target(self) -> Option<ClipView> {
        if 0 <= self.selected < self.filtered().len() {
            Some(self.filtered()[self.selected])
        } else {
            None
        }
    }

    /// The image that is to be decoded: that of the selected row, unless it is
    /// decoded, being decoded or cannot be.
    pub open spec fn wanted_image(self) -> Option<(int, Seq<char>)> {
        match self.target() {
            Some(c) => if self.enable_preview && self.image_preview_enabled && transfer::is_image(
                c.mime,
            ) && c.image_path is Some && !self.decoding.contains(c.id)
                && !self.decode_failed.contains(c.id) && !self.cached.contains(c.id) {
                Some((c.id, c.image_path->0))
            } else {
                None
            },
            None => None,
        }
    }
}

/// The number of the next loading.
pub open spec fn next_gen(gen: u64) -> u64 {
    gen.wrapping_add(1)
}

/// The first row with the given entry, or the number of rows.
pub open spec fn first_with_id(rows: Seq<ClipView>, id: int) -> int
    decreases rows.len(),
{
    if rows.len() == 0 || rows[0].id == id {
        0
    } else {
        1 + first_with_id(rows.skip(1), id)
    }
}

/// The row next to the selected one, `delta` rows away, within those drawn.
pub open spec fn moved(selected: int, delta: int, n: int) -> int {
    if selected + delta < 0 {
        0
    } else if selected + delta > n - 1 {
        n - 1
    } else {
        selected + delta
    }
}

impl App {
    /// Whether what is shown is what the query asks for.
    pub open spec fn wf(&self) -> bool {
        &&& self.from_hits == self@.shows_hits()
        &&& filter::positions(self.idxs@) == self@.places()
        &&& forall|k: int|
            0 <= k < self.idxs@.len() ==> #[trigger] self.idxs@[k] < self@.source().len()
    }

    /// Works out what is shown.
    pub(crate) fn refilter(&mut self)
        ensures
            final(self).wf(),
            final(self)@ == old(self)@,
    {
        let (from_hits, idxs) = filter::compute_filtered(
            self.query.as_str(),
            &self.clips,
            &self.search_hits,
            self.search_hits_query.as_str(),
            self.search_hits_gen,
            self.clips_gen,
        );
        proof {
            assert(filter::clip_texts(self.search_hits@) == texts_of(self@.hits));
            assert(filter::clip_texts(self.clips@) == texts_of(self@.clips));
        }
        self.from_hits = from_hits;
        self.idxs = idxs;
    }

    /// The entry in a row.
    pub fn row(&self, i: usize) -> (r: Option<&Clip>)
        requires
            self.wf(),
        ensures
            match r {
                Some(c) => i < self@.filtered().len() && c@ == self@.filtered()[i as int],
                None => i >= self@.filtered().len(),
            },
    {
        assert(filter::positions(self.idxs@).len() == self.idxs@.len());
        if i >= self.idxs.len() {
            return None;
        }
        let k: usize = self.idxs[i];
        assert(filter::positions(self.idxs@)[i as int] == k);
        if self.from_hits {
            Some(&self.search_hits[k])
        } else {
            Some(&self.clips[k])
        }
    }

    /// How many rows are drawn.
    pub fn visible_len(&self) -> (n: usize)
        requires
            self.wf(),
        ensures
            n == self@.visible_len(),
    {
        assert(filter::positions(self.idxs@).len() == self.idxs@.len());
        if self.idxs.len() <= MENU_LIMIT {
            self.idxs.len()
        } else {
            MENU_LIMIT
        }
    }

    /// Selects a row: its number and its entry change together.
    pub(crate) fn set_selection(&mut self, i: usize)
        requires
            old(self).wf(),
        ensures
            final(self).wf(),
            final(self)@ == old(self)@.select(i as int),
    {
        let id: Option<i64> = match self.row(i) {
            Some(c) => Some(c.id),
            None => None,
        };
        self.selected = i;
        self.selected_id = id;
        assert(self@ == old(self)@.select(i as int));
    }

    /// Finds the selected entry again after the rows changed.
    pub(crate) fn relocate_selected(&mut self)
        requires
            old(self).wf(),
        ensures
            final(self).wf(),
            final(self)@ == old(self)@.relocate(),
    {
        let n: usize = self.visible_len();
        if n == 0 {
            self.selected = 0;
            self.selected_id = None;
            assert(self@ == old(self)@.relocate());
            return;
        }
        if let Some(id) = self.selected_id {
            let ghost rows = self@.filtered();
            let mut i: usize = 0;
            assert(rows.skip(0) == rows);
            while i < n
                invariant
                    i <= n,
                    self.wf(),
                    rows == self@.filtered(),
                    n == self@.visible_len(),
                    n > 0,
                    self == old(self),
                    self.selected_id == Some(id),
                    first_with_id(rows, id as int) == i + first_with_id(
                        rows.skip(i as int),
                        id as int,
                    ),
                decreases n - i,
            {
                let here: i64 = match self.row(i) {
                    Some(c) => c.id,
                    None => {
                        assert(false);
                        0
                    },
                };
                assert(rows.skip(i as int)[0] == rows[i as int]);
                if here == id {
                    assert(first_with_id(rows.skip(i as int), id as int) == 0);
                    self.selected = i;
                    assert(self@ == old(self)@.relocate());
                    return;
                }
                assert(rows.skip(i as int).skip(1) == rows.skip(i + 1));
                i += 1;
            }
            proof {
                lemma_first_with_id(rows.skip(n as int), id as int);
            }
        }
        if self.selected >= n {
            self.set_selection(n - 1);
        } else {
            let i: usize = self.selected;
            self.set_selection(i);
        }
    }
}

/// The first row with an entry is one of the rows, if there is one.
pub proof fn lemma_first_with_id(rows: Seq<ClipView>, id: int)
    ensures
        0 <= first_with_id(rows, id) <= rows.len(),
        first_with_id(rows, id) < rows.len() ==> rows[first_with_id(rows, id)].id == id,
    decreases rows.len(),
{
    if rows.len() > 0 && rows[0].id != id {
        lemma_first_with_id(rows.skip(1), id);
    }
}

/// The state after a message, what is pending for deletion then, and what is
/// asked for.
pub struct Turn {
    pub app: AppView,
    pub pending: Option<Seq<char>>,
    pub effects: Seq<EffectView>,
}

/// The selected entry is copied, if there is one.
pub open spec fn copy_effects(s: AppView, exit: bool) -> Seq<EffectView> {
    match s.target() {
        Some(c) => seq![EffectView::Copy { id: c.id, exit }],
        None => Seq::empty(),
    }
}

/// A report that something failed.
pub open spec fn report_unless(s: AppView, ok: bool, message: Seq<char>) -> Seq<EffectView> {
    if ok {
        Seq::empty()
    } else {
        seq![EffectView::Report { message, notify: s.notify_enabled }]
    }
}

/// What is pending after the confirmation is no longer awaited.
pub open spec fn pending_dropped(s: AppView, pending: Option<Seq<char>>) -> Option<Seq<char>> {
    if s.confirm_delete {
        None
    } else {
        pending
    }
}

/// A new query selects the first row and is searched for.
pub open spec fn on_query(s: AppView, p: Option<Seq<char>>, q: Seq<char>) -> Turn {
    if q == s.query {
        Turn { app: s, pending: p, effects: Seq::empty() }
    } else {
        let t = AppView { query: q, ..s };
        Turn {
            app: t.search_asked().select(0).unconfirmed(),
            pending: pending_dropped(s, p),
            effects: seq![EffectView::Scroll] + t.search_effects(),
        }
    }
}

/// The selection follows the pointer where it may.
pub open spec fn on_hover(s: AppView, p: Option<Seq<char>>, i: int) -> Turn {
    if s.mouse_follow && i < s.visible_len() {
        Turn {
            app: s.select(i).unconfirmed(),
            pending: pending_dropped(s, p),
            effects: Seq::empty(),
        }
    } else {
        Turn { app: s, pending: p, effects: Seq::empty() }
    }
}

/// A click selects a row and copies it.
pub open spec fn on_pick(s: AppView, p: Option<Seq<char>>, i: int, exit: bool) -> Turn {
    if i < s.visible_len() {
        Turn {
            app: s.select(i),
            pending: p,
            effects: seq![EffectView::Scroll] + copy_effects(s.select(i), exit),
        }
    } else {
        Turn { app: s, pending: p, effects: Seq::empty() }
    }
}

/// After a copy the window closes, or shows the whole list again.
pub open spec fn on_copied(s: AppView, p: Option<Seq<char>>, exit: bool, ok: bool) -> Turn {
    let failed = report_unless(s, ok, "复制失败"@);
    if exit {
        Turn { app: s, pending: p, effects: failed + seq![EffectView::Exit] }
    } else {
        Turn {
            app: (AppView { query: Seq::empty(), ..s }).select(0),
            pending: p,
            effects: failed + seq![EffectView::ReloadList, EffectView::Scroll],
        }
    }
}

/// The list was read again after a change made here: the selection stays on its
/// entry and is scrolled into view.
pub open spec fn on_list(
    s: AppView,
    p: Option<Seq<char>>,
    clips: Option<Seq<ClipView>>,
    first: Seq<EffectView>,
) -> Turn {
    match clips {
        Some(clips) => {
            let t = s.loaded(clips);
            Turn {
                app: t.search_asked().relocate(),
                pending: p,
                effects: first + seq![EffectView::Scroll] + t.search_effects(),
            }
        },
        None => Turn { app: s, pending: p, effects: first },
    }
}

/// The list was read again after a deletion or a change made elsewhere: nothing
/// is scrolled, and the pointer does not take the selection.
pub open spec fn on_quiet_list(
    s: AppView,
    p: Option<Seq<char>>,
    clips: Option<Seq<ClipView>>,
    first: Seq<EffectView>,
) -> Turn {
    match clips {
        Some(clips) => {
            let t = s.loaded(clips);
            Turn {
                app: (AppView { mouse_follow: false, ..t.search_asked() }).relocate().unconfirmed(),
                pending: pending_dropped(s, p),
                effects: first + t.search_effects(),
            }
        },
        None => Turn { app: s, pending: p, effects: first },
    }
}

/// Search results count if they are for this query and this list.
pub open spec fn on_search_done(
    s: AppView,
    p: Option<Seq<char>>,
    query: Seq<char>,
    gen: u64,
    hits: Seq<ClipView>,
) -> Turn {
    Turn {
        app: if query == s.query && gen == s.clips_gen {
            (AppView { hits, hits_query: query, hits_gen: gen, ..s }).relocate()
        } else {
            s
        },
        pending: p,
        effects: Seq::empty(),
    }
}

/// A decoded image is kept, a few of the latest at most; one that cannot be
/// decoded is not tried again.
pub open spec fn on_image(s: AppView, p: Option<Seq<char>>, id: int, ok: bool) -> Turn {
    Turn {
        app: AppView {
            decoding: s.decoding.remove(id),
            cached: if ok {
                order::first_n(seq![id] + s.cached, IMAGE_CACHE_CAP as nat)
            } else {
                s.cached
            },
            decode_failed: if ok {
                s.decode_failed
            } else {
                s.decode_failed.insert(id)
            },
            ..s
        },
        pending: p,
        effects: Seq::empty(),
    }
}

/// The selection moves by rows; the pointer does not take it back.
pub open spec fn on_move(s: AppView, p: Option<Seq<char>>, delta: int) -> Turn {
    let t = AppView { mouse_follow: false, ..s };
    let n = s.visible_len();
    let next = moved(s.selected, delta, n);
    if n == 0 {
        Turn { app: t, pending: p, effects: Seq::empty() }
    } else if next != s.selected {
        Turn {
            app: t.select(next).unconfirmed(),
            pending: pending_dropped(s, p),
            effects: seq![EffectView::Scroll],
        }
    } else {
        Turn { app: t, pending: p, effects: seq![EffectView::Scroll] }
    }
}

/// A request to delete the selected entry. A pinned one waits for a second
/// request.
pub open spec fn on_delete(s: AppView, p: Option<Seq<char>>, now_ms: nat) -> Turn {
    match s.target() {
        None => Turn { app: s, pending: p, effects: Seq::empty() },
        Some(c) => Turn {
            app: AppView {
                confirm_delete: confirm::decision(p, c.id, c.pinned, now_ms) == Decision::Pending,
                ..s
            },
            pending: confirm::file_after(p, c.id, c.pinned, now_ms),
            effects: if confirm::decision(p, c.id, c.pinned, now_ms) == Decision::Deleted {
                seq![EffectView::Delete { id: c.id }]
            } else {
                Seq::empty()
            },
        },
    }
}

/// Escape leaves the search, else gives up a deletion, else closes the window.
pub open spec fn on_escape(s: AppView, p: Option<Seq<char>>) -> Turn {
    if s.search_mode || s.query.len() > 0 {
        Turn {
            app: (AppView { search_mode: false, query: Seq::empty(), ..s }).select(
                0,
            ).unconfirmed(),
            pending: pending_dropped(s, p),
            effects: seq![EffectView::BlurSearch, EffectView::Scroll],
        }
    } else if s.confirm_delete {
        Turn { app: s.unconfirmed(), pending: None, effects: Seq::empty() }
    } else {
        Turn { app: s, pending: p, effects: seq![EffectView::Exit] }
    }
}

/// The row that a digit picks: one to nine, and zero for the tenth.
pub open spec fn quick_row(c: Seq<char>) -> Option<int> {
    if c.len() == 1 && '1' <= c[0] <= '9' {
        Some(c[0] as int - '1' as int)
    } else if c.len() == 1 && c[0] == '0' {
        Some(9)
    } else {
        None
    }
}

/// A digit picks a row, if it is drawn, and copies it.
pub open spec fn on_quick(s: AppView, p: Option<Seq<char>>, row: int) -> Turn {
    if row < s.visible_len() {
        Turn { app: s.select(row), pending: p, effects: copy_effects(s.select(row), true) }
    } else {
        Turn { app: s, pending: p, effects: Seq::empty() }
    }
}

/// A key with a character.
pub open spec fn on_character(
    s: AppView,
    p: Option<Seq<char>>,
    now_ms: nat,
    c: Seq<char>,
    control: bool,
    alt: bool,
) -> Turn {
    let nothing = Turn { app: s, pending: p, effects: Seq::empty() };
    if !s.search_mode && ((c == "/"@ && !control) || (c == "f"@ && control)) {
        Turn {
            app: AppView { search_mode: true, ..s },
            pending: p,
            effects: seq![EffectView::FocusSearch],
        }
    } else if control && c == "y"@ {
        Turn { app: s, pending: p, effects: copy_effects(s, false) }
    } else if control && c == "p"@ {
        match s.target() {
            Some(t) => Turn {
                app: s,
                pending: p,
                effects: seq![EffectView::TogglePin { id: t.id }],
            },
            None => nothing,
        }
    } else if control && c == "x"@ {
        on_delete(s, p, now_ms)
    } else if quick_row(c) is Some && (alt || (s.query.len() == 0 && !control)) {
        on_quick(s, p, quick_row(c)->0)
    } else {
        nothing
    }
}

/// What a key leads to.
pub open spec fn on_key(
    s: AppView,
    p: Option<Seq<char>>,
    now_ms: nat,
    k: Key,
    m: Modifiers,
) -> Turn {
    match k {
        Key::Up => on_move(s, p, -1),
        Key::Down => on_move(s, p, 1),
        Key::Escape => on_escape(s, p),
        Key::Enter => Turn { app: s, pending: p, effects: copy_effects(s, true) },
        Key::Character(c) => on_character(s, p, now_ms, c@, m.control, m.alt),
        Key::Other => Turn { app: s, pending: p, effects: Seq::empty() },
    }
}

/// The contents of an optional list of entries.
pub open spec fn opt_clips(o: Option<Vec<Clip>>) -> Option<Seq<ClipView>> {
    match o {
        Some(v) => Some(store::clips_view(v@)),
        None => None,
    }
}

/// What a message leads to.
pub open spec fn on_message(s: AppView, p: Option<Seq<char>>, now_ms: nat, m: Message) -> Turn {
    match m {
        Message::Query(q) => on_query(s, p, q@),
        Message::SearchDone { query, gen, hits } => on_search_done(
            s,
            p,
            query@,
            gen,
            store::clips_view(hits@),
        ),
        Message::Key(k, mods) => on_key(s, p, now_ms, k, mods),
        Message::Copy { exit } => Turn { app: s, pending: p, effects: copy_effects(s, exit) },
        Message::CopyFinished { exit, ok } => on_copied(s, p, exit, ok),
        Message::PinFinished { ok, clips } => on_list(
            s,
            p,
            opt_clips(clips),
            report_unless(s, ok, "固定/取消固定失败"@),
        ),
        Message::DeleteFinished { ok, clips } => on_quiet_list(
            s,
            p,
            opt_clips(clips),
            report_unless(s, ok, "删除失败"@),
        ),
        Message::ListReloaded(clips) => on_list(s, p, opt_clips(clips), Seq::empty()),
        Message::DeleteReloaded(clips) => on_quiet_list(s, p, opt_clips(clips), Seq::empty()),
        Message::Refocus => Turn {
            app: s,
            pending: p,
            effects: seq![EffectView::ReloadQuietly],
        },
        Message::Hover(i) => on_hover(s, p, i as int),
        Message::MouseMove => Turn {
            app: AppView { mouse_follow: true, ..s },
            pending: p,
            effects: Seq::empty(),
        },
        Message::Pick(i) => on_pick(s, p, i as int, true),
        Message::PickStay(i) => on_pick(s, p, i as int, false),
        Message::ImageReady { id, ok } => on_image(s, p, id as int, ok),
        Message::Tick => Turn { app: s, pending: p, effects: Seq::empty() },
    }
}

/// A confirmation that is no longer good is no longer awaited.
pub open spec fn refreshed(s: AppView, p: Option<Seq<char>>, now_ms: nat) -> AppView {
    if s.confirm_delete && confirm::armed(p, now_ms) is None {
        s.unconfirmed()
    } else {
        s
    }
}

/// With the decoding of the selected image under way.
pub open spec fn decoding_asked(t: Turn) -> Turn {
    match t.app.wanted_image() {
        Some((id, path)) => Turn {
            app: AppView { decoding: t.app.decoding.insert(id), ..t.app },
            pending: t.pending,
            effects: t.effects + seq![EffectView::Decode { id, path }],
        },
        None => t,
    }
}

/// All that a message leads to.
pub open spec fn updated(s: AppView, p: Option<Seq<char>>, now_ms: nat, m: Message) -> Turn {
    decoding_asked(on_message(refreshed(s, p, now_ms), p, now_ms, m))
}

} // verus!
