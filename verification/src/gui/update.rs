//! How the window reacts to messages.

use super::app;
use super::app::{App, AppView, Effect, EffectView, Key, Message, Modifiers, IMAGE_CACHE_CAP};
use crate::config::Config;
use crate::confirm;
use crate::confirm::Decision;
use crate::order;
use crate::store;
use crate::store::Clip;
use crate::text;
use vstd::prelude::*;

verus! {

pub(crate) fn has(v: &Vec<i64>, id: i64) -> (b: bool)
    ensures
        b == app::ids_view(v@).contains(id as int),
        b == app::ids_view(v@).to_set().contains(id as int),
{
    let mut i: usize = 0;
    while i < v.len()
        invariant
            i <= v.len(),
            forall|k: int| 0 <= k < i ==> (#[trigger] app::ids_view(v@)[k]) != id,
        decreases v.len() - i,
    {
        if v[i] == id {
            assert(app::ids_view(v@)[i as int] == id);
            return true;
        }
        i += 1;
    }
    false
}

fn drop_id(v: &Vec<i64>, id: i64) -> (r: Vec<i64>)
    ensures
        app::ids_view(r@).to_set() == app::ids_view(v@).to_set().remove(id as int),
{
    let mut r: Vec<i64> = Vec::new();
    let mut i: usize = 0;
    while i < v.len()
        invariant
            i <= v.len(),
            forall|x: int|
                #![auto]
                app::ids_view(r@).contains(x) <==> x != id && app::ids_view(v@).take(
                    i as int,
                ).contains(x),
        decreases v.len() - i,
    {
        let ghost r0 = r@;
        let y: i64 = v[i];
        if y != id {
            r.push(y);
        }
        proof {
            let all = app::ids_view(v@);
            assert(all.take(i + 1) == all.take(i as int).push(y as int));
            assert(r@ != r0 ==> app::ids_view(r@) == app::ids_view(r0).push(y as int));
            assert forall|x: int|
                #![auto]
                app::ids_view(r@).contains(x) <==> x != id && all.take(i + 1).contains(x) by {
                lemma_push_contains(app::ids_view(r0), y as int, x);
                lemma_push_contains(all.take(i as int), y as int, x);
                assert(app::ids_view(r0).contains(x) <==> x != id && all.take(i as int).contains(
                    x,
                ));
            }
        }
        i += 1;
    }
    proof {
        let all = app::ids_view(v@);
        assert(all.take(v@.len() as int) == all);
        assert(app::ids_view(r@).to_set() =~= all.to_set().remove(id as int));
    }
    r
}

proof fn lemma_push_contains(s: Seq<int>, y: int, x: int)
    ensures
        s.push(y).contains(x) <==> s.contains(x) || x == y,
{
    if s.contains(x) {
        let k = choose|k: int| 0 <= k < s.len() && s[k] == x;
        assert(s.push(y)[k] == x);
    }
    if x == y {
        assert(s.push(y)[s.len() as int] == x);
    }
}

fn add_id(v: &mut Vec<i64>, id: i64)
    ensures
        app::ids_view(final(v)@).to_set() == app::ids_view(old(v)@).to_set().insert(id as int),
{
    v.push(id);
    proof {
        let before = app::ids_view(old(v)@);
        assert(app::ids_view(v@) == before.push(id as int));
        assert forall|x: int| #![auto] before.push(id as int).to_set().contains(x)
            <==> before.to_set().insert(id as int).contains(x) by {
            lemma_push_contains(before, id as int, x);
        }
        assert(app::ids_view(v@).to_set() =~= before.to_set().insert(id as int));
    }
}

proof fn lemma_effects_push(v: Seq<Effect>, e: Effect)
    ensures
        app::effects_view(v.push(e)) == app::effects_view(v).push(e@),
        app::effects_view(v.push(e)) == app::effects_view(v) + seq![e@],
{
    assert(app::effects_view(v.push(e)) == app::effects_view(v).push(e@));
    assert(app::effects_view(v).push(e@) == app::effects_view(v) + seq![e@]);
}

fn no_effects() -> (v: Vec<Effect>)
    ensures
        app::effects_view(v@) == Seq::<EffectView>::empty(),
{
    let v: Vec<Effect> = Vec::new();
    assert(app::effects_view(v@) == Seq::<EffectView>::empty());
    v
}

fn push_effect(v: &mut Vec<Effect>, e: Effect)
    ensures
        app::effects_view(final(v)@) == app::effects_view(old(v)@) + seq![e@],
{
    proof {
        lemma_effects_push(v@, e);
    }
    v.push(e);
}

fn one_effect(e: Effect) -> (v: Vec<Effect>)
    ensures
        app::effects_view(v@) == seq![e@],
{
    let mut v = no_effects();
    push_effect(&mut v, e);
    assert(Seq::<EffectView>::empty() + seq![e@] == seq![e@]);
    v
}

impl App {
    /// The state when the window opens: the given entries, the first selected.
    pub fn new(clips: Vec<Clip>, cfg: &Config) -> (a: App)
        ensures
            a.wf(),
            a@ == opened(store::clips_view(clips@), *cfg),
            a@.settled(),
    {
        let ghost loaded = store::clips_view(clips@);
        let mut a = App {
            search_mode: false,
            clips,
            clips_gen: 0,
            search_hits: Vec::new(),
            search_hits_query: String::new(),
            search_hits_gen: 0,
            query: String::new(),
            from_hits: false,
            idxs: Vec::new(),
            selected: 0,
            selected_id: None,
            confirm_delete: false,
            mouse_follow: false,
            cached: Vec::new(),
            decoding: Vec::new(),
            decode_failed: Vec::new(),
            preview_width: cfg.preview_width,
            image_preview_enabled: cfg.enable_image_preview,
            enable_preview: cfg.enable_preview,
            notify_enabled: cfg.notify_enabled,
        };
        proof {
            assert(a@.hits == Seq::<store::ClipView>::empty());
            assert(a@.hits_query == Seq::<char>::empty());
            assert(a@.query == Seq::<char>::empty());
            assert(a@.cached == Seq::<int>::empty());
            assert(app::ids_view(a.decoding@) == Seq::<int>::empty());
            assert(a@.decoding =~= Set::<int>::empty());
            assert(a@.decode_failed =~= Set::<int>::empty());
            assert(a@ == blank(loaded, *cfg));
        }
        a.refilter();
        a.set_selection(0);
        a
    }

    /// Asks for a search of the whole history, unless its results are there.
    fn request_search(&mut self, effects: &mut Vec<Effect>)
        ensures
            final(self).wf(),
            final(self)@ == old(self)@.search_asked(),
            app::effects_view(final(effects)@) == app::effects_view(old(effects)@) + old(
                self,
            )@.search_effects(),
    {
        let q = text::trim(self.query.as_str());
        if q.as_str().is_empty() {
            self.search_hits_query = String::new();
            assert(self@ == old(self)@.search_asked());
            assert(app::effects_view(effects@) + Seq::<EffectView>::empty() == app::effects_view(
                effects@,
            ));
        } else if !(self.search_hits_query == self.query && self.search_hits_gen
            == self.clips_gen) {
            self.search_hits_query = String::new();
            assert(self@ == old(self)@.search_asked());
            push_effect(effects, Effect::Search { query: q, gen: self.clips_gen });
        } else {
            assert(app::effects_view(effects@) + Seq::<EffectView>::empty() == app::effects_view(
                effects@,
            ));
        }
        self.refilter();
    }

    /// No longer waits for the confirmation of a deletion.
    fn drop_confirmation(&mut self, pending: &mut Option<String>)
        requires
            old(self).wf(),
        ensures
            final(self).wf(),
            final(self)@ == old(self)@.unconfirmed(),
            store::opt_text(*final(pending)) == app::pending_dropped(
                old(self)@,
                store::opt_text(*old(pending)),
            ),
    {
        if self.confirm_delete {
            confirm::clear(pending);
            self.confirm_delete = false;
        }
        assert(self@ == old(self)@.unconfirmed());
    }

    fn copy_selected(&self, exit: bool, effects: &mut Vec<Effect>)
        requires
            self.wf(),
        ensures
            app::effects_view(final(effects)@) == app::effects_view(old(effects)@)
                + app::copy_effects(self@, exit),
    {
        match self.row(self.selected) {
            Some(c) => push_effect(effects, Effect::Copy { id: c.id, exit }),
            None => {
                assert(app::effects_view(effects@) + Seq::<EffectView>::empty()
                    == app::effects_view(effects@));
            },
        }
    }

    fn report(&self, ok: bool, message: &str) -> (v: Vec<Effect>)
        ensures
            app::effects_view(v@) == app::report_unless(self@, ok, message@),
    {
        if ok {
            no_effects()
        } else {
            one_effect(
                Effect::Report { message: message.to_owned(), notify: self.notify_enabled },
            )
        }
    }

    fn set_query(&mut self, q: String, pending: &mut Option<String>) -> (v: Vec<Effect>)
        requires
            old(self).wf(),
        ensures
            final(self).wf(),
            ({
                let t = app::on_query(old(self)@, store::opt_text(*old(pending)), q@);
                &&& final(self)@ == t.app
                &&& store::opt_text(*final(pending)) == t.pending
                &&& app::effects_view(v@) == t.effects
            }),
    {
        if q == self.query {
            return no_effects();
        }
        let mut v = one_effect(Effect::Scroll);
        let ghost before = self@;
        self.query = q;
        let ghost t = AppView { query: q@, ..before };
        assert(self@ == t);
        self.request_search(&mut v);
        self.set_selection(0);
        self.drop_confirmation(pending);
        assert(t.search_asked().select(0).confirm_delete == before.confirm_delete);
        v
    }

    fn load(&mut self, clips: Vec<Clip>)
        ensures
            final(self)@ == old(self)@.loaded(store::clips_view(clips@)),
    {
        self.clips = clips;
        self.clips_gen = self.clips_gen.wrapping_add(1);
        assert(self@ == old(self)@.loaded(store::clips_view(clips@)));
    }

    fn list_reloaded(&mut self, clips: Option<Vec<Clip>>, first: Vec<Effect>) -> (v: Vec<Effect>)
        requires
            old(self).wf(),
        ensures
            final(self).wf(),
            forall|p: Option<Seq<char>>| #[trigger]
                app::on_list(old(self)@, p, app::opt_clips(clips), app::effects_view(first@)) == (
                app::Turn { app: final(self)@, pending: p, effects: app::effects_view(v@) }),
    {
        let mut v = first;
        match clips {
            Some(clips) => {
                self.load(clips);
                push_effect(&mut v, Effect::Scroll);
                self.request_search(&mut v);
                self.relocate_selected();
                v
            },
            None => v,
        }
    }

    fn quietly_reloaded(
        &mut self,
        clips: Option<Vec<Clip>>,
        first: Vec<Effect>,
        pending: &mut Option<String>,
    ) -> (v: Vec<Effect>)
        requires
            old(self).wf(),
        ensures
            final(self).wf(),
            ({
                let t = app::on_quiet_list(
                    old(self)@,
                    store::opt_text(*old(pending)),
                    app::opt_clips(clips),
                    app::effects_view(first@),
                );
                &&& final(self)@ == t.app
                &&& store::opt_text(*final(pending)) == t.pending
                &&& app::effects_view(v@) == t.effects
            }),
    {
        let mut v = first;
        match clips {
            Some(clips) => {
                let ghost before = self@;
                self.load(clips);
                self.request_search(&mut v);
                let ghost mid = self@;
                self.mouse_follow = false;
                proof {
                    let still = AppView { mouse_follow: false, ..mid };
                    assert(self@ == still);
                    assert(still.places() == mid.places());
                    assert(still.source() == mid.source());
                }
                self.relocate_selected();
                self.drop_confirmation(pending);
                v
            },
            None => v,
        }
    }

    fn move_selection(&mut self, down: bool, pending: &mut Option<String>) -> (v: Vec<Effect>)
        requires
            old(self).wf(),
            old(self)@.settled(),
        ensures
            final(self).wf(),
            ({
                let t = app::on_move(
                    old(self)@,
                    store::opt_text(*old(pending)),
                    if down {
                        1
                    } else {
                        -1
                    },
                );
                &&& final(self)@ == t.app
                &&& store::opt_text(*final(pending)) == t.pending
                &&& app::effects_view(v@) == t.effects
            }),
    {
        let ghost before = self@;
        self.mouse_follow = false;
        proof {
            let still = AppView { mouse_follow: false, ..before };
            assert(self@ == still);
            assert(still.places() == before.places());
            assert(still.source() == before.source());
            assert(still.filtered() == before.filtered());
        }
        let n: usize = self.visible_len();
        if n == 0 {
            return no_effects();
        }
        let next: usize = if down {
            if self.selected + 1 > n - 1 {
                n - 1
            } else {
                self.selected + 1
            }
        } else if self.selected == 0 {
            0
        } else {
            self.selected - 1
        };
        if next != self.selected {
            self.set_selection(next);
            self.drop_confirmation(pending);
        }
        one_effect(Effect::Scroll)
    }

    fn delete_selected(&mut self, pending: &mut Option<String>, now_ms: u128) -> (v: Vec<Effect>)
        requires
            old(self).wf(),
        ensures
            final(self).wf(),
            ({
                let t = app::on_delete(old(self)@, store::opt_text(*old(pending)), now_ms as nat);
                &&& final(self)@ == t.app
                &&& store::opt_text(*final(pending)) == t.pending
                &&& app::effects_view(v@) == t.effects
            }),
    {
        let ghost before = self@;
        let (id, pinned) = match self.row(self.selected) {
            Some(c) => (c.id, c.pinned),
            None => {
                return no_effects();
            },
        };
        let d = confirm::decide(pending, id, pinned, now_ms);
        self.confirm_delete = d == Decision::Pending;
        proof {
            let t = AppView { confirm_delete: d == Decision::Pending, ..before };
            assert(self@ == t);
            assert(t.places() == before.places());
            assert(t.source() == before.source());
        }
        if d == Decision::Deleted {
            one_effect(Effect::Delete { id })
        } else {
            no_effects()
        }
    }

    fn escape(&mut self, pending: &mut Option<String>) -> (v: Vec<Effect>)
        requires
            old(self).wf(),
        ensures
            final(self).wf(),
            ({
                let t = app::on_escape(old(self)@, store::opt_text(*old(pending)));
                &&& final(self)@ == t.app
                &&& store::opt_text(*final(pending)) == t.pending
                &&& app::effects_view(v@) == t.effects
            }),
    {
        let ghost before = self@;
        if self.search_mode || !self.query.as_str().is_empty() {
            self.search_mode = false;
            self.query = String::new();
            assert(self@ == (AppView { search_mode: false, query: Seq::empty(), ..before }));
            self.refilter();
            self.set_selection(0);
            self.drop_confirmation(pending);
            let mut v = one_effect(Effect::BlurSearch);
            push_effect(&mut v, Effect::Scroll);
            assert(seq![EffectView::BlurSearch] + seq![EffectView::Scroll] == seq![
                EffectView::BlurSearch,
                EffectView::Scroll,
            ]);
            v
        } else if self.confirm_delete {
            self.drop_confirmation(pending);
            no_effects()
        } else {
            one_effect(Effect::Exit)
        }
    }

    fn quick_pick(&mut self, row: usize) -> (v: Vec<Effect>)
        requires
            old(self).wf(),
        ensures
            final(self).wf(),
            forall|p: Option<Seq<char>>| #[trigger]
                app::on_quick(old(self)@, p, row as int) == (app::Turn {
                    app: final(self)@,
                    pending: p,
                    effects: app::effects_view(v@),
                }),
    {
        let mut v = no_effects();
        if row < self.visible_len() {
            self.set_selection(row);
            self.copy_selected(true, &mut v);
            assert(Seq::<EffectView>::empty() + app::copy_effects(self@, true)
                == app::copy_effects(self@, true));
        }
        v
    }
}

/// The row that a digit picks.
fn digit_row(c: &str) -> (r: Option<usize>)
    ensures
        match r {
            Some(i) => app::quick_row(c@) == Some(i as int),
            None => app::quick_row(c@) is None,
        },
{
    let v = text::chars_of(c);
    if v.len() != 1 {
        return None;
    }
    if '1' <= v[0] && v[0] <= '9' {
        Some((v[0] as u32 - '1' as u32) as usize)
    } else if v[0] == '0' {
        Some(9)
    } else {
        None
    }
}

/// The state when the window opens, before a row is selected.
pub open spec fn blank(clips: Seq<store::ClipView>, cfg: Config) -> AppView {
    AppView {
        search_mode: false,
        clips,
        clips_gen: 0,
        hits: Seq::empty(),
        hits_query: Seq::empty(),
        hits_gen: 0,
        query: Seq::empty(),
        selected: 0,
        selected_id: None,
        confirm_delete: false,
        mouse_follow: false,
        cached: Seq::empty(),
        decoding: Set::empty(),
        decode_failed: Set::empty(),
        preview_width: cfg.preview_width as nat,
        image_preview_enabled: cfg.enable_image_preview,
        enable_preview: cfg.enable_preview,
        notify_enabled: cfg.notify_enabled,
    }
}

/// The state when the window opens.
pub open spec fn opened(clips: Seq<store::ClipView>, cfg: Config) -> AppView {
    blank(clips, cfg).select(0)
}

impl App {
    /// Reacts to a key with a character.
    fn on_character(
        &mut self,
        c: &str,
        m: Modifiers,
        pending: &mut Option<String>,
        now_ms: u128,
    ) -> (v: Vec<Effect>)
        requires
            old(self).wf(),
        ensures
            final(self).wf(),
            ({
                let t = app::on_character(
                    old(self)@,
                    store::opt_text(*old(pending)),
                    now_ms as nat,
                    c@,
                    m.control,
                    m.alt,
                );
                &&& final(self)@ == t.app
                &&& store::opt_text(*final(pending)) == t.pending
                &&& app::effects_view(v@) == t.effects
            }),
    {
        let ghost before = self@;
        let ghost p = store::opt_text(*pending);
        if !self.search_mode && ((text::same(c, "/") && !m.control) || (text::same(c, "f")
            && m.control)) {
            self.search_mode = true;
            proof {
                let t = AppView { search_mode: true, ..before };
                assert(self@ == t);
                assert(t.places() == before.places());
                assert(t.source() == before.source());
            }
            one_effect(Effect::FocusSearch)
        } else if m.control && text::same(c, "y") {
            let mut v = no_effects();
            self.copy_selected(false, &mut v);
            assert(Seq::<EffectView>::empty() + app::copy_effects(self@, false)
                == app::copy_effects(self@, false));
            v
        } else if m.control && text::same(c, "p") {
            match self.row(self.selected) {
                Some(t) => one_effect(Effect::TogglePin { id: t.id }),
                None => no_effects(),
            }
        } else if m.control && text::same(c, "x") {
            self.delete_selected(pending, now_ms)
        } else {
            match digit_row(c) {
                Some(row) => if m.alt || (self.query.as_str().is_empty() && !m.control) {
                    let v = self.quick_pick(row);
                    assert(app::on_quick(before, p, row as int) == (app::Turn {
                        app: self@,
                        pending: p,
                        effects: app::effects_view(v@),
                    }));
                    v
                } else {
                    no_effects()
                },
                None => no_effects(),
            }
        }
    }

    /// Reacts to a key.
    fn on_key(
        &mut self,
        k: Key,
        m: Modifiers,
        pending: &mut Option<String>,
        now_ms: u128,
    ) -> (v: Vec<Effect>)
        requires
            old(self).wf(),
            old(self)@.settled(),
        ensures
            final(self).wf(),
            ({
                let t = app::on_key(
                    old(self)@,
                    store::opt_text(*old(pending)),
                    now_ms as nat,
                    k,
                    m,
                );
                &&& final(self)@ == t.app
                &&& store::opt_text(*final(pending)) == t.pending
                &&& app::effects_view(v@) == t.effects
            }),
    {
        match k {
            Key::Up => self.move_selection(false, pending),
            Key::Down => self.move_selection(true, pending),
            Key::Escape => self.escape(pending),
            Key::Enter => {
                let mut v = no_effects();
                self.copy_selected(true, &mut v);
                assert(Seq::<EffectView>::empty() + app::copy_effects(self@, true)
                    == app::copy_effects(self@, true));
                v
            },
            Key::Character(c) => self.on_character(c.as_str(), m, pending, now_ms),
            Key::Other => no_effects(),
        }
    }

    fn pick(&mut self, i: usize, exit: bool) -> (v: Vec<Effect>)
        requires
            old(self).wf(),
        ensures
            final(self).wf(),
            forall|p: Option<Seq<char>>| #[trigger]
                app::on_pick(old(self)@, p, i as int, exit) == (app::Turn {
                    app: final(self)@,
                    pending: p,
                    effects: app::effects_view(v@),
                }),
    {
        if i < self.visible_len() {
            self.set_selection(i);
            let mut v = one_effect(Effect::Scroll);
            self.copy_selected(exit, &mut v);
            v
        } else {
            no_effects()
        }
    }

    fn copied(&mut self, exit: bool, ok: bool) -> (v: Vec<Effect>)
        requires
            old(self).wf(),
        ensures
            final(self).wf(),
            forall|p: Option<Seq<char>>| #[trigger]
                app::on_copied(old(self)@, p, exit, ok) == (app::Turn {
                    app: final(self)@,
                    pending: p,
                    effects: app::effects_view(v@),
                }),
    {
        let ghost before = self@;
        let mut v = self.report(ok, "复制失败");
        if exit {
            push_effect(&mut v, Effect::Exit);
            return v;
        }
        self.query = String::new();
        assert(self@ == (AppView { query: Seq::empty(), ..before }));
        self.refilter();
        self.set_selection(0);
        let ghost first = app::effects_view(v@);
        push_effect(&mut v, Effect::ReloadList);
        push_effect(&mut v, Effect::Scroll);
        assert(first + seq![EffectView::ReloadList] + seq![EffectView::Scroll] == first + seq![
            EffectView::ReloadList,
            EffectView::Scroll,
        ]);
        v
    }

    fn search_done(&mut self, query: String, gen: u64, hits: Vec<Clip>)
        requires
            old(self).wf(),
        ensures
            final(self).wf(),
            forall|p: Option<Seq<char>>| #[trigger]
                app::on_search_done(
                    old(self)@,
                    p,
                    query@,
                    gen,
                    store::clips_view(hits@),
                ) == (app::Turn { app: final(self)@, pending: p, effects: Seq::empty() }),
    {
        let ghost before = self@;
        if query == self.query && gen == self.clips_gen {
            let ghost found = store::clips_view(hits@);
            let ghost q = query@;
            self.search_hits = hits;
            self.search_hits_query = query;
            self.search_hits_gen = gen;
            assert(self@ == (AppView { hits: found, hits_query: q, hits_gen: gen, ..before }));
            self.refilter();
            self.relocate_selected();
        }
    }

    fn image_ready(&mut self, id: i64, ok: bool)
        requires
            old(self).wf(),
        ensures
            final(self).wf(),
            forall|p: Option<Seq<char>>| #[trigger]
                app::on_image(old(self)@, p, id as int, ok) == (app::Turn {
                    app: final(self)@,
                    pending: p,
                    effects: Seq::empty(),
                }),
    {
        let ghost before = self@;
        self.decoding = drop_id(&self.decoding, id);
        if ok {
            let ghost cached0 = app::ids_view(self.cached@);
            self.cached.insert(0, id);
            assert(app::ids_view(self.cached@) == seq![id as int] + cached0);
            if self.cached.len() > IMAGE_CACHE_CAP {
                let ghost longer = self.cached@;
                self.cached.truncate(IMAGE_CACHE_CAP);
                assert(app::ids_view(self.cached@) == app::ids_view(longer).take(
                    IMAGE_CACHE_CAP as int,
                ));
            }
            assert(app::ids_view(self.cached@) == order::first_n(
                seq![id as int] + cached0,
                IMAGE_CACHE_CAP as nat,
            ));
        } else {
            add_id(&mut self.decode_failed, id);
        }
        proof {
            assert(self@.places() == before.places());
            assert(self@.source() == before.source());
            assert forall|p: Option<Seq<char>>| #[trigger]
                app::on_image(before, p, id as int, ok) == (app::Turn {
                    app: self@,
                    pending: p,
                    effects: Seq::empty(),
                }) by {}
        }
    }

    /// Reacts to a message; images to decode are looked for afterwards.
    fn handle_message(
        &mut self,
        m: Message,
        pending: &mut Option<String>,
        now_ms: u128,
    ) -> (v: Vec<Effect>)
        requires
            old(self).wf(),
            old(self)@.settled(),
        ensures
            final(self).wf(),
            ({
                let t = app::on_message(
                    old(self)@,
                    store::opt_text(*old(pending)),
                    now_ms as nat,
                    m,
                );
                &&& final(self)@ == t.app
                &&& store::opt_text(*final(pending)) == t.pending
                &&& app::effects_view(v@) == t.effects
            }),
    {
        let ghost before = self@;
        let ghost p = store::opt_text(*pending);
        match m {
            Message::Query(q) => self.set_query(q, pending),
            Message::SearchDone { query, gen, hits } => {
                let ghost t = app::on_search_done(before, p, query@, gen, store::clips_view(hits@));
                self.search_done(query, gen, hits);
                assert(t.app == self@);
                no_effects()
            },
            Message::Key(k, mods) => self.on_key(k, mods, pending, now_ms),
            Message::Copy { exit } => {
                let mut v = no_effects();
                self.copy_selected(exit, &mut v);
                assert(Seq::<EffectView>::empty() + app::copy_effects(self@, exit)
                    == app::copy_effects(self@, exit));
                v
            },
            Message::CopyFinished { exit, ok } => {
                let v = self.copied(exit, ok);
                assert(app::on_copied(before, p, exit, ok).app == self@);
                v
            },
            Message::PinFinished { ok, clips } => {
                let first = self.report(ok, "固定/取消固定失败");
                let ghost t = app::on_list(
                    before,
                    p,
                    app::opt_clips(clips),
                    app::effects_view(first@),
                );
                let v = self.list_reloaded(clips, first);
                assert(t.app == self@);
                v
            },
            Message::DeleteFinished { ok, clips } => {
                let first = self.report(ok, "删除失败");
                self.quietly_reloaded(clips, first, pending)
            },
            Message::ListReloaded(clips) => {
                let first = no_effects();
                let ghost t = app::on_list(
                    before,
                    p,
                    app::opt_clips(clips),
                    app::effects_view(first@),
                );
                let v = self.list_reloaded(clips, first);
                assert(t.app == self@);
                v
            },
            Message::DeleteReloaded(clips) => {
                let first = no_effects();
                self.quietly_reloaded(clips, first, pending)
            },
            Message::Refocus => one_effect(Effect::ReloadQuietly),
            Message::Hover(i) => {
                if self.mouse_follow && i < self.visible_len() {
                    self.set_selection(i);
                    self.drop_confirmation(pending);
                }
                no_effects()
            },
            Message::MouseMove => {
                self.mouse_follow = true;
                proof {
                    let t = AppView { mouse_follow: true, ..before };
                    assert(self@ == t);
                    assert(t.places() == before.places());
                    assert(t.source() == before.source());
                }
                no_effects()
            },
            Message::Pick(i) => {
                let v = self.pick(i, true);
                assert(app::on_pick(before, p, i as int, true).app == self@);
                v
            },
            Message::PickStay(i) => {
                let v = self.pick(i, false);
                assert(app::on_pick(before, p, i as int, false).app == self@);
                v
            },
            Message::ImageReady { id, ok } => {
                self.image_ready(id, ok);
                assert(app::on_image(before, p, id as int, ok).app == self@);
                no_effects()
            },
            Message::Tick => no_effects(),
        }
    }

    /// Asks for the image of the selected row to be decoded, if it is needed.
    fn ensure_image_decode(&mut self, effects: &mut Vec<Effect>)
        requires
            old(self).wf(),
        ensures
            final(self).wf(),
            forall|p: Option<Seq<char>>| #[trigger]
                app::decoding_asked(
                    app::Turn {
                        app: old(self)@,
                        pending: p,
                        effects: app::effects_view(old(effects)@),
                    },
                ) == (app::Turn {
                    app: final(self)@,
                    pending: p,
                    effects: app::effects_view(final(effects)@),
                }),
    {
        let ghost before = self@;
        if !self.enable_preview || !self.image_preview_enabled {
            return;
        }
        let (id, path) = match self.row(self.selected) {
            None => {
                return;
            },
            Some(c) => {
                if !text::starts_with(c.mime.as_str(), "image/") {
                    return;
                }
                match &c.image_path {
                    None => {
                        return;
                    },
                    Some(p) => (c.id, p.clone()),
                }
            },
        };
        if has(&self.decoding, id) || has(&self.decode_failed, id) || has(&self.cached, id) {
            return;
        }
        add_id(&mut self.decoding, id);
        push_effect(effects, Effect::Decode { id, path });
        proof {
            let t = AppView { decoding: before.decoding.insert(id as int), ..before };
            assert(self@ == t);
            assert(t.places() == before.places());
            assert(t.source() == before.source());
        }
    }

    /// Reacts to a message. `pending` is what the file of pending deletions
    /// holds, and is left as it is to be written back.
    pub fn update(&mut self, m: Message, pending: &mut Option<String>, now_ms: u128) -> (v: Vec<
        Effect,
    >)
        requires
            old(self).wf(),
            old(self)@.settled(),
        ensures
            final(self).wf(),
            final(self)@.settled(),
            ({
                let t = app::updated(
                    old(self)@,
                    store::opt_text(*old(pending)),
                    now_ms as nat,
                    m,
                );
                &&& final(self)@ == t.app
                &&& store::opt_text(*final(pending)) == t.pending
                &&& app::effects_view(v@) == t.effects
            }),
    {
        let ghost before = self@;
        let ghost p = store::opt_text(*pending);
        if self.confirm_delete {
            let mut copy = store::copy_opt(pending);
            if confirm::pending_id(&mut copy, now_ms).is_none() {
                self.confirm_delete = false;
            }
        }
        let ghost mid = app::refreshed(before, p, now_ms as nat);
        proof {
            assert(self@ == mid);
            assert(mid.places() == before.places());
            assert(mid.source() == before.source());
            assert(mid.filtered() == before.filtered());
        }
        let ghost handled = app::on_message(mid, p, now_ms as nat, m);
        let mut v = self.handle_message(m, pending, now_ms);
        proof {
            law_messages_keep_the_selection(mid, p, now_ms as nat, m);
        }
        let ghost then = self@;
        self.ensure_image_decode(&mut v);
        proof {
            let t = app::decoding_asked(
                app::Turn {
                    app: handled.app,
                    pending: handled.pending,
                    effects: handled.effects,
                },
            );
            assert(t.app == self@);
            assert(self@.places() == then.places());
            assert(self@.source() == then.source());
            assert(self@.filtered() == then.filtered());
        }
        v
    }
}

proof fn lemma_select_settled(s: AppView, i: int)
    requires
        0 <= i < s.visible_len() || i == 0,
    ensures
        s.select(i).settled(),
{
    let t = s.select(i);
    assert(t.places() == s.places());
    assert(t.source() == s.source());
    assert(t.filtered() == s.filtered());
}

proof fn lemma_relocate_settled(s: AppView)
    requires
        s.selected >= 0,
    ensures
        s.relocate().settled(),
{
    let t = s.relocate();
    assert(t.places() == s.places());
    assert(t.source() == s.source());
    assert(t.filtered() == s.filtered());
    if s.selected_id is Some {
        app::lemma_first_with_id(s.filtered(), s.selected_id->0);
    }
}

proof fn lemma_flags_settled(s: AppView, t: AppView)
    requires
        s.settled(),
        t.clips == s.clips,
        t.clips_gen == s.clips_gen,
        t.hits == s.hits,
        t.hits_query == s.hits_query,
        t.hits_gen == s.hits_gen,
        t.query == s.query,
        t.selected == s.selected,
        t.selected_id == s.selected_id,
    ensures
        t.settled(),
{
    assert(t.places() == s.places());
    assert(t.source() == s.source());
    assert(t.filtered() == s.filtered());
}

/// Whatever happens, the selected row is one that is drawn, and the entry that
/// is remembered for it is the one it shows.
pub proof fn law_messages_keep_the_selection(
    s: AppView,
    p: Option<Seq<char>>,
    now_ms: nat,
    m: Message,
)
    requires
        s.settled(),
    ensures
        app::on_message(s, p, now_ms, m).app.settled(),
{
    let t = app::on_message(s, p, now_ms, m).app;
    match m {
        Message::Query(q) => {
            if q@ != s.query {
                let u = AppView { query: q@, ..s };
                lemma_select_settled(u.search_asked(), 0);
                lemma_flags_settled(u.search_asked().select(0), t);
            }
        },
        Message::SearchDone { query, gen, hits } => {
            lemma_relocate_settled(
                AppView {
                    hits: store::clips_view(hits@),
                    hits_query: query@,
                    hits_gen: gen,
                    ..s
                },
            );
        },
        Message::Key(k, mods) => {
            lemma_keys_settled(s, p, now_ms, k, mods);
        },
        Message::CopyFinished { exit, ok } => {
            lemma_select_settled(AppView { query: Seq::empty(), ..s }, 0);
        },
        Message::PinFinished { ok, clips } => {
            lemma_list_settled(s, p, app::opt_clips(clips), app::report_unless(s, ok, "固定/取消固定失败"@));
        },
        Message::DeleteFinished { ok, clips } => {
            lemma_list_settled(s, p, app::opt_clips(clips), app::report_unless(s, ok, "删除失败"@));
        },
        Message::ListReloaded(clips) => {
            lemma_list_settled(s, p, app::opt_clips(clips), Seq::empty());
        },
        Message::DeleteReloaded(clips) => {
            lemma_list_settled(s, p, app::opt_clips(clips), Seq::empty());
        },
        Message::Hover(i) => {
            if s.mouse_follow && i < s.visible_len() {
                lemma_select_settled(s, i as int);
                lemma_flags_settled(s.select(i as int), t);
            }
        },
        Message::Pick(i) => {
            if i < s.visible_len() {
                lemma_select_settled(s, i as int);
            }
        },
        Message::PickStay(i) => {
            if i < s.visible_len() {
                lemma_select_settled(s, i as int);
            }
        },
        _ => {
            lemma_flags_settled(s, t);
        },
    }
}

proof fn lemma_list_settled(
    s: AppView,
    p: Option<Seq<char>>,
    clips: Option<Seq<store::ClipView>>,
    first: Seq<EffectView>,
)
    requires
        s.settled(),
    ensures
        app::on_list(s, p, clips, first).app.settled(),
        app::on_quiet_list(s, p, clips, first).app.settled(),
{
    if let Some(c) = clips {
        let t = s.loaded(c).search_asked();
        lemma_relocate_settled(t);
        let u = AppView { mouse_follow: false, ..t };
        lemma_relocate_settled(u);
        lemma_flags_settled(u.relocate(), u.relocate().unconfirmed());
    }
}

proof fn lemma_keys_settled(
    s: AppView,
    p: Option<Seq<char>>,
    now_ms: nat,
    k: Key,
    m: Modifiers,
)
    requires
        s.settled(),
    ensures
        app::on_key(s, p, now_ms, k, m).app.settled(),
{
    let t = app::on_key(s, p, now_ms, k, m).app;
    let still = AppView { mouse_follow: false, ..s };
    match k {
        Key::Up | Key::Down => {
            let delta: int = if k is Up {
                -1
            } else {
                1
            };
            lemma_flags_settled(s, still);
            assert(still.places() == s.places());
            assert(still.source() == s.source());
            assert(still.filtered() == s.filtered());
            let n = s.visible_len();
            let next = app::moved(s.selected, delta, n);
            if n > 0 && next != s.selected {
                lemma_select_settled(still, next);
                lemma_flags_settled(still.select(next), t);
            }
        },
        Key::Escape => {
            if s.search_mode || s.query.len() > 0 {
                let u = AppView { search_mode: false, query: Seq::empty(), ..s };
                lemma_select_settled(u, 0);
                lemma_flags_settled(u.select(0), t);
            } else {
                lemma_flags_settled(s, t);
            }
        },
        Key::Character(c) => {
            if app::quick_row(c@) is Some {
                let row = app::quick_row(c@)->0;
                if row < s.visible_len() {
                    lemma_select_settled(s, row);
                }
            }
            if t.selected == s.selected && t.selected_id == s.selected_id {
                lemma_flags_settled(s, t);
            }
        },
        _ => {},
    }
}

} // verus!
