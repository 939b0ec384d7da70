//! What the window shows.

use super::app::App;
use super::filter;
use super::search;
use crate::preview;
use crate::store;
use crate::store::transfer;
use crate::store::{Clip, ClipView};
use crate::text;
use vstd::prelude::*;

verus! {

/// How long the pointer to the current item is taken as read, in milliseconds.
pub const CURRENT_TTL_MS: u64 = 500;

/// The line that asks for the confirmation of a deletion.
pub const CONFIRM_BANNER: &'static str =
    "◆ 星标条目删除确认：再按 Ctrl-X 执行，Esc 取消";

/// A stretch of a row, of which all characters match the query or none.
#[derive(Debug, Clone)]
pub struct Run {
    pub text: String,
    pub hit: bool,
}

/// A row as it is drawn.
#[derive(Debug, Clone)]
pub struct RowModel {
    pub prefix: String,
    pub runs: Vec<Run>,
    pub selected: bool,
}

/// The contents of a list of stretches.
pub open spec fn runs_view(v: Seq<Run>) -> Seq<(Seq<char>, bool)> {
    v.map_values(|r: Run| (r.text@, r.hit))
}

/// A text cut into its longest stretches of equal marks.
pub open spec fn stretches(t: Seq<char>, marks: Seq<bool>) -> Seq<(Seq<char>, bool)>
    decreases t.len(),
{
    if t.len() == 0 {
        Seq::empty()
    } else {
        let front = stretches(t.drop_last(), marks.drop_last());
        let c = t.last();
        let hit = marks.last();
        if front.len() > 0 && front.last().1 == hit {
            front.drop_last().push((front.last().0.push(c), hit))
        } else {
            front.push((seq![c], hit))
        }
    }
}

/// The number that picks a row at once: one to nine, and zero for the tenth.
pub open spec fn quick_mark(i: int) -> Seq<char> {
    if 0 <= i <= 8 {
        text::dec_nat((i + 1) as nat)
    } else if i == 9 {
        "0"@
    } else {
        " "@
    }
}

/// What stands before the text of a row: the cursor, the quick number, the mark
/// of the current item and that of a pinned one.
pub open spec fn row_prefix(i: int, selected: bool, current: bool, pinned: bool) -> Seq<char> {
    (if selected {
        "❯"@
    } else {
        " "@
    }) + " "@ + quick_mark(i) + " "@ + (if current {
        "▶"@
    } else {
        " "@
    }) + (if pinned {
        "◆"@
    } else {
        " "@
    }) + " "@
}

/// The text of a row. The mark of a line feed is one that the font has.
pub open spec fn row_text(t: Seq<char>, width: nat) -> Seq<char> {
    text::replaced(preview::one_line(t, width), '↵', "⏎"@)
}

/// Which characters of a row match the query.
pub open spec fn row_marks(query: Seq<char>, t: Seq<char>) -> Seq<bool> {
    let q = filter::lowercase(query);
    Seq::new(t.len(), |i: int| query.len() > 0 && search::is_match(q, t) && search::is_hit(q, t, i))
}

/// Whether a row is drawn as the entry asks.
pub open spec fn is_row(
    m: RowModel,
    i: int,
    selected: bool,
    c: ClipView,
    cur: Option<Seq<char>>,
    query: Seq<char>,
    width: nat,
) -> bool {
    let t = row_text(c.text, width);
    &&& m.selected == selected
    &&& m.prefix@ == row_prefix(i, selected, cur == Some(c.hash), c.pinned)
    &&& runs_view(m.runs@) == stretches(t, row_marks(query, t))
}

fn quick_text(i: usize) -> (r: String)
    ensures
        r@ == quick_mark(i as int),
{
    if i <= 8 {
        text::u64_text(i as u64 + 1)
    } else if i == 9 {
        "0".to_owned()
    } else {
        " ".to_owned()
    }
}

fn prefix_text(i: usize, selected: bool, current: bool, pinned: bool) -> (r: String)
    ensures
        r@ == row_prefix(i as int, selected, current, pinned),
{
    let mut r = if selected {
        "❯".to_owned()
    } else {
        " ".to_owned()
    };
    r.append(" ");
    r.append(quick_text(i).as_str());
    r.append(" ");
    if current {
        r.append("▶");
    } else {
        r.append(" ");
    }
    if pinned {
        r.append("◆");
    } else {
        r.append(" ");
    }
    r.append(" ");
    r
}

fn cut_runs(t: &Vec<char>, marks: &Vec<bool>) -> (v: Vec<Run>)
    requires
        marks.len() == t.len(),
    ensures
        runs_view(v@) == stretches(t@, marks@),
{
    let mut v: Vec<Run> = Vec::new();
    let mut i: usize = 0;
    let mut run = String::new();
    let mut run_hit = false;
    assert(runs_view(v@) == Seq::<(Seq<char>, bool)>::empty());
    while i < t.len()
        invariant
            i <= t.len(),
            marks.len() == t.len(),
            i == 0 ==> run@.len() == 0 && runs_view(v@) == stretches(t@.take(0), marks@.take(0)),
            i > 0 ==> stretches(t@.take(i as int), marks@.take(i as int)) == runs_view(v@).push(
                (run@, run_hit),
            ),
        decreases t.len() - i,
    {
        let c = t[i];
        let hit = marks[i];
        let ghost front = stretches(t@.take(i as int), marks@.take(i as int));
        let ghost v0 = v@;
        let ghost run0 = run@;
        proof {
            assert(t@.take(i + 1).drop_last() == t@.take(i as int));
            assert(marks@.take(i + 1).drop_last() == marks@.take(i as int));
            assert(t@.take(i + 1).last() == c && marks@.take(i + 1).last() == hit);
            if i > 0 {
                assert(front.last() == (run@, run_hit));
                assert(front.drop_last() == runs_view(v@));
            }
        }
        if i > 0 && hit != run_hit {
            let done = Run { text: run, hit: run_hit };
            v.push(done);
            assert(runs_view(v@) == runs_view(v0).push((run0, run_hit)));
            run = String::new();
        }
        run_hit = hit;
        run.push(c);
        proof {
            if i == 0 || v@.len() > v0.len() {
                assert(run@ == seq![c]);
            }
        }
        i += 1;
    }
    assert(t@.take(t.len() as int) == t@);
    assert(marks@.take(t.len() as int) == marks@);
    if t.len() > 0 {
        let ghost v0 = v@;
        let ghost run0 = run@;
        v.push(Run { text: run, hit: run_hit });
        assert(runs_view(v@) == runs_view(v0).push((run0, run_hit)));
    }
    v
}

fn marks_of(query: &str, shown: &str) -> (v: Vec<bool>)
    ensures
        v@ == row_marks(query@, shown@),
{
    let n: usize = text::chars_of(shown).len();
    if !query.is_empty() {
        let q = filter::to_lowercase(query);
        if let Some(flags) = search::fuzzy_flags(q.as_str(), shown) {
            assert(flags@ == row_marks(query@, shown@));
            return flags;
        }
    }
    let mut v: Vec<bool> = Vec::new();
    let mut i: usize = 0;
    while i < n
        invariant
            i <= n,
            v.len() == i,
            forall|k: int| 0 <= k < i ==> !(#[trigger] v@[k]),
        decreases n - i,
    {
        v.push(false);
        i += 1;
    }
    assert(v@ == row_marks(query@, shown@));
    v
}

impl App {
    /// How many entries are shown of how many that are loaded.
    pub fn counter(&self) -> (r: String)
        requires
            self.wf(),
        ensures
            r@ == text::dec_nat(self@.filtered().len()) + "/"@ + text::dec_nat(self@.clips.len()),
    {
        assert(filter::positions(self.idxs@).len() == self.idxs@.len());
        let mut r = text::u64_text(self.idxs.len() as u64);
        r.append("/");
        text::push_u64(&mut r, self.clips.len() as u64);
        r
    }

    fn row_model(&self, i: usize, c: &Clip, cur: &Option<String>) -> (m: RowModel)
        ensures
            is_row(
                m,
                i as int,
                i == self.selected,
                c@,
                store::opt_text(*cur),
                self@.query,
                self@.preview_width,
            ),
    {
        let current = match cur {
            Some(h) => *h == c.hash,
            None => false,
        };
        let selected = i == self.selected;
        let line = preview::preview_text(c, self.preview_width);
        let shown = text::replace(line.as_str(), '↵', "⏎");
        let marks = marks_of(self.query.as_str(), shown.as_str());
        let chars = text::chars_of(shown.as_str());
        RowModel {
            prefix: prefix_text(i, selected, current, c.pinned),
            runs: cut_runs(&chars, &marks),
            selected,
        }
    }

    /// The rows that are drawn, given the hash of the current item.
    pub fn rows(&self, cur: &Option<String>) -> (v: Vec<RowModel>)
        requires
            self.wf(),
        ensures
            v.len() == self@.visible_len(),
            forall|i: int|
                0 <= i < v.len() ==> is_row(
                    #[trigger] v@[i],
                    i,
                    i == self@.selected,
                    self@.filtered()[i],
                    store::opt_text(*cur),
                    self@.query,
                    self@.preview_width,
                ),
    {
        let n: usize = self.visible_len();
        let mut v: Vec<RowModel> = Vec::new();
        let mut i: usize = 0;
        while i < n
            invariant
                i <= n,
                self.wf(),
                n == self@.visible_len(),
                v.len() == i,
                forall|k: int|
                    0 <= k < i ==> is_row(
                        #[trigger] v@[k],
                        k,
                        k == self@.selected,
                        self@.filtered()[k],
                        store::opt_text(*cur),
                        self@.query,
                        self@.preview_width,
                    ),
            decreases n - i,
        {
            if let Some(c) = self.row(i) {
                v.push(self.row_model(i, c, cur));
            }
            i += 1;
        }
        v
    }

    /// What stands below the rows.
    pub fn pane(&self) -> (p: Pane)
        requires
            self.wf(),
        ensures
            is_pane(self@, p),
    {
        let c = match self.row(self.selected) {
            Some(c) => c,
            None => {
                return Pane::Nothing;
            },
        };
        if !self.enable_preview {
            return Pane::Nothing;
        }
        if text::starts_with(c.mime.as_str(), "image/") && self.image_preview_enabled {
            if super::update::has(&self.cached, c.id) {
                return Pane::Image { id: c.id };
            }
            let mut hint = "[image ".to_owned();
            hint.append(c.mime.as_str());
            if super::update::has(&self.decoding, c.id) {
                hint.append("] 解码中…");
            } else {
                hint.append("] 数据文件缺失或无法解码");
            }
            return Pane::Hint { text: hint };
        }
        let m = preview::preview_multiline(
            c,
            preview::MULTILINE_GUI.0,
            preview::MULTILINE_GUI.1,
        );
        let mut t = m.text;
        if m.truncated {
            t.push('…');
        }
        Pane::Text { text: text::replace(t.as_str(), '↵', "⏎") }
    }
}

/// What stands below the rows.
#[derive(Debug, Clone)]
pub enum Pane {
    Nothing,
    /// A decoded image.
    Image { id: i64 },
    /// Why no image is shown.
    Hint { text: String },
    /// The first lines of a text.
    Text { text: String },
}

/// The first lines of a text as they stand below the rows.
pub open spec fn pane_text(t: Seq<char>) -> Seq<char> {
    let lines = text::lines_of(t);
    let max_lines = preview::MULTILINE_GUI.0 as nat;
    let width = preview::MULTILINE_GUI.1 as nat;
    let cut = preview::cut_lines(lines, preview::shown_lines(lines, max_lines), width);
    text::replaced(
        if preview::is_truncated(lines, max_lines, width) {
            cut.push('…')
        } else {
            cut
        },
        '↵',
        "⏎"@,
    )
}

/// Whether the right thing stands below the rows.
pub open spec fn is_pane(s: super::app::AppView, p: Pane) -> bool {
    match s.target() {
        None => p is Nothing,
        Some(c) => if !s.enable_preview {
            p is Nothing
        } else if transfer::is_image(c.mime) && s.image_preview_enabled {
            if s.cached.contains(c.id) {
                p matches Pane::Image { id } && id == c.id
            } else {
                p matches Pane::Hint { text } && text@ == "[image "@ + c.mime
                    + if s.decoding.contains(c.id) {
                    "] 解码中…"@
                } else {
                    "] 数据文件缺失或无法解码"@
                }
            }
        } else {
            p matches Pane::Text { text } && text@ == pane_text(c.text)
        },
    }
}

/// The keys that are explained above the rows, and what they do.
pub fn hints() -> (v: Vec<(String, String)>)
    ensures
        v@.map_values(|h: (String, String)| (h.0@, h.1@)) == seq![
            ("1-9,0"@, "快选"@),
            ("⏎"@, "复制"@),
            ("右键"@, "连复"@),
            ("/"@, "搜索"@),
            ("Ctrl-P"@, "固定"@),
            ("Ctrl-X"@, "删除"@),
            ("Esc"@, "清除/退出"@),
        ],
{
    let mut v: Vec<(String, String)> = Vec::new();
    v.push(("1-9,0".to_owned(), "快选".to_owned()));
    v.push(("⏎".to_owned(), "复制".to_owned()));
    v.push(("右键".to_owned(), "连复".to_owned()));
    v.push(("/".to_owned(), "搜索".to_owned()));
    v.push(("Ctrl-P".to_owned(), "固定".to_owned()));
    v.push(("Ctrl-X".to_owned(), "删除".to_owned()));
    v.push(("Esc".to_owned(), "清除/退出".to_owned()));
    v
}

/// Whether the pointer to the current item is to be read again.
pub fn refresh_cur(read_ms: Option<u64>, now_ms: u64) -> (b: bool)
    ensures
        b == match read_ms {
            Some(at) => now_ms >= at + CURRENT_TTL_MS,
            None => true,
        },
{
    match read_ms {
        Some(at) => now_ms >= at && now_ms - at >= CURRENT_TTL_MS,
        None => true,
    }
}

/// The stretches of a text, put together, are the text.
pub open spec fn put_together(runs: Seq<(Seq<char>, bool)>) -> Seq<char>
    decreases runs.len(),
{
    if runs.len() == 0 {
        Seq::empty()
    } else {
        put_together(runs.drop_last()) + runs.last().0
    }
}

/// Cutting a row into stretches loses nothing, and neighbours differ.
pub proof fn law_stretches_make_the_text(t: Seq<char>, marks: Seq<bool>)
    requires
        marks.len() == t.len(),
    ensures
        put_together(stretches(t, marks)) == t,
        t.len() > 0 ==> stretches(t, marks).len() > 0 && stretches(t, marks).last().1
            == marks.last(),
        forall|i: int|
            0 < i < stretches(t, marks).len() ==> (#[trigger] stretches(t, marks)[i]).1
                != stretches(t, marks)[i - 1].1,
    decreases t.len(),
{
    if t.len() > 0 {
        let front = stretches(t.drop_last(), marks.drop_last());
        law_stretches_make_the_text(t.drop_last(), marks.drop_last());
        let all = stretches(t, marks);
        assert(all.drop_last() == if front.len() > 0 && front.last().1 == marks.last() {
            front.drop_last()
        } else {
            front
        });
        assert(t == t.drop_last().push(t.last()));
        if front.len() > 0 && front.last().1 == marks.last() {
            assert(all.last().0 == front.last().0.push(t.last()));
        } else {
            assert(all.last().0 == seq![t.last()]);
        }
        assert(put_together(all) == t);
        assert forall|i: int| 0 < i < all.len() implies (#[trigger] all[i]).1 != all[i - 1].1 by {
            if i < all.len() - 1 {
                assert(all[i] == front[i] && all[i - 1] == front[i - 1]);
            } else if front.len() > 0 && front.last().1 == marks.last() {
                assert(all[i].1 == front[i].1 && all[i - 1] == front[i - 1]);
            }
        }
    }
}

/// For each character of some stretches, whether it is in one that matches.
pub open spec fn spread(runs: Seq<(Seq<char>, bool)>) -> Seq<bool>
    decreases runs.len(),
{
    if runs.len() == 0 {
        Seq::empty()
    } else {
        spread(runs.drop_last()) + Seq::new(runs.last().0.len(), |i: int| runs.last().1)
    }
}

/// Every character of a row is drawn as matching exactly where it is marked so.
pub proof fn law_stretches_keep_the_marks(t: Seq<char>, marks: Seq<bool>)
    requires
        marks.len() == t.len(),
    ensures
        spread(stretches(t, marks)) == marks,
    decreases t.len(),
{
    let all = stretches(t, marks);
    if t.len() == 0 {
        assert(spread(all) == marks);
    } else {
        let front = stretches(t.drop_last(), marks.drop_last());
        law_stretches_keep_the_marks(t.drop_last(), marks.drop_last());
        if front.len() > 0 && front.last().1 == marks.last() {
            assert(all.drop_last() == front.drop_last());
            assert(all.last().0.len() == front.last().0.len() + 1);
            assert(spread(all) == spread(front).push(marks.last()));
        } else {
            assert(all.drop_last() == front);
            assert(all.last().0.len() == 1);
            assert(spread(all) == spread(front).push(marks.last()));
        }
        assert(spread(all) == marks);
    }
}

/// A row of the window shows the preview of its entry, character by character, with
/// the window's own sign for a line feed; it marks nothing where there is no query or
/// the row does not match, and else what the query matches. In front it tells by signs
/// whether it is selected, the current item and pinned.
pub proof fn law_row_shows_its_entry(
    m: RowModel,
    i: int,
    selected: bool,
    c: ClipView,
    cur: Option<Seq<char>>,
    query: Seq<char>,
    width: nat,
)
    requires
        i >= 0,
        is_row(m, i, selected, c, cur, query, width),
    ensures
        ({
            let o = preview::one_line(c.text, width);
            let shown = put_together(runs_view(m.runs@));
            let marks = spread(runs_view(m.runs@));
            let q = filter::lowercase(query);
            &&& m.selected == selected
            &&& shown.len() == o.len()
            &&& marks.len() == o.len()
            &&& forall|k: int|
                0 <= k < o.len() ==> #[trigger] shown[k] == if o[k] == '↵' {
                    '⏎'
                } else {
                    o[k]
                }
            &&& forall|k: int|
                0 <= k < o.len() ==> (#[trigger] marks[k] <==> query.len() > 0 && search::is_match(
                    q,
                    shown,
                ) && search::is_hit(q, shown, k))
        }),
        m.prefix@.contains('❯') <==> selected,
        m.prefix@.contains('▶') <==> cur == Some(c.hash),
        m.prefix@.contains('◆') <==> c.pinned,
        m.prefix@.len() == 7,
        m.prefix@[2] == if i < 9 {
            (49 + i) as char
        } else if i == 9 {
            '0'
        } else {
            ' '
        },
{
    let o = preview::one_line(c.text, width);
    let t = row_text(c.text, width);
    let marks = row_marks(query, t);
    reveal_strlit("⏎");
    text::law_replacing_by_one_keeps_places(o, '↵', "⏎"@);
    law_stretches_make_the_text(t, marks);
    law_stretches_keep_the_marks(t, marks);
    reveal_strlit("❯");
    reveal_strlit("▶");
    reveal_strlit("◆");
    reveal_strlit(" ");
    reveal_strlit("0");
    let p = m.prefix@;
    let a = if selected {
        '❯'
    } else {
        ' '
    };
    let b = if cur == Some(c.hash) {
        '▶'
    } else {
        ' '
    };
    let d = if c.pinned {
        '◆'
    } else {
        ' '
    };
    let n = if i < 9 {
        (49 + i) as char
    } else if i == 9 {
        '0'
    } else {
        ' '
    };
    assert(quick_mark(i) == seq![n]) by {
        if i < 9 {
            assert(text::dec_nat((i + 1) as nat) == seq![text::dec_char(i + 1)]);
        }
    }
    assert(p == seq![a, ' ', n, ' ', b, d, ' ']);
    assert(p[0] == a && p[1] == ' ' && p[2] == n && p[3] == ' ' && p[4] == b && p[5] == d && p[6]
        == ' ');
}

/// The pane of a text shows its first lines, character by character, with the window's
/// own sign for that of a line feed, and ends in an ellipsis exactly where something is
/// left out.
pub proof fn law_pane_shows_the_lines(t: Seq<char>)
    ensures
        ({
            let lines = text::lines_of(t);
            let cut = preview::cut_lines(lines, preview::shown_lines(lines, 80), 300);
            let p = pane_text(t);
            let truncated = preview::is_truncated(lines, 80, 300);
            &&& p.len() == cut.len() + if truncated {
                1int
            } else {
                0
            }
            &&& truncated ==> p.last() == '…'
            &&& forall|k: int|
                0 <= k < cut.len() ==> #[trigger] p[k] == if cut[k] == '↵' {
                    '⏎'
                } else {
                    cut[k]
                }
        }),
{
    reveal_strlit("⏎");
    let lines = text::lines_of(t);
    let cut = preview::cut_lines(lines, preview::shown_lines(lines, 80), 300);
    text::law_replacing_by_one_keeps_places(cut, '↵', "⏎"@);
    text::law_replacing_by_one_keeps_places(cut.push('…'), '↵', "⏎"@);
}

/// The pane shows the selected entry: a text as text, an image as the image once it is
/// decoded, and nothing where there is none or previews are off.
pub proof fn law_pane_shows_the_selected_entry(s: super::app::AppView, p: Pane)
    requires
        is_pane(s, p),
    ensures
        ({
            let some = 0 <= s.selected < s.filtered().len() && s.enable_preview;
            let c = s.filtered()[s.selected];
            let picture = text::has_prefix(c.mime, "image/"@) && s.image_preview_enabled;
            &&& p is Nothing <==> !some
            &&& p is Text <==> some && !picture
            &&& p is Image <==> some && picture && s.cached.contains(c.id)
            &&& p matches Pane::Image { id } ==> id == c.id
            &&& p matches Pane::Text { text } ==> text@ == pane_text(c.text)
        }),
{
}

} // verus!
