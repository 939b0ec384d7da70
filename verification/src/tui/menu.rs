//! The rows of the menu, and what is read back from the program that shows them.

use crate::config::Config;
use crate::confirm;
use crate::order;
use crate::preview;
use crate::store;
use crate::store::query;
use crate::store::transfer;
use crate::store::{Clip, ClipView, Store, StoreView};
use crate::text;
use vstd::prelude::*;

verus! {

/// The columns of a row: number, current mark, star, id, preview.
pub const FZF_ORIGINAL_COLS: usize = 5;

/// The columns that `fzf` shows: all but the id, which a search must not hit.
pub const FZF_WITH_NTH: &'static str = "1,2,3,5..";

/// The columns that `fzf` searches, counted among those that it shows: the
/// preview.
pub const FZF_NTH: &'static str = "4..";

/// The column by which `fzf` follows an entry, counted among all: the id.
pub const FZF_ID_NTH: &'static str = "4";

/// The prompt of the menu.
pub const PROMPT: &'static str = "--prompt=剪贴板> ";

/// The keys, above the rows.
pub const HEADER: &'static str =
    "Alt+1..9快选 · Space跳 · /或Ctrl-F搜索 · Enter复制 · Ctrl-Y不退出 · ▶=当前 · ★删=两次Ctrl-X";

/// What the header adds where the current item is not in the history.
pub const HEADER_ABSENT: &'static str = " · 当前剪贴板不在历史中(被过滤或超限)";

/// What stands behind a row whose deletion is pending.
pub const PENDING_MARK: &'static str = "  ◆ 再按Ctrl-X确认删除";

/// The notice where there is nothing to show.
pub const NOTICE_EMPTY: &'static str = "剪贴板历史为空";

/// The mark of the current item.
pub open spec fn cur_mark(cur: Option<Seq<char>>, c: ClipView) -> Seq<char> {
    if cur == Some(c.hash) {
        "▶"@
    } else {
        " "@
    }
}

/// The mark of a pinned entry.
pub open spec fn star(c: ClipView) -> Seq<char> {
    if c.pinned {
        "★"@
    } else {
        " "@
    }
}

/// What stands before the preview in a row: four columns, each ended by a tab.
pub open spec fn row_head(num: nat, cur: Option<Seq<char>>, c: ClipView) -> Seq<char> {
    text::dec_nat(num) + "\t"@ + cur_mark(cur, c) + "\t"@ + star(c) + "\t"@ + text::dec_int(c.id)
        + "\t"@
}

/// The preview in a row: a tab is shown as a space, as tabs part the columns.
pub open spec fn row_preview(c: ClipView, width: nat) -> Seq<char> {
    text::replaced(preview::one_line(c.text, width), '\t', " "@)
}

/// A row of the menu. The marker goes behind the preview.
pub open spec fn row(
    num: nat,
    cur: Option<Seq<char>>,
    c: ClipView,
    width: nat,
    marker: Seq<char>,
) -> Seq<char> {
    row_head(num, cur, c) + row_preview(c, width) + marker
}

/// What is put behind the row of an entry.
pub open spec fn marker_of(pending: Option<int>, c: ClipView) -> Seq<char> {
    if pending == Some(c.id) {
        PENDING_MARK@
    } else {
        Seq::empty()
    }
}

/// The rows of a menu, numbered from one.
pub open spec fn rows(
    clips: Seq<ClipView>,
    cur: Option<Seq<char>>,
    width: nat,
    pending: Option<int>,
) -> Seq<Seq<char>> {
    Seq::new(
        clips.len(),
        |i: int| row((i + 1) as nat, cur, clips[i], width, marker_of(pending, clips[i])),
    )
}

/// Lines, each ended by a line feed.
pub open spec fn in_lines(v: Seq<Seq<char>>) -> Seq<char>
    decreases v.len(),
{
    if v.len() == 0 {
        Seq::empty()
    } else {
        in_lines(v.drop_last()) + v.last().push('\n')
    }
}

fn join_lines(v: &Vec<String>) -> (r: String)
    ensures
        r@ == in_lines(text::texts(v@)),
{
    let ghost all = text::texts(v@);
    let mut r = String::new();
    let mut i: usize = 0;
    assert(all.take(0).len() == 0);
    while i < v.len()
        invariant
            i <= v.len(),
            all == text::texts(v@),
            r@ == in_lines(all.take(i as int)),
        decreases v.len() - i,
    {
        r.append(v[i].as_str());
        r.push('\n');
        proof {
            assert(all.take(i + 1).drop_last() == all.take(i as int));
            assert(all.take(i + 1).last() == v@[i as int]@);
        }
        i += 1;
    }
    assert(all.take(v.len() as int) == all);
    r
}

/// The two marks of a row: that of the current item and that of a pinned one.
pub fn row_marks(cur: &Option<String>, c: &Clip) -> (m: (String, String))
    ensures
        m.0@ == cur_mark(store::opt_text(*cur), c@),
        m.1@ == star(c@),
{
    let current = match cur {
        Some(h) => *h == c.hash,
        None => false,
    };
    let a = if current {
        "▶".to_owned()
    } else {
        " ".to_owned()
    };
    let b = if c.pinned {
        "★".to_owned()
    } else {
        " ".to_owned()
    };
    (a, b)
}

/// A row of the menu: one line of five columns between tabs, as long as the marker
/// holds neither a tab nor a line feed.
pub fn render_row(
    num: usize,
    cur: &Option<String>,
    c: &Clip,
    cfg: &Config,
    marker: &str,
) -> (r: String)
    ensures
        r@ == row(
            num as nat,
            store::opt_text(*cur),
            c@,
            cfg.preview_width as nat,
            marker@,
        ),
        !marker@.contains('\n') ==> !r@.contains('\n'),
        !marker@.contains('\t') ==> text::split_on(r@, '\t') == seq![
            text::dec_nat(num as nat),
            cur_mark(store::opt_text(*cur), c@),
            star(c@),
            text::dec_int(c.id as int),
            row_preview(c@, cfg.preview_width as nat) + marker@,
        ],
{
    proof {
        super::laws::law_row_is_one_line_of_five_columns(
            num as nat,
            store::opt_text(*cur),
            c@,
            cfg.preview_width as nat,
            marker@,
        );
    }
    let (mark, pin) = row_marks(cur, c);
    let mut r = text::u64_text(num as u64);
    r.append("\t");
    r.append(mark.as_str());
    r.append("\t");
    r.append(pin.as_str());
    r.append("\t");
    text::push_i64(&mut r, c.id);
    r.append("\t");
    let shown = preview::preview_text(c, cfg.preview_width);
    r.append(text::replace(shown.as_str(), '\t', " ").as_str());
    r.append(marker);
    r
}

fn render_rows(
    clips: &Vec<Clip>,
    cur: &Option<String>,
    cfg: &Config,
    pending: Option<i64>,
) -> (v: Vec<String>)
    ensures
        text::texts(v@) == rows(
            store::clips_view(clips@),
            store::opt_text(*cur),
            cfg.preview_width as nat,
            match pending {
                Some(id) => Some(id as int),
                None => None,
            },
        ),
{
    let ghost views = store::clips_view(clips@);
    let ghost p = match pending {
        Some(id) => Some(id as int),
        None => None,
    };
    let ghost all = rows(views, store::opt_text(*cur), cfg.preview_width as nat, p);
    let mut v: Vec<String> = Vec::new();
    let mut i: usize = 0;
    while i < clips.len()
        invariant
            i <= clips.len(),
            views == store::clips_view(clips@),
            p == match pending {
                Some(id) => Some(id as int),
                None => None,
            },
            all == rows(views, store::opt_text(*cur), cfg.preview_width as nat, p),
            text::texts(v@) == all.take(i as int),
        decreases clips.len() - i,
    {
        let c = &clips[i];
        assert(views[i as int] == c@);
        let is_pending = match pending {
            Some(id) => id == c.id,
            None => false,
        };
        let marker = if is_pending {
            PENDING_MARK
        } else {
            ""
        };
        proof {
            reveal_strlit("");
            assert(marker@ =~= marker_of(p, c@));
        }
        let line = render_row(i + 1, cur, c, cfg, marker);
        proof {
            assert(line@ == all[i as int]);
            text::lemma_texts_push(v@, line);
            assert(all.take(i + 1) =~= all.take(i as int).push(all[i as int]));
        }
        v.push(line);
        i += 1;
    }
    assert(text::texts(v@) =~= all);
    v
}

/// The entries of the menu.
pub open spec fn menu(s: StoreView, pinned_on_top: bool, max_items: nat) -> Seq<ClipView> {
    store::clips_of(
        order::first_n(
            query::listed(s, pinned_on_top),
            if max_items < store::MENU_LIMIT {
                max_items
            } else {
                store::MENU_LIMIT as nat
            },
        ),
    )
}

/// The entries of the menu: as many as the history keeps, but no more than the
/// menu shows.
pub fn menu_clips(s: &Store, cfg: &Config) -> (v: Vec<Clip>)
    requires
        s.wf(),
    ensures
        store::clips_view(v@) == menu(s@, cfg.pinned_on_top, cfg.max_items as nat),
{
    let n: usize = if cfg.max_items < store::MENU_LIMIT {
        cfg.max_items
    } else {
        store::MENU_LIMIT
    };
    query::list(s, n, cfg)
}

/// Whether the header tells that the current item is not in the history.
pub open spec fn is_absent(clips: Seq<ClipView>, cur: Option<Seq<char>>) -> bool {
    cur is Some && clips.len() > 0 && clips[0].hash != cur->0
}

/// The header of the menu. The current item would be the first entry.
pub fn header(clips: &Vec<Clip>, cur: &Option<String>) -> (r: String)
    ensures
        r@ == HEADER@ + if is_absent(store::clips_view(clips@), store::opt_text(*cur)) {
            HEADER_ABSENT@
        } else {
            Seq::empty()
        },
{
    let mut r = HEADER.to_owned();
    if let Some(h) = cur {
        if clips.len() > 0 {
            assert(store::clips_view(clips@)[0] == clips@[0]@);
            if !(clips[0].hash == *h) {
                r.append(HEADER_ABSENT);
                return r;
            }
        }
    }
    assert(r@ =~= HEADER@ + Seq::empty());
    r
}

/// What `fzf` is fed with: the rows of the menu.
pub fn fzf_input(clips: &Vec<Clip>, cur: &Option<String>, cfg: &Config) -> (r: String)
    ensures
        r@ == in_lines(
            rows(
                store::clips_view(clips@),
                store::opt_text(*cur),
                cfg.preview_width as nat,
                None,
            ),
        ),
{
    join_lines(&render_rows(clips, cur, cfg, None))
}

/// The keys that pick one of the first `n` rows at once.
pub open spec fn quick_binds(n: nat) -> Seq<char>
    decreases n,
{
    if n == 0 {
        Seq::empty()
    } else {
        quick_binds((n - 1) as nat) + "alt-"@ + text::dec_nat(n) + ":pos("@ + text::dec_nat(n)
            + ")+accept,"@
    }
}

/// The keys that pick a row, jump, and copy without closing.
pub open spec fn pick_binds(exe: Seq<char>) -> Seq<char> {
    "--bind="@ + quick_binds(9) + "space:jump,ctrl-y:execute-silent("@ + exe + " copy {4})"@
}

/// What fills the pane below the rows.
pub open spec fn pane_command(exe: Seq<char>, enable_preview: bool) -> Seq<char> {
    "--preview="@ + if enable_preview {
        exe + " preview {4}"@
    } else {
        "echo {5..}"@
    }
}

/// A key that runs a command of the program and then shows the rows anew.
pub open spec fn acting_bind(key: Seq<char>, exe: Seq<char>, command: Seq<char>) -> Seq<char> {
    key + "("@ + exe + command + ")+reload-sync("@ + exe + " list-raw)"@
}

/// The arguments of `fzf`.
pub open spec fn fzf_arguments(exe: Seq<char>, header: Seq<char>, enable_preview: bool) -> Seq<
    Seq<char>,
> {
    seq![
        "--no-sort"@,
        "--delimiter=\t"@,
        "--nth="@ + FZF_NTH@,
        "--with-nth="@ + FZF_WITH_NTH@,
        pick_binds(exe),
        "--tabstop=1"@,
        "--height=100%"@,
        "--layout=reverse"@,
        "--border"@,
        "--info=inline"@,
        PROMPT@,
        "--header="@ + header,
        "--track"@,
        "--id-nth="@ + FZF_ID_NTH@,
        "--no-input"@,
        pane_command(exe, enable_preview),
        "--preview-window=down:5:wrap:border-rounded"@,
        "--bind=/:show-input"@,
        "--bind=ctrl-f:show-input"@,
        "--bind=esc:abort"@,
        acting_bind("--bind=ctrl-p:execute-silent"@, exe, " pin {4}"@),
        acting_bind("--bind=ctrl-x:execute-silent"@, exe, " delete --fzf {4}"@),
        "--bind=ctrl-r:reload-sync("@ + exe + " list-raw)"@,
        acting_bind("--bind=alt-x:execute"@, exe, " wipe"@),
    ]
}

fn cat(a: &str, b: &str) -> (r: String)
    ensures
        r@ == a@ + b@,
{
    let mut r = a.to_owned();
    r.append(b);
    r
}

fn act(key: &str, exe: &str, command: &str) -> (r: String)
    ensures
        r@ == acting_bind(key@, exe@, command@),
{
    let mut r = cat(key, "(");
    r.append(exe);
    r.append(command);
    r.append(")+reload-sync(");
    r.append(exe);
    r.append(" list-raw)");
    r
}

fn picks(exe: &str) -> (r: String)
    ensures
        r@ == pick_binds(exe@),
{
    let mut quick = String::new();
    let mut n: u64 = 0;
    while n < 9
        invariant
            n <= 9,
            quick@ == quick_binds(n as nat),
        decreases 9 - n,
    {
        n += 1;
        quick.append("alt-");
        text::push_u64(&mut quick, n);
        quick.append(":pos(");
        text::push_u64(&mut quick, n);
        quick.append(")+accept,");
    }
    let mut r = cat("--bind=", quick.as_str());
    r.append("space:jump,ctrl-y:execute-silent(");
    r.append(exe);
    r.append(" copy {4})");
    r
}

fn pane(exe: &str, enable_preview: bool) -> (r: String)
    ensures
        r@ == pane_command(exe@, enable_preview),
{
    if enable_preview {
        cat("--preview=", cat(exe, " preview {4}").as_str())
    } else {
        cat("--preview=", "echo {5..}")
    }
}

/// The arguments of `fzf`, given the path of this program.
pub fn fzf_args(exe: &str, header: &str, enable_preview: bool) -> (v: Vec<String>)
    ensures
        text::texts(v@) == fzf_arguments(exe@, header@, enable_preview),
{
    let mut v: Vec<String> = Vec::new();
    v.push("--no-sort".to_owned());
    v.push("--delimiter=\t".to_owned());
    v.push(cat("--nth=", FZF_NTH));
    v.push(cat("--with-nth=", FZF_WITH_NTH));
    v.push(picks(exe));
    v.push("--tabstop=1".to_owned());
    v.push("--height=100%".to_owned());
    v.push("--layout=reverse".to_owned());
    v.push("--border".to_owned());
    v.push("--info=inline".to_owned());
    v.push(PROMPT.to_owned());
    v.push(cat("--header=", header));
    v.push("--track".to_owned());
    v.push(cat("--id-nth=", FZF_ID_NTH));
    v.push("--no-input".to_owned());
    v.push(pane(exe, enable_preview));
    v.push("--preview-window=down:5:wrap:border-rounded".to_owned());
    v.push("--bind=/:show-input".to_owned());
    v.push("--bind=ctrl-f:show-input".to_owned());
    v.push("--bind=esc:abort".to_owned());
    v.push(act("--bind=ctrl-p:execute-silent", exe, " pin {4}"));
    v.push(act("--bind=ctrl-x:execute-silent", exe, " delete --fzf {4}"));
    let mut reload = cat("--bind=ctrl-r:reload-sync(", exe);
    reload.append(" list-raw)");
    v.push(reload);
    v.push(act("--bind=alt-x:execute", exe, " wipe"));
    assert(text::texts(v@) =~= fzf_arguments(exe@, header@, enable_preview));
    v
}

/// A literal that names an entry: zero names none.
pub open spec fn id_literal(s: Seq<char>) -> Option<int> {
    match text::within(text::int_literal(s), i64::MIN as int, i64::MAX as int) {
        Some(id) => if id == 0 {
            None
        } else {
            Some(id)
        },
        None => None,
    }
}

/// The entry that `fzf` names: the fourth column of the first line that it prints.
pub open spec fn fzf_choice(printed: Seq<char>) -> Option<int> {
    let lines = text::lines_of(text::trimmed(printed));
    if lines.len() == 0 {
        None
    } else {
        let cols = text::split_on(lines[0], '\t');
        if cols.len() < 4 {
            None
        } else {
            id_literal(cols[3])
        }
    }
}

/// The entry that was picked in `fzf`.
pub fn fzf_picked(printed: &str) -> (r: Option<i64>)
    ensures
        match r {
            Some(id) => fzf_choice(printed@) == Some(id as int),
            None => fzf_choice(printed@) is None,
        },
{
    let t = text::trim(printed);
    let lines = text::lines(t.as_str());
    let ghost all = text::texts(lines@);
    if lines.len() == 0 {
        return None;
    }
    assert(all[0] == lines@[0]@);
    let cols = text::split(lines[0].as_str(), '\t');
    let ghost parts = text::texts(cols@);
    if cols.len() < 4 {
        return None;
    }
    assert(parts[3] == cols@[3]@);
    match text::parse_i64(cols[3].as_str()) {
        Some(id) => if id == 0 {
            None
        } else {
            Some(id)
        },
        None => None,
    }
}

/// A line of the menu in `fuzzel`.
pub open spec fn fuzzel_line(num: nat, cur: Option<Seq<char>>, c: ClipView, width: nat) -> Seq<
    char,
> {
    text::dec_nat(num) + ". "@ + text::trimmed(cur_mark(cur, c) + star(c)) + " "@ + text::dec_int(
        c.id,
    ) + " "@ + preview::one_line(c.text, width)
}

/// The lines of the menu in `fuzzel`, numbered from one.
pub open spec fn fuzzel_lines(clips: Seq<ClipView>, cur: Option<Seq<char>>, width: nat) -> Seq<
    Seq<char>,
> {
    Seq::new(clips.len(), |i: int| fuzzel_line((i + 1) as nat, cur, clips[i], width))
}

fn fuzzel_row(num: usize, cur: &Option<String>, c: &Clip, width: usize) -> (r: String)
    ensures
        r@ == fuzzel_line(num as nat, store::opt_text(*cur), c@, width as nat),
{
    let (mark, pin) = row_marks(cur, c);
    let marks = text::trim(cat(mark.as_str(), pin.as_str()).as_str());
    let mut r = text::u64_text(num as u64);
    r.append(". ");
    r.append(marks.as_str());
    r.append(" ");
    text::push_i64(&mut r, c.id);
    r.append(" ");
    r.append(preview::preview_text(c, width).as_str());
    r
}

/// What `fuzzel` is fed with.
pub fn fuzzel_input(clips: &Vec<Clip>, cur: &Option<String>, cfg: &Config) -> (r: String)
    ensures
        r@ == in_lines(
            fuzzel_lines(
                store::clips_view(clips@),
                store::opt_text(*cur),
                cfg.preview_width as nat,
            ),
        ),
{
    let ghost views = store::clips_view(clips@);
    let ghost all = fuzzel_lines(views, store::opt_text(*cur), cfg.preview_width as nat);
    let mut v: Vec<String> = Vec::new();
    let mut i: usize = 0;
    while i < clips.len()
        invariant
            i <= clips.len(),
            views == store::clips_view(clips@),
            all == fuzzel_lines(views, store::opt_text(*cur), cfg.preview_width as nat),
            text::texts(v@) == all.take(i as int),
        decreases clips.len() - i,
    {
        assert(views[i as int] == clips@[i as int]@);
        let line = fuzzel_row(i + 1, cur, &clips[i], cfg.preview_width);
        proof {
            assert(line@ == all[i as int]);
            text::lemma_texts_push(v@, line);
            assert(all.take(i + 1) =~= all.take(i as int).push(all[i as int]));
        }
        v.push(line);
        i += 1;
    }
    assert(text::texts(v@) =~= all);
    join_lines(&v)
}

/// The arguments of `fuzzel`.
pub fn fuzzel_args() -> (v: Vec<String>)
    ensures
        text::texts(v@) == seq!["--dmenu"@, PROMPT@],
{
    let mut v: Vec<String> = Vec::new();
    v.push("--dmenu".to_owned());
    v.push(PROMPT.to_owned());
    assert(text::texts(v@) =~= seq!["--dmenu"@, PROMPT@]);
    v
}

/// The first of the words that is a number.
pub open spec fn first_number(words: Seq<Seq<char>>) -> Option<int>
    decreases words.len(),
{
    if words.len() == 0 {
        None
    } else {
        match text::within(text::int_literal(words[0]), i64::MIN as int, i64::MAX as int) {
            Some(n) => Some(n),
            None => first_number(words.skip(1)),
        }
    }
}

/// The entry that `fuzzel` names: the first word that is a number, where it is
/// not zero. The number of a line is none, for the full stop behind it.
pub open spec fn fuzzel_choice(printed: Seq<char>) -> Option<int> {
    match first_number(text::words_of(printed)) {
        Some(id) => if id == 0 {
            None
        } else {
            Some(id)
        },
        None => None,
    }
}

/// The entry that was picked in `fuzzel`.
pub fn fuzzel_picked(printed: &str) -> (r: Option<i64>)
    ensures
        match r {
            Some(id) => fuzzel_choice(printed@) == Some(id as int),
            None => fuzzel_choice(printed@) is None,
        },
{
    let w = text::words(printed);
    let ghost all = text::texts(w@);
    let mut i: usize = 0;
    assert(all.skip(0) == all);
    while i < w.len()
        invariant
            i <= w.len(),
            all == text::texts(w@),
            all == text::words_of(printed@),
            first_number(all) == first_number(all.skip(i as int)),
        decreases w.len() - i,
    {
        assert(all.skip(i as int)[0] == w@[i as int]@);
        assert(all.skip(i as int).skip(1) == all.skip(i + 1));
        if let Some(id) = text::parse_i64(w[i].as_str()) {
            return if id == 0 {
                None
            } else {
                Some(id)
            };
        }
        i += 1;
    }
    None
}

/// The rows of the menu as `fzf` reads them anew. What is pending is marked.
pub fn list_raw(s: &Store, cfg: &Config, file: &mut Option<String>, now_ms: u128) -> (v: Vec<
    String,
>)
    requires
        s.wf(),
    ensures
        text::texts(v@) == rows(
            menu(s@, cfg.pinned_on_top, cfg.max_items as nat),
            store::pointed(s@.current),
            cfg.preview_width as nat,
            confirm::armed(store::opt_text(*old(file)), now_ms as nat),
        ),
        store::opt_text(*final(file)) == if confirm::armed(
            store::opt_text(*old(file)),
            now_ms as nat,
        ) is Some {
            store::opt_text(*old(file))
        } else {
            None
        },
{
    let clips = menu_clips(s, cfg);
    let cur = store::current_hash(s);
    let pending = confirm::pending_id(file, now_ms);
    render_rows(&clips, &cur, cfg, pending)
}

/// The rows of a search of the whole history, given what the index found.
pub fn search_raw(
    s: &Store,
    query: &str,
    limit: usize,
    ranked: &Vec<i64>,
    cfg: &Config,
) -> (v: Vec<String>)
    requires
        s.wf(),
    ensures
        text::texts(v@) == rows(
            store::clips_of(
                order::first_n(query::search_rows(s@.rows, query@, ranked@), limit as nat),
            ),
            store::pointed(s@.current),
            cfg.preview_width as nat,
            None,
        ),
{
    let clips = query::search(s, query, limit, ranked);
    let cur = store::current_hash(s);
    render_rows(&clips, &cur, cfg, None)
}

/// What the preview of an entry shows on the command line. For an image, that is
/// what was rendered, where images are previewed.
pub open spec fn preview_shown(
    c: ClipView,
    enable_image_preview: bool,
    rendered: Seq<char>,
) -> Seq<char> {
    if transfer::is_image(c.mime) {
        if enable_image_preview && rendered.len() > 0 {
            rendered.push('\n')
        } else {
            "[image "@ + c.mime + "]\n"@ + c.text + "\n"@
        }
    } else {
        let lines = text::lines_of(c.text);
        let max_lines = preview::MULTILINE_CLI.0 as nat;
        let width = preview::MULTILINE_CLI.1 as nat;
        preview::cut_lines(lines, preview::shown_lines(lines, max_lines), width)
            + if preview::is_truncated(lines, max_lines, width) {
            "… (预览已截断，完整内容 "@ + text::dec_nat(text::utf8(c.text).len()) + " 字节)\n"@
        } else {
            Seq::empty()
        }
    }
}

/// What the preview of an entry shows on the command line, given what was
/// rendered of an image.
pub fn preview_id(c: &Clip, cfg: &Config, rendered: &str) -> (r: String)
    ensures
        r@ == preview_shown(c@, cfg.enable_image_preview, rendered@),
{
    if text::starts_with(c.mime.as_str(), "image/") {
        if cfg.enable_image_preview && !rendered.is_empty() {
            let mut r = rendered.to_owned();
            r.push('\n');
            return r;
        }
        let mut r = "[image ".to_owned();
        r.append(c.mime.as_str());
        r.append("]\n");
        r.append(c.text.as_str());
        r.append("\n");
        return r;
    }
    let m = preview::preview_multiline(c, preview::MULTILINE_CLI.0, preview::MULTILINE_CLI.1);
    let mut r = m.text;
    if m.truncated {
        r.append("… (预览已截断，完整内容 ");
        text::push_u64(&mut r, text::byte_len(c.text.as_str()) as u64);
        r.append(" 字节)\n");
    }
    assert(!m.truncated ==> r@ =~= r@ + Seq::empty());
    r
}

} // verus!
