//! Previews of entries: one line for lists, several lines for panes, and what
//! is shown for images.

use crate::store::transfer;
use crate::store::Clip;
use crate::text;
use vstd::prelude::*;

verus! {

/// Lines and characters per line of the preview on the command line.
pub const MULTILINE_CLI: (usize, usize) = (100, 300);

/// Lines and characters per line of the preview in the window.
pub const MULTILINE_GUI: (usize, usize) = (80, 300);

/// The one-line preview of a text: line feeds are shown as marks, and what has more
/// than `width` characters, with the marks or without, ends in an ellipsis after
/// `width`.
pub open spec fn one_line(t: Seq<char>, width: nat) -> Seq<char> {
    let marked = text::replaced(text::head(t, width), '\n', " ↵ "@);
    if width == 0 {
        Seq::empty()
    } else if t.len() > width || marked.len() > width {
        text::head(marked, width).push('…')
    } else {
        marked
    }
}

/// The one-line preview of an entry.
pub fn preview_text(clip: &Clip, width: usize) -> (r: String)
    ensures
        r@ == one_line(clip.text@, width as nat),
        r@.len() <= width + 1,
        !r@.contains('\n'),
{
    proof {
        law_preview_is_one_line(clip.text@, width as nat);
        law_preview_fits(clip.text@, width as nat);
    }
    if width == 0 {
        let r = String::new();
        assert(r@ == Seq::<char>::empty());
        return r;
    }
    let over = text::chars_of(clip.text.as_str()).len() > width;
    let head = text::take_chars(clip.text.as_str(), width);
    let marked = text::replace(head.as_str(), '\n', " ↵ ");
    if over || text::chars_of(marked.as_str()).len() > width {
        let mut out = text::take_chars(marked.as_str(), width);
        out.push('…');
        out
    } else {
        marked
    }
}

/// A preview of several lines.
#[derive(Debug, Clone)]
pub struct Multiline {
    pub text: String,
    /// Whether something of the entry is not shown.
    pub truncated: bool,
}

/// The first `n` lines, each cut to `width` characters and ended by a line feed.
pub open spec fn cut_lines(lines: Seq<Seq<char>>, n: int, width: nat) -> Seq<char>
    decreases n,
{
    if n <= 0 {
        Seq::empty()
    } else {
        cut_lines(lines, n - 1, width) + text::head(lines[n - 1], width).push('\n')
    }
}

/// How many lines are shown.
pub open spec fn shown_lines(lines: Seq<Seq<char>>, max_lines: nat) -> int {
    if lines.len() <= max_lines {
        lines.len() as int
    } else {
        max_lines as int
    }
}

/// Whether lines are left out, or one that is shown is cut.
pub open spec fn is_truncated(lines: Seq<Seq<char>>, max_lines: nat, width: nat) -> bool {
    ||| lines.len() > max_lines
    ||| exists|i: int|
        0 <= i < shown_lines(lines, max_lines) && (#[trigger] lines[i]).len() > width
}

/// The first lines of an entry, each cut to a number of characters.
pub fn preview_multiline(clip: &Clip, max_lines: usize, max_chars: usize) -> (r: Multiline)
    ensures
        ({
            let lines = text::lines_of(clip.text@);
            &&& r.text@ == cut_lines(
                lines,
                shown_lines(lines, max_lines as nat),
                max_chars as nat,
            )
            &&& r.truncated == is_truncated(lines, max_lines as nat, max_chars as nat)
        }),
{
    let lines = text::lines(clip.text.as_str());
    let ghost all = text::texts(lines@);
    let n: usize = if lines.len() <= max_lines {
        lines.len()
    } else {
        max_lines
    };
    let mut out = String::new();
    let mut truncated = lines.len() > max_lines;
    let mut i: usize = 0;
    assert(out@ == cut_lines(all, 0, max_chars as nat));
    while i < n
        invariant
            i <= n <= lines.len(),
            all == text::texts(lines@),
            out@ == cut_lines(all, i as int, max_chars as nat),
            truncated == (lines.len() > max_lines || exists|k: int|
                0 <= k < i && (#[trigger] all[k]).len() > max_chars),
        decreases n - i,
    {
        assert(all[i as int] == lines@[i as int]@);
        if text::chars_of(lines[i].as_str()).len() > max_chars {
            truncated = true;
        }
        let ghost out0 = out@;
        let piece = text::take_chars(lines[i].as_str(), max_chars);
        out.append(piece.as_str());
        out.push('\n');
        assert(out@ == out0 + piece@.push('\n'));
        i += 1;
    }
    Multiline { text: out, truncated }
}

/// The arguments with which `chafa` renders an image file.
pub fn chafa_args(path: &str) -> (v: Vec<String>)
    ensures
        text::texts(v@) == seq!["--format"@, "symbols"@, "--size"@, "60x20"@, path@],
{
    let mut v: Vec<String> = Vec::new();
    v.push("--format".to_owned());
    v.push("symbols".to_owned());
    v.push("--size".to_owned());
    v.push("60x20".to_owned());
    v.push(path.to_owned());
    v
}

/// What is shown for an image entry, given whether its data file exists, what
/// `chafa` made of it, and whether `kitty` is installed.
pub open spec fn image_preview(
    mime: Seq<char>,
    path: Option<Seq<char>>,
    exists_on_disk: bool,
    rendered: Option<Seq<char>>,
    has_kitty: bool,
) -> Seq<char> {
    if !transfer::is_image(mime) {
        Seq::empty()
    } else {
        match path {
            None => "["@ + mime + " 该图片条目未记录数据文件]"@,
            Some(p) => if !exists_on_disk {
                "[图片数据文件丢失: "@ + p + "]"@
            } else {
                match rendered {
                    Some(out) => out,
                    None => if has_kitty {
                        "[image "@ + mime + " - kitty icat: "@ + p + "]"@
                    } else {
                        "["@ + mime + " - 预览需要安装 chafa]"@
                    },
                }
            },
        }
    }
}

/// What is shown for an image entry; nothing for a text.
pub fn render_preview(
    clip: &Clip,
    exists_on_disk: bool,
    rendered: Option<String>,
    has_kitty: bool,
) -> (r: String)
    ensures
        r@ == image_preview(
            clip.mime@,
            crate::store::opt_text(clip.image_path),
            exists_on_disk,
            crate::store::opt_text(rendered),
            has_kitty,
        ),
{
    if !text::starts_with(clip.mime.as_str(), "image/") {
        let r = String::new();
        assert(r@ == Seq::<char>::empty());
        return r;
    }
    let path = match &clip.image_path {
        Some(p) => p,
        None => {
            let mut r = "[".to_owned();
            r.append(clip.mime.as_str());
            r.append(" 该图片条目未记录数据文件]");
            return r;
        },
    };
    if !exists_on_disk {
        let mut r = "[图片数据文件丢失: ".to_owned();
        r.append(path.as_str());
        r.append("]");
        return r;
    }
    if let Some(out) = rendered {
        return out;
    }
    if has_kitty {
        let mut r = "[image ".to_owned();
        r.append(clip.mime.as_str());
        r.append(" - kitty icat: ");
        r.append(path.as_str());
        r.append("]");
        r
    } else {
        let mut r = "[".to_owned();
        r.append(clip.mime.as_str());
        r.append(" - 预览需要安装 chafa]");
        r
    }
}

/// A one-line preview has no line feed.
pub proof fn law_preview_is_one_line(t: Seq<char>, width: nat)
    ensures
        !one_line(t, width).contains('\n'),
{
    reveal_strlit(" ↵ ");
    text::lemma_replaced_has_none(text::head(t, width), '\n', " ↵ "@);
}

/// A preview has at most the given width, and an ellipsis after it where that does
/// not hold all.
pub proof fn law_preview_fits(t: Seq<char>, width: nat)
    ensures
        one_line(t, width).len() <= width + 1,
        one_line(t, width).len() == width + 1 ==> one_line(t, width).last() == '…',
{
    if width == 0 {
        assert(one_line(t, width).len() == 0);
    }
}

/// A text that fits on one line is its own preview.
pub proof fn law_short_line_is_its_own_preview(t: Seq<char>, width: nat)
    requires
        0 < t.len() <= width,
        forall|i: int| 0 <= i < t.len() ==> t[i] != '\n',
    ensures
        one_line(t, width) == t,
{
    text::lemma_replaced_same(t, '\n', " ↵ "@);
}

/// The preview of a text that does not fit, as it is or with its line feeds shown,
/// has exactly the given width and an ellipsis after it.
pub proof fn law_long_preview_has_the_width(t: Seq<char>, width: nat)
    requires
        width > 0,
        t.len() > width || text::replaced(t, '\n', " ↵ "@).len() > width,
    ensures
        one_line(t, width).len() == width + 1,
        one_line(t, width).last() == '…',
{
    reveal_strlit(" ↵ ");
    text::lemma_replaced_longer(text::head(t, width), '\n', " ↵ "@);
}

/// A one-line preview shows the text from its beginning, with every line feed as its
/// mark, up to the width; all of it where it fits.
pub proof fn law_preview_begins_as_the_text(t: Seq<char>, width: nat)
    ensures
        ({
            let marked = text::replaced(t, '\n', " ↵ "@);
            let o = one_line(t, width);
            &&& width > 0 && t.len() <= width && marked.len() <= width ==> o == marked
            &&& width == 0 ==> o.len() == 0
            &&& forall|i: int|
                0 <= i < o.len() && i < width ==> i < marked.len() && #[trigger] o[i] == marked[i]
        }),
{
    reveal_strlit(" ↵ ");
    let h = text::head(t, width);
    let rest = t.skip(h.len() as int);
    assert(t == h + rest);
    text::law_replacing_goes_by_characters(h, rest, '\n', " ↵ "@);
    text::lemma_replaced_longer(h, '\n', " ↵ "@);
}

proof fn lemma_cut_lines(lines: Seq<Seq<char>>, n: int, width: nat)
    requires
        0 <= n <= lines.len(),
        forall|i: int| 0 <= i < lines.len() ==> !(#[trigger] lines[i]).contains('\n'),
    ensures
        ({
            let p = text::split_on(cut_lines(lines, n, width), '\n');
            &&& p.len() == n + 1
            &&& p[n].len() == 0
            &&& forall|i: int| 0 <= i < n ==> #[trigger] p[i] == text::head(lines[i], width)
        }),
    decreases n,
{
    let cut = cut_lines(lines, n, width);
    if n == 0 {
        assert(!cut.contains('\n'));
        text::lemma_split_whole(cut, '\n');
    } else {
        lemma_cut_lines(lines, n - 1, width);
        let front = cut_lines(lines, n - 1, width);
        let l = text::head(lines[n - 1], width);
        assert(!l.contains('\n')) by {
            if l.contains('\n') {
                let k = choose|k: int| 0 <= k < l.len() && l[k] == '\n';
                assert(lines[n - 1][k] == '\n');
                assert(lines[n - 1].contains('\n'));
            }
        }
        let e = Seq::<char>::empty();
        text::lemma_split_head(l, e, '\n');
        assert(l.push('\n') + e == l.push('\n'));
        assert(!e.contains('\n'));
        text::lemma_split_whole(e, '\n');
        let w = text::split_on(l.push('\n'), '\n');
        assert(w == seq![l, e]);
        text::law_splitting_goes_by_parts(front, l.push('\n'), '\n');
        let p = text::split_on(front, '\n');
        let q = text::split_on(cut, '\n');
        assert(p.last() + w[0] == l);
        assert(w.skip(1) == seq![e]);
        assert(q == p.drop_last().push(l) + seq![e]);
        assert forall|i: int| 0 <= i < n implies #[trigger] q[i] == text::head(lines[i], width) by {
            if i < n - 1 {
                assert(q[i] == p[i]);
            }
        }
    }
}

/// A preview of several lines shows lines of the text as they are: line by line it is
/// the beginning of the text's own line, of the given width or the whole line. It
/// shows as many as asked for or all, and says that it is truncated exactly where it
/// does not show all lines whole.
pub proof fn law_multiline_preview_shows_the_lines(t: Seq<char>, max_lines: nat, width: nat)
    ensures
        ({
            let lines = text::lines_of(t);
            let n = shown_lines(lines, max_lines);
            let p = text::split_on(cut_lines(lines, n, width), '\n');
            &&& n == if lines.len() < max_lines {
                lines.len()
            } else {
                max_lines
            }
            &&& p.len() == n + 1
            &&& p[n].len() == 0
            &&& forall|i: int|
                0 <= i < n ==> {
                    let l = #[trigger] p[i];
                    &&& l.len() == if lines[i].len() < width {
                        lines[i].len()
                    } else {
                        width
                    }
                    &&& l == lines[i].take(l.len() as int)
                }
            &&& is_truncated(lines, max_lines, width) <==> p.drop_last() != lines
        }),
{
    let lines = text::lines_of(t);
    let n = shown_lines(lines, max_lines);
    let p = text::split_on(cut_lines(lines, n, width), '\n');
    assert forall|i: int| 0 <= i < lines.len() implies !(#[trigger] lines[i]).contains('\n') by {
        text::lemma_lines_hold_no_line_feed(t, i);
    }
    lemma_cut_lines(lines, n, width);
    assert forall|i: int| 0 <= i < n implies {
        let l = #[trigger] p[i];
        &&& l.len() == if lines[i].len() < width {
            lines[i].len()
        } else {
            width
        }
        &&& l == lines[i].take(l.len() as int)
    } by {
        assert(p[i] == text::head(lines[i], width));
        assert(lines[i].take(lines[i].len() as int) == lines[i]);
    }
    if !is_truncated(lines, max_lines, width) {
        assert forall|i: int| 0 <= i < lines.len() implies p.drop_last()[i] == lines[i] by {
            assert(p[i] == text::head(lines[i], width));
            assert(lines[i].len() <= width);
        }
        assert(p.drop_last() == lines);
    } else if p.drop_last() == lines {
        assert(lines.len() == n);
        let i = choose|i: int| 0 <= i < n && (#[trigger] lines[i]).len() > width;
        assert(p.drop_last()[i] == p[i]);
    }
}

/// What is shown for an image is the picture where it could be rendered, and else a
/// word on its file or its type; for a text nothing is shown.
pub proof fn law_image_preview_shows_the_picture(
    mime: Seq<char>,
    path: Option<Seq<char>>,
    exists_on_disk: bool,
    rendered: Option<Seq<char>>,
    has_kitty: bool,
)
    ensures
        ({
            let shown = image_preview(mime, path, exists_on_disk, rendered, has_kitty);
            if !text::has_prefix(mime, "image/"@) {
                shown.len() == 0
            } else if path is Some && exists_on_disk && rendered is Some {
                shown == rendered->0
            } else if path is Some && (!exists_on_disk || has_kitty) {
                exists|a: Seq<char>, b: Seq<char>| shown == #[trigger] (a + path->0 + b)
            } else {
                exists|a: Seq<char>, b: Seq<char>| shown == #[trigger] (a + mime + b)
            }
        }),
{
    let shown = image_preview(mime, path, exists_on_disk, rendered, has_kitty);
    if text::has_prefix(mime, "image/"@) {
        if path is None {
            assert(shown == "["@ + mime + " 该图片条目未记录数据文件]"@);
        } else if !exists_on_disk {
            assert(shown == "[图片数据文件丢失: "@ + path->0 + "]"@);
        } else if rendered is None && has_kitty {
            assert(shown == "[image "@ + mime + " - kitty icat: "@ + path->0 + "]"@);
        } else if rendered is None {
            assert(shown == "["@ + mime + " - 预览需要安装 chafa]"@);
        }
    }
}

} // verus!
