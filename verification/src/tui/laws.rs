//! What the menu programs print leads back to the entry that was shown.

use super::menu;
use crate::preview;
use crate::store;
use crate::store::query;
use crate::store::{ClipView, StoreView};
use crate::text;
use vstd::prelude::*;

verus! {

proof fn lemma_dec_int_plain(n: int)
    ensures
        !text::dec_int(n).contains('\t'),
        !text::dec_int(n).contains('\n'),
{
    text::lemma_dec_int_value(n);
    let d = text::dec_int(n);
    assert forall|i: int| 0 <= i < d.len() implies d[i] != '\t' && d[i] != '\n' by {
        assert(!text::is_space(d[i]));
    }
}

proof fn lemma_dec_nat_plain(n: nat)
    ensures
        text::dec_nat(n).len() > 0,
        forall|i: int| 0 <= i < text::dec_nat(n).len() ==> !text::is_space(#[trigger] text::dec_nat(n)[i]),
        !text::dec_nat(n).contains('\t'),
        !text::dec_nat(n).contains('\n'),
{
    text::lemma_dec_nat(n);
    let d = text::dec_nat(n);
    assert forall|i: int| 0 <= i < d.len() implies !text::is_space(#[trigger] d[i]) && d[i] != '\t'
        && d[i] != '\n' by {
        assert('0' <= d[i] <= '9');
    }
}

proof fn lemma_marks(cur: Option<Seq<char>>, c: ClipView)
    ensures
        !menu::cur_mark(cur, c).contains('\t'),
        !menu::cur_mark(cur, c).contains('\n'),
        !menu::star(c).contains('\t'),
        !menu::star(c).contains('\n'),
{
    reveal_strlit("▶");
    reveal_strlit("★");
    reveal_strlit(" ");
    assert("▶"@ =~= seq!['▶']);
    assert("★"@ =~= seq!['★']);
    assert(" "@ =~= seq![' ']);
}

proof fn lemma_fourth_column(
    n: Seq<char>,
    m: Seq<char>,
    p: Seq<char>,
    d: Seq<char>,
    t: Seq<char>,
)
    requires
        !n.contains('\t'),
        !m.contains('\t'),
        !p.contains('\t'),
        !d.contains('\t'),
        ({
            let front = n.push('\t') + (m.push('\t') + (p.push('\t') + d));
            &&& text::has_prefix(t, front)
            &&& t.len() == front.len() || t[front.len() as int] == '\t'
        }),
    ensures
        text::split_on(t, '\t').len() >= 4,
        text::split_on(t, '\t')[3] == d,
{
    let front = n.push('\t') + (m.push('\t') + (p.push('\t') + d));
    let rest = t.skip(front.len() as int);
    let t3 = d + rest;
    let t2 = p.push('\t') + t3;
    let t1 = m.push('\t') + t2;
    assert(t =~= t.take(front.len() as int) + rest);
    assert(front + rest =~= n.push('\t') + t1);
    text::lemma_split_head(n, t1, '\t');
    text::lemma_split_head(m, t2, '\t');
    text::lemma_split_head(p, t3, '\t');
    assert(t3.take(d.len() as int) =~= d);
    text::lemma_split_first(t3, d, '\t');
    assert(text::split_on(t, '\t') =~= seq![n, m, p] + text::split_on(t3, '\t'));
}

/// The line that `fzf` prints for a row leads back to the entry of the row.
pub proof fn law_fzf_names_the_entry(
    num: nat,
    cur: Option<Seq<char>>,
    c: ClipView,
    width: nat,
    pending: Option<int>,
)
    requires
        i64::MIN <= c.id <= i64::MAX,
        c.id != 0,
    ensures
        menu::fzf_choice(
            menu::row(num, cur, c, width, menu::marker_of(pending, c)).push('\n'),
        ) == Some(c.id),
{
    let n = text::dec_nat(num);
    let m = menu::cur_mark(cur, c);
    let p = menu::star(c);
    let d = text::dec_int(c.id);
    let tail = menu::row_preview(c, width) + menu::marker_of(pending, c);
    let whole = menu::row(num, cur, c, width, menu::marker_of(pending, c));
    let printed = whole.push('\n');
    lemma_dec_nat_plain(num);
    lemma_dec_int_plain(c.id);
    lemma_marks(cur, c);
    text::lemma_dec_int_value(c.id);
    reveal_strlit("\t");
    assert("\t"@ =~= seq!['\t']);
    let front = n.push('\t') + (m.push('\t') + (p.push('\t') + d));
    assert(whole =~= front.push('\t') + tail);
    let k = front.len() - 1;
    assert(printed[0] == n[0]);
    assert(text::trim_start(printed) == printed);
    assert(printed[k] == d[d.len() - 1]);
    text::lemma_trim_end(printed, k);
    assert(printed.last() == '\n');
    let t = text::trimmed(printed);
    assert(front.len() <= t.len() <= whole.len());
    reveal_strlit("  ◆ 再按Ctrl-X确认删除");
    assert(!menu::marker_of(pending, c).contains('\n'));
    law_row_is_one_line_of_five_columns(num, cur, c, width, menu::marker_of(pending, c));
    assert forall|i: int| 0 <= i < t.len() implies t[i] != '\n' by {
        assert(t[i] == whole[i]);
        assert(whole.contains(whole[i]));
    }
    text::lemma_first_index_bound(t, '\n');
    assert(text::lines_of(t) == seq![t]);
    assert(text::has_prefix(t, front)) by {
        assert(t.take(front.len() as int) =~= whole.take(front.len() as int));
        assert(whole.take(front.len() as int) =~= front);
    }
    if t.len() > front.len() {
        assert(t[front.len() as int] == whole[front.len() as int]);
    }
    lemma_fourth_column(n, m, p, d, t);
}

/// A row of the menu is one line of five columns, as long as what is put behind the
/// preview holds neither a tab nor a line feed.
pub proof fn law_row_is_one_line_of_five_columns(
    num: nat,
    cur: Option<Seq<char>>,
    c: ClipView,
    width: nat,
    marker: Seq<char>,
)
    ensures
        ({
            let r = menu::row(num, cur, c, width, marker);
            &&& !marker.contains('\n') ==> !r.contains('\n')
            &&& !marker.contains('\t') ==> text::split_on(r, '\t') == seq![
                text::dec_nat(num),
                menu::cur_mark(cur, c),
                menu::star(c),
                text::dec_int(c.id),
                menu::row_preview(c, width) + marker,
            ]
        }),
{
    lemma_dec_nat_plain(num);
    lemma_dec_int_plain(c.id);
    lemma_marks(cur, c);
    preview::law_preview_is_one_line(c.text, width);
    reveal_strlit(" ");
    text::lemma_replaced_keeps_out(preview::one_line(c.text, width), '\t', " "@, '\n');
    text::lemma_replaced_has_none(preview::one_line(c.text, width), '\t', " "@);
    let n = text::dec_nat(num);
    let m = menu::cur_mark(cur, c);
    let p = menu::star(c);
    let d = text::dec_int(c.id);
    let o = menu::row_preview(c, width);
    let r = menu::row(num, cur, c, width, marker);
    lemma_row_shape(n, m, p, d, o, marker);
    if !marker.contains('\t') {
        lemma_neither(o, marker, '\t');
        lemma_five_columns(n, m, p, d, o + marker);
    }
    if !marker.contains('\n') {
        lemma_neither(o, marker, '\n');
        lemma_tab_between(d, o + marker);
        lemma_tab_between(p, d.push('\t') + (o + marker));
        lemma_tab_between(m, p.push('\t') + (d.push('\t') + (o + marker)));
        lemma_tab_between(
            n,
            m.push('\t') + (p.push('\t') + (d.push('\t') + (o + marker))),
        );
    }
}

proof fn lemma_row_shape(
    n: Seq<char>,
    m: Seq<char>,
    p: Seq<char>,
    d: Seq<char>,
    o: Seq<char>,
    z: Seq<char>,
)
    ensures
        n + "\t"@ + m + "\t"@ + p + "\t"@ + d + "\t"@ + o + z == n.push('\t') + (m.push('\t') + (
        p.push('\t') + (d.push('\t') + (o + z)))),
{
    reveal_strlit("\t");
    let a = n + "\t"@ + m + "\t"@ + p + "\t"@;
    assert(a + d + "\t"@ + o + z =~= a + (d.push('\t') + (o + z)));
    let b = n + "\t"@ + m + "\t"@;
    assert(a + (d.push('\t') + (o + z)) =~= b + (p.push('\t') + (d.push('\t') + (o + z))));
    let t = p.push('\t') + (d.push('\t') + (o + z));
    assert(b + t =~= n.push('\t') + (m.push('\t') + t));
}

proof fn lemma_five_columns(
    n: Seq<char>,
    m: Seq<char>,
    p: Seq<char>,
    d: Seq<char>,
    o: Seq<char>,
)
    requires
        !n.contains('\t'),
        !m.contains('\t'),
        !p.contains('\t'),
        !d.contains('\t'),
        !o.contains('\t'),
    ensures
        text::split_on(
            n.push('\t') + (m.push('\t') + (p.push('\t') + (d.push('\t') + o))),
            '\t',
        ) == seq![n, m, p, d, o],
{
    let t3 = d.push('\t') + o;
    let t2 = p.push('\t') + t3;
    let t1 = m.push('\t') + t2;
    text::lemma_split_head(n, t1, '\t');
    text::lemma_split_head(m, t2, '\t');
    text::lemma_split_head(p, t3, '\t');
    text::lemma_split_head(d, o, '\t');
    text::lemma_split_whole(o, '\t');
    assert(text::split_on(n.push('\t') + t1, '\t') =~= seq![n, m, p, d, o]);
}

proof fn lemma_tab_between(a: Seq<char>, b: Seq<char>)
    requires
        !a.contains('\n'),
        !b.contains('\n'),
    ensures
        !(a.push('\t') + b).contains('\n'),
{
    let s = a.push('\t') + b;
    assert forall|i: int| 0 <= i < s.len() implies s[i] != '\n' by {
        if i < a.len() {
            assert(a.contains(a[i]));
        } else if i > a.len() {
            assert(b.contains(b[i - a.len() - 1]));
        }
    }
}

proof fn lemma_neither(a: Seq<char>, b: Seq<char>, c: char)
    requires
        !a.contains(c),
        !b.contains(c),
    ensures
        !(a + b).contains(c),
{
    assert forall|i: int| 0 <= i < (a + b).len() implies (a + b)[i] != c by {
        if i < a.len() {
            assert(a.contains(a[i]));
        } else {
            assert(b.contains(b[i - a.len()]));
        }
    }
}

/// The line that `fuzzel` prints for an entry leads back to the entry.
pub proof fn law_fuzzel_names_the_entry(
    num: nat,
    cur: Option<Seq<char>>,
    c: ClipView,
    width: nat,
)
    requires
        i64::MIN <= c.id <= i64::MAX,
        c.id != 0,
    ensures
        menu::fuzzel_choice(menu::fuzzel_line(num, cur, c, width).push('\n')) == Some(c.id),
{
    let n = text::dec_nat(num);
    let d = text::dec_int(c.id);
    let both = menu::cur_mark(cur, c) + menu::star(c);
    let marks = text::trimmed(both);
    let o = preview::one_line(c.text, width);
    lemma_dec_nat_plain(num);
    text::lemma_dec_int_value(c.id);
    reveal_strlit("▶");
    reveal_strlit("★");
    reveal_strlit(" ");
    reveal_strlit(". ");
    assert(" "@ =~= seq![' ']);
    assert(". "@ =~= seq!['.', ' ']);
    let printed = menu::fuzzel_line(num, cur, c, width).push('\n');
    let w0 = n.push('.');
    let r3 = (" "@ + o).push('\n');
    let r2 = d + r3;
    let r1 = marks + seq![' '] + r2;
    assert(printed =~= w0 + (seq![' '] + r1));
    assert forall|i: int| 0 <= i < w0.len() implies !text::is_space(#[trigger] w0[i]) by {
        if i < n.len() {
            assert(w0[i] == n[i]);
        }
    }
    text::lemma_words_head(w0, seq![' '] + r1);
    text::lemma_words_after_space(seq![' '] + r1);
    assert((seq![' '] + r1).skip(1) =~= r1);
    text::lemma_words_head(d, r3);
    let after = text::words_of(r3);
    assert(text::words_of(r2) == seq![d] + after);
    assert(w0.last() == '.');
    assert(text::int_literal(w0) is None) by {
        lemma_no_literal(w0, w0.len() - 1);
    }
    let all = text::words_of(printed);
    lemma_trimmed_marks(cur, c);
    if marks.len() == 0 {
        assert(r1 =~= seq![' '] + r2);
        text::lemma_words_after_space(r1);
        assert(r1.skip(1) =~= r2);
        assert(all =~= seq![w0, d] + after);
        assert(all.skip(1)[0] == d);
    } else {
        assert(r1 =~= marks + (seq![' '] + r2));
        text::lemma_words_head(marks, seq![' '] + r2);
        text::lemma_words_after_space(seq![' '] + r2);
        assert((seq![' '] + r2).skip(1) =~= r2);
        lemma_no_literal(marks, marks.len() - 1);
        assert(all =~= seq![w0, marks, d] + after);
        assert(all.skip(1)[0] == marks);
        assert(all.skip(1).skip(1)[0] == d);
    }
    reveal_with_fuel(menu::first_number, 4);
}

proof fn lemma_no_literal(s: Seq<char>, i: int)
    requires
        0 <= i < s.len(),
        !('0' <= s[i] <= '9'),
        s[i] != '-',
        s[i] != '+',
    ensures
        text::int_literal(s) is None,
{
    if i > 0 {
        assert(s.skip(1)[i - 1] == s[i]);
    }
    if text::all_digits(s) {
        assert('0' <= s[i] <= '9');
    }
    if text::all_digits(s.skip(1)) && i > 0 {
        assert('0' <= s.skip(1)[i - 1] <= '9');
    }
}

proof fn lemma_trimmed_marks(cur: Option<Seq<char>>, c: ClipView)
    ensures
        ({
            let m = text::trimmed(menu::cur_mark(cur, c) + menu::star(c));
            m.len() > 0 ==> {
                &&& forall|i: int| 0 <= i < m.len() ==> !text::is_space(#[trigger] m[i])
                &&& !('0' <= m.last() <= '9') && m.last() != '-' && m.last() != '+'
            }
        }),
{
    reveal_strlit("▶");
    reveal_strlit("★");
    reveal_strlit(" ");
    reveal_with_fuel(text::trim_start, 3);
    reveal_with_fuel(text::trim_end, 3);
    let both = menu::cur_mark(cur, c) + menu::star(c);
    assert(both.len() == 2);
    assert(both.skip(1) =~= seq![both[1]]);
    assert(both.drop_last() =~= seq![both[0]]);
    assert(both.skip(1).skip(1) =~= Seq::empty());
    assert(both.skip(1).drop_last() =~= Seq::empty());
}

/// The preview in a row of the menu is the preview of the entry, character by
/// character, with a blank for each tab.
pub proof fn law_row_preview_shows_the_entry(c: ClipView, width: nat)
    ensures
        ({
            let o = preview::one_line(c.text, width);
            let r = menu::row_preview(c, width);
            &&& r.len() == o.len()
            &&& forall|k: int|
                0 <= k < o.len() ==> #[trigger] r[k] == if o[k] == '\t' {
                    ' '
                } else {
                    o[k]
                }
        }),
{
    reveal_strlit(" ");
    text::law_replacing_by_one_keeps_places(preview::one_line(c.text, width), '\t', " "@);
}

/// The marks of an entry tell whether it is the current item and whether it is pinned.
pub proof fn law_marks_tell_current_and_pinned(cur: Option<Seq<char>>, c: ClipView)
    ensures
        menu::cur_mark(cur, c) == if cur == Some(c.hash) {
            seq!['▶']
        } else {
            seq![' ']
        },
        menu::star(c) == if c.pinned {
            seq!['★']
        } else {
            seq![' ']
        },
{
    reveal_strlit("▶");
    reveal_strlit("★");
    reveal_strlit(" ");
    assert("▶"@ == seq!['▶'] && "★"@ == seq!['★'] && " "@ == seq![' ']);
}

/// The rows of a menu stand for its entries in their order: one row for each, with its
/// number from one, its marks, its id and its preview, and behind that a mark where its
/// deletion is pending.
pub proof fn law_rows_stand_for_the_entries(
    clips: Seq<ClipView>,
    cur: Option<Seq<char>>,
    width: nat,
    pending: Option<int>,
    i: int,
)
    requires
        0 <= i < clips.len(),
    ensures
        menu::rows(clips, cur, width, pending).len() == clips.len(),
        ({
            let cols = text::split_on(menu::rows(clips, cur, width, pending)[i], '\t');
            let c = clips[i];
            &&& cols.len() == 5
            &&& cols[0] == text::dec_nat((i + 1) as nat)
            &&& cols[1] == menu::cur_mark(cur, c)
            &&& cols[2] == menu::star(c)
            &&& cols[3] == text::dec_int(c.id)
            &&& text::has_prefix(cols[4], menu::row_preview(c, width))
            &&& cols[4].len() > menu::row_preview(c, width).len() <==> pending == Some(c.id)
        }),
        !menu::rows(clips, cur, width, pending)[i].contains('\n'),
{
    let c = clips[i];
    let z = menu::marker_of(pending, c);
    reveal_strlit("  ◆ 再按Ctrl-X确认删除");
    assert(!z.contains('\t') && !z.contains('\n'));
    law_row_is_one_line_of_five_columns((i + 1) as nat, cur, c, width, z);
    let o = menu::row_preview(c, width);
    assert((o + z).take(o.len() as int) == o);
}

/// What a menu program reads has one line for each row.
pub proof fn law_one_line_for_each_row(v: Seq<Seq<char>>)
    requires
        forall|i: int| 0 <= i < v.len() ==> !(#[trigger] v[i]).contains('\n'),
    ensures
        text::split_on(menu::in_lines(v), '\n') == v.push(Seq::empty()),
    decreases v.len(),
{
    let e = Seq::<char>::empty();
    assert(!e.contains('\n'));
    text::lemma_split_whole(e, '\n');
    if v.len() == 0 {
        assert(text::split_on(menu::in_lines(v), '\n') == v.push(e));
    } else {
        let w = v.drop_last();
        assert forall|i: int| 0 <= i < w.len() implies !(#[trigger] w[i]).contains('\n') by {
            assert(w[i] == v[i]);
        }
        law_one_line_for_each_row(w);
        let l = v.last();
        assert(!v[v.len() - 1].contains('\n'));
        text::lemma_split_head(l, e, '\n');
        assert(l.push('\n') + e == l.push('\n'));
        let p = text::split_on(l.push('\n'), '\n');
        assert(p == seq![l, e]);
        text::law_splitting_goes_by_parts(menu::in_lines(w), l.push('\n'), '\n');
        let f = text::split_on(menu::in_lines(w), '\n');
        assert(f.drop_last() == w && f.last() == e);
        assert(e + l == l);
        assert(p.skip(1) == seq![e]);
        assert(w.push(l) + seq![e] == v.push(e));
    }
}

/// The menu shows the list from its beginning: as many entries as the history may have,
/// at most three hundred, each as it is stored.
pub proof fn law_menu_is_the_beginning_of_the_list(
    s: StoreView,
    pinned_on_top: bool,
    max_items: nat,
    i: int,
)
    requires
        s.valid(),
    ensures
        ({
            let m = menu::menu(s, pinned_on_top, max_items);
            let l = query::listed(s, pinned_on_top);
            &&& m.len() <= s.rows.len() && m.len() <= max_items && m.len() <= 300
            &&& m.len() == s.rows.len() || m.len() == max_items || m.len() == 300
            &&& 0 <= i < m.len() ==> {
                &&& m[i].id == l[i].id && m[i].hash == l[i].hash && m[i].text == l[i].text
                &&& m[i].mime == l[i].mime && m[i].pinned == l[i].pinned && m[i].image_path
                    == l[i].image_path
            }
        }),
{
    store::laws::law_list_holds_every_row(s, pinned_on_top);
}

/// The header tells that the current item is not in the history exactly where that is
/// so, as long as the menu has a row.
pub proof fn law_header_tells_of_a_missing_item(s: StoreView, pinned_on_top: bool, max_items: nat)
    requires
        s.valid(),
        max_items > 0,
        s.rows.len() > 0,
        store::pointed(s.current) is Some,
    ensures
        menu::is_absent(menu::menu(s, pinned_on_top, max_items), store::pointed(s.current))
            <==> !store::holds_current(s),
{
    let m = menu::menu(s, pinned_on_top, max_items);
    let l = query::listed(s, pinned_on_top);
    let h = store::pointed(s.current)->0;
    law_menu_is_the_beginning_of_the_list(s, pinned_on_top, max_items, 0);
    store::laws::law_list_holds_every_row(s, pinned_on_top);
    if store::holds_current(s) {
        store::laws::law_current_item_is_first(s, pinned_on_top, h);
    } else {
        assert(l.contains(l[0]));
        let k = choose|k: int| 0 <= k < s.rows.len() && s.rows[k] == l[0];
        assert(s.rows[k].hash != h);
    }
}

/// The preview on the command line shows the lines of a text, and a note behind them
/// exactly where something is left out; an image is shown as rendered, or by the words
/// that stand for it.
pub proof fn law_full_preview_shows_the_lines(
    c: ClipView,
    enable_image_preview: bool,
    rendered: Seq<char>,
)
    ensures
        ({
            let shown = menu::preview_shown(c, enable_image_preview, rendered);
            let lines = text::lines_of(c.text);
            let cut = preview::cut_lines(lines, preview::shown_lines(lines, 100), 300);
            if !text::has_prefix(c.mime, "image/"@) {
                &&& text::has_prefix(shown, cut)
                &&& shown.len() > cut.len() <==> preview::is_truncated(lines, 100, 300)
            } else if enable_image_preview && rendered.len() > 0 {
                shown == rendered.push('\n')
            } else {
                exists|a: Seq<char>, b: Seq<char>, d: Seq<char>|
                    shown == #[trigger] (a + c.mime + b + c.text + d)
            }
        }),
{
    let shown = menu::preview_shown(c, enable_image_preview, rendered);
    let lines = text::lines_of(c.text);
    let cut = preview::cut_lines(lines, preview::shown_lines(lines, 100), 300);
    if !text::has_prefix(c.mime, "image/"@) {
        assert(shown.take(cut.len() as int) == cut);
        text::lemma_dec_nat(text::utf8(c.text).len());
    } else if !(enable_image_preview && rendered.len() > 0) {
        assert(shown == "[image "@ + c.mime + "]\n"@ + c.text + "\n"@);
    }
}

/// A line of the other menu ends with the preview of its entry.
pub proof fn law_fuzzel_shows_the_entry(num: nat, cur: Option<Seq<char>>, c: ClipView, width: nat)
    ensures
        ({
            let l = menu::fuzzel_line(num, cur, c, width);
            let o = preview::one_line(c.text, width);
            &&& l.len() > o.len()
            &&& l.skip(l.len() - o.len()) == o
            &&& text::has_prefix(l, text::dec_nat(num) + ". "@)
        }),
{
    let l = menu::fuzzel_line(num, cur, c, width);
    let o = preview::one_line(c.text, width);
    text::lemma_dec_nat(num);
    assert(l.skip(l.len() - o.len()) == o);
    let h = text::dec_nat(num) + ". "@;
    assert(l.take(h.len() as int) == h);
}

/// `fzf` shows the rows in the order in which it gets them, follows entries by their
/// ids and never searches these, and its keys run the program on the id of a row.
pub proof fn law_fzf_is_told_the_columns(exe: Seq<char>, header: Seq<char>, enable_preview: bool)
    ensures
        ({
            let a = menu::fzf_arguments(exe, header, enable_preview);
            &&& a.contains("--no-sort"@)
            &&& a.contains("--delimiter=\t"@)
            &&& a.contains("--nth="@ + "4.."@)
            &&& a.contains("--with-nth="@ + "1,2,3,5.."@)
            &&& a.contains("--id-nth="@ + "4"@)
            &&& a.contains("--header="@ + header)
            &&& a.contains(
                "--bind=ctrl-p:execute-silent"@ + "("@ + exe + " pin {4}"@ + ")+reload-sync("@ + exe
                    + " list-raw)"@,
            )
            &&& a.contains(
                "--bind=ctrl-x:execute-silent"@ + "("@ + exe + " delete --fzf {4}"@
                    + ")+reload-sync("@ + exe + " list-raw)"@,
            )
            &&& enable_preview ==> a.contains("--preview="@ + (exe + " preview {4}"@))
        }),
{
    let a = menu::fzf_arguments(exe, header, enable_preview);
    assert(a[0] == "--no-sort"@);
    assert(a[1] == "--delimiter=\t"@);
    assert(a[2] == "--nth="@ + "4.."@);
    assert(a[3] == "--with-nth="@ + "1,2,3,5.."@);
    assert(a[11] == "--header="@ + header);
    assert(a[13] == "--id-nth="@ + "4"@);
    assert(a[15] == menu::pane_command(exe, enable_preview));
    assert(a[20] == "--bind=ctrl-p:execute-silent"@ + "("@ + exe + " pin {4}"@ + ")+reload-sync("@
        + exe + " list-raw)"@);
    assert(a[21] == "--bind=ctrl-x:execute-silent"@ + "("@ + exe + " delete --fzf {4}"@
        + ")+reload-sync("@ + exe + " list-raw)"@);
}

/// The digits accept the rows that bear them.
pub proof fn law_digits_accept_their_rows(n: nat)
    ensures
        menu::quick_binds(n + 1) == menu::quick_binds(n) + "alt-"@ + text::dec_nat(n + 1) + ":pos("@
            + text::dec_nat(n + 1) + ")+accept,"@,
        menu::quick_binds(0).len() == 0,
{
}

/// What `fzf` prints names an entry only in the fourth column of its first line, and by a
/// number that is not zero.
pub proof fn law_choice_is_the_fourth_column(printed: Seq<char>)
    ensures
        menu::fzf_choice(printed) matches Some(id) ==> {
            let lines = text::lines_of(text::trimmed(printed));
            &&& id != 0
            &&& lines.len() > 0
            &&& text::split_on(lines[0], '\t').len() >= 4
            &&& text::int_literal(text::split_on(lines[0], '\t')[3]) == Some(id)
        },
        menu::fuzzel_choice(printed) matches Some(id) ==> id != 0 && exists|k: int|
            0 <= k < text::words_of(printed).len() && text::int_literal(
                #[trigger] text::words_of(printed)[k],
            ) == Some(id),
{
    if menu::fuzzel_choice(printed) is Some {
        lemma_first_number(text::words_of(printed), menu::fuzzel_choice(printed)->0);
    }
}

proof fn lemma_first_number(words: Seq<Seq<char>>, id: int)
    requires
        menu::first_number(words) == Some(id),
    ensures
        exists|k: int|
            0 <= k < words.len() && text::int_literal(#[trigger] words[k]) == Some(id),
    decreases words.len(),
{
    if text::within(text::int_literal(words[0]), i64::MIN as int, i64::MAX as int) is Some {
        assert(text::int_literal(words[0]) == Some(id));
    } else {
        lemma_first_number(words.skip(1), id);
        let k = choose|k: int|
            0 <= k < words.skip(1).len() && text::int_literal(#[trigger] words.skip(1)[k]) == Some(
                id,
            );
        assert(words[k + 1] == words.skip(1)[k]);
    }
}

} // verus!
