//! What the history gives back of what was put into it.

use super::capture;
use super::digest;
use super::evict;
use super::maintain;
use super::query;
use super::transfer;
use super::transfer::CopyJob;
use super::{Clip, ClipView, InsertedImage, Row, RowView, Store, StoreError, StoreView};
use crate::config;
use crate::config::Config;
use crate::pattern;
use crate::store;
use crate::text;
use vstd::prelude::*;

verus! {

/// A text becomes a row where it is not empty, not too short, not filtered and not
/// too large, where no row holds it yet, and where an id is left; and only there. The
/// lack of an id is the one failure.
pub proof fn law_what_becomes_a_row(s: StoreView, content: Seq<char>, cfg: Config)
    ensures
        ({
            let t = text::trimmed(content);
            let h = digest::blake3_hex(vstd::utf8::encode_utf8(t));
            let wanted = {
                &&& t.len() > 0
                &&& t.len() >= cfg.min_store_length
                &&& cfg.ignore_re is None || !pattern::matches_text(cfg.ignore_re->0, t)
                &&& vstd::utf8::encode_utf8(t).len() <= cfg.max_clip_bytes
                &&& forall|i: int| 0 <= i < s.rows.len() ==> (#[trigger] s.rows[i]).hash != h
            };
            let r = capture::text_result(s, content, cfg);
            &&& r == Ok::<bool, StoreError>(true) <==> wanted && s.last_id != i64::MAX
            &&& r == Err::<bool, StoreError>(StoreError::Full) <==> wanted && s.last_id == i64::MAX
            &&& r == Ok::<bool, StoreError>(false) <==> !wanted
        }),
{
    let t = text::trimmed(content);
    let h = digest::text_hash(t);
    if !store::has_hash(s.rows, h) {
        assert forall|i: int| 0 <= i < s.rows.len() implies (#[trigger] s.rows[i]).hash != h by {}
    }
}

/// Whether some row is what a text became when it was stored: the whole text, under
/// its own fingerprint, with the next id.
pub open spec fn keeps_text(
    before: StoreView,
    after: StoreView,
    t: Seq<char>,
    mime: Seq<char>,
    ts: int,
) -> bool {
    exists|k: int|
        0 <= k < after.rows.len() && {
            let r = #[trigger] after.rows[k];
            &&& r.id == before.last_id + 1
            &&& r.text == t
            &&& r.hash == digest::text_hash(r.text)
            &&& r.mime == mime
            &&& r.ts == ts
            &&& !r.pinned
            &&& r.image_path is None
            &&& text::utf8(t).len() <= i64::MAX ==> r.size == text::utf8(t).len()
        }
}

/// Whether nothing is in a history but what was in another, and the row with its next
/// id.
pub open spec fn adds_one_at_most(before: StoreView, after: StoreView) -> bool {
    &&& after.last_id == before.last_id + 1
    &&& forall|r: RowView| #[trigger]
        after.rows.contains(r) ==> before.rows.contains(r) || r.id == before.last_id + 1
}

/// A text that is captured and becomes a row is kept whole: the row holds the trimmed
/// text character for character, under the fingerprint of that very text, and is the
/// current item. No other row comes in, and none is changed.
pub proof fn law_captured_text_is_kept_whole(
    s: StoreView,
    content: Seq<char>,
    mime: Seq<char>,
    cfg: Config,
    now_ms: int,
)
    requires
        s.valid(),
        capture::text_result(s, content, cfg) == Ok::<bool, StoreError>(true),
        store::is_clean(digest::text_hash(text::trimmed(content))),
    ensures
        ({
            let t = capture::after_text(s, content, mime, cfg, now_ms);
            &&& keeps_text(s, t, text::trimmed(content), mime, now_ms)
            &&& adds_one_at_most(s, t)
            &&& t.current == Some(digest::text_hash(text::trimmed(content)))
        }),
{
    let c = text::trimmed(content);
    let r = capture::text_row(s.last_id + 1, c, mime, now_ms);
    let u = capture::upserted(s, r);
    let t = capture::after_text(s, content, mime, cfg, now_ms);
    assert(!store::has_hash(s.rows, r.hash));
    capture::lemma_push_valid(s, r);
    super::laws::law_cut_drops_the_oldest(u, cfg.max_items as nat);
    assert(u.rows[s.rows.len() as int] == r);
    assert(u.rows.contains(r));
    assert(store::pointed(u.current) == Some(r.hash));
    assert(t.rows.contains(r));
    let k = choose|k: int| 0 <= k < t.rows.len() && t.rows[k] == r;
    assert(t.rows[k].text == c);
    lemma_pushed(s, r, t);
}

proof fn lemma_pushed(s: StoreView, r: RowView, t: StoreView)
    requires
        r.id == s.last_id + 1,
        t.last_id == r.id,
        forall|x: RowView| t.rows.contains(x) ==> #[trigger] s.rows.push(r).contains(x),
    ensures
        adds_one_at_most(s, t),
{
    assert forall|x: RowView| #[trigger] t.rows.contains(x) implies s.rows.contains(x) || x.id
        == s.last_id + 1 by {
        assert(s.rows.push(r).contains(x));
        let k = choose|k: int| 0 <= k < s.rows.push(r).len() && s.rows.push(r)[k] == x;
        if k < s.rows.len() {
            assert(s.rows[k] == x);
        }
    }
}

/// A text that is taken in from elsewhere and becomes a row is kept whole too, as long
/// as the limit leaves room for it; the current item stays what it is.
pub proof fn law_text_taken_in_is_kept_whole(
    s: StoreView,
    content: Seq<char>,
    mime: Seq<char>,
    cfg: Config,
    now_ms: int,
)
    requires
        s.valid(),
        capture::text_result(s, content, cfg) == Ok::<bool, StoreError>(true),
        store::is_clean(digest::text_hash(text::trimmed(content))),
    ensures
        ({
            let t = capture::after_text_in(s, content, mime, cfg, now_ms);
            &&& s.rows.len() < cfg.max_items ==> keeps_text(
                s,
                t,
                text::trimmed(content),
                mime,
                now_ms,
            )
            &&& adds_one_at_most(s, t)
            &&& t.current == s.current
            &&& forall|r: RowView| #[trigger]
                t.rows.contains(r) && r.id == s.last_id + 1 ==> r.text == text::trimmed(content)
                    && r.hash == digest::text_hash(r.text)
        }),
{
    let c = text::trimmed(content);
    let r = capture::text_row(s.last_id + 1, c, mime, now_ms);
    let u = StoreView { current: s.current, ..capture::upserted(s, r) };
    let t = capture::after_text_in(s, content, mime, cfg, now_ms);
    assert(!store::has_hash(s.rows, r.hash));
    capture::lemma_push_valid(s, r);
    super::laws::law_cut_drops_the_oldest(u, cfg.max_items as nat);
    assert(u.rows == s.rows.push(r));
    lemma_pushed(s, r, t);
    if s.rows.len() < cfg.max_items {
        assert(t.rows == u.rows);
        assert(t.rows[s.rows.len() as int].text == c);
    }
    assert forall|x: RowView| #[trigger] t.rows.contains(x) && x.id == s.last_id + 1 implies x
        == r by {
        assert(u.rows.contains(x));
        let k = choose|k: int| 0 <= k < u.rows.len() && u.rows[k] == x;
        if k < s.rows.len() {
            assert(store::row_valid(s.rows[k], s.last_id));
        }
    }
}

/// Content that is known gets a new time and nothing else; every other row stays as it
/// is.
pub proof fn law_known_content_gets_a_new_time(s: StoreView, r: RowView, max: nat)
    requires
        store::has_hash(s.rows, r.hash),
    ensures
        ({
            let t = capture::captured(s, r, max);
            &&& t.rows.len() == s.rows.len()
            &&& t.last_id == s.last_id
            &&& t.current == Some(r.hash)
            &&& forall|i: int|
                0 <= i < s.rows.len() ==> {
                    let a = s.rows[i];
                    let b = #[trigger] t.rows[i];
                    &&& b.id == a.id && b.hash == a.hash && b.text == a.text && b.mime == a.mime
                    &&& b.pinned == a.pinned && b.size == a.size && b.image_path == a.image_path
                    &&& b.ts == if a.hash == r.hash {
                        r.ts
                    } else {
                        a.ts
                    }
                }
        }),
{
}

/// An image that is captured for the first time becomes a row, is the current item,
/// and its bytes belong into a file of its own; one that is known or too large adds
/// none.
pub proof fn law_captured_image_is_kept(
    before: StoreView,
    after: StoreView,
    r: Result<Option<InsertedImage>, StoreError>,
    mime: Seq<char>,
    bytes: Seq<u8>,
    cfg: Config,
    now_ms: int,
    dir: Seq<char>,
)
    requires
        before.valid(),
        capture::image_captured(before, after, r, mime, bytes, cfg, now_ms, dir),
    ensures
        ({
            let h = digest::image_key(mime, bytes);
            let known = exists|i: int| 0 <= i < before.rows.len() && (#[trigger] before.rows[i]).hash
                == h;
            let fits = bytes.len() <= cfg.max_image_bytes;
            &&& r matches Ok(Some(img)) ==> {
                &&& fits && !known
                &&& img.id == before.last_id + 1
                &&& after.current == Some(h)
                &&& exists|k: int|
                    0 <= k < after.rows.len() && {
                        let x = #[trigger] after.rows[k];
                        &&& x.id == img.id && x.hash == h && x.mime == mime && x.ts == now_ms
                        &&& !x.pinned && x.image_path == Some(img.path@)
                        &&& bytes.len() <= i64::MAX ==> x.size == bytes.len()
                    }
                &&& adds_one_at_most(before, after)
            }
            &&& r is Ok && r->Ok_0 is None <==> known && fits || !fits
            &&& !fits ==> after == before
            &&& r is Err ==> after == before
        }),
{
    let row = capture::image_row(before.last_id + 1, mime, bytes, now_ms, dir);
    if bytes.len() <= cfg.max_image_bytes && !store::has_hash(before.rows, row.hash) && r is Ok {
        let u = capture::upserted(before, row);
        capture::lemma_image_key_clean(mime, bytes);
        capture::lemma_push_valid(before, row);
        super::laws::law_cut_drops_the_oldest(u, cfg.max_items as nat);
        assert(u.rows[before.rows.len() as int] == row);
        assert(u.rows.contains(row));
        assert(after.rows.contains(row));
        let k = choose|k: int| 0 <= k < after.rows.len() && after.rows[k] == row;
        assert(after.rows[k].hash == row.hash);
        lemma_pushed(before, row, after);
    }
}

/// Two images of the same length that differ in one byte, captured one after the
/// other, are both kept: the second is new although the first is there.
pub proof fn law_another_byte_is_another_row(
    s0: StoreView,
    s1: StoreView,
    s2: StoreView,
    r1: Result<Option<InsertedImage>, StoreError>,
    r2: Result<Option<InsertedImage>, StoreError>,
    mime: Seq<char>,
    front: Seq<u8>,
    x: u8,
    y: u8,
    back: Seq<u8>,
    cfg: Config,
    t1: int,
    t2: int,
    dir: Seq<char>,
)
    requires
        s0.valid(),
        x != y,
        front.len() + 1 + back.len() <= cfg.max_image_bytes,
        !store::has_hash(s0.rows, digest::image_key(mime, front.push(y) + back)),
        s0.last_id + 1 < i64::MAX,
        r1 matches Ok(Some(_)),
        capture::image_captured(s0, s1, r1, mime, front.push(x) + back, cfg, t1, dir),
        capture::image_captured(s1, s2, r2, mime, front.push(y) + back, cfg, t2, dir),
    ensures
        r2 is Ok && r2->Ok_0 is Some,
        r2->Ok_0->0.id != r1->Ok_0->0.id,
{
    let a = front.push(x) + back;
    let b = front.push(y) + back;
    digest::law_one_byte_makes_another_image(mime, front, x, y, back);
    let row = capture::image_row(s0.last_id + 1, mime, a, t1, dir);
    let u = capture::upserted(s0, row);
    let h = digest::image_key(mime, b);
    capture::lemma_image_key_clean(mime, a);
    assert(!store::has_hash(s0.rows, row.hash));
    capture::lemma_push_valid(s0, row);
    super::laws::law_cut_drops_the_oldest(u, cfg.max_items as nat);
    if store::has_hash(s1.rows, h) {
        let k = choose|k: int| 0 <= k < s1.rows.len() && (#[trigger] s1.rows[k]).hash == h;
        assert(s1.rows.contains(s1.rows[k]));
        assert(u.rows.contains(s1.rows[k]));
        let j = choose|j: int| 0 <= j < u.rows.len() && u.rows[j] == s1.rows[k];
        if j < s0.rows.len() {
            assert(s0.rows[j].hash == h);
        }
    }
}

/// A path goes into a directory: the directory, one slash, and the name.
pub proof fn law_joined_paths(dir: Seq<char>, name: Seq<char>)
    ensures
        ({
            let p = config::joined(dir, name);
            &&& p.len() >= dir.len() + name.len()
            &&& p.take(dir.len() as int) == dir
            &&& p.skip(p.len() - name.len()) == name
            &&& dir.len() > 0 ==> p[p.len() - name.len() - 1] == '/'
            &&& p.len() == dir.len() + name.len() + if dir.len() > 0 && dir.last() != '/' {
                1int
            } else {
                0
            }
        }),
{
    let p = config::joined(dir, name);
    assert(p.take(dir.len() as int) == dir);
    assert(p.skip(p.len() - name.len()) == name);
}

/// The name of a file is what stands behind the last slash of its path.
pub proof fn law_file_name_follows_the_last_slash(path: Seq<char>)
    ensures
        ({
            let n = maintain::file_name(path);
            &&& !n.contains('/')
            &&& n.len() <= path.len()
            &&& path.skip(path.len() - n.len()) == n
            &&& n.len() < path.len() ==> path[path.len() - n.len() - 1] == '/'
        }),
    decreases path.len(),
{
    text::lemma_first_index_bound(path, '/');
    let i = text::first_index(path, '/') as int;
    if i < path.len() {
        let rest = path.skip(i + 1);
        law_file_name_follows_the_last_slash(rest);
        let n = maintain::file_name(path);
        assert(path.skip(path.len() - n.len()) == rest.skip(rest.len() - n.len()));
        if n.len() < rest.len() {
            assert(rest[rest.len() - n.len() - 1] == path[path.len() - n.len() - 1]);
        }
    } else {
        assert(path.skip(0) == path);
        assert(!path.contains('/'));
    }
}

/// Every image has a data file of its own, named after its id.
pub proof fn law_data_files_are_apart(dir: Seq<char>, a: int, b: int)
    ensures
        capture::image_file(dir, a) == capture::image_file(dir, b) ==> a == b,
        maintain::file_name(capture::image_file(dir, a)) == text::dec_int(a) + ".bin"@,
{
    let x = capture::image_file(dir, a);
    let n = text::dec_int(a) + ".bin"@;
    let m = text::dec_int(b) + ".bin"@;
    lemma_data_file_name(a);
    law_joined_paths(dir, n);
    law_joined_paths(dir, m);
    law_file_name_follows_the_last_slash(x);
    let f = maintain::file_name(x);
    if f.len() < n.len() {
        let i = n.len() - f.len() - 1;
        assert(x[x.len() - f.len() - 1] == x.skip(x.len() - n.len())[i]);
        assert(n.contains('/'));
    } else if f.len() > n.len() {
        assert(dir.len() > 0);
        let i = f.len() - n.len() - 1;
        assert(x[x.len() - n.len() - 1] == x.skip(x.len() - f.len())[i]);
        assert(f.contains('/'));
    }
    assert(f == n);
    if capture::image_file(dir, a) == capture::image_file(dir, b) {
        assert(n == m);
        assert(n.take(n.len() - ".bin"@.len()) == text::dec_int(a));
        assert(m.take(m.len() - ".bin"@.len()) == text::dec_int(b));
        text::law_decimal_notation(a, b, 0);
    }
}

proof fn lemma_data_file_name(id: int)
    ensures
        !(text::dec_int(id) + ".bin"@).contains('/'),
        !text::has_prefix(text::dec_int(id) + ".bin"@, ".tmp-"@),
{
    let d = text::dec_int(id);
    let n = d + ".bin"@;
    reveal_strlit(".bin");
    reveal_strlit(".tmp-");
    let m = if id < 0 {
        (-id) as nat
    } else {
        id as nat
    };
    text::lemma_dec_nat(m);
    let e = text::dec_nat(m);
    assert forall|i: int| 0 <= i < d.len() implies d[i] != '/' && d[i] != '.' by {
        if id < 0 {
            if i > 0 {
                assert(d[i] == e[i - 1]);
                assert('0' <= e[i - 1] <= '9');
            }
        } else {
            assert('0' <= e[i] <= '9');
        }
    }
    assert forall|i: int| 0 <= i < n.len() implies n[i] != '/' by {
        if i < d.len() {
            assert(n[i] == d[i]);
        } else {
            assert(n[i] == ".bin"@[i - d.len()]);
        }
    }
    if text::has_prefix(n, ".tmp-"@) {
        assert(n.take(5)[0] == ".tmp-"@[0]);
        assert(n[0] == d[0]);
    }
}

/// A file of the image directory goes where an aborted write left it or no row names
/// it, and only there; the data file of a row never does.
pub proof fn law_sweep_spares_data_files(
    rows: Seq<RowView>,
    files: Seq<Seq<char>>,
    f: Seq<char>,
    dir: Seq<char>,
    i: int,
    id: int,
)
    ensures
        files.filter(maintain::orphans(rows)).contains(f) <==> files.contains(f) && (
        text::has_prefix(maintain::file_name(f), ".tmp-"@) || forall|k: int|
            0 <= k < rows.len() ==> (#[trigger] rows[k]).image_path != Some(f)),
        0 <= i < rows.len() && rows[i].image_path == Some(capture::image_file(dir, id))
            ==> !files.filter(maintain::orphans(rows)).contains(capture::image_file(dir, id)),
{
    lemma_sweep(rows, files, f);
    let g = capture::image_file(dir, id);
    lemma_sweep(rows, files, g);
    law_data_files_are_apart(dir, id, id);
    lemma_data_file_name(id);
}

proof fn lemma_sweep(rows: Seq<RowView>, files: Seq<Seq<char>>, f: Seq<char>)
    ensures
        files.filter(maintain::orphans(rows)).contains(f) <==> files.contains(f) && (
        text::has_prefix(maintain::file_name(f), ".tmp-"@) || forall|k: int|
            0 <= k < rows.len() ==> (#[trigger] rows[k]).image_path != Some(f)),
{
    let p = maintain::orphans(rows);
    let out = files.filter(p);
    if out.contains(f) {
        files.lemma_filter_contains_rev(p, f);
        let k = choose|k: int| 0 <= k < out.len() && out[k] == f;
        files.lemma_filter_pred(p, k);
        assert(maintain::is_orphan(rows, f));
    }
    if files.contains(f) && maintain::is_orphan(rows, f) {
        let k = choose|k: int| 0 <= k < files.len() && files[k] == f;
        files.lemma_filter_contains(p, k);
    }
}

/// A front end sees of a row all but its time and its size, as they are.
pub proof fn law_clips_show_their_rows(rows: Seq<RowView>, i: int)
    requires
        0 <= i < rows.len(),
    ensures
        store::clips_of(rows).len() == rows.len(),
        ({
            let r = rows[i];
            let c = store::clips_of(rows)[i];
            &&& c.id == r.id && c.hash == r.hash && c.text == r.text && c.mime == r.mime
            &&& c.pinned == r.pinned && c.image_path == r.image_path
        }),
{
}

/// A text comes out of the clipboard history as it went in: what is handed to
/// `wl-copy` for the row of a captured text is the trimmed text, and copying it makes
/// that text the current item.
pub proof fn law_copy_gives_back_what_was_captured(
    s: StoreView,
    content: Seq<char>,
    mime: Seq<char>,
    cfg: Config,
    now_ms: int,
    j: CopyJob,
)
    requires
        s.valid(),
        capture::text_result(s, content, cfg) == Ok::<bool, StoreError>(true),
        store::is_clean(digest::text_hash(text::trimmed(content))),
        !text::has_prefix(mime, "image/"@),
        transfer::is_copy_job(
            query::clip_at(
                capture::after_text(s, content, mime, cfg, now_ms).rows,
                s.last_id + 1,
            ),
            j,
        ),
    ensures
        j matches CopyJob::Text { text, hash } && text@ == crate::text::trimmed(content) && hash@
            == digest::text_hash(crate::text::trimmed(content)),
{
    law_captured_text_is_kept_whole(s, content, mime, cfg, now_ms);
    let t = capture::after_text(s, content, mime, cfg, now_ms);
    let c = text::trimmed(content);
    let r = capture::text_row(s.last_id + 1, c, mime, now_ms);
    let k = choose|k: int|
        0 <= k < t.rows.len() && {
            let r = #[trigger] t.rows[k];
            &&& r.id == s.last_id + 1
            &&& r.text == c
            &&& r.hash == digest::text_hash(r.text)
            &&& r.mime == mime
            &&& r.ts == now_ms
            &&& !r.pinned
            &&& r.image_path is None
            &&& text::utf8(c).len() <= i64::MAX ==> r.size == text::utf8(c).len()
        };
    assert(!store::has_hash(s.rows, r.hash));
    capture::lemma_push_valid(s, r);
    super::laws::law_cut_drops_the_oldest(capture::upserted(s, r), cfg.max_items as nat);
    query::lemma_id_unique(t.rows, s.last_id + 1, k);
}

/// What is handed to `wl-copy` is the entry itself: the text of a text, the data file
/// of an image under the type of the image, and never the words that stand for an
/// image.
pub proof fn law_copy_hands_over_the_entry(c: ClipView, j: CopyJob)
    requires
        transfer::is_copy_job(c, j),
    ensures
        j is Text <==> !text::has_prefix(c.mime, "image/"@),
        j matches CopyJob::Text { text, hash } ==> text@ == c.text && hash@ == c.hash,
        j matches CopyJob::Image { type_arg, path, hash } ==> c.image_path == Some(path@)
            && type_arg@ == "--type="@ + c.mime && hash@ == c.hash,
{
}

proof fn lemma_ids_of_found(rows: Seq<RowView>, ids: Seq<i64>)
    ensures
        query::rows_of_ids(rows, ids).map_values(|r: RowView| r.id) == ids.map_values(
            |id: i64| id as int,
        ).filter(|id: int| store::has_id(rows, id)),
        forall|k: int|
            0 <= k < query::rows_of_ids(rows, ids).len() ==> rows.contains(
                #[trigger] query::rows_of_ids(rows, ids)[k],
            ),
    decreases ids.len(),
{
    reveal(Seq::filter);
    let out = query::rows_of_ids(rows, ids);
    let all = ids.map_values(|id: i64| id as int);
    let p = |id: int| store::has_id(rows, id);
    let f = |r: RowView| r.id;
    if ids.len() > 0 {
        let front = query::rows_of_ids(rows, ids.drop_last());
        lemma_ids_of_found(rows, ids.drop_last());
        assert(all.drop_last() == ids.drop_last().map_values(|id: i64| id as int));
        let id = ids.last() as int;
        if store::has_id(rows, id) {
            let r = rows[store::id_index(rows, id)];
            assert(r.id == id);
            assert(out == front.push(r));
            assert(out.map_values(f) == front.map_values(f).push(id));
            assert(rows.contains(r));
            assert forall|k: int| 0 <= k < out.len() implies rows.contains(#[trigger] out[k]) by {
                if k < front.len() {
                    assert(out[k] == front[k]);
                }
            }
        }
    } else {
        assert(out.map_values(f) == Seq::<int>::empty());
        assert(all.filter(p) == Seq::<int>::empty());
    }
}

/// A search without a query finds nothing. One for fewer than three characters finds
/// every row with them in its text and no other, the newest first. A longer one gives
/// the row of every id that the index has found, in the order of the index, whatever
/// the row holds; only ids that no row has are left out.
pub proof fn law_search_leaves_nothing_out(s: StoreView, query: Seq<char>, ranked: Seq<i64>)
    requires
        s.valid(),
    ensures
        ({
            let q = text::trimmed(query);
            let out = query::search_rows(s.rows, query, ranked);
            &&& q.len() == 0 ==> out.len() == 0
            &&& 0 < q.len() < 3 ==> {
                &&& forall|r: RowView| #![auto]
                    out.contains(r) <==> s.rows.contains(r) && text::found_in(r.text, q)
                &&& forall|i: int, j: int|
                    0 <= i < j < out.len() ==> {
                        let a = #[trigger] out[i];
                        let b = #[trigger] out[j];
                        a.ts > b.ts || (a.ts == b.ts && a.id > b.id)
                    }
            }
            &&& q.len() >= 3 ==> {
                &&& out.map_values(|r: RowView| r.id) == ranked.map_values(
                    |id: i64| id as int,
                ).filter(|id: int| store::has_id(s.rows, id))
                &&& forall|k: int| 0 <= k < out.len() ==> s.rows.contains(#[trigger] out[k])
                &&& forall|i: int|
                    0 <= i < ranked.len() && store::has_id(s.rows, (#[trigger] ranked[i]) as int)
                        ==> exists|k: int| 0 <= k < out.len() && (#[trigger] out[k]).id == ranked[i]
            }
        }),
{
    let q = text::trimmed(query);
    let out = query::search_rows(s.rows, query, ranked);
    super::laws::law_short_search_finds_every_mention(s, q);
    lemma_ids_of_found(s.rows, ranked);
    if 0 < q.len() < 3 {
        assert forall|i: int, j: int| 0 <= i < j < out.len() implies {
            let a = #[trigger] out[i];
            let b = #[trigger] out[j];
            a.ts > b.ts || (a.ts == b.ts && a.id > b.id)
        } by {
            assert(query::newer(out[i], out[j]));
        }
    }
    if q.len() >= 3 {
        let all = ranked.map_values(|id: i64| id as int);
        let p = |id: int| store::has_id(s.rows, id);
        let ids = out.map_values(|r: RowView| r.id);
        assert forall|i: int|
            0 <= i < ranked.len() && store::has_id(s.rows, (#[trigger] ranked[i]) as int) implies exists|
            k: int,
        |
            0 <= k < out.len() && (#[trigger] out[k]).id == ranked[i] by {
            assert(all[i] == ranked[i]);
            all.lemma_filter_contains(p, i);
            assert(ids.contains(all[i]));
            let k = choose|k: int| 0 <= k < ids.len() && ids[k] == all[i];
            assert(out[k].id == ranked[i]);
        }
    }
}

/// A row is older than another where its time is earlier, or where the times are equal
/// and its id is smaller; newer is the other way round.
pub proof fn law_age_goes_by_time_and_id(a: RowView, b: RowView)
    ensures
        a.ts < b.ts ==> evict::older(a, b),
        a.ts == b.ts && a.id < b.id ==> evict::older(a, b),
        evict::older(a, b) ==> !evict::older(b, a) && (a.ts != b.ts || a.id != b.id),
        query::newer(a, b) <==> evict::older(b, a),
{
}

/// What a cut to the limit may take is what is neither pinned nor the current item;
/// what the image quota may take is, besides, an image.
pub proof fn law_what_may_leave(r: RowView, cur: Seq<char>)
    ensures
        evict::spare(cur)(r) <==> !(r.pinned || r.hash == cur),
        evict::spare_image(cur)(r) <==> evict::spare(cur)(r) && r.image_path is Some,
{
}

/// A cut takes as many rows as are too many, or all that may leave. So the history
/// keeps to its limit unless pinned entries and the current item alone exceed it.
pub proof fn law_cut_keeps_to_the_limit(s: StoreView, max: nat)
    requires
        s.valid(),
    ensures
        ({
            let cur = store::pointed_or_empty(s.current);
            let kept = evict::cut_to(s.rows, cur, max);
            ||| s.rows.len() <= max && kept == s.rows
            ||| s.rows.len() > max && kept.len() == max
            ||| kept.len() > max && forall|i: int|
                0 <= i < kept.len() ==> (#[trigger] kept[i]).pinned || kept[i].hash == cur
        }),
{
    super::laws::law_cut_drops_the_oldest(s, max);
    let cur = store::pointed_or_empty(s.current);
    let kept = evict::cut_to(s.rows, cur, max);
    if kept.len() > max && s.rows.len() > max {
        assert forall|i: int| 0 <= i < kept.len() implies (#[trigger] kept[i]).pinned
            || kept[i].hash == cur by {
            if !evict::spare(cur)(kept[i]) {
            } else {
                assert(evict::some_may(kept, evict::spare(cur)));
            }
        }
    }
}

/// Sizes add up: those of the rows of two lists, and those of the images among them.
pub proof fn law_sizes_add_up(a: Seq<RowView>, b: Seq<RowView>, r: RowView)
    ensures
        maintain::total_size(a + b) == maintain::total_size(a) + maintain::total_size(b),
        maintain::total_size(seq![r]) == r.size,
        evict::image_total(a + b) == evict::image_total(a) + evict::image_total(b),
        evict::image_total(seq![r]) == if r.image_path is Some {
            r.size
        } else {
            0
        },
    decreases b.len(),
{
    reveal_with_fuel(maintain::total_size, 2);
    reveal_with_fuel(evict::image_total, 2);
    assert(seq![r].drop_last() == Seq::<RowView>::empty());
    if b.len() == 0 {
        assert(a + b == a);
    } else {
        law_sizes_add_up(a, b.drop_last(), r);
        assert((a + b).drop_last() == a + b.drop_last());
    }
}

/// Turning a pin over changes the pin of that entry and nothing else.
pub proof fn law_pin_turns_one_entry(rows: Seq<RowView>, i: int)
    requires
        0 <= i < rows.len(),
    ensures
        ({
            let t = maintain::pin_turned(rows, i);
            &&& t.len() == rows.len()
            &&& forall|k: int|
                0 <= k < rows.len() ==> {
                    let a = rows[k];
                    let b = #[trigger] t[k];
                    &&& b.id == a.id && b.hash == a.hash && b.text == a.text && b.mime == a.mime
                    &&& b.ts == a.ts && b.size == a.size && b.image_path == a.image_path
                    &&& b.pinned == (a.pinned != (k == i))
                }
        }),
{
}

proof fn lemma_filters_part<A>(s: Seq<A>, p: spec_fn(A) -> bool, q: spec_fn(A) -> bool)
    requires
        forall|x: A| #[trigger] p(x) <==> !q(x),
    ensures
        s.filter(p).len() + s.filter(q).len() == s.len(),
    decreases s.len(),
{
    reveal(Seq::filter);
    if s.len() > 0 {
        lemma_filters_part(s.drop_last(), p, q);
        assert(p(s.last()) <==> !q(s.last()));
    }
}

proof fn lemma_filter_holds<A>(s: Seq<A>, p: spec_fn(A) -> bool, x: A)
    ensures
        s.filter(p).contains(x) <==> s.contains(x) && p(x),
{
    if s.filter(p).contains(x) {
        s.lemma_filter_contains_rev(p, x);
        let k = choose|k: int| 0 <= k < s.filter(p).len() && s.filter(p)[k] == x;
        s.lemma_filter_pred(p, k);
    }
    if s.contains(x) && p(x) {
        let k = choose|k: int| 0 <= k < s.len() && s[k] == x;
        s.lemma_filter_contains(p, k);
    }
}

/// A pruning counts what it removes: a row is counted where it is older than the
/// moment, not pinned and not the current item, and every row is either counted or
/// kept.
pub proof fn law_prune_counts_what_goes(rows: Seq<RowView>, cutoff_ms: int, cur: Seq<char>, r: RowView)
    ensures
        ({
            let gone = rows.filter(maintain::prunable(cutoff_ms, cur));
            let kept = rows.filter(maintain::not_prunable(cutoff_ms, cur));
            &&& gone.contains(r) <==> rows.contains(r) && r.ts < cutoff_ms && !r.pinned && r.hash
                != cur
            &&& gone.len() + kept.len() == rows.len()
            &&& gone.filter(maintain::has_image()).contains(r) <==> gone.contains(r)
                && r.image_path is Some
        }),
{
    let p = maintain::prunable(cutoff_ms, cur);
    let q = maintain::not_prunable(cutoff_ms, cur);
    lemma_filter_holds(rows, p, r);
    lemma_filter_holds(rows.filter(p), maintain::has_image(), r);
    lemma_filters_part(rows, p, q);
}

/// The statistics count every row once: as an image or as a text, and the pinned ones
/// are those with a pin. The earliest and the latest time are those of rows, and no
/// row is earlier or later.
pub proof fn law_statistics_count_every_row(rows: Seq<RowView>, r: RowView, t: i64, i: int)
    ensures
        rows.filter(maintain::has_image()).len() + rows.filter(maintain::no_image()).len()
            == rows.len(),
        rows.filter(maintain::has_image()).contains(r) <==> rows.contains(r) && r.image_path is Some,
        rows.filter(maintain::no_image()).contains(r) <==> rows.contains(r) && r.image_path is None,
        rows.filter(maintain::is_pin()).contains(r) <==> rows.contains(r) && r.pinned,
        maintain::is_oldest_ts(rows, Some(t)) && 0 <= i < rows.len() ==> t <= rows[i].ts,
        maintain::is_newest_ts(rows, Some(t)) && 0 <= i < rows.len() ==> rows[i].ts <= t,
        maintain::is_oldest_ts(rows, Some(t)) || maintain::is_newest_ts(rows, Some(t)) ==> exists|k:
            int|
            0 <= k < rows.len() && (#[trigger] rows[k]).ts == t,
        maintain::is_oldest_ts(rows, None) || maintain::is_newest_ts(rows, None) ==> rows.len() == 0,
{
    lemma_filters_part(rows, maintain::has_image(), maintain::no_image());
    lemma_filter_holds(rows, maintain::has_image(), r);
    lemma_filter_holds(rows, maintain::no_image(), r);
    lemma_filter_holds(rows, maintain::is_pin(), r);
}

/// A size is the length itself, for every length that a size can hold.
pub proof fn law_size_is_the_length(len: nat)
    ensures
        len <= i64::MAX ==> capture::size_of(len) == len,
        0 <= capture::size_of(len) <= i64::MAX,
{
}

/// The list of an earlier manager is read line by line: a line with an id, a tab and
/// anything behind it gives that id and all that is behind the tab; a line without a
/// tab gives nothing, and so does one whose beginning is no number.
pub proof fn law_listed_lines_are_read(
    before: Seq<Seq<char>>,
    id: int,
    preview: Seq<char>,
    other: Seq<char>,
)
    requires
        i64::MIN <= id <= i64::MAX,
    ensures
        transfer::listed_lines(before.push(text::dec_int(id).push('\t') + preview))
            == transfer::listed_lines(before).push(transfer::ListedView { id, preview }),
        !other.contains('\t') || text::int_literal(
            other.take(text::first_index(other, '\t') as int),
        ) is None ==> transfer::listed_lines(before.push(other)) == transfer::listed_lines(before),
        transfer::listed_lines(Seq::empty()).len() == 0,
{
    let d = text::dec_int(id);
    let line = d.push('\t') + preview;
    text::lemma_dec_int_value(id);
    assert(before.push(line).drop_last() == before);
    assert(before.push(other).drop_last() == before);
    text::lemma_first_index_bound(line, '\t');
    let n = text::first_index(line, '\t') as int;
    assert(line[d.len() as int] == '\t');
    if n < d.len() {
        assert(line[n] == d[n]);
        assert(!text::is_space(d[n]));
    } else if n > d.len() {
        assert(line[d.len() as int] != '\t');
    }
    assert(line.take(n) == d);
    assert(line.skip(n + 1) == preview);
    if !other.contains('\t') {
        text::lemma_first_index_bound(other, '\t');
        let m = text::first_index(other, '\t') as int;
        if m < other.len() {
            assert(other.contains(other[m]));
        }
    }
}

proof fn lemma_last_image_was_needed(rows: Seq<RowView>, cur: Seq<char>, need: int, last_id: int) -> (a:
    RowView)
    requires
        (StoreView { rows, last_id, current: None }).valid(),
        evict::drop_images(rows, cur, need) != rows,
    ensures
        rows.contains(a),
        !evict::drop_images(rows, cur, need).contains(a),
        evict::image_total(rows) - evict::image_total(evict::drop_images(rows, cur, need)) - a.size
            < need,
        forall|r: RowView| #[trigger]
            rows.contains(r) && !evict::drop_images(rows, cur, need).contains(r) && r != a
                ==> evict::older(r, a),
    decreases rows.len(),
{
    let may = evict::spare_image(cur);
    let kept = evict::drop_images(rows, cur, need);
    let i = evict::oldest(rows, may);
    super::laws::lemma_without_oldest(rows, may, last_id);
    super::laws::lemma_image_total_remove(rows, i);
    let rest = rows.remove(i);
    let gone = rows[i];
    super::laws::lemma_drop_images(rest, cur, need - gone.size, last_id);
    assert(!rest.contains(gone));
    assert(!kept.contains(gone)) by {
        if kept.contains(gone) {
            assert(rest.contains(gone));
        }
    }
    if kept == rest {
        assert(rows.contains(gone));
        assert forall|r: RowView| #[trigger]
            rows.contains(r) && !kept.contains(r) && r != gone implies evict::older(r, gone) by {
            assert(rest.contains(r));
        }
        gone
    } else {
        let a = lemma_last_image_was_needed(rest, cur, need - gone.size, last_id);
        assert(rows.contains(a));
        assert(may(a)) by {
            assert(rest.contains(a));
        }
        assert forall|r: RowView| #[trigger]
            rows.contains(r) && !kept.contains(r) && r != a implies evict::older(r, a) by {
            if r != gone {
                assert(rest.contains(r));
            }
        }
        a
    }
}

/// The image quota takes no more than it must: with the latest of the images that
/// went, the rest would not fit.
pub proof fn law_quota_takes_no_more_than_needed(s: StoreView, max_bytes: int)
    requires
        s.valid(),
    ensures
        ({
            let cur = store::pointed_or_empty(s.current);
            let kept = evict::drop_images(s.rows, cur, evict::image_total(s.rows) - max_bytes);
            kept != s.rows ==> exists|a: RowView|
                {
                    &&& #[trigger] s.rows.contains(a)
                    &&& !kept.contains(a)
                    &&& evict::image_total(kept) + a.size > max_bytes
                    &&& forall|r: RowView| #[trigger]
                        s.rows.contains(r) && !kept.contains(r) && r != a ==> evict::older(r, a)
                }
        }),
{
    let cur = store::pointed_or_empty(s.current);
    let need = evict::image_total(s.rows) - max_bytes;
    if evict::drop_images(s.rows, cur, need) != s.rows {
        assert((StoreView { rows: s.rows, last_id: s.last_id, current: None }).valid());
        let a = lemma_last_image_was_needed(s.rows, cur, need, s.last_id);
    }
}

/// Where the limit has room for all, a takeover brings in every text that can be
/// stored, and counts those that are new; what was there stays.
pub proof fn law_takeover_brings_every_text(
    s: StoreView,
    entries: Seq<transfer::Decoded>,
    cfg: Config,
    i: int,
)
    requires
        s.valid(),
        !transfer::failed(s, entries, cfg),
        s.rows.len() + entries.len() <= cfg.max_items,
        forall|k: int|
            0 <= k < entries.len() ==> store::is_clean(
                digest::text_hash(text::trimmed((#[trigger] entries[k]).content@)),
            ),
    ensures
        ({
            let t = transfer::after_all(s, entries, cfg);
            let c = text::trimmed(entries[i].content@);
            &&& t.valid()
            &&& t.current == s.current
            &&& t.rows.len() == s.rows.len() + transfer::taken_over(s, entries, cfg)
            &&& transfer::taken_over(s, entries, cfg) <= entries.len()
            &&& forall|k: int|
                0 <= k < s.rows.len() ==> (#[trigger] t.rows[k]).id == s.rows[k].id && t.rows[k].text
                    == s.rows[k].text && t.rows[k].hash == s.rows[k].hash && t.rows[k].pinned
                    == s.rows[k].pinned
            &&& 0 <= i < entries.len() && c.len() > 0 && c.len() >= cfg.min_store_length && (
            cfg.ignore_re is None || !pattern::matches_text(cfg.ignore_re->0, c))
                && vstd::utf8::encode_utf8(c).len() <= cfg.max_clip_bytes ==> store::has_hash(
                t.rows,
                digest::text_hash(c),
            )
        }),
    decreases entries.len(),
{
    if entries.len() > 0 {
        let front = entries.drop_last();
        let e = entries.last();
        assert forall|k: int| 0 <= k < front.len() implies store::is_clean(
            digest::text_hash(text::trimmed((#[trigger] front[k]).content@)),
        ) by {
            assert(front[k] == entries[k]);
        }
        assert(entries[entries.len() - 1] == e);
        law_takeover_brings_every_text(s, front, cfg, i);
        let u = transfer::after_all(s, front, cfg);
        let t = transfer::after_all(s, entries, cfg);
        let c = text::trimmed(e.content@);
        let h = digest::text_hash(c);
        let r = capture::text_row(u.last_id + 1, c, "text/plain"@, e.ts as int);
        if capture::storable(c, cfg) {
            if store::has_hash(u.rows, h) {
                capture::lemma_refreshed_valid(u, h, e.ts as int);
                assert(t.rows == capture::refreshed(u.rows, h, e.ts as int));
                let k = choose|k: int| 0 <= k < u.rows.len() && (#[trigger] u.rows[k]).hash == h;
                assert(t.rows[k].hash == h);
            } else {
                capture::lemma_push_valid(u, r);
                assert(t.rows == u.rows.push(r));
                assert(t.rows[u.rows.len() as int].hash == h);
            }
            if 0 <= i < front.len() {
                let g = digest::text_hash(text::trimmed(entries[i].content@));
                assert(front[i] == entries[i]);
                if store::has_hash(u.rows, g) {
                    let k = choose|k: int| 0 <= k < u.rows.len() && (#[trigger] u.rows[k]).hash == g;
                    assert(t.rows[k].hash == g);
                }
            }
        } else {
            if 0 <= i < front.len() {
                assert(front[i] == entries[i]);
            }
        }
    }
}

/// Every row is found by its id and by its hash, and what is found by an id is the row
/// that has it.
pub proof fn law_every_row_is_found(rows: Seq<RowView>, i: int, id: int, h: Seq<char>)
    ensures
        0 <= i < rows.len() ==> store::has_id(rows, rows[i].id) && store::has_hash(
            rows,
            rows[i].hash,
        ),
        store::has_id(rows, id) ==> 0 <= store::id_index(rows, id) < rows.len() && rows[store::id_index(
            rows,
            id,
        )].id == id,
        (forall|k: int| 0 <= k < rows.len() ==> (#[trigger] rows[k]).id != id) ==> !store::has_id(
            rows,
            id,
        ),
        (forall|k: int| 0 <= k < rows.len() ==> (#[trigger] rows[k]).hash != h) ==> !store::has_hash(
            rows,
            h,
        ),
{
    if store::has_id(rows, id) {
        let k = store::id_index(rows, id);
        assert(rows[k].id == id);
    }
}

/// The entry with a given id is that row, as it is stored.
pub proof fn law_entry_of_an_id_is_its_row(s: StoreView, i: int)
    requires
        s.valid(),
        0 <= i < s.rows.len(),
    ensures
        ({
            let c = query::clip_at(s.rows, s.rows[i].id);
            let r = s.rows[i];
            &&& c.id == r.id && c.hash == r.hash && c.text == r.text && c.mime == r.mime
            &&& c.pinned == r.pinned && c.image_path == r.image_path
        }),
{
    query::lemma_id_unique(s.rows, s.rows[i].id, i);
}

/// The pointer names the hash in it, without white space at its ends; a blank one names
/// none.
pub proof fn law_pointer_names_a_hash(h: Seq<char>, before: Seq<char>, after: Seq<char>)
    requires
        forall|i: int| 0 <= i < before.len() ==> text::is_space(#[trigger] before[i]),
        forall|i: int| 0 <= i < after.len() ==> text::is_space(#[trigger] after[i]),
    ensures
        h.len() > 0 && !text::is_space(h[0]) && !text::is_space(h.last()) ==> store::pointed(
            Some(before + h + after),
        ) == Some(h),
        store::pointed(Some(before)) is None,
        store::pointed(None) is None,
{
    if h.len() > 0 && !text::is_space(h[0]) && !text::is_space(h.last()) {
        text::law_trimming_undoes_padding(before, h, after);
    }
    text::law_trimming_cuts_the_ends_only(before);
    let t = text::trimmed(before);
    if t.len() > 0 {
        let (a, b) = choose|a: int, b: int|
            {
                &&& 0 <= a <= b <= before.len()
                &&& t == #[trigger] before.subrange(a, b)
                &&& forall|i: int|
                    0 <= i < a || b <= i < before.len() ==> text::is_space(#[trigger] before[i])
            };
        assert(t[0] == before[a]);
    }
}

/// A phrase for the index is the query in quotes, with every quote in it doubled.
pub proof fn law_phrase_is_the_quoted_query(q: Seq<char>)
    ensures
        query::quoted(q) == seq!['"'] + text::replaced(q, '"', seq!['"', '"']) + seq!['"'],
{
    reveal_strlit("\"");
    reveal_strlit("\"\"");
    assert("\""@ == seq!['"']);
    assert("\"\""@ == seq!['"', '"']);
}

/// A text whose type is not given is a plain text; else it has the type that is given.
pub proof fn law_type_of_a_text(mime: Option<String>)
    ensures
        mime is None ==> capture::mime_or_plain(mime) == "text/plain"@,
        mime matches Some(m) ==> capture::mime_or_plain(mime) == m@,
{
}

/// The words that stand for an image name its type and its length.
pub proof fn law_words_for_an_image(mime: Seq<char>, len: nat)
    ensures
        capture::placeholder(mime, len) == "[image "@ + mime + " "@ + text::dec_nat(len)
            + " bytes]"@,
{
}

/// A capture costs no other row unless the limit is exceeded, and then as many as are too
/// many: never a pinned one, and always the oldest of the others. Rows that stay are
/// unchanged.
pub proof fn law_capture_keeps_the_rest(s: StoreView, r: RowView, max: nat)
    requires
        s.valid(),
        !store::has_hash(s.rows, r.hash),
        r.id == s.last_id + 1,
        store::row_valid(r, r.id),
    ensures
        ({
            let t = capture::captured(s, r, max);
            let u = capture::taken_in(s, r, max);
            &&& s.rows.len() < max ==> t.rows == s.rows.push(r) && u.rows == s.rows.push(r)
            &&& s.rows.len() >= max ==> t.rows.len() >= max && u.rows.len() >= max
            &&& t.last_id == r.id && u.last_id == r.id
            &&& t.current == Some(r.hash) && u.current == s.current
            &&& t.rows.contains(r)
            &&& forall|x: RowView| #[trigger]
                s.rows.contains(x) && x.pinned ==> t.rows.contains(x) && u.rows.contains(x)
            &&& forall|x: RowView, y: RowView|
                #![trigger s.rows.contains(x), t.rows.contains(y)]
                s.rows.contains(x) && !t.rows.contains(x) && t.rows.contains(y) && !y.pinned && y.hash
                    != r.hash ==> x.ts < y.ts || (x.ts == y.ts && x.id < y.id)
        }),
{
    capture::lemma_push_valid(s, r);
    let a = capture::upserted(s, r);
    let b = StoreView { current: s.current, ..a };
    assert(a.rows == s.rows.push(r));
    super::laws::law_cut_drops_the_oldest(a, max);
    super::laws::law_cut_drops_the_oldest(b, max);
    assert(store::pointed(a.current) == Some(r.hash));
    assert(a.rows[s.rows.len() as int] == r);
    assert(a.rows.contains(r));
    let t = capture::captured(s, r, max);
    let u = capture::taken_in(s, r, max);
    assert forall|x: RowView| #[trigger] s.rows.contains(x) implies a.rows.contains(x) by {
        let k = choose|k: int| 0 <= k < s.rows.len() && s.rows[k] == x;
        assert(a.rows[k] == x);
    }
    assert forall|x: RowView, y: RowView|
        #![trigger s.rows.contains(x), t.rows.contains(y)]
        s.rows.contains(x) && !t.rows.contains(x) && t.rows.contains(y) && !y.pinned && y.hash
            != r.hash implies x.ts < y.ts || (x.ts == y.ts && x.id < y.id) by {
        assert(a.rows.contains(x));
        assert(evict::older(x, y));
    }
}

/// Content that is known and comes from elsewhere gets a new time and nothing else; the
/// current item stays what it is.
pub proof fn law_known_content_from_elsewhere(s: StoreView, r: RowView, max: nat)
    requires
        store::has_hash(s.rows, r.hash),
    ensures
        ({
            let t = capture::taken_in(s, r, max);
            &&& t.rows == capture::captured(s, r, max).rows
            &&& t.last_id == s.last_id
            &&& t.current == s.current
        }),
{
}

/// The data file of an image lies in the directory for images.
pub proof fn law_data_file_lies_in_its_directory(dir: Seq<char>, id: int)
    ensures
        capture::image_file(dir, id) == config::joined(dir, text::dec_int(id) + ".bin"@),
        text::has_prefix(capture::image_file(dir, id), dir),
{
    law_joined_paths(dir, text::dec_int(id) + ".bin"@);
}

/// Entries are taken over one after the other, up to the first that fails, and each is
/// taken in as it is.
pub proof fn law_takeover_goes_entry_by_entry(
    s: StoreView,
    entries: Seq<transfer::Decoded>,
    e: transfer::Decoded,
    cfg: Config,
)
    ensures
        ({
            let t = transfer::after_all(s, entries, cfg);
            let r = capture::text_result(t, e.content@, cfg);
            let more = entries.push(e);
            &&& transfer::after_all(s, Seq::empty(), cfg) == s
            &&& transfer::failed(s, more, cfg) <==> transfer::failed(s, entries, cfg) || r is Err
            &&& transfer::failed(s, entries, cfg) ==> transfer::after_all(s, more, cfg) == t
            &&& !transfer::failed(s, entries, cfg) ==> transfer::after_all(s, more, cfg)
                == capture::after_text_in(t, e.content@, "text/plain"@, cfg, e.ts as int)
            &&& transfer::taken_over(s, more, cfg) == transfer::taken_over(s, entries, cfg) + if r
                == Ok::<bool, StoreError>(true) {
                1int
            } else {
                0
            }
        }),
{
    assert(entries.push(e).drop_last() == entries);
}

/// A history is a list of rows by increasing ids, from one to the last id given out,
/// with different hashes that can be pointed at and sizes that are not negative.
pub proof fn law_what_a_history_is(s: StoreView)
    ensures
        s.valid() <==> {
            &&& s.last_id >= 0
            &&& forall|i: int|
                0 <= i < s.rows.len() ==> {
                    let r = #[trigger] s.rows[i];
                    &&& 1 <= r.id <= s.last_id && r.size >= 0
                    &&& r.hash.len() > 0 && text::trimmed(r.hash) == r.hash
                }
            &&& forall|i: int, j: int|
                0 <= i < j < s.rows.len() ==> {
                    let a = #[trigger] s.rows[i];
                    let b = #[trigger] s.rows[j];
                    a.id < b.id && a.hash != b.hash
                }
        },
{
    if forall|i: int|
        0 <= i < s.rows.len() ==> {
            let r = #[trigger] s.rows[i];
            &&& 1 <= r.id <= s.last_id && r.size >= 0
            &&& r.hash.len() > 0 && text::trimmed(r.hash) == r.hash
        } {
        assert forall|i: int| 0 <= i < s.rows.len() implies store::row_valid(
            #[trigger] s.rows[i],
            s.last_id,
        ) by {}
    }
    if s.valid() {
        assert forall|i: int| 0 <= i < s.rows.len() implies {
            let r = #[trigger] s.rows[i];
            &&& 1 <= r.id <= s.last_id && r.size >= 0
            &&& r.hash.len() > 0 && text::trimmed(r.hash) == r.hash
        } by {
            assert(store::row_valid(s.rows[i], s.last_id));
        }
    }
}

/// What contracts speak of is what rows, clips and the history hold.
pub proof fn law_contents_are_the_fields(r: Row, c: Clip, s: Store, i: int)
    ensures
        r@.id == r.id && r@.hash == r.hash@ && r@.text == r.text@ && r@.mime == r.mime@,
        r@.ts == r.ts && r@.pinned == r.pinned && r@.size == r.size,
        r@.image_path is Some <==> r.image_path is Some,
        r.image_path matches Some(p) ==> r@.image_path == Some(p@),
        c@.id == c.id && c@.hash == c.hash@ && c@.text == c.text@ && c@.mime == c.mime@,
        c@.pinned == c.pinned,
        c@.image_path is Some <==> c.image_path is Some,
        c.image_path matches Some(p) ==> c@.image_path == Some(p@),
        s@.rows.len() == s.rows.len() && s@.last_id == s.last_id,
        s@.current is Some <==> s.current is Some,
        s.current matches Some(h) ==> s@.current == Some(h@),
        0 <= i < s.rows.len() ==> s@.rows[i] == s.rows@[i]@,
{
}

/// An optional text is there exactly where the string is, and holds the same.
pub proof fn law_optional_texts(o: Option<String>, l: transfer::Listed)
    ensures
        o is None <==> store::opt_text(o) is None,
        o matches Some(s) ==> store::opt_text(o) == Some(s@),
        l@.id == l.id && l@.preview == l.preview@,
{
}

} // verus!
