//! What happens to content that is copied: filtering, deduplication, storage.

use super::contents;
use super::digest;
use super::evict;
use super::{InsertedImage, Row, RowView, Store, StoreError, StoreView};
use crate::config;
use crate::config::{Config, ConfigFile};
use crate::pattern;
use crate::store;
use crate::text;
use vstd::prelude::*;

verus! {

/// Whether the filter keeps a text out: it is too short, or the expression
/// matches it.
pub open spec fn ignored(t: Seq<char>, cfg: Config) -> bool {
    ||| t.len() < cfg.min_store_length
    ||| cfg.ignore_re is Some && pattern::matches_text(cfg.ignore_re->0, t)
}

/// Whether the filter keeps a text out.
pub fn should_ignore(content: &str, cfg: &Config) -> (b: bool)
    ensures
        b == ignored(content@, *cfg),
{
    if text::chars_of(content).len() < cfg.min_store_length {
        return true;
    }
    match &cfg.ignore_re {
        Some(re) => pattern::is_match(re, content),
        None => false,
    }
}

/// Whether a trimmed text is stored: not empty, not filtered, not too large.
pub open spec fn storable(t: Seq<char>, cfg: Config) -> bool {
    &&& t.len() > 0
    &&& !ignored(t, cfg)
    &&& text::utf8(t).len() <= cfg.max_clip_bytes
}

/// A length as a size that a row can hold. No content is so long that this
/// would not be its length.
pub open spec fn size_of(len: nat) -> int {
    if len <= i64::MAX {
        len as int
    } else {
        i64::MAX as int
    }
}

/// A length as a size that a row can hold.
pub fn size_from(len: usize) -> (n: i64)
    ensures
        n == size_of(len as nat),
{
    if len as u64 <= 0x7fff_ffff_ffff_ffff {
        len as i64
    } else {
        i64::MAX
    }
}

/// The rows after the one with the given hash was captured again.
pub open spec fn refreshed(rows: Seq<RowView>, h: Seq<char>, ts: int) -> Seq<RowView> {
    rows.map_values(
        |r: RowView|
            if r.hash == h {
                RowView { ts, ..r }
            } else {
                r
            },
    )
}

/// The history after a capture of the content in `r`. Content that is there
/// already only gets the new time; other content becomes a row. Either way it
/// is the current item.
pub open spec fn upserted(s: StoreView, r: RowView) -> StoreView {
    if store::has_hash(s.rows, r.hash) {
        StoreView {
            rows: refreshed(s.rows, r.hash, r.ts),
            last_id: s.last_id,
            current: Some(r.hash),
        }
    } else {
        StoreView { rows: s.rows.push(r), last_id: r.id, current: Some(r.hash) }
    }
}

/// The history after a capture and the cut to the limit that follows where a
/// row was added.
pub open spec fn captured(s: StoreView, r: RowView, max_items: nat) -> StoreView {
    let t = upserted(s, r);
    if store::has_hash(s.rows, r.hash) {
        t
    } else {
        let cur = store::pointed_or_empty(t.current);
        StoreView { rows: evict::cut_to(t.rows, cur, max_items), ..t }
    }
}

/// The history after the content in `r` was taken in from elsewhere, which leaves
/// the current item as it is, and the cut to the limit that follows where a row
/// was added.
pub open spec fn taken_in(s: StoreView, r: RowView, max_items: nat) -> StoreView {
    let t = StoreView { current: s.current, ..upserted(s, r) };
    if store::has_hash(s.rows, r.hash) {
        t
    } else {
        let cur = store::pointed_or_empty(t.current);
        StoreView { rows: evict::cut_to(t.rows, cur, max_items), ..t }
    }
}

/// The row that a text becomes.
pub open spec fn text_row(id: int, t: Seq<char>, mime: Seq<char>, ts: int) -> RowView {
    RowView {
        id,
        hash: digest::text_hash(t),
        text: t,
        mime,
        ts,
        pinned: false,
        size: size_of(text::utf8(t).len()),
        image_path: None,
    }
}

/// The text that stands for an image in the history.
pub open spec fn placeholder(mime: Seq<char>, len: nat) -> Seq<char> {
    "[image "@ + mime + " "@ + text::dec_nat(len) + " bytes]"@
}

/// The name of an image's data file.
pub open spec fn image_file(dir: Seq<char>, id: int) -> Seq<char> {
    config::joined(dir, text::dec_int(id) + ".bin"@)
}

/// The row that an image becomes.
pub open spec fn image_row(
    id: int,
    mime: Seq<char>,
    bytes: Seq<u8>,
    ts: int,
    dir: Seq<char>,
) -> RowView {
    RowView {
        id,
        hash: digest::image_key(mime, bytes),
        text: placeholder(mime, bytes.len()),
        mime,
        ts,
        pinned: false,
        size: size_of(bytes.len()),
        image_path: Some(image_file(dir, id)),
    }
}

/// The type of a text whose type is not given.
pub open spec fn mime_or_plain(mime: Option<String>) -> Seq<char> {
    config::text_or(mime, "text/plain"@)
}

/// The fingerprint of a text can be pointed at.
pub proof fn lemma_hex_clean(h: Seq<char>)
    requires
        h.len() == 64,
        forall|i: int| 0 <= i < 64 ==> digest::is_hex(#[trigger] h[i]),
    ensures
        store::is_clean(h),
{
    assert(digest::is_hex(h[0]));
    assert(digest::is_hex(h[63]));
    text::lemma_trimmed_same(h);
}

/// The fingerprint of an image can be pointed at.
pub proof fn lemma_image_key_clean(mime: Seq<char>, bytes: Seq<u8>)
    ensures
        store::is_clean(digest::image_key(mime, bytes)),
        text::has_prefix(digest::image_key(mime, bytes), "img:"@),
{
    let k = digest::image_key(mime, bytes);
    let n = text::dec_nat(bytes.len());
    reveal_strlit("img:");
    text::lemma_dec_nat(bytes.len());
    assert(k[0] == "img:"@[0]);
    assert(k.last() == n[n.len() - 1]);
    assert('0' <= n[n.len() - 1] <= '9');
    assert(k.take(4) == "img:"@);
    text::lemma_trimmed_same(k);
}

/// A history stays one when content is captured again.
pub proof fn lemma_refreshed_valid(s: StoreView, h: Seq<char>, ts: int)
    requires
        s.valid(),
    ensures
        (StoreView { rows: refreshed(s.rows, h, ts), current: Some(h), ..s }).valid(),
{
    let t = refreshed(s.rows, h, ts);
    assert forall|i: int| 0 <= i < t.len() implies store::row_valid(#[trigger] t[i], s.last_id) by {
        assert(store::row_valid(s.rows[i], s.last_id));
    }
    assert forall|i: int, j: int| 0 <= i < j < t.len() implies (#[trigger] t[i]).id < (
    #[trigger] t[j]).id && t[i].hash != t[j].hash by {
        assert(s.rows[i].id < s.rows[j].id);
    }
}

/// A row with a new id and a new hash can be added.
pub proof fn lemma_push_valid(s: StoreView, r: RowView)
    requires
        s.valid(),
        !store::has_hash(s.rows, r.hash),
        r.id == s.last_id + 1,
        store::is_clean(r.hash),
        r.size >= 0,
    ensures
        (StoreView { rows: s.rows.push(r), last_id: r.id, current: s.current }).valid(),
        (StoreView { rows: s.rows.push(r), last_id: r.id, current: Some(r.hash) }).valid(),
{
    let t = s.rows.push(r);
    assert forall|i: int| 0 <= i < t.len() implies store::row_valid(#[trigger] t[i], r.id) by {
        if i < s.rows.len() {
            assert(store::row_valid(s.rows[i], s.last_id));
        }
    }
    assert forall|i: int, j: int| 0 <= i < j < t.len() implies (#[trigger] t[i]).id < (
    #[trigger] t[j]).id && t[i].hash != t[j].hash by {
        assert(store::row_valid(s.rows[i], s.last_id));
        if j < s.rows.len() {
            assert(s.rows[i].id < s.rows[j].id);
        }
    }
}

/// The row that new content becomes.
pub open spec fn new_row(
    s: StoreView,
    hash: Seq<char>,
    content: Seq<char>,
    mime: Seq<char>,
    ts: int,
    size: int,
    dir: Option<Seq<char>>,
) -> RowView {
    let id = s.last_id + 1;
    RowView {
        id,
        hash,
        text: content,
        mime,
        ts,
        pinned: false,
        size,
        image_path: match dir {
            Some(d) => Some(image_file(d, id)),
            None => None,
        },
    }
}

/// The path of an image's data file.
pub fn image_path(dir: &str, id: i64) -> (p: String)
    ensures
        p@ == image_file(dir@, id as int),
{
    let mut name = String::new();
    text::push_i64(&mut name, id);
    assert(Seq::<char>::empty() + text::dec_int(id as int) == text::dec_int(id as int));
    name.append(".bin");
    config::join(dir, name.as_str())
}

/// Records a capture: known content gets the new time, other content becomes a
/// row, with a data file in `dir` where one is given. Returns the id of the row
/// that was added.
fn upsert_clip(
    s: &mut Store,
    hash: String,
    content: String,
    mime: String,
    ts: i64,
    size: i64,
    dir: Option<&str>,
) -> (r: Result<Option<i64>, StoreError>)
    requires
        old(s).wf(),
        store::is_clean(hash@),
        size >= 0,
    ensures
        final(s).wf(),
        ({
            let known = store::has_hash(old(s)@.rows, hash@);
            let row = new_row(
                old(s)@,
                hash@,
                content@,
                mime@,
                ts as int,
                size as int,
                match dir {
                    Some(d) => Some(d@),
                    None => None,
                },
            );
            if !known && old(s)@.last_id == i64::MAX {
                r is Err && r->Err_0 == StoreError::Full && final(s)@ == old(s)@
            } else {
                &&& r is Ok
                &&& r->Ok_0 is None <==> known
                &&& r->Ok_0 matches Some(id) ==> id == row.id
                &&& final(s)@ == upserted(old(s)@, row)
            }
        }),
{
    let ghost before = s@;
    match store::find_hash(&s.rows, &hash) {
        Some(i) => {
            assert(before.rows[i as int].hash == hash@);
            let mut hit = s.rows[i].copy();
            hit.ts = ts;
            s.rows.set(i, hit);
            proof {
                lemma_refreshed_valid(before, hash@, ts as int);
                assert forall|j: int| 0 <= j < before.rows.len() implies #[trigger] refreshed(
                    before.rows,
                    hash@,
                    ts as int,
                )[j] == s@.rows[j] by {
                    if j < i {
                        assert(before.rows[j].hash != before.rows[i as int].hash);
                    } else if j > i {
                        assert(before.rows[i as int].hash != before.rows[j].hash);
                    }
                }
                assert(s@.rows == refreshed(before.rows, hash@, ts as int));
            }
            s.current = Some(hash);
            Ok(None)
        },
        None => {
            if s.last_id == i64::MAX {
                return Err(StoreError::Full);
            }
            let id: i64 = s.last_id + 1;
            let image_path = match dir {
                Some(d) => Some(image_path(d, id)),
                None => None,
            };
            s.last_id = id;
            s.current = Some(hash.clone());
            let row = Row { id, hash, text: content, mime, ts, pinned: false, size, image_path };
            let ghost added = row@;
            s.rows.push(row);
            proof {
                lemma_push_valid(before, added);
                assert(s@.rows == before.rows.push(added));
            }
            Ok(Some(id))
        },
    }
}

/// Stores a text that was captured, or that is taken in from elsewhere.
fn store_text(
    s: &mut Store,
    content: &str,
    mime: Option<String>,
    cfg: &Config,
    now_ms: i64,
    from_clipboard: bool,
) -> (r: Result<bool, StoreError>)
    requires
        old(s).wf(),
    ensures
        final(s).wf(),
        r == text_result(old(s)@, content@, *cfg),
        final(s)@ == if from_clipboard {
            after_text(old(s)@, content@, mime_or_plain(mime), *cfg, now_ms as int)
        } else {
            after_text_in(old(s)@, content@, mime_or_plain(mime), *cfg, now_ms as int)
        },
        from_clipboard && storable(text::trimmed(content@), *cfg) && r is Ok ==> store::pointed(
            final(s)@.current,
        ) == Some(digest::text_hash(text::trimmed(content@))),
        r == Ok::<bool, StoreError>(true) && from_clipboard ==> contents::keeps_text(
            old(s)@,
            final(s)@,
            text::trimmed(content@),
            mime_or_plain(mime),
            now_ms as int,
        ),
        r == Ok::<bool, StoreError>(true) ==> contents::adds_one_at_most(old(s)@, final(s)@),
        !from_clipboard ==> final(s)@.current == old(s)@.current,
        !from_clipboard && store::holds_current(old(s)@) ==> store::holds_current(final(s)@),
{
    let ghost before = s@;
    let saved = store::copy_opt(&s.current);
    let t = text::trim(content);
    if t.as_str().is_empty() {
        return Ok(false);
    }
    if should_ignore(t.as_str(), cfg) {
        return Ok(false);
    }
    let len: usize = text::byte_len(t.as_str());
    if len > cfg.max_clip_bytes {
        return Ok(false);
    }
    let hash = digest::hash_text(t.as_str());
    proof {
        lemma_hex_clean(hash@);
    }
    let mime = match mime {
        Some(m) => m,
        None => "text/plain".to_owned(),
    };
    let ghost row = text_row(before.last_id + 1, t@, mime@, now_ms as int);
    match upsert_clip(s, hash, t, mime, now_ms, size_from(len), None) {
        Ok(added) => {
            proof {
                super::laws::law_taking_in_keeps_the_current_item(
                    before,
                    row,
                    cfg.max_items as nat,
                );
                if added is Some {
                    contents::law_captured_text_is_kept_whole(
                        before,
                        content@,
                        row.mime,
                        *cfg,
                        now_ms as int,
                    );
                    contents::law_text_taken_in_is_kept_whole(
                        before,
                        content@,
                        row.mime,
                        *cfg,
                        now_ms as int,
                    );
                }
            }
            if !from_clipboard {
                s.current = saved;
            }
            if added.is_some() {
                evict::enforce_max_items(s, cfg.max_items);
            }
            Ok(added.is_some())
        },
        Err(e) => Err(e),
    }
}

/// Captures a text at the given time. White space at its ends does not count.
/// Returns whether a row was added; a text that is not stored changes nothing.
pub fn insert_with(
    s: &mut Store,
    content: String,
    mime: Option<String>,
    cfg: &Config,
    now_ms: i64,
) -> (r: Result<bool, StoreError>)
    requires
        old(s).wf(),
    ensures
        final(s).wf(),
        text_captured(old(s)@, final(s)@, r, content@, mime_or_plain(mime), *cfg, now_ms as int),
        storable(text::trimmed(content@), *cfg) && r is Ok ==> store::pointed(final(s)@.current)
            == Some(digest::text_hash(text::trimmed(content@))),
        r == Ok::<bool, StoreError>(true) ==> contents::keeps_text(
            old(s)@,
            final(s)@,
            text::trimmed(content@),
            mime_or_plain(mime),
            now_ms as int,
        ) && contents::adds_one_at_most(old(s)@, final(s)@),
{
    store_text(s, content.as_str(), mime, cfg, now_ms, true)
}

/// Takes in a text that comes from elsewhere than the clipboard: as a capture of
/// it, but the current item stays what it is.
pub fn take_in(s: &mut Store, content: &str, cfg: &Config, now_ms: i64) -> (r: Result<
    bool,
    StoreError,
>)
    requires
        old(s).wf(),
    ensures
        final(s).wf(),
        r == text_result(old(s)@, content@, *cfg),
        final(s)@ == after_text_in(old(s)@, content@, "text/plain"@, *cfg, now_ms as int),
        final(s)@.current == old(s)@.current,
        store::holds_current(old(s)@) ==> store::holds_current(final(s)@),
{
    store_text(s, content, None, cfg, now_ms, false)
}

/// The result of a capture of a text: whether a row was added.
pub open spec fn text_result(before: StoreView, content: Seq<char>, cfg: Config) -> Result<
    bool,
    StoreError,
> {
    let t = text::trimmed(content);
    let known = store::has_hash(before.rows, digest::text_hash(t));
    if !storable(t, cfg) {
        Ok(false)
    } else if !known && before.last_id == i64::MAX {
        Err(StoreError::Full)
    } else {
        Ok(!known)
    }
}

/// The history after a capture of a text.
pub open spec fn after_text(
    before: StoreView,
    content: Seq<char>,
    mime: Seq<char>,
    cfg: Config,
    now_ms: int,
) -> StoreView {
    let t = text::trimmed(content);
    if !storable(t, cfg) || text_result(before, content, cfg) is Err {
        before
    } else {
        captured(
            before,
            text_row(before.last_id + 1, t, mime, now_ms),
            cfg.max_items as nat,
        )
    }
}

/// The history after a text was taken in from elsewhere.
pub open spec fn after_text_in(
    before: StoreView,
    content: Seq<char>,
    mime: Seq<char>,
    cfg: Config,
    now_ms: int,
) -> StoreView {
    let t = text::trimmed(content);
    if !storable(t, cfg) || text_result(before, content, cfg) is Err {
        before
    } else {
        taken_in(
            before,
            text_row(before.last_id + 1, t, mime, now_ms),
            cfg.max_items as nat,
        )
    }
}

/// What a capture of a text does to the history, and its result.
pub open spec fn text_captured(
    before: StoreView,
    after: StoreView,
    r: Result<bool, StoreError>,
    content: Seq<char>,
    mime: Seq<char>,
    cfg: Config,
    now_ms: int,
) -> bool {
    r == text_result(before, content, cfg) && after == after_text(
        before,
        content,
        mime,
        cfg,
        now_ms,
    )
}

/// Captures a text under the settings that a configuration file gives.
pub fn insert(
    s: &mut Store,
    content: String,
    mime: Option<String>,
    file: Option<ConfigFile>,
    now_ms: i64,
) -> (r: Result<bool, StoreError>)
    requires
        old(s).wf(),
    ensures
        final(s).wf(),
        exists|cfg: Config|
            match file {
                Some(f) => config::filled_from(cfg, f),
                None => config::is_default(cfg),
            } && #[trigger] text_captured(
                old(s)@,
                final(s)@,
                r,
                content@,
                mime_or_plain(mime),
                cfg,
                now_ms as int,
            ),
        r == Ok::<bool, StoreError>(true) ==> store::pointed(final(s)@.current) == Some(
            digest::text_hash(text::trimmed(content@)),
        ),
{
    let cfg = Config::load(file);
    let r = insert_with(s, content, mime, &cfg, now_ms);
    assert(text_captured(
        old(s)@,
        s@,
        r,
        content@,
        mime_or_plain(mime),
        cfg,
        now_ms as int,
    ));
    r
}

/// The text that stands for an image in the history.
pub fn image_placeholder(mime: &str, len: usize) -> (r: String)
    ensures
        r@ == placeholder(mime@, len as nat),
{
    let mut r = "[image ".to_owned();
    r.append(mime);
    r.append(" ");
    text::push_u64(&mut r, len as u64);
    r.append(" bytes]");
    r
}

/// What a capture of an image does to the history, and its result.
pub open spec fn image_captured(
    before: StoreView,
    after: StoreView,
    r: Result<Option<InsertedImage>, StoreError>,
    mime: Seq<char>,
    bytes: Seq<u8>,
    cfg: Config,
    now_ms: int,
    dir: Seq<char>,
) -> bool {
    let known = store::has_hash(before.rows, digest::image_key(mime, bytes));
    let row = image_row(before.last_id + 1, mime, bytes, now_ms, dir);
    if bytes.len() > cfg.max_image_bytes {
        r is Ok && r->Ok_0 is None && after == before
    } else if !known && before.last_id == i64::MAX {
        r is Err && r->Err_0 == StoreError::Full && after == before
    } else {
        &&& r is Ok
        &&& r->Ok_0 is None <==> known
        &&& r->Ok_0 matches Some(img) ==> img.id == row.id && Some(img.path@) == row.image_path
        &&& after == captured(before, row, cfg.max_items as nat)
    }
}

/// Captures an image at the given time; its bytes belong into the data file
/// that is returned. Images that are too large change nothing, and known ones
/// only get the new time: both return `None`.
pub fn insert_image_with(
    s: &mut Store,
    mime: &str,
    bytes: &[u8],
    cfg: &Config,
    now_ms: i64,
    images_dir: &str,
) -> (r: Result<Option<InsertedImage>, StoreError>)
    requires
        old(s).wf(),
    ensures
        final(s).wf(),
        image_captured(
            old(s)@,
            final(s)@,
            r,
            mime@,
            bytes@,
            *cfg,
            now_ms as int,
            images_dir@,
        ),
{
    if bytes.len() > cfg.max_image_bytes {
        return Ok(None);
    }
    let hash = digest::image_content_key(mime, bytes);
    proof {
        lemma_image_key_clean(mime@, bytes@);
    }
    let shown = image_placeholder(mime, bytes.len());
    let size: i64 = size_from(bytes.len());
    match upsert_clip(s, hash, shown, mime.to_owned(), now_ms, size, Some(images_dir)) {
        Ok(Some(id)) => {
            evict::enforce_max_items(s, cfg.max_items);
            Ok(Some(InsertedImage { id, path: image_path(images_dir, id) }))
        },
        Ok(None) => Ok(None),
        Err(e) => Err(e),
    }
}

/// Captures an image under the settings that a configuration file gives.
pub fn insert_image(
    s: &mut Store,
    mime: &str,
    bytes: &[u8],
    file: Option<ConfigFile>,
    now_ms: i64,
    images_dir: &str,
) -> (r: Result<Option<InsertedImage>, StoreError>)
    requires
        old(s).wf(),
    ensures
        final(s).wf(),
        exists|cfg: Config|
            match file {
                Some(f) => config::filled_from(cfg, f),
                None => config::is_default(cfg),
            } && #[trigger] image_captured(
                old(s)@,
                final(s)@,
                r,
                mime@,
                bytes@,
                cfg,
                now_ms as int,
                images_dir@,
            ),
{
    let cfg = Config::load(file);
    let r = insert_image_with(s, mime, bytes, &cfg, now_ms, images_dir);
    assert(image_captured(
        old(s)@,
        s@,
        r,
        mime@,
        bytes@,
        cfg,
        now_ms as int,
        images_dir@,
    ));
    r
}

} // verus!
