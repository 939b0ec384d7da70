//! Export of the whole history, and the import that merges one.
//!
//! An export is a header and one entry per line, images included. The hash of
//! an entry decides whether it is there already, and an import recomputes it:
//! what was damaged or altered is left out.

use crate::config::Config;
use crate::order;
use crate::order::Key;
use crate::store;
use crate::store::capture;
use crate::store::digest;
use crate::store::evict;
use crate::store::{Row, RowView, Store, StoreError, StoreView};
use crate::text;
use base64::Engine;
use vstd::prelude::*;

verus! {

/// What the header of an export calls its format.
pub const EXPORT_FORMAT: &'static str = "niri-clip-export";

/// The version of the format that is written, and the latest that is read.
pub const EXPORT_VERSION: u32 = 1;

/// What `base64` makes of some bytes in its standard alphabet, padded.
pub uninterp spec fn base64_of(bytes: Seq<u8>) -> Seq<char>;

/// What `base64` reads from a text in its standard alphabet, padded.
pub uninterp spec fn base64_bytes(encoded: Seq<char>) -> Option<Seq<u8>>;

/// Whether a character occurs in the standard alphabet or as padding.
pub open spec fn is_base64(c: char) -> bool {
    'A' <= c <= 'Z' || 'a' <= c <= 'z' || '0' <= c <= '9' || c == '+' || c == '/' || c == '='
}

/// Whether the encoded form of `len` bytes can be held in memory.
pub open spec fn encodable(len: nat) -> bool {
    len / 3 * 4 + 4 <= isize::MAX
}

/// `Engine::encode` of the standard engine: the text is a function of the
/// bytes, named `base64_of`; it consists of characters of the alphabet and of
/// padding, and decoding gives the bytes back. It panics where the text would
/// not fit into memory.
#[verifier::external_body]
fn encode(bytes: &[u8]) -> (r: String)
    requires
        encodable(bytes@.len()),
    ensures
        r@ == base64_of(bytes@),
        base64_bytes(r@) == Some(bytes@),
        forall|i: int| 0 <= i < r@.len() ==> is_base64(#[trigger] r@[i]),
{
    base64::engine::general_purpose::STANDARD.encode(bytes)
}

/// `Engine::decode` of the standard engine with the error dropped: the bytes
/// are a function of the text, named `base64_bytes`.
#[verifier::external_body]
fn decode(encoded: &str) -> (r: Option<Vec<u8>>)
    ensures
        match r {
            Some(bytes) => base64_bytes(encoded@) == Some(bytes@),
            None => base64_bytes(encoded@) is None,
        },
{
    base64::engine::general_purpose::STANDARD.decode(encoded).ok()
}

/// What an export held.
#[derive(Debug, Clone, Copy)]
pub struct ExportOutcome {
    pub count: usize,
    /// The images whose data could be read.
    pub images: usize,
    /// Their bytes, before encoding.
    pub image_bytes: u64,
}

/// What an import did, or would do.
#[derive(Debug, Clone, Copy)]
pub struct ImportOutcome {
    /// Entries that were added.
    pub imported: usize,
    /// Entries that were there already; they are left as they are.
    pub exists: usize,
    /// Lines that are no entry or that do not match their hash.
    pub invalid: usize,
}

/// The first line of an export.
#[derive(Debug, Clone)]
pub struct ExportHeader {
    pub format: String,
    pub version: u32,
    /// The version of the database's schema, for information only.
    pub user_version: i64,
    pub exported_at: i64,
    pub count: usize,
}

/// A further line of an export.
#[derive(Debug, Clone)]
pub struct ExportEntry {
    pub hash: String,
    pub text: String,
    pub mime: String,
    pub ts: i64,
    pub pinned: bool,
    /// For information only; an import measures anew.
    pub size: i64,
    /// The data of an image. The path of its file is not exported.
    pub image_base64: Option<String>,
}

/// The rows in the order of an export.
pub open spec fn export_order(rows: Seq<RowView>) -> Seq<RowView> {
    order::arrangement(rows, |a: RowView, b: RowView| evict::older(a, b))
}

/// The rows in the order of an export: the oldest first, so that two exports of
/// one history can be compared line by line.
pub fn export_rows(s: &Store) -> (r: Vec<Row>)
    requires
        s.wf(),
    ensures
        store::rows_view(r@) == export_order(s@.rows),
        r.len() == s.rows.len(),
{
    let ghost view = s@.rows;
    let mut keys: Vec<Key> = Vec::new();
    let mut i: usize = 0;
    while i < s.rows.len()
        invariant
            i <= s.rows.len(),
            keys.len() == i,
            view == s@.rows,
            forall|x: int|
                0 <= x < i ==> {
                    let k = #[trigger] keys@[x];
                    k.at == x && k.id == view[x].id && k.ts == view[x].ts && k.rank == 0
                },
        decreases s.rows.len() - i,
    {
        assert(view[i as int] == s.rows@[i as int]@);
        keys.push(Key { rank: 0, ts: s.rows[i].ts, id: s.rows[i].id as i128, at: i });
        i += 1;
    }
    assert forall|x: int, y: int| 0 <= x < y < keys.len() implies (#[trigger] keys@[x]).id != (
    #[trigger] keys@[y]).id by {
        assert(view[x].id < view[y].id);
    }
    let sorted = order::sort(&keys);
    let ghost n = sorted@.len() as int;
    let ghost full = Seq::new(sorted@.len(), |x: int| view[sorted@[n - 1 - x].at as int]);
    proof {
        let before = |a: RowView, b: RowView| evict::older(a, b);
        assert forall|x: int| 0 <= x < sorted.len() implies {
            let k = #[trigger] sorted@[x];
            &&& k.at < view.len()
            &&& k.id == view[k.at as int].id
            &&& k.ts == view[k.at as int].ts
            &&& k.rank == 0
        } by {
            assert(sorted@.contains(sorted@[x]));
            assert(keys@.contains(sorted@[x]));
            let z = choose|z: int| 0 <= z < keys.len() && keys@[z] == sorted@[x];
            assert(keys@[z].at == z);
        }
        assert forall|x: int, y: int| 0 <= x < y < full.len() implies before(
            #[trigger] full[x],
            #[trigger] full[y],
        ) by {
            assert(order::key_above(sorted@[n - 1 - y], sorted@[n - 1 - x]));
        }
        assert forall|r: RowView| #![auto] full.contains(r) <==> view.contains(r) by {
            if full.contains(r) {
                let x = choose|x: int| 0 <= x < full.len() && full[x] == r;
                assert(view[sorted@[n - 1 - x].at as int] == r);
            }
            if view.contains(r) {
                let a = choose|a: int| 0 <= a < view.len() && view[a] == r;
                assert(keys@[a].at == a);
                assert(keys@.contains(keys@[a]));
                assert(sorted@.contains(keys@[a]));
                let x = choose|x: int| 0 <= x < sorted.len() && sorted@[x] == keys@[a];
                assert(full[n - 1 - x] == r);
            }
        }
        order::lemma_arrangement(full, view, before);
    }
    let mut r: Vec<Row> = Vec::new();
    let mut x: usize = sorted.len();
    while x > 0
        invariant
            x <= sorted.len(),
            n == sorted@.len(),
            view == s@.rows,
            full == Seq::new(sorted@.len(), |x: int| view[sorted@[n - 1 - x].at as int]),
            forall|x: int| 0 <= x < sorted.len() ==> (#[trigger] sorted@[x]).at < s.rows.len(),
            r.len() == n - x,
            store::rows_view(r@) == full.take(n - x),
        decreases x,
    {
        x -= 1;
        let at: usize = sorted[x].at;
        let row = s.rows[at].copy();
        let ghost r0 = r@;
        r.push(row);
        proof {
            assert(store::rows_view(r@) == store::rows_view(r0).push(row@));
            assert(full.take(n - x) == full.take(n - x - 1).push(full[n - x - 1]));
        }
    }
    assert(full.take(n) == full);
    r
}

/// The header of an export.
pub fn export_header(s: &Store, user_version: i64, exported_at: i64) -> (h: ExportHeader)
    ensures
        h.format@ == EXPORT_FORMAT@,
        h.version == EXPORT_VERSION,
        h.user_version == user_version,
        h.exported_at == exported_at,
        h.count == s@.rows.len(),
{
    ExportHeader {
        format: EXPORT_FORMAT.to_owned(),
        version: EXPORT_VERSION,
        user_version,
        exported_at,
        count: s.rows.len(),
    }
}

/// The bytes of a data file, where it could be read.
pub open spec fn payload_view(p: Option<Vec<u8>>) -> Option<Seq<u8>> {
    match p {
        Some(b) => Some(b@),
        None => None,
    }
}

/// Whether an entry is what a row becomes, given the bytes of its data file. An
/// image whose file could not be read has no data.
pub open spec fn is_export_of(e: ExportEntry, r: RowView, payload: Option<Seq<u8>>) -> bool {
    &&& e.hash@ == r.hash
    &&& e.text@ == r.text
    &&& e.mime@ == r.mime
    &&& e.ts == r.ts
    &&& e.pinned == r.pinned
    &&& e.size == r.size
    &&& e.image_base64 is Some <==> r.image_path is Some && payload is Some
    &&& e.image_base64 matches Some(b) ==> {
        &&& b@ == base64_of(payload->0)
        &&& base64_bytes(text::trimmed(b@)) == payload
    }
}

/// What an export counts.
pub open spec fn counted(
    before: ExportOutcome,
    r: RowView,
    payload: Option<Seq<u8>>,
    after: ExportOutcome,
) -> bool {
    &&& after.count == before.count + 1
    &&& if r.image_path is Some && payload is Some {
        after.images == before.images + 1 && after.image_bytes == before.image_bytes
            + payload->0.len()
    } else {
        after.images == before.images && after.image_bytes == before.image_bytes
    }
}

proof fn lemma_base64_trimmed(s: Seq<char>)
    requires
        forall|i: int| 0 <= i < s.len() ==> is_base64(#[trigger] s[i]),
    ensures
        text::trimmed(s) == s,
{
    if s.len() > 0 {
        assert(is_base64(s[0]));
        assert(is_base64(s[s.len() - 1]));
    }
}

/// The entry of a row, given the bytes of its data file, and the counts with it.
pub fn export_entry(row: &Row, payload: &Option<Vec<u8>>, outcome: &mut ExportOutcome) -> (e:
    ExportEntry)
    requires
        row@.image_path is Some ==> (payload matches Some(b) ==> encodable(b@.len()) && old(
            outcome,
        ).image_bytes + b@.len() <= u64::MAX),
        old(outcome).count < usize::MAX,
        old(outcome).images < usize::MAX,
    ensures
        is_export_of(e, row@, payload_view(*payload)),
        counted(*old(outcome), row@, payload_view(*payload), *final(outcome)),
{
    let image_base64 = match payload {
        Some(bytes) => if row.image_path.is_some() {
            outcome.images += 1;
            outcome.image_bytes = outcome.image_bytes + bytes.len() as u64;
            let b = encode(bytes.as_slice());
            proof {
                lemma_base64_trimmed(b@);
            }
            Some(b)
        } else {
            None
        },
        None => None,
    };
    outcome.count += 1;
    ExportEntry {
        hash: row.hash.clone(),
        text: row.text.clone(),
        mime: row.mime.clone(),
        ts: row.ts,
        pinned: row.pinned,
        size: row.size,
        image_base64,
    }
}

/// A whole export.
#[derive(Debug, Clone)]
pub struct Export {
    pub header: ExportHeader,
    pub entries: Vec<ExportEntry>,
    pub outcome: ExportOutcome,
}

/// The bytes of the images that are exported.
pub open spec fn payload_total(rows: Seq<RowView>, payloads: Seq<Option<Vec<u8>>>) -> nat
    decreases payloads.len(),
{
    if payloads.len() == 0 {
        0
    } else {
        let n = payloads.len() - 1;
        payload_total(rows, payloads.drop_last()) + if rows[n].image_path is Some && payloads[n] is Some {
            payloads[n]->0@.len()
        } else {
            0
        }
    }
}

/// The number of images that are exported.
pub open spec fn payload_count(rows: Seq<RowView>, payloads: Seq<Option<Vec<u8>>>) -> nat
    decreases payloads.len(),
{
    if payloads.len() == 0 {
        0
    } else {
        let n = payloads.len() - 1;
        payload_count(rows, payloads.drop_last()) + if rows[n].image_path is Some && payloads[n] is Some {
            1nat
        } else {
            0
        }
    }
}

proof fn lemma_payload_total_grows(
    rows: Seq<RowView>,
    payloads: Seq<Option<Vec<u8>>>,
    i: int,
)
    requires
        0 <= i <= payloads.len(),
    ensures
        payload_total(rows, payloads.take(i)) <= payload_total(rows, payloads),
    decreases payloads.len(),
{
    if i == payloads.len() {
        assert(payloads.take(i) == payloads);
    } else {
        assert(payloads.drop_last().take(i) == payloads.take(i));
        lemma_payload_total_grows(rows, payloads.drop_last(), i);
    }
}

/// Exports the whole history. `payloads` holds, for the rows in the order of
/// the export, the bytes of their data files where these could be read.
pub fn export_json_file(
    s: &Store,
    payloads: &Vec<Option<Vec<u8>>>,
    user_version: i64,
    exported_at: i64,
) -> (x: Export)
    requires
        s.wf(),
        payloads.len() == s.rows.len(),
        forall|i: int|
            0 <= i < payloads.len() ==> ((#[trigger] payloads@[i]) matches Some(b) ==> encodable(
                b@.len(),
            )),
        payload_total(export_order(s@.rows), payloads@) <= u64::MAX,
    ensures
        x.header.format@ == EXPORT_FORMAT@,
        x.header.version == EXPORT_VERSION,
        x.header.user_version == user_version,
        x.header.exported_at == exported_at,
        x.header.count == s@.rows.len(),
        x.entries.len() == s@.rows.len(),
        forall|i: int|
            0 <= i < x.entries.len() ==> is_export_of(
                #[trigger] x.entries@[i],
                export_order(s@.rows)[i],
                payload_view(payloads@[i]),
            ),
        x.outcome.count == s@.rows.len(),
        x.outcome.images == payload_count(export_order(s@.rows), payloads@),
        x.outcome.image_bytes == payload_total(export_order(s@.rows), payloads@),
{
    let rows = export_rows(s);
    let ghost view = export_order(s@.rows);
    let mut outcome = ExportOutcome { count: 0, images: 0, image_bytes: 0 };
    let mut entries: Vec<ExportEntry> = Vec::new();
    let mut i: usize = 0;
    assert(payloads@.take(0).len() == 0);
    while i < rows.len()
        invariant
            i <= rows.len(),
            rows.len() == payloads.len(),
            rows.len() == s@.rows.len(),
            view == store::rows_view(rows@),
            view == export_order(s@.rows),
            forall|i: int|
                0 <= i < payloads.len() ==> ((#[trigger] payloads@[i]) matches Some(b)
                    ==> encodable(b@.len())),
            payload_total(view, payloads@) <= u64::MAX,
            entries.len() == i,
            forall|k: int|
                0 <= k < i ==> is_export_of(
                    #[trigger] entries@[k],
                    view[k],
                    payload_view(payloads@[k]),
                ),
            outcome.count == i,
            outcome.images == payload_count(view, payloads@.take(i as int)),
            outcome.images <= i,
            outcome.image_bytes == payload_total(view, payloads@.take(i as int)),
        decreases rows.len() - i,
    {
        proof {
            assert(view[i as int] == rows@[i as int]@);
            assert(payloads@.take(i + 1).drop_last() == payloads@.take(i as int));
            lemma_payload_total_grows(view, payloads@, i + 1);
        }
        let e = export_entry(&rows[i], &payloads[i], &mut outcome);
        entries.push(e);
        i += 1;
    }
    assert(payloads@.take(payloads.len() as int) == payloads@);
    Export { header: export_header(s, user_version, exported_at), entries, outcome }
}

/// What is known of the first line of a file that is to be imported.
#[derive(Debug, Clone)]
pub enum HeaderLine {
    /// The file is empty.
    Missing,
    /// The line is no header.
    Broken,
    Header { format: String, version: u32 },
}

/// A further line of a file that is to be imported.
#[derive(Debug, Clone)]
pub enum Line {
    /// Nothing but white space.
    Blank,
    /// Not in the form of an entry.
    Broken,
    Entry(ExportEntry),
}

/// Whether a line holds nothing but white space.
pub fn is_blank(line: &str) -> (b: bool)
    ensures
        b == (text::trimmed(line@).len() == 0),
{
    text::trim(line).as_str().is_empty()
}

/// Why an entry is left out.
#[derive(Debug, Clone, Copy, PartialEq, Eq, Structural)]
pub enum EntryError {
    /// The entry has no hash.
    EmptyHash,
    /// The image data cannot be decoded.
    BadPayload,
    /// The image does not have the hash that the entry gives.
    ImageMismatch,
    /// An image entry without data.
    NoPayload,
    /// The text does not have the hash that the entry gives.
    TextMismatch,
}

/// Why nothing was imported.
#[derive(Debug, Clone, PartialEq, Eq)]
pub enum ImportError {
    /// The file is empty.
    Empty,
    /// The first line is no header.
    BadHeader,
    /// The format is another one.
    Format(String),
    /// The version is later than this program knows.
    Version(u32),
    /// The history cannot take more entries.
    Store(StoreError),
}

/// An entry whose contents match its hash.
#[derive(Debug, Clone)]
pub enum ValidEntry {
    Text { hash: String, text: String, mime: String, ts: i64, pinned: bool, size: i64 },
    Image { hash: String, mime: String, ts: i64, pinned: bool, bytes: Vec<u8> },
}

/// Why an entry is left out, if it is.
pub open spec fn entry_fault(e: ExportEntry) -> Option<EntryError> {
    if e.hash@.len() == 0 {
        Some(EntryError::EmptyHash)
    } else {
        match e.image_base64 {
            Some(b) => match base64_bytes(text::trimmed(b@)) {
                None => Some(EntryError::BadPayload),
                Some(bytes) => if digest::image_key(e.mime@, bytes) != e.hash@ {
                    Some(EntryError::ImageMismatch)
                } else {
                    None
                },
            },
            None => if text::has_prefix(e.hash@, "img:"@) {
                Some(EntryError::NoPayload)
            } else if digest::text_hash(e.text@) != e.hash@ {
                Some(EntryError::TextMismatch)
            } else {
                None
            },
        }
    }
}

/// The row that an entry becomes. Time and pin are kept; the size is measured
/// anew, and the text of an image is made anew.
pub open spec fn entry_row(e: ExportEntry, id: int, dir: Seq<char>) -> RowView {
    match e.image_base64 {
        Some(b) => {
            let bytes = base64_bytes(text::trimmed(b@))->0;
            RowView {
                id,
                hash: e.hash@,
                text: capture::placeholder(e.mime@, bytes.len()),
                mime: e.mime@,
                ts: e.ts as int,
                pinned: e.pinned,
                size: capture::size_of(bytes.len()),
                image_path: Some(capture::image_file(dir, id)),
            }
        },
        None => RowView {
            id,
            hash: e.hash@,
            text: e.text@,
            mime: e.mime@,
            ts: e.ts as int,
            pinned: e.pinned,
            size: capture::size_of(text::utf8(e.text@).len()),
            image_path: None,
        },
    }
}

/// Whether a checked entry is the one that was read.
pub open spec fn is_valid_form(e: ExportEntry, v: ValidEntry) -> bool {
    match v {
        ValidEntry::Text { hash, text, mime, ts, pinned, size } => {
            &&& e.image_base64 is None
            &&& hash@ == e.hash@
            &&& text@ == e.text@
            &&& mime@ == e.mime@
            &&& ts == e.ts
            &&& pinned == e.pinned
            &&& size == capture::size_of(crate::text::utf8(e.text@).len())
        },
        ValidEntry::Image { hash, mime, ts, pinned, bytes } => {
            &&& e.image_base64 is Some
            &&& base64_bytes(text::trimmed(e.image_base64->0@)) == Some(bytes@)
            &&& hash@ == e.hash@
            &&& mime@ == e.mime@
            &&& ts == e.ts
            &&& pinned == e.pinned
        },
    }
}

/// Checks an entry against its hash.
pub fn parse_validate(e: &ExportEntry) -> (r: Result<ValidEntry, EntryError>)
    ensures
        match r {
            Ok(v) => entry_fault(*e) is None && is_valid_form(*e, v) && store::is_clean(e.hash@),
            Err(f) => entry_fault(*e) == Some(f),
        },
{
    if e.hash.as_str().is_empty() {
        return Err(EntryError::EmptyHash);
    }
    match &e.image_base64 {
        Some(b) => {
            let bytes = match decode(text::trim(b.as_str()).as_str()) {
                Some(bytes) => bytes,
                None => {
                    return Err(EntryError::BadPayload);
                },
            };
            let key = digest::image_content_key(e.mime.as_str(), bytes.as_slice());
            if key != e.hash {
                return Err(EntryError::ImageMismatch);
            }
            proof {
                capture::lemma_image_key_clean(e.mime@, bytes@);
            }
            Ok(
                ValidEntry::Image {
                    hash: e.hash.clone(),
                    mime: e.mime.clone(),
                    ts: e.ts,
                    pinned: e.pinned,
                    bytes,
                },
            )
        },
        None => {
            if text::starts_with(e.hash.as_str(), "img:") {
                return Err(EntryError::NoPayload);
            }
            let h = digest::hash_text(e.text.as_str());
            if h != e.hash {
                return Err(EntryError::TextMismatch);
            }
            proof {
                capture::lemma_hex_clean(h@);
            }
            let size: i64 = capture::size_from(text::byte_len(e.text.as_str()));
            Ok(
                ValidEntry::Text {
                    hash: e.hash.clone(),
                    text: e.text.clone(),
                    mime: e.mime.clone(),
                    ts: e.ts,
                    pinned: e.pinned,
                    size,
                },
            )
        },
    }
}

/// The data file of an imported image.
#[derive(Debug, Clone)]
pub struct ImageFile {
    pub id: i64,
    pub path: String,
    pub bytes: Vec<u8>,
}

/// Adds an entry whose contents match its hash and whose hash is new. Returns
/// the data file that belongs to it.
fn insert_entry(s: &mut Store, v: ValidEntry, dir: &str, Ghost(e): Ghost<ExportEntry>) -> (r: Result<
    Option<ImageFile>,
    StoreError,
>)
    requires
        old(s).wf(),
        is_valid_form(e, v),
        store::is_clean(e.hash@),
        !store::has_hash(old(s)@.rows, e.hash@),
    ensures
        final(s).wf(),
        old(s)@.last_id == i64::MAX <==> r is Err,
        r matches Err(f) ==> f == StoreError::Full && final(s)@ == old(s)@,
        r is Ok ==> final(s)@ == added(old(s)@, e, dir@),
        r matches Ok(f) ==> is_file_of(f, e, old(s)@.last_id + 1, dir@),
{
    if s.last_id == i64::MAX {
        return Err(StoreError::Full);
    }
    let id: i64 = s.last_id + 1;
    let ghost before = s@;
    let (row, file) = match v {
        ValidEntry::Text { hash, text, mime, ts, pinned, size } => (
            Row { id, hash, text, mime, ts, pinned, size, image_path: None },
            None,
        ),
        ValidEntry::Image { hash, mime, ts, pinned, bytes } => {
            let shown = capture::image_placeholder(mime.as_str(), bytes.len());
            let path = capture::image_path(dir, id);
            (
                Row {
                    id,
                    hash,
                    text: shown,
                    mime,
                    ts,
                    pinned,
                    size: capture::size_from(bytes.len()),
                    image_path: Some(path.clone()),
                },
                Some(ImageFile { id, path, bytes }),
            )
        },
    };
    assert(row@ == entry_row(e, id as int, dir@));
    s.last_id = id;
    let ghost new = row@;
    s.rows.push(row);
    proof {
        capture::lemma_push_valid(before, new);
        assert(s@.rows == before.rows.push(new));
    }
    Ok(file)
}

/// The history with an entry added.
pub open spec fn added(s: StoreView, e: ExportEntry, dir: Seq<char>) -> StoreView {
    StoreView {
        rows: s.rows.push(entry_row(e, s.last_id + 1, dir)),
        last_id: s.last_id + 1,
        current: s.current,
    }
}

/// Whether a data file is the one of an imported entry, if it has one.
pub open spec fn is_file_of(f: Option<ImageFile>, e: ExportEntry, id: int, dir: Seq<char>) -> bool {
    match f {
        Some(f) => {
            &&& e.image_base64 is Some
            &&& base64_bytes(text::trimmed(e.image_base64->0@)) == Some(f.bytes@)
            &&& f.id == id
            &&& f.path@ == capture::image_file(dir, id)
        },
        None => e.image_base64 is None,
    }
}

/// How far an import has come.
pub struct Progress {
    pub store: StoreView,
    pub imported: nat,
    pub exists: nat,
    pub invalid: nat,
    /// Whether the history could not take an entry; nothing after it counts.
    pub full: bool,
}

/// One more line of an import. Entries that are there already, also from an
/// earlier line, stay as they are.
pub open spec fn import_step(p: Progress, line: Line, dir: Seq<char>) -> Progress {
    if p.full {
        p
    } else {
        match line {
            Line::Blank => p,
            Line::Broken => Progress { invalid: p.invalid + 1, ..p },
            Line::Entry(e) => if entry_fault(e) is Some {
                Progress { invalid: p.invalid + 1, ..p }
            } else if store::has_hash(p.store.rows, e.hash@) {
                Progress { exists: p.exists + 1, ..p }
            } else if p.store.last_id == i64::MAX {
                Progress { full: true, ..p }
            } else {
                Progress { store: added(p.store, e, dir), imported: p.imported + 1, ..p }
            },
        }
    }
}

/// The lines of an import, one after another.
pub open spec fn import_lines(s: StoreView, lines: Seq<Line>, dir: Seq<char>) -> Progress
    decreases lines.len(),
{
    if lines.len() == 0 {
        Progress { store: s, imported: 0, exists: 0, invalid: 0, full: false }
    } else {
        import_step(import_lines(s, lines.drop_last(), dir), lines.last(), dir)
    }
}

/// The history after an import: all lines, and the cut to the limit.
pub open spec fn merged(s: StoreView, lines: Seq<Line>, dir: Seq<char>, max: nat) -> StoreView {
    let t = import_lines(s, lines, dir).store;
    StoreView { rows: evict::cut_to(t.rows, store::pointed_or_empty(t.current), max), ..t }
}

/// What is wrong with a header, if anything.
pub open spec fn is_header_fault(h: HeaderLine, f: ImportError) -> bool {
    match h {
        HeaderLine::Missing => f == ImportError::Empty,
        HeaderLine::Broken => f == ImportError::BadHeader,
        HeaderLine::Header { format, version } => if format@ != EXPORT_FORMAT@ {
            f matches ImportError::Format(g) && g@ == format@
        } else {
            version > EXPORT_VERSION && f == ImportError::Version(version)
        },
    }
}

/// Whether a header is one that can be read.
pub open spec fn header_ok(h: HeaderLine) -> bool {
    h matches HeaderLine::Header { format, version } && format@ == EXPORT_FORMAT@ && version
        <= EXPORT_VERSION
}

fn check_header(h: &HeaderLine) -> (r: Option<ImportError>)
    ensures
        match r {
            Some(f) => is_header_fault(*h, f) && !header_ok(*h),
            None => header_ok(*h),
        },
{
    match h {
        HeaderLine::Missing => Some(ImportError::Empty),
        HeaderLine::Broken => Some(ImportError::BadHeader),
        HeaderLine::Header { format, version } => if !text::same(format.as_str(), EXPORT_FORMAT) {
            Some(ImportError::Format(format.clone()))
        } else if *version > EXPORT_VERSION {
            Some(ImportError::Version(*version))
        } else {
            None
        },
    }
}

impl Store {
    /// A copy of the history.
    pub fn copy(&self) -> (r: Store)
        ensures
            r@ == self@,
    {
        let mut rows: Vec<Row> = Vec::new();
        let mut i: usize = 0;
        while i < self.rows.len()
            invariant
                i <= self.rows.len(),
                store::rows_view(rows@) == self@.rows.take(i as int),
            decreases self.rows.len() - i,
        {
            let ghost rows0 = rows@;
            let row = self.rows[i].copy();
            rows.push(row);
            i += 1;
            assert(store::rows_view(rows@) == store::rows_view(rows0).push(row@));
            assert(self@.rows.take(i as int) == self@.rows.take(i - 1).push(row@));
        }
        assert(self@.rows.take(self.rows.len() as int) == self@.rows);
        Store { rows, last_id: self.last_id, current: store::copy_opt(&self.current) }
    }
}

/// What an import leads to.
#[derive(Debug)]
pub struct Imported {
    pub outcome: ImportOutcome,
    /// The data files of the images that were added and are there.
    pub files: Vec<ImageFile>,
}

/// The data files of the images among the lines that an import adds.
pub open spec fn import_files(s: StoreView, lines: Seq<Line>, dir: Seq<char>) -> Seq<FileView>
    decreases lines.len(),
{
    if lines.len() == 0 {
        Seq::empty()
    } else {
        let front = import_files(s, lines.drop_last(), dir);
        let p = import_lines(s, lines.drop_last(), dir);
        let q = import_lines(s, lines, dir);
        match lines.last() {
            Line::Entry(e) => if q.imported > p.imported && e.image_base64 is Some {
                front.push(
                    FileView {
                        id: q.store.last_id,
                        path: capture::image_file(dir, q.store.last_id),
                        bytes: base64_bytes(text::trimmed(e.image_base64->0@))->0,
                    },
                )
            } else {
                front
            },
            _ => front,
        }
    }
}

/// The contents of a data file, and where it goes.
pub struct FileView {
    pub id: int,
    pub path: Seq<char>,
    pub bytes: Seq<u8>,
}

/// The contents of a list of data files.
pub open spec fn files_view(files: Seq<ImageFile>) -> Seq<FileView> {
    files.map_values(
        |f: ImageFile| FileView { id: f.id as int, path: f.path@, bytes: f.bytes@ },
    )
}

/// Whether the row of a data file is among the rows.
pub open spec fn has_row(rows: Seq<RowView>) -> spec_fn(FileView) -> bool {
    |f: FileView| store::has_id(rows, f.id)
}

fn keep_files(files: &mut Vec<ImageFile>, rows: &Vec<Row>)
    ensures
        files_view(final(files)@) == files_view(old(files)@).filter(
            has_row(store::rows_view(rows@)),
        ),
{
    let ghost all = files_view(files@);
    let ghost p = has_row(store::rows_view(rows@));
    let mut i: usize = files.len();
    proof {
        reveal(Seq::filter);
        assert(all.skip(all.len() as int).filter(p) =~= Seq::empty());
        assert(files_view(files@).skip(i as int) =~= Seq::empty());
    }
    while i > 0
        invariant
            i <= files.len(),
            i <= all.len(),
            p == has_row(store::rows_view(rows@)),
            files_view(files@).take(i as int) == all.take(i as int),
            files_view(files@).skip(i as int) == all.skip(i as int).filter(p),
        decreases i,
    {
        let ghost before = files_view(files@);
        i -= 1;
        let ghost one = seq![all[i as int]];
        proof {
            assert(before.take(i + 1)[i as int] == all.take(i + 1)[i as int]);
            assert(all.skip(i as int) =~= one + all.skip(i + 1));
            Seq::filter_distributes_over_add(one, all.skip(i + 1), p);
            reveal(Seq::filter);
            assert(one.drop_last() =~= Seq::<FileView>::empty());
            assert(Seq::<FileView>::empty().filter(p) =~= Seq::<FileView>::empty());
            assert(one.last() == one[0]);
            assert(one.filter(p) =~= if p(one[0]) {
                one
            } else {
                Seq::empty()
            });
            assert(before.take(i as int) =~= before.take(i + 1).take(i as int));
            assert(all.take(i as int) =~= all.take(i + 1).take(i as int));
        }
        if store::find_id(rows, files[i].id).is_none() {
            files.remove(i);
            assert(files_view(files@).skip(i as int) =~= before.skip(i + 1));
            assert(files_view(files@).take(i as int) =~= before.take(i as int));
        } else {
            assert(before.skip(i as int) =~= one + before.skip(i + 1));
        }
    }
    assert(files_view(files@).skip(0) =~= files_view(files@));
    assert(all.skip(0) =~= all);
}

/// Merges an export into the history. Entries that are there already are left
/// as they are; new ones keep their time and their pin. Lines that are no entry
/// or do not match their hash are left out. The pointer to the current item is
/// not touched, and the history is cut to its limit at the end. A dry run
/// counts the same and changes nothing; so does an import that fails.
pub fn import_file(
    s: &mut Store,
    header: &HeaderLine,
    lines: &Vec<Line>,
    cfg: &Config,
    images_dir: &str,
    dry_run: bool,
) -> (r: Result<Imported, ImportError>)
    requires
        old(s).wf(),
    ensures
        final(s).wf(),
        ({
            let p = import_lines(old(s)@, lines@, images_dir@);
            match r {
                Err(f) => {
                    &&& final(s)@ == old(s)@
                    &&& if header_ok(*header) {
                        p.full && f == ImportError::Store(StoreError::Full)
                    } else {
                        is_header_fault(*header, f)
                    }
                },
                Ok(x) => {
                    &&& header_ok(*header)
                    &&& !p.full
                    &&& x.outcome.imported == p.imported
                    &&& x.outcome.exists == p.exists
                    &&& x.outcome.invalid == p.invalid
                    &&& files_view(x.files@) == if dry_run {
                        Seq::empty()
                    } else {
                        import_files(old(s)@, lines@, images_dir@).filter(has_row(final(s)@.rows))
                    }
                    &&& final(s)@ == if dry_run {
                        old(s)@
                    } else {
                        merged(old(s)@, lines@, images_dir@, cfg.max_items as nat)
                    }
                },
            }
        }),
        store::holds_current(old(s)@) ==> store::holds_current(final(s)@),
{
    if let Some(f) = check_header(header) {
        return Err(f);
    }
    let ghost before = s@;
    let mut scratch = s.copy();
    let mut outcome = ImportOutcome { imported: 0, exists: 0, invalid: 0 };
    let mut files: Vec<ImageFile> = Vec::new();
    let mut i: usize = 0;
    assert(files_view(files@) == import_files(before, lines@.take(0), images_dir@));
    while i < lines.len()
        invariant
            i <= lines.len(),
            before == old(s)@,
            s@ == old(s)@,
            s.wf(),
            header_ok(*header),
            scratch.wf(),
            ({
                let p = import_lines(before, lines@.take(i as int), images_dir@);
                &&& !p.full
                &&& scratch@ == p.store
                &&& outcome.imported == p.imported
                &&& outcome.exists == p.exists
                &&& outcome.invalid == p.invalid
            }),
            outcome.imported + outcome.exists + outcome.invalid <= i,
            files_view(files@) == import_files(before, lines@.take(i as int), images_dir@),
        decreases lines.len() - i,
    {
        assert(lines@.take(i + 1).drop_last() == lines@.take(i as int));
        match &lines[i] {
            Line::Blank => {},
            Line::Broken => {
                outcome.invalid += 1;
            },
            Line::Entry(e) => match parse_validate(e) {
                Ok(v) => {
                    let known = store::find_hash(&scratch.rows, &e.hash);
                    if let Some(k) = known {
                        assert(scratch@.rows[k as int].hash == e.hash@);
                        outcome.exists += 1;
                    } else {
                        match insert_entry(&mut scratch, v, images_dir, Ghost(*e)) {
                            Ok(file) => {
                                outcome.imported += 1;
                                if let Some(f) = file {
                                    let ghost files0 = files@;
                                    files.push(f);
                                    assert(files_view(files@) == files_view(files0).push(
                                        (FileView {
                                            id: f.id as int,
                                            path: f.path@,
                                            bytes: f.bytes@,
                                        }),
                                    ));
                                }
                            },
                            Err(f) => {
                                proof {
                                    lemma_full_stays(before, lines@, images_dir@, i + 1);
                                }
                                return Err(ImportError::Store(f));
                            },
                        }
                    }
                },
                Err(_) => {
                    outcome.invalid += 1;
                },
            },
        }
        i += 1;
    }
    assert(lines@.take(lines.len() as int) == lines@);
    if dry_run {
        let none: Vec<ImageFile> = Vec::new();
        assert(files_view(none@) =~= Seq::empty());
        return Ok(Imported { outcome, files: none });
    }
    proof {
        if store::holds_current(before) {
            law_import_keeps_what_is_there(before, lines@, images_dir@);
            let h = store::pointed(before.current)->0;
            let k = choose|k: int|
                0 <= k < before.rows.len() && (#[trigger] before.rows[k]).hash == h;
            assert(scratch@.rows[k].hash == h);
            store::laws::law_cut_keeps_the_current_item(scratch@, cfg.max_items as nat);
        }
    }
    evict::enforce_max_items(&mut scratch, cfg.max_items);
    keep_files(&mut files, &scratch.rows);
    *s = scratch;
    Ok(Imported { outcome, files })
}

proof fn lemma_full_stays(s: StoreView, lines: Seq<Line>, dir: Seq<char>, n: int)
    requires
        0 <= n <= lines.len(),
        import_lines(s, lines.take(n), dir).full,
    ensures
        import_lines(s, lines, dir).full,
    decreases lines.len(),
{
    if n == lines.len() {
        assert(lines.take(n) == lines);
    } else {
        assert(lines.drop_last().take(n) == lines.take(n));
        lemma_full_stays(s, lines.drop_last(), dir, n);
    }
}

/// A text shortened to `max` characters, with an ellipsis where it was.
pub open spec fn truncated(s: Seq<char>, max: nat) -> Seq<char> {
    if s.len() <= max {
        s
    } else {
        s.take(max as int).push('\u{2026}')
    }
}

/// Shortens a text to `max` characters.
pub fn trunc_str(s: &str, max: usize) -> (r: String)
    ensures
        r@ == truncated(s@, max as nat),
{
    let n: usize = text::chars_of(s).len();
    let mut r = text::take_chars(s, max);
    if n > max {
        r.push('\u{2026}');
    }
    r
}

/// The rows before an import stay as they are, in front of what is added, and
/// the pointer to the current item is not touched.
pub proof fn law_import_keeps_what_is_there(s: StoreView, lines: Seq<Line>, dir: Seq<char>)
    ensures
        ({
            let t = import_lines(s, lines, dir).store;
            &&& s.rows.len() <= t.rows.len()
            &&& t.rows.take(s.rows.len() as int) == s.rows
            &&& t.rows.len() - s.rows.len() == import_lines(s, lines, dir).imported
            &&& t.current == s.current
        }),
    decreases lines.len(),
{
    if lines.len() > 0 {
        law_import_keeps_what_is_there(s, lines.drop_last(), dir);
        let p = import_lines(s, lines.drop_last(), dir).store;
        let t = import_lines(s, lines, dir).store;
        if t.rows.len() > p.rows.len() {
            assert(t.rows.take(s.rows.len() as int) == p.rows.take(s.rows.len() as int));
        }
    } else {
        assert(s.rows.take(s.rows.len() as int) == s.rows);
    }
}

/// Whether the entry of a line, if it is one that counts, is among the rows.
pub open spec fn has_arrived(rows: Seq<RowView>, line: Line) -> bool {
    match line {
        Line::Entry(e) => entry_fault(e) is None ==> store::has_hash(rows, e.hash@),
        _ => true,
    }
}

/// An import that does not run out of ids brings in every entry that counts, before
/// the cut to the limit.
pub proof fn law_import_brings_every_entry(s: StoreView, lines: Seq<Line>, dir: Seq<char>, i: int)
    requires
        0 <= i < lines.len(),
        !import_lines(s, lines, dir).full,
    ensures
        has_arrived(import_lines(s, lines, dir).store.rows, lines[i]),
    decreases lines.len(),
{
    let p = import_lines(s, lines.drop_last(), dir).store;
    let t = import_lines(s, lines, dir).store;
    if i < lines.len() - 1 {
        law_import_brings_every_entry(s, lines.drop_last(), dir, i);
        if let Line::Entry(e) = lines[i] {
            if entry_fault(e) is None {
                let k = choose|k: int| 0 <= k < p.rows.len() && (#[trigger] p.rows[k]).hash == e.hash@;
                assert(t.rows[k].hash == e.hash@);
            }
        }
    } else if let Line::Entry(e) = lines[i] {
        if entry_fault(e) is None && !store::has_hash(p.rows, e.hash@) {
            assert(t.rows[p.rows.len() as int].hash == e.hash@);
        }
    }
}

proof fn lemma_import_of_known(s: StoreView, t: StoreView, lines: Seq<Line>, dir: Seq<char>)
    requires
        !import_lines(s, lines, dir).full,
        forall|i: int| 0 <= i < lines.len() ==> has_arrived(t.rows, #[trigger] lines[i]),
    ensures
        ({
            let p = import_lines(s, lines, dir);
            import_lines(t, lines, dir) == (Progress {
                store: t,
                imported: 0,
                exists: p.imported + p.exists,
                invalid: p.invalid,
                full: false,
            })
        }),
    decreases lines.len(),
{
    if lines.len() > 0 {
        assert forall|i: int| 0 <= i < lines.drop_last().len() implies has_arrived(
            t.rows,
            #[trigger] lines.drop_last()[i],
        ) by {
            assert(lines.drop_last()[i] == lines[i]);
        }
        lemma_import_of_known(s, t, lines.drop_last(), dir);
        assert(lines[lines.len() - 1] == lines.last());
    }
}

/// Importing the same lines again adds nothing and changes nothing: every entry
/// is there already, and counted so, and every faulty line is as faulty as before.
/// What the limit has cut off in between would come again, so every entry of the
/// lines must have stayed.
pub proof fn law_import_twice_adds_nothing(
    s: StoreView,
    lines: Seq<Line>,
    dir: Seq<char>,
    max: nat,
)
    requires
        !import_lines(s, lines, dir).full,
        forall|i: int|
            0 <= i < lines.len() ==> has_arrived(
                merged(s, lines, dir, max).rows,
                #[trigger] lines[i],
            ),
    ensures
        ({
            let t = merged(s, lines, dir, max);
            let first = import_lines(s, lines, dir);
            let second = import_lines(t, lines, dir);
            &&& merged(t, lines, dir, max) == t
            &&& second.imported == 0
            &&& second.exists == first.imported + first.exists
            &&& second.invalid == first.invalid
            &&& !second.full
        }),
{
    let u = import_lines(s, lines, dir).store;
    store::laws::law_cut_again_changes_nothing(u.rows, store::pointed_or_empty(u.current), max);
    lemma_import_of_known(s, merged(s, lines, dir, max), lines, dir);
}

/// Whether a row is what a capture or an import makes: its hash is that of its
/// contents. The digest of a text is hexadecimal, so it never begins as the hash
/// of an image does.
pub open spec fn row_genuine(r: RowView, payload: Option<Seq<u8>>) -> bool {
    match payload {
        Some(bytes) => {
            &&& r.image_path is Some
            &&& r.hash == digest::image_key(r.mime, bytes)
            &&& r.text == capture::placeholder(r.mime, bytes.len())
            &&& r.size == capture::size_of(bytes.len())
        },
        None => {
            &&& r.image_path is None
            &&& r.hash == digest::text_hash(r.text)
            &&& !text::has_prefix(r.hash, "img:"@)
            &&& r.size == capture::size_of(text::utf8(r.text).len())
        },
    }
}

/// A row under another id, with its data file named after it.
pub open spec fn renumbered(r: RowView, id: int, dir: Seq<char>) -> RowView {
    RowView {
        id,
        image_path: match r.image_path {
            Some(_) => Some(capture::image_file(dir, id)),
            None => None,
        },
        ..r
    }
}

proof fn lemma_round_trip(
    rows: Seq<RowView>,
    payloads: Seq<Option<Seq<u8>>>,
    lines: Seq<Line>,
    fresh: StoreView,
    dir: Seq<char>,
)
    requires
        rows.len() == payloads.len(),
        rows.len() == lines.len(),
        store::hashes_differ(rows),
        forall|i: int| 0 <= i < rows.len() ==> row_genuine(#[trigger] rows[i], payloads[i]),
        forall|i: int| 0 <= i < rows.len() ==> (#[trigger] rows[i]).hash.len() > 0,
        forall|i: int|
            0 <= i < rows.len() ==> ((#[trigger] lines[i]) matches Line::Entry(e) && is_export_of(
                e,
                rows[i],
                payloads[i],
            )),
        fresh.rows.len() == 0,
        fresh.last_id + rows.len() <= i64::MAX,
    ensures
        ({
            let p = import_lines(fresh, lines, dir);
            &&& p.imported == rows.len()
            &&& p.exists == 0
            &&& p.invalid == 0
            &&& !p.full
            &&& p.store.last_id == fresh.last_id + rows.len()
            &&& p.store.rows.len() == rows.len()
            &&& forall|i: int|
                0 <= i < rows.len() ==> #[trigger] p.store.rows[i] == renumbered(
                    rows[i],
                    fresh.last_id + 1 + i,
                    dir,
                )
        }),
    decreases rows.len(),
{
    if rows.len() > 0 {
        let n = rows.len() - 1;
        let r0 = rows.drop_last();
        let y0 = payloads.drop_last();
        let l0 = lines.drop_last();
        assert forall|i: int, j: int| 0 <= i < j < r0.len() implies (#[trigger] r0[i]).hash != (
        #[trigger] r0[j]).hash by {
            assert(rows[i].hash != rows[j].hash);
        }
        assert forall|i: int| 0 <= i < r0.len() implies row_genuine(#[trigger] r0[i], y0[i]) by {
            assert(row_genuine(rows[i], payloads[i]));
        }
        assert forall|i: int| 0 <= i < r0.len() implies (#[trigger] r0[i]).hash.len() > 0 by {
            assert(rows[i].hash.len() > 0);
        }
        assert forall|i: int| 0 <= i < r0.len() implies ((#[trigger] l0[i]) matches Line::Entry(e)
            && is_export_of(e, r0[i], y0[i])) by {
            assert(lines[i] == l0[i]);
        }
        lemma_round_trip(r0, y0, l0, fresh, dir);
        let p = import_lines(fresh, l0, dir);
        assert(lines[n] is Entry);
        let e = lines[n]->Entry_0;
        assert(row_genuine(rows[n], payloads[n]));
        assert(rows[n].hash.len() > 0);
        assert(is_export_of(e, rows[n], payloads[n]));
        assert(entry_fault(e) is None);
        assert(!store::has_hash(p.store.rows, e.hash@)) by {
            if store::has_hash(p.store.rows, e.hash@) {
                let k = choose|k: int|
                    0 <= k < p.store.rows.len() && (#[trigger] p.store.rows[k]).hash == e.hash@;
                assert(p.store.rows[k] == renumbered(r0[k], fresh.last_id + 1 + k, dir));
                assert(rows[k].hash != rows[n].hash);
            }
        }
        assert(entry_row(e, p.store.last_id + 1, dir) == renumbered(
            rows[n],
            fresh.last_id + 1 + n,
            dir,
        ));
        let q = import_lines(fresh, lines, dir);
        assert forall|i: int| 0 <= i < rows.len() implies #[trigger] q.store.rows[i] == renumbered(
            rows[i],
            fresh.last_id + 1 + i,
            dir,
        ) by {
            if i < n {
                assert(q.store.rows[i] == p.store.rows[i]);
                assert(r0[i] == rows[i]);
            }
        }
    }
}

/// An export holds every row of the history once, the oldest first.
pub proof fn law_export_holds_every_row(s: StoreView)
    requires
        s.valid(),
    ensures
        ({
            let x = export_order(s.rows);
            &&& x.len() == s.rows.len()
            &&& forall|r: RowView| #![auto] x.contains(r) <==> s.rows.contains(r)
            &&& forall|i: int, j: int|
                0 <= i < j < x.len() ==> evict::older(#[trigger] x[i], #[trigger] x[j])
        }),
{
    let before = |a: RowView, b: RowView| evict::older(a, b);
    assert forall|i: int, j: int| 0 <= i < j < s.rows.len() implies before(
        #[trigger] s.rows[i],
        #[trigger] s.rows[j],
    ) || before(s.rows[j], s.rows[i]) by {
        assert(s.rows[i].id < s.rows[j].id);
    }
    order::lemma_arrangement_exists(s.rows, before);
    let x = export_order(s.rows);
    assert forall|i: int, j: int| 0 <= i < j < x.len() implies evict::older(
        #[trigger] x[i],
        #[trigger] x[j],
    ) by {
        assert(before(x[i], x[j]));
    }
}

/// An export that is imported into an empty history gives every row back: text,
/// type, time, pin and size are as they were, in the order of the export. Only ids,
/// and the data files named after them, are new. All of them stay where the limit
/// has room for them or where none may leave.
pub proof fn law_export_import_round_trip(
    s: StoreView,
    payloads: Seq<Option<Seq<u8>>>,
    lines: Seq<Line>,
    fresh: StoreView,
    dir: Seq<char>,
    max: nat,
)
    requires
        s.valid(),
        s.rows.len() == payloads.len(),
        s.rows.len() == lines.len(),
        forall|i: int|
            0 <= i < payloads.len() ==> row_genuine(
                #[trigger] export_order(s.rows)[i],
                payloads[i],
            ),
        forall|i: int|
            0 <= i < lines.len() ==> ((#[trigger] lines[i]) matches Line::Entry(e) && is_export_of(
                e,
                export_order(s.rows)[i],
                payloads[i],
            )),
        fresh.rows.len() == 0,
        fresh.last_id + s.rows.len() <= i64::MAX,
    ensures
        ({
            let p = import_lines(fresh, lines, dir);
            &&& p.imported == s.rows.len()
            &&& p.exists == 0
            &&& p.invalid == 0
            &&& !p.full
            &&& s.rows.len() <= max || !evict::some_may(
                s.rows,
                evict::spare(store::pointed_or_empty(fresh.current)),
            ) ==> merged(fresh, lines, dir, max) == p.store
            &&& p.store.rows.len() == s.rows.len()
            &&& forall|i: int|
                0 <= i < s.rows.len() ==> #[trigger] p.store.rows[i] == renumbered(
                    export_order(s.rows)[i],
                    fresh.last_id + 1 + i,
                    dir,
                )
        }),
{
    law_export_holds_every_row(s);
    let x = export_order(s.rows);
    assert forall|i: int| 0 <= i < x.len() implies (#[trigger] x[i]).hash.len() > 0 by {
        assert(x.contains(x[i]));
        let k = choose|k: int| 0 <= k < s.rows.len() && s.rows[k] == x[i];
        assert(store::row_valid(s.rows[k], s.last_id));
    }
    assert forall|i: int, j: int| 0 <= i < j < x.len() implies (#[trigger] x[i]).hash != (
    #[trigger] x[j]).hash by {
        assert(x.contains(x[i]) && x.contains(x[j]));
        let a = choose|a: int| 0 <= a < s.rows.len() && s.rows[a] == x[i];
        let b = choose|b: int| 0 <= b < s.rows.len() && s.rows[b] == x[j];
        assert(evict::older(x[i], x[j]));
        if a < b {
            assert(s.rows[a].hash != s.rows[b].hash);
        } else {
            assert(s.rows[b].hash != s.rows[a].hash);
        }
    }
    lemma_round_trip(x, payloads, lines, fresh, dir);
    let p = import_lines(fresh, lines, dir);
    let cur = store::pointed_or_empty(fresh.current);
    law_import_keeps_what_is_there(fresh, lines, dir);
    if !evict::some_may(s.rows, evict::spare(cur)) {
        assert forall|i: int| 0 <= i < p.store.rows.len() implies !evict::spare(cur)(
            #[trigger] p.store.rows[i],
        ) by {
            assert(x.contains(x[i]));
            let k = choose|k: int| 0 <= k < s.rows.len() && s.rows[k] == x[i];
            assert(!evict::spare(cur)(s.rows[k]));
        }
    }
}

/// An entry counts exactly where it has a hash and its contents have that hash: the
/// text of a text, the bytes of an image. What was changed by hand is refused.
pub proof fn law_altered_entries_are_refused(e: ExportEntry)
    ensures
        entry_fault(e) is None <==> e.hash@.len() > 0 && match e.image_base64 {
            Some(b) => base64_bytes(text::trimmed(b@)) is Some && digest::image_key(
                e.mime@,
                base64_bytes(text::trimmed(b@))->0,
            ) == e.hash@,
            None => digest::text_hash(e.text@) == e.hash@ && !text::has_prefix(e.hash@, "img:"@),
        },
{
}

/// An entry that is added becomes a row with its hash, type, time and pin, and the text
/// of a text; its size is measured anew, and the bytes of an image belong into a file
/// named after the id.
pub proof fn law_imported_row_holds_the_entry(e: ExportEntry, id: int, dir: Seq<char>)
    requires
        entry_fault(e) is None,
    ensures
        ({
            let r = entry_row(e, id, dir);
            &&& r.id == id && r.hash == e.hash@ && r.mime == e.mime@ && r.ts == e.ts
            &&& r.pinned == e.pinned
            &&& r.image_path is Some <==> e.image_base64 is Some
            &&& e.image_base64 is None ==> r.text == e.text@ && r.hash == digest::text_hash(r.text)
                && (text::utf8(r.text).len() <= i64::MAX ==> r.size == text::utf8(r.text).len())
            &&& e.image_base64 matches Some(b) ==> {
                let bytes = base64_bytes(text::trimmed(b@))->0;
                &&& r.hash == digest::image_key(r.mime, bytes)
                &&& bytes.len() <= i64::MAX ==> r.size == bytes.len()
                &&& r.image_path == Some(capture::image_file(dir, id))
            }
        }),
{
}

/// How many of the lines are blank.
pub open spec fn blanks(lines: Seq<Line>) -> nat
    decreases lines.len(),
{
    if lines.len() == 0 {
        0
    } else {
        blanks(lines.drop_last()) + if lines.last() is Blank {
            1nat
        } else {
            0
        }
    }
}

/// An import counts every line once: as added, as known, as invalid, or as blank.
pub proof fn law_import_counts_every_line(s: StoreView, lines: Seq<Line>, dir: Seq<char>)
    requires
        !import_lines(s, lines, dir).full,
    ensures
        ({
            let p = import_lines(s, lines, dir);
            p.imported + p.exists + p.invalid + blanks(lines) == lines.len()
        }),
    decreases lines.len(),
{
    if lines.len() > 0 {
        law_import_counts_every_line(s, lines.drop_last(), dir);
    }
}

/// Every image that an import adds comes with its data file: the file of that row, with
/// bytes that have the hash of the row.
pub proof fn law_imported_images_come_with_their_files(
    s: StoreView,
    lines: Seq<Line>,
    dir: Seq<char>,
    k: int,
)
    requires
        s.rows.len() <= k < import_lines(s, lines, dir).store.rows.len(),
        import_lines(s, lines, dir).store.rows[k].image_path is Some,
    ensures
        ({
            let r = import_lines(s, lines, dir).store.rows[k];
            let files = import_files(s, lines, dir);
            exists|j: int|
                0 <= j < files.len() && {
                    let f = #[trigger] files[j];
                    &&& f.id == r.id
                    &&& Some(f.path) == r.image_path
                    &&& digest::image_key(r.mime, f.bytes) == r.hash
                }
        }),
    decreases lines.len(),
{
    if lines.len() > 0 {
        let p = import_lines(s, lines.drop_last(), dir);
        let q = import_lines(s, lines, dir);
        let front = import_files(s, lines.drop_last(), dir);
        let files = import_files(s, lines, dir);
        if k < p.store.rows.len() {
            assert(q.store.rows[k] == p.store.rows[k]);
            law_imported_images_come_with_their_files(s, lines.drop_last(), dir, k);
            let j = choose|j: int|
                0 <= j < front.len() && {
                    let f = #[trigger] front[j];
                    &&& f.id == p.store.rows[k].id
                    &&& Some(f.path) == p.store.rows[k].image_path
                    &&& digest::image_key(p.store.rows[k].mime, f.bytes) == p.store.rows[k].hash
                };
            assert(files[j] == front[j]);
        } else {
            assert(files[front.len() as int].id == q.store.rows[k].id);
        }
    }
}

/// An export counts the images whose data is there, and their bytes: one more entry adds
/// one and its length where it is such an image, and nothing else.
pub proof fn law_export_counts_the_images(
    rows: Seq<RowView>,
    payloads: Seq<Option<Vec<u8>>>,
    p: Option<Vec<u8>>,
)
    requires
        payloads.len() < rows.len(),
    ensures
        ({
            let n = payloads.len() as int;
            let with_data = rows[n].image_path is Some && p is Some;
            &&& payload_count(rows, payloads.push(p)) == payload_count(rows, payloads)
                + if with_data {
                1int
            } else {
                0
            }
            &&& payload_total(rows, payloads.push(p)) == payload_total(rows, payloads)
                + if with_data {
                p->0@.len() as int
            } else {
                0
            }
        }),
        payload_count(rows, Seq::empty()) == 0,
        payload_total(rows, Seq::empty()) == 0,
{
    assert(payloads.push(p).drop_last() == payloads);
}

/// An exported entry is the row itself: hash, text, type, time, pin and size, and the
/// data of an image in a form from which it is read back.
pub proof fn law_exported_entry_is_the_row(e: ExportEntry, r: RowView, payload: Option<Seq<u8>>)
    requires
        is_export_of(e, r, payload),
    ensures
        e.hash@ == r.hash && e.text@ == r.text && e.mime@ == r.mime,
        e.ts == r.ts && e.pinned == r.pinned && e.size == r.size,
        r.image_path is None ==> e.image_base64 is None,
        r.image_path is Some && payload is Some ==> e.image_base64 is Some && base64_bytes(
            text::trimmed(e.image_base64->0@),
        ) == payload,
{
}

/// A file is read where it names this format and no later version; else the header is
/// what is wrong with it.
pub proof fn law_only_this_format_is_read(format: String, version: u32, f: ImportError)
    ensures
        ({
            let h = HeaderLine::Header { format, version };
            &&& header_ok(h) <==> format@ == "niri-clip-export"@ && version <= 1
            &&& is_header_fault(h, f) ==> !header_ok(h)
        }),
        !header_ok(HeaderLine::Missing) && !header_ok(HeaderLine::Broken),
{
}

/// A text for a message is the text itself where it fits, and else its beginning with an
/// ellipsis behind it.
pub proof fn law_long_texts_are_cut_for_messages(s: Seq<char>, max: nat)
    ensures
        s.len() <= max ==> truncated(s, max) == s,
        s.len() > max ==> truncated(s, max).len() == max + 1 && truncated(s, max).last() == '…'
            && forall|i: int| 0 <= i < max ==> #[trigger] truncated(s, max)[i] == s[i],
{
}

/// What is wrong with an entry is named: first that it has no hash, then what is wrong
/// with the data of an image, or that an image has none, and else that the text has
/// another hash.
pub proof fn law_faults_are_named(e: ExportEntry)
    ensures
        entry_fault(e) == Some(EntryError::EmptyHash) <==> e.hash@.len() == 0,
        entry_fault(e) == Some(EntryError::BadPayload) <==> e.hash@.len() > 0
            && e.image_base64 is Some && base64_bytes(text::trimmed(e.image_base64->0@)) is None,
        entry_fault(e) == Some(EntryError::ImageMismatch) <==> e.hash@.len() > 0
            && e.image_base64 is Some && base64_bytes(text::trimmed(e.image_base64->0@)) is Some
            && digest::image_key(e.mime@, base64_bytes(text::trimmed(e.image_base64->0@))->0)
            != e.hash@,
        entry_fault(e) == Some(EntryError::NoPayload) <==> e.image_base64 is None
            && text::has_prefix(e.hash@, "img:"@) && e.hash@.len() > 0,
        entry_fault(e) == Some(EntryError::TextMismatch) <==> e.hash@.len() > 0
            && e.image_base64 is None && !text::has_prefix(e.hash@, "img:"@) && digest::text_hash(
            e.text@,
        ) != e.hash@,
{
}

/// What is wrong with a header is named: that it is missing, that it is none, another
/// format, or a later version.
pub proof fn law_header_faults_are_named(h: HeaderLine, f: ImportError)
    ensures
        is_header_fault(h, f) <==> match h {
            HeaderLine::Missing => f is Empty,
            HeaderLine::Broken => f is BadHeader,
            HeaderLine::Header { format, version } => {
                ||| format@ != "niri-clip-export"@ && (f matches ImportError::Format(g) && g@
                    == format@)
                ||| format@ == "niri-clip-export"@ && version > 1 && (f matches ImportError::Version(
                    v,
                ) && v == version)
            },
        },
{
}

/// After an import the history keeps to its limit like after any other cut: it holds what
/// was there and what came in, less the oldest that may leave where that is too much.
pub proof fn law_import_keeps_to_the_limit(
    s: StoreView,
    lines: Seq<Line>,
    dir: Seq<char>,
    max: nat,
    r: RowView,
)
    requires
        import_lines(s, lines, dir).store.valid(),
    ensures
        ({
            let all = import_lines(s, lines, dir).store;
            let t = merged(s, lines, dir, max);
            let cur = store::pointed_or_empty(s.current);
            &&& t.current == s.current && t.last_id == all.last_id
            &&& all.rows.len() <= max ==> t.rows == all.rows
            &&& all.rows.len() > max ==> t.rows.len() >= max
            &&& t.rows.len() > max ==> forall|i: int|
                0 <= i < t.rows.len() ==> (#[trigger] t.rows[i]).pinned || t.rows[i].hash == cur
            &&& t.rows.contains(r) ==> all.rows.contains(r)
            &&& all.rows.contains(r) && (r.pinned || r.hash == cur) ==> t.rows.contains(r)
        }),
{
    let all = import_lines(s, lines, dir).store;
    law_import_keeps_what_is_there(s, lines, dir);
    store::laws::law_cut_drops_the_oldest(all, max);
    store::contents::law_cut_keeps_to_the_limit(all, max);
}

/// What contracts speak of the files of an import is what they hold.
pub proof fn law_files_are_their_fields(files: Seq<ImageFile>, i: int)
    ensures
        files_view(files).len() == files.len(),
        0 <= i < files.len() ==> files_view(files)[i].id == files[i].id && files_view(files)[i].path
            == files[i].path@ && files_view(files)[i].bytes == files[i].bytes@,
{
}

} // verus!
