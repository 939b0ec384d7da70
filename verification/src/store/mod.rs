//! The clipboard history.

use crate::text;
use vstd::prelude::*;

pub mod capture;
pub mod contents;
pub mod digest;
pub mod evict;
pub mod laws;
pub mod maintain;
pub mod query;
pub mod sync;
pub mod transfer;

pub use capture::{insert, insert_image, insert_image_with, insert_with, should_ignore};
pub use digest::{hash_text, image_content_key};
pub use evict::{enforce_max_items, gc_images};
pub use maintain::{delete, prune_before, prune_orphan_images, stats, toggle_pin, wipe};
pub use maintain::{PruneOutcome, StoreStats};
pub use query::{get, is_pinned, list, search, search_plan};
pub use transfer::{copy_to_clipboard, migrate_from_cliphist, parse_local_date_ms};

verus! {

/// How many entries a menu shows; every front end takes this window.
pub const MENU_LIMIT: usize = 300;

/// The menu window under its older name.
pub const TUI_LIMIT: usize = MENU_LIMIT;

/// How many candidates a search of the whole history yields. Equal to the menu
/// window in number, but independent of it.
pub const SEARCH_LIMIT: usize = 300;

/// A history entry as front ends see it.
#[derive(Debug, Clone)]
pub struct Clip {
    pub id: i64,
    /// The fingerprint by which repeated content is recognised.
    pub hash: String,
    pub text: String,
    pub mime: String,
    pub pinned: bool,
    /// The data file of an image entry.
    pub image_path: Option<String>,
}

/// An image that was just stored, and where its bytes belong.
#[derive(Debug, Clone)]
pub struct InsertedImage {
    pub id: i64,
    pub path: String,
}

/// A row of the history.
#[derive(Debug, Clone)]
pub struct Row {
    pub id: i64,
    pub hash: String,
    pub text: String,
    pub mime: String,
    /// Milliseconds since the epoch of the last capture.
    pub ts: i64,
    pub pinned: bool,
    /// Bytes of the text, or of the data file of an image.
    pub size: i64,
    pub image_path: Option<String>,
}

/// The contents of a row.
pub struct RowView {
    pub id: int,
    pub hash: Seq<char>,
    pub text: Seq<char>,
    pub mime: Seq<char>,
    pub ts: int,
    pub pinned: bool,
    pub size: int,
    pub image_path: Option<Seq<char>>,
}

/// The contents of a clip.
pub struct ClipView {
    pub id: int,
    pub hash: Seq<char>,
    pub text: Seq<char>,
    pub mime: Seq<char>,
    pub pinned: bool,
    pub image_path: Option<Seq<char>>,
}

/// The contents of an optional text.
pub open spec fn opt_text(o: Option<String>) -> Option<Seq<char>> {
    match o {
        Some(s) => Some(s@),
        None => None,
    }
}

impl View for Row {
    type V = RowView;

    open spec fn view(&self) -> RowView {
        RowView {
            id: self.id as int,
            hash: self.hash@,
            text: self.text@,
            mime: self.mime@,
            ts: self.ts as int,
            pinned: self.pinned,
            size: self.size as int,
            image_path: opt_text(self.image_path),
        }
    }
}

impl View for Clip {
    type V = ClipView;

    open spec fn view(&self) -> ClipView {
        ClipView {
            id: self.id as int,
            hash: self.hash@,
            text: self.text@,
            mime: self.mime@,
            pinned: self.pinned,
            image_path: opt_text(self.image_path),
        }
    }
}

/// What a front end sees of a row.
pub open spec fn clip_of(r: RowView) -> ClipView {
    ClipView {
        id: r.id,
        hash: r.hash,
        text: r.text,
        mime: r.mime,
        pinned: r.pinned,
        image_path: r.image_path,
    }
}

/// The contents of a list of rows.
pub open spec fn rows_view(s: Seq<Row>) -> Seq<RowView> {
    s.map_values(|r: Row| r@)
}

/// The contents of a list of clips.
pub open spec fn clips_view(s: Seq<Clip>) -> Seq<ClipView> {
    s.map_values(|c: Clip| c@)
}

/// What front ends see of a list of rows.
pub open spec fn clips_of(rows: Seq<RowView>) -> Seq<ClipView> {
    rows.map_values(|r: RowView| clip_of(r))
}

/// The history: its rows by increasing id, the last id ever given out, and the
/// pointer to the current item, which is the hash of the content captured or
/// copied last.
#[derive(Debug, Clone)]
pub struct Store {
    pub rows: Vec<Row>,
    pub last_id: i64,
    pub current: Option<String>,
}

/// The contents of the history.
pub struct StoreView {
    pub rows: Seq<RowView>,
    pub last_id: int,
    pub current: Option<Seq<char>>,
}

impl View for Store {
    type V = StoreView;

    open spec fn view(&self) -> StoreView {
        StoreView {
            rows: rows_view(self.rows@),
            last_id: self.last_id as int,
            current: opt_text(self.current),
        }
    }
}

/// Whether a hash is one that the pointer can name: not empty, and without
/// white space at its ends.
pub open spec fn is_clean(h: Seq<char>) -> bool {
    h.len() > 0 && text::trimmed(h) == h
}

/// Whether a row stands alone on what it holds.
pub open spec fn row_valid(r: RowView, last_id: int) -> bool {
    &&& 1 <= r.id <= last_id
    &&& is_clean(r.hash)
    &&& r.size >= 0
}

/// Whether ids increase, so that no two are equal.
pub open spec fn ids_increase(rows: Seq<RowView>) -> bool {
    forall|i: int, j: int|
        0 <= i < j < rows.len() ==> (#[trigger] rows[i]).id < (#[trigger] rows[j]).id
}

/// Whether no two rows have the same hash.
pub open spec fn hashes_differ(rows: Seq<RowView>) -> bool {
    forall|i: int, j: int|
        0 <= i < j < rows.len() ==> (#[trigger] rows[i]).hash != (#[trigger] rows[j]).hash
}

impl StoreView {
    /// The invariant of the history.
    pub open spec fn valid(self) -> bool {
        &&& ids_increase(self.rows)
        &&& hashes_differ(self.rows)
        &&& forall|i: int|
            0 <= i < self.rows.len() ==> row_valid(#[trigger] self.rows[i], self.last_id)
        &&& self.last_id >= 0
    }
}

impl Store {
    /// The invariant of the history.
    pub open spec fn wf(&self) -> bool {
        self@.valid()
    }
}

/// Why an operation on the history failed.
#[derive(Debug, Clone, Copy, PartialEq, Eq, Structural)]
pub enum StoreError {
    /// No entry has this id.
    NotFound,
    /// The last id that can be given out is in use.
    Full,
    /// A sum of sizes does not fit.
    SumOverflow,
    /// An image entry has no data file.
    NoImageFile,
    /// The rows read back do not form a history.
    Invalid,
}

impl Row {
    /// A copy of the row.
    pub fn copy(&self) -> (r: Row)
        ensures
            r@ == self@,
    {
        Row {
            id: self.id,
            hash: self.hash.clone(),
            text: self.text.clone(),
            mime: self.mime.clone(),
            ts: self.ts,
            pinned: self.pinned,
            size: self.size,
            image_path: copy_opt(&self.image_path),
        }
    }

    /// The row as front ends see it.
    pub fn clip(&self) -> (c: Clip)
        ensures
            c@ == clip_of(self@),
    {
        Clip {
            id: self.id,
            hash: self.hash.clone(),
            text: self.text.clone(),
            mime: self.mime.clone(),
            pinned: self.pinned,
            image_path: copy_opt(&self.image_path),
        }
    }
}

/// A copy of an optional text.
pub fn copy_opt(o: &Option<String>) -> (r: Option<String>)
    ensures
        opt_text(r) == opt_text(*o),
{
    match o {
        Some(s) => Some(s.clone()),
        None => None,
    }
}

/// Whether a row has the given hash.
pub open spec fn has_hash(rows: Seq<RowView>, h: Seq<char>) -> bool {
    exists|i: int| 0 <= i < rows.len() && (#[trigger] rows[i]).hash == h
}

/// Whether a row has the given id.
pub open spec fn has_id(rows: Seq<RowView>, id: int) -> bool {
    exists|i: int| 0 <= i < rows.len() && (#[trigger] rows[i]).id == id
}

/// The position of the row with the given id.
pub open spec fn id_index(rows: Seq<RowView>, id: int) -> int {
    choose|i: int| 0 <= i < rows.len() && (#[trigger] rows[i]).id == id
}

/// The position of the row with the given hash.
pub fn find_hash(rows: &Vec<Row>, h: &String) -> (r: Option<usize>)
    ensures
        match r {
            Some(i) => i < rows.len() && rows@[i as int].hash@ == h@,
            None => !has_hash(rows_view(rows@), h@),
        },
{
    let mut i: usize = 0;
    while i < rows.len()
        invariant
            i <= rows.len(),
            forall|k: int| 0 <= k < i ==> (#[trigger] rows@[k]).hash@ != h@,
        decreases rows.len() - i,
    {
        if rows[i].hash == *h {
            return Some(i);
        }
        i += 1;
    }
    assert forall|k: int| 0 <= k < rows.len() implies rows_view(rows@)[k].hash != h@ by {
        assert(rows@[k].hash@ != h@);
    }
    None
}

/// The position of the row with the given id.
pub fn find_id(rows: &Vec<Row>, id: i64) -> (r: Option<usize>)
    ensures
        match r {
            Some(i) => i < rows.len() && rows@[i as int].id == id && has_id(rows_view(rows@), id as int),
            None => !has_id(rows_view(rows@), id as int),
        },
{
    let mut i: usize = 0;
    while i < rows.len()
        invariant
            i <= rows.len(),
            forall|k: int| 0 <= k < i ==> (#[trigger] rows@[k]).id != id,
        decreases rows.len() - i,
    {
        if rows[i].id == id {
            assert(rows_view(rows@)[i as int].id == id);
            return Some(i);
        }
        i += 1;
    }
    assert forall|k: int| 0 <= k < rows.len() implies rows_view(rows@)[k].id != id by {
        assert(rows@[k].id != id);
    }
    None
}

/// What the pointer to the current item names.
pub open spec fn pointed(raw: Option<Seq<char>>) -> Option<Seq<char>> {
    match raw {
        Some(h) => if text::trimmed(h).len() > 0 {
            Some(text::trimmed(h))
        } else {
            None
        },
        None => None,
    }
}

/// The hash that the pointer names, or the empty text.
pub open spec fn pointed_or_empty(raw: Option<Seq<char>>) -> Seq<char> {
    match pointed(raw) {
        Some(h) => h,
        None => Seq::empty(),
    }
}

/// Whether the current item is in the history.
pub open spec fn holds_current(s: StoreView) -> bool {
    pointed(s.current) is Some && has_hash(s.rows, pointed(s.current)->0)
}

/// The hash of the current item; none where nothing was ever captured.
pub fn current_hash(s: &Store) -> (r: Option<String>)
    ensures
        opt_text(r) == pointed(s@.current),
{
    match &s.current {
        Some(h) => {
            let t = text::trim(h.as_str());
            if t.as_str().is_empty() {
                None
            } else {
                Some(t)
            }
        },
        None => None,
    }
}

/// The hash of the current item, or the empty text.
pub(crate) fn current_or_empty(s: &Store) -> (r: String)
    ensures
        r@ == pointed_or_empty(s@.current),
{
    match current_hash(s) {
        Some(h) => h,
        None => String::new(),
    }
}

/// Makes the entry with the given hash the current item.
pub fn touch_current(s: &mut Store, hash: &str)
    ensures
        final(s)@ == (StoreView { current: Some(hash@), ..old(s)@ }),
        final(s).rows == old(s).rows,
{
    s.current = Some(hash.to_owned());
}

} // verus!
