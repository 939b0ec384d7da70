//! Bringing a database of an earlier version up to date.

use crate::store;
use crate::store::digest;
use crate::store::{Row, RowView};
use crate::text;
use vstd::prelude::*;

verus! {

/// The version of the schema that the program works with.
pub const SCHEMA_VERSION: i64 = 4;

/// One step on the way to the current schema.
#[derive(Debug, Clone, Copy, PartialEq, Eq, Structural)]
pub enum SchemaStep {
    /// Create the table of the entries and its indexes.
    CreateTable,
    /// Add the column for the data files of images.
    AddImageColumn,
    /// The column is there already; only the version changes.
    KeepImageColumn,
    /// Create the full-text index and fill it.
    CreateIndex,
    /// Give every text its stable hash.
    RehashTexts,
}

/// The step that a database of the given version needs next; it leads to the
/// next version.
pub open spec fn step_from(version: i64, has_image_column: bool) -> Option<SchemaStep> {
    if version < 1 {
        Some(SchemaStep::CreateTable)
    } else if version < 2 {
        Some(
            if has_image_column {
                SchemaStep::KeepImageColumn
            } else {
                SchemaStep::AddImageColumn
            },
        )
    } else if version < 3 {
        Some(SchemaStep::CreateIndex)
    } else if version < 4 {
        Some(SchemaStep::RehashTexts)
    } else {
        None
    }
}

/// The version after a step from the given one.
pub open spec fn version_after(version: i64) -> i64 {
    if version < 1 {
        1
    } else {
        (version + 1) as i64
    }
}

/// The step that a database needs next, and the version that it has then.
pub fn migrate_schema(version: i64, has_image_column: bool) -> (r: Option<(SchemaStep, i64)>)
    ensures
        match r {
            Some((step, next)) => step_from(version, has_image_column) == Some(step) && next
                == version_after(version) && version < next <= SCHEMA_VERSION,
            None => step_from(version, has_image_column) is None && version >= SCHEMA_VERSION,
        },
{
    if version < 1 {
        Some((SchemaStep::CreateTable, 1))
    } else if version < 2 {
        if has_image_column {
            Some((SchemaStep::KeepImageColumn, 2))
        } else {
            Some((SchemaStep::AddImageColumn, 2))
        }
    } else if version < 3 {
        Some((SchemaStep::CreateIndex, 3))
    } else if version < 4 {
        Some((SchemaStep::RehashTexts, 4))
    } else {
        None
    }
}

/// Whether the database at its former place is to be copied: it exists, the new
/// one does not, and they are not the same.
pub fn migrate_legacy_db(
    legacy: &str,
    new: &str,
    legacy_exists: bool,
    new_exists: bool,
) -> (b: bool)
    ensures
        b == (legacy@ != new@ && legacy_exists && !new_exists),
{
    !(text::same(legacy, new) || !legacy_exists || new_exists)
}

/// A row as earlier versions wrote it: the hash may be missing, and two rows
/// may hold the same text.
#[derive(Debug, Clone)]
pub struct OldRow {
    pub id: i64,
    pub hash: Option<String>,
    pub text: String,
    pub mime: String,
    pub ts: i64,
    pub pinned: bool,
    pub size: i64,
    pub image_path: Option<String>,
}

/// The contents of an old row.
pub struct OldView {
    pub id: int,
    pub hash: Option<Seq<char>>,
    pub text: Seq<char>,
    pub mime: Seq<char>,
    pub ts: int,
    pub pinned: bool,
    pub size: int,
    pub image_path: Option<Seq<char>>,
}

impl View for OldRow {
    type V = OldView;

    open spec fn view(&self) -> OldView {
        OldView {
            id: self.id as int,
            hash: store::opt_text(self.hash),
            text: self.text@,
            mime: self.mime@,
            ts: self.ts as int,
            pinned: self.pinned,
            size: self.size as int,
            image_path: store::opt_text(self.image_path),
        }
    }
}

/// The contents of a list of old rows.
pub open spec fn old_views(s: Seq<OldRow>) -> Seq<OldView> {
    s.map_values(|r: OldRow| r@)
}

/// Whether ids increase.
pub open spec fn old_ids_increase(rows: Seq<OldView>) -> bool {
    forall|i: int, j: int|
        0 <= i < j < rows.len() ==> (#[trigger] rows[i]).id < (#[trigger] rows[j]).id
}

/// Whether a hash marks an image, without regard to case.
pub open spec fn marks_image(h: Seq<char>) -> bool {
    text::found_at(h, "img:"@, 0)
}

/// Whether a row holds a text.
pub open spec fn holds_text(r: OldView) -> bool {
    match r.hash {
        Some(h) => !marks_image(h),
        None => true,
    }
}

/// The stable hash of a row's text.
pub open spec fn stable(r: OldView) -> Seq<char> {
    digest::text_hash(r.text)
}

/// Whether two rows hold texts that become one entry.
pub open spec fn twins(a: OldView, b: OldView) -> bool {
    holds_text(a) && holds_text(b) && stable(a) == stable(b)
}

/// Captured later; within one millisecond, stored later.
pub open spec fn old_newer(a: OldView, b: OldView) -> bool {
    a.ts > b.ts || (a.ts == b.ts && a.id > b.id)
}

/// Whether the row at `i` is the newest of its twins.
pub open spec fn survives(rows: Seq<OldView>, i: int) -> bool {
    holds_text(rows[i]) && forall|j: int|
        0 <= j < rows.len() && j != i && twins(rows[i], #[trigger] rows[j]) ==> old_newer(
            rows[i],
            rows[j],
        )
}

/// Whether one of the row's twins, or the row itself, is pinned.
pub open spec fn any_pinned(rows: Seq<OldView>, i: int) -> bool {
    exists|j: int| 0 <= j < rows.len() && twins(rows[i], #[trigger] rows[j]) && rows[j].pinned
}

/// The first data file among the row's twins below position `n`.
pub open spec fn first_image(rows: Seq<OldView>, i: int, n: int) -> Option<Seq<char>>
    decreases n,
{
    if n <= 0 {
        None
    } else if first_image(rows, i, n - 1) is Some {
        first_image(rows, i, n - 1)
    } else if twins(rows[i], rows[n - 1]) {
        rows[n - 1].image_path
    } else {
        None
    }
}

/// The row that the twins of a surviving row become.
pub open spec fn merged_row(rows: Seq<OldView>, i: int) -> RowView {
    let r = rows[i];
    RowView {
        id: r.id,
        hash: stable(r),
        text: r.text,
        mime: r.mime,
        ts: r.ts,
        pinned: any_pinned(rows, i),
        size: r.size,
        image_path: if r.image_path is Some {
            r.image_path
        } else {
            first_image(rows, i, rows.len() as int)
        },
    }
}

/// An image row as it was.
pub open spec fn kept_row(r: OldView) -> RowView {
    RowView {
        id: r.id,
        hash: r.hash->0,
        text: r.text,
        mime: r.mime,
        ts: r.ts,
        pinned: r.pinned,
        size: r.size,
        image_path: r.image_path,
    }
}

/// What becomes of the first `n` rows: images stay as they are, of equal texts
/// the newest stays, under its stable hash, pinned if one of them was.
pub open spec fn rehashed(rows: Seq<OldView>, n: int) -> Seq<RowView>
    decreases n,
{
    if n <= 0 {
        Seq::empty()
    } else {
        let front = rehashed(rows, n - 1);
        if !holds_text(rows[n - 1]) {
            front.push(kept_row(rows[n - 1]))
        } else if survives(rows, n - 1) {
            front.push(merged_row(rows, n - 1))
        } else {
            front
        }
    }
}

/// The hash that takes the place of an old one among the first `n` rows.
pub open spec fn remapped(rows: Seq<OldView>, n: int, h: Seq<char>) -> Option<Seq<char>>
    decreases n,
{
    if n <= 0 {
        None
    } else if holds_text(rows[n - 1]) && rows[n - 1].hash == Some(h) {
        Some(stable(rows[n - 1]))
    } else {
        remapped(rows, n - 1, h)
    }
}

/// The pointer to the current item, made to follow the hash it names.
pub open spec fn moved_pointer(rows: Seq<OldView>, current: Option<Seq<char>>) -> Option<Seq<char>> {
    match store::pointed(current) {
        Some(h) => match remapped(rows, rows.len() as int, h) {
            Some(new) => Some(new),
            None => current,
        },
        None => current,
    }
}

/// A database after its texts got stable hashes.
#[derive(Debug, Clone)]
pub struct Rehashed {
    pub rows: Vec<Row>,
    pub current: Option<String>,
    /// How many rows were merged into others.
    pub merged: usize,
}

fn is_text(r: &OldRow) -> (b: bool)
    ensures
        b == holds_text(r@),
{
    match &r.hash {
        Some(h) => !text::starts_folded(h.as_str(), "img:"),
        None => true,
    }
}

/// What the twins of a row say together.
struct Twins {
    newest: bool,
    pinned: bool,
    image: Option<String>,
}

fn look_at_twins(rows: &Vec<OldRow>, hashes: &Vec<Option<String>>, i: usize) -> (t: Twins)
    requires
        i < rows.len(),
        hashes.len() == rows.len(),
        forall|k: int|
            0 <= k < rows.len() ==> {
                &&& (#[trigger] hashes@[k]) is Some <==> holds_text(rows@[k]@)
                &&& hashes@[k] is Some ==> hashes@[k]->0@ == stable(rows@[k]@)
            },
        holds_text(rows@[i as int]@),
    ensures
        t.newest == survives(old_views(rows@), i as int),
        t.pinned == any_pinned(old_views(rows@), i as int),
        store::opt_text(t.image) == first_image(
            old_views(rows@),
            i as int,
            rows.len() as int,
        ),
{
    let ghost view = old_views(rows@);
    let mut t = Twins { newest: true, pinned: false, image: None };
    let mut j: usize = 0;
    assert(hashes@[i as int] is Some);
    while j < rows.len()
        invariant
            i < rows.len(),
            j <= rows.len(),
            hashes.len() == rows.len(),
            view == old_views(rows@),
            forall|k: int|
                0 <= k < rows.len() ==> {
                    &&& (#[trigger] hashes@[k]) is Some <==> holds_text(rows@[k]@)
                    &&& hashes@[k] is Some ==> hashes@[k]->0@ == stable(rows@[k]@)
                },
            hashes@[i as int] is Some,
            t.newest == forall|k: int|
                0 <= k < j && k != i && twins(view[i as int], #[trigger] view[k]) ==> old_newer(
                    view[i as int],
                    view[k],
                ),
            t.pinned == exists|k: int|
                0 <= k < j && twins(view[i as int], #[trigger] view[k]) && view[k].pinned,
            store::opt_text(t.image) == first_image(view, i as int, j as int),
        decreases rows.len() - j,
    {
        assert(view[j as int] == rows@[j as int]@);
        assert(view[i as int] == rows@[i as int]@);
        let same = match (&hashes[i], &hashes[j]) {
            (Some(a), Some(b)) => *a == *b,
            _ => false,
        };
        assert(same == twins(view[i as int], view[j as int]));
        let ghost t0 = t;
        if same {
            if j != i && !(rows[i].ts > rows[j].ts || (rows[i].ts == rows[j].ts && rows[i].id
                > rows[j].id)) {
                t.newest = false;
            }
            if rows[j].pinned {
                t.pinned = true;
            }
            if t.image.is_none() {
                t.image = store::copy_opt(&rows[j].image_path);
            }
        }
        j += 1;
    }
    t
}

/// Gives every text its stable hash. Rows with equal texts become one: the
/// newest stays, pinned if one of them was. The pointer to the current item
/// follows.
pub fn migrate_blake3(rows: &Vec<OldRow>, current: Option<String>) -> (r: Rehashed)
    ensures
        store::rows_view(r.rows@) == rehashed(old_views(rows@), rows.len() as int),
        r.merged == rows.len() - r.rows.len(),
        store::opt_text(r.current) == moved_pointer(old_views(rows@), store::opt_text(current)),
        old_ids_increase(old_views(rows@)) && old_hashes_differ(old_views(rows@)) ==> {
            &&& store::ids_increase(store::rows_view(r.rows@))
            &&& store::hashes_differ(store::rows_view(r.rows@))
        },
{
    let ghost view = old_views(rows@);
    let mut hashes: Vec<Option<String>> = Vec::new();
    let mut i: usize = 0;
    while i < rows.len()
        invariant
            i <= rows.len(),
            hashes.len() == i,
            forall|k: int|
                0 <= k < i ==> {
                    &&& (#[trigger] hashes@[k]) is Some <==> holds_text(rows@[k]@)
                    &&& hashes@[k] is Some ==> hashes@[k]->0@ == stable(rows@[k]@)
                },
            forall|k: int|
                0 <= k < i && holds_text(#[trigger] rows@[k]@) ==> is_stable_form(
                    stable(rows@[k]@),
                ),
        decreases rows.len() - i,
    {
        if is_text(&rows[i]) {
            hashes.push(Some(digest::hash_text(rows[i].text.as_str())));
        } else {
            hashes.push(None);
        }
        i += 1;
    }
    let mut out: Vec<Row> = Vec::new();
    let mut merged: usize = 0;
    let mut i: usize = 0;
    assert(store::rows_view(out@) == rehashed(view, 0));
    while i < rows.len()
        invariant
            i <= rows.len(),
            hashes.len() == rows.len(),
            view == old_views(rows@),
            forall|k: int|
                0 <= k < rows.len() ==> {
                    &&& (#[trigger] hashes@[k]) is Some <==> holds_text(rows@[k]@)
                    &&& hashes@[k] is Some ==> hashes@[k]->0@ == stable(rows@[k]@)
                },
            forall|k: int|
                0 <= k < rows.len() && holds_text(#[trigger] rows@[k]@) ==> is_stable_form(
                    stable(rows@[k]@),
                ),
            out.len() + merged == i,
            store::rows_view(out@) == rehashed(view, i as int),
        decreases rows.len() - i,
    {
        let ghost out0 = out@;
        let r = &rows[i];
        assert(view[i as int] == rows@[i as int]@);
        match &hashes[i] {
            None => {
                let hash = match &r.hash {
                    Some(h) => h.clone(),
                    None => String::new(),
                };
                let row = Row {
                    id: r.id,
                    hash,
                    text: r.text.clone(),
                    mime: r.mime.clone(),
                    ts: r.ts,
                    pinned: r.pinned,
                    size: r.size,
                    image_path: store::copy_opt(&r.image_path),
                };
                assert(row@ == kept_row(view[i as int]));
                out.push(row);
                assert(store::rows_view(out@) == store::rows_view(out0).push(row@));
            },
            Some(h) => {
                let t = look_at_twins(rows, &hashes, i);
                if t.newest {
                    let image_path = if r.image_path.is_some() {
                        store::copy_opt(&r.image_path)
                    } else {
                        t.image
                    };
                    let row = Row {
                        id: r.id,
                        hash: h.clone(),
                        text: r.text.clone(),
                        mime: r.mime.clone(),
                        ts: r.ts,
                        pinned: t.pinned,
                        size: r.size,
                        image_path,
                    };
                    assert(row@ == merged_row(view, i as int));
                    out.push(row);
                    assert(store::rows_view(out@) == store::rows_view(out0).push(row@));
                } else {
                    merged += 1;
                }
            },
        }
        i += 1;
    }
    proof {
        if old_ids_increase(view) && old_hashes_differ(view) {
            lemma_rehash_gives_a_history(view, rows.len() as int);
        }
    }
    let moved = move_pointer(rows, &hashes, &current);
    Rehashed { rows: out, current: moved, merged }
}

/// Whether no two rows have the same hash.
pub open spec fn old_hashes_differ(rows: Seq<OldView>) -> bool {
    forall|i: int, j: int|
        0 <= i < j < rows.len() && (#[trigger] rows[i]).hash is Some ==> rows[i].hash != (
        #[trigger] rows[j]).hash
}

/// Whether a hash has the form of a stable one.
pub open spec fn is_stable_form(h: Seq<char>) -> bool {
    h.len() == 64 && forall|i: int| 0 <= i < 64 ==> digest::is_hex(#[trigger] h[i])
}

fn move_pointer(rows: &Vec<OldRow>, hashes: &Vec<Option<String>>, current: &Option<String>) -> (r:
    Option<String>)
    requires
        hashes.len() == rows.len(),
        forall|k: int|
            0 <= k < rows.len() ==> {
                &&& (#[trigger] hashes@[k]) is Some <==> holds_text(rows@[k]@)
                &&& hashes@[k] is Some ==> hashes@[k]->0@ == stable(rows@[k]@)
            },
    ensures
        store::opt_text(r) == moved_pointer(old_views(rows@), store::opt_text(*current)),
{
    let ghost view = old_views(rows@);
    let h = match current {
        Some(raw) => text::trim(raw.as_str()),
        None => {
            return None;
        },
    };
    if h.as_str().is_empty() {
        return store::copy_opt(current);
    }
    let mut i: usize = rows.len();
    while i > 0
        invariant
            i <= rows.len(),
            hashes.len() == rows.len(),
            view == old_views(rows@),
            forall|k: int|
                0 <= k < rows.len() ==> {
                    &&& (#[trigger] hashes@[k]) is Some <==> holds_text(rows@[k]@)
                    &&& hashes@[k] is Some ==> hashes@[k]->0@ == stable(rows@[k]@)
                },
            store::pointed(store::opt_text(*current)) == Some(h@),
            remapped(view, rows.len() as int, h@) == remapped(view, i as int, h@),
        decreases i,
    {
        i -= 1;
        assert(view[i as int] == rows@[i as int]@);
        if let Some(new) = &hashes[i] {
            if let Some(old_hash) = &rows[i].hash {
                if *old_hash == h {
                    return Some(new.clone());
                }
            }
        }
    }
    store::copy_opt(current)
}

/// Whether a row of the result comes from the row at `i`.
pub open spec fn comes_from(rows: Seq<OldView>, i: int, r: RowView) -> bool {
    ||| !holds_text(rows[i]) && r == kept_row(rows[i])
    ||| survives(rows, i) && r == merged_row(rows, i)
}

proof fn lemma_origin(rows: Seq<OldView>, n: int, k: int) -> (i: int)
    requires
        0 <= n <= rows.len(),
        0 <= k < rehashed(rows, n).len(),
    ensures
        0 <= i < n,
        comes_from(rows, i, rehashed(rows, n)[k]),
    decreases n,
{
    let front = rehashed(rows, n - 1);
    if n > 0 && k < front.len() {
        lemma_origin(rows, n - 1, k)
    } else {
        n - 1
    }
}

proof fn lemma_present(rows: Seq<OldView>, n: int, i: int) -> (k: int)
    requires
        0 <= i < n <= rows.len(),
        !holds_text(rows[i]) || survives(rows, i),
    ensures
        0 <= k < rehashed(rows, n).len(),
        comes_from(rows, i, rehashed(rows, n)[k]),
    decreases n,
{
    let front = rehashed(rows, n - 1);
    if i == n - 1 {
        front.len() as int
    } else {
        lemma_present(rows, n - 1, i)
    }
}

/// Merging never adds rows.
pub proof fn law_rehash_never_grows(rows: Seq<OldView>, n: int)
    requires
        0 <= n <= rows.len(),
    ensures
        rehashed(rows, n).len() <= n,
    decreases n,
{
    if n > 0 {
        law_rehash_never_grows(rows, n - 1);
    }
}

/// Every row of the result is an image as it was, or a text under its stable
/// hash.
pub proof fn law_rehash_gives_stable_hashes(rows: Seq<OldView>, k: int)
    requires
        0 <= k < rehashed(rows, rows.len() as int).len(),
    ensures
        ({
            let r = rehashed(rows, rows.len() as int)[k];
            ||| r.hash == digest::text_hash(r.text)
            ||| exists|i: int|
                0 <= i < rows.len() && !holds_text(rows[i]) && r == #[trigger] kept_row(rows[i])
        }),
{
    let i = lemma_origin(rows, rows.len() as int, k);
    if !holds_text(rows[i]) {
        assert(rehashed(rows, rows.len() as int)[k] == kept_row(rows[i]));
    }
}

/// Images stay as they are.
pub proof fn law_rehash_keeps_images(rows: Seq<OldView>, i: int)
    requires
        0 <= i < rows.len(),
        !holds_text(rows[i]),
    ensures
        rehashed(rows, rows.len() as int).contains(kept_row(rows[i])),
{
    let k = lemma_present(rows, rows.len() as int, i);
    assert(rehashed(rows, rows.len() as int)[k] == kept_row(rows[i]));
}

proof fn lemma_newest_twin(rows: Seq<OldView>, i: int, n: int) -> (j: int)
    requires
        0 <= i < rows.len(),
        i < n <= rows.len(),
        holds_text(rows[i]),
        old_ids_increase(rows),
    ensures
        0 <= j < n,
        twins(rows[i], rows[j]),
        j == i || old_newer(rows[j], rows[i]),
        forall|k: int|
            0 <= k < n && k != j && twins(rows[i], #[trigger] rows[k]) ==> old_newer(
                rows[j],
                rows[k],
            ),
    decreases n,
{
    if n == 1 {
        0
    } else if i == n - 1 {
        // The newest below, if there is a twin, or else this row itself.
        if exists|k: int| 0 <= k < n - 1 && twins(rows[i], #[trigger] rows[k]) {
            let k = choose|k: int| 0 <= k < n - 1 && twins(rows[i], #[trigger] rows[k]);
            let j = lemma_newest_twin(rows, k, n - 1);
            assert(rows[j].id < rows[i].id);
            assert forall|x: int| 0 <= x < n - 1 && twins(rows[i], #[trigger] rows[x]) implies twins(
                rows[k],
                rows[x],
            ) by {}
            if old_newer(rows[j], rows[i]) {
                j
            } else {
                i
            }
        } else {
            i
        }
    } else {
        let j = lemma_newest_twin(rows, i, n - 1);
        let last = n - 1;
        assert(rows[j].id < rows[last].id);
        if twins(rows[i], rows[last]) && old_newer(rows[last], rows[j]) {
            last
        } else {
            j
        }
    }
}

/// No text is lost: for every text there is an entry with its hash, at least as
/// recent, and pinned if the text was.
pub proof fn law_rehash_loses_no_text(rows: Seq<OldView>, i: int)
    requires
        old_ids_increase(rows),
        0 <= i < rows.len(),
        holds_text(rows[i]),
    ensures
        exists|k: int|
            0 <= k < rehashed(rows, rows.len() as int).len() && ({
                let r = #[trigger] rehashed(rows, rows.len() as int)[k];
                r.hash == stable(rows[i]) && r.ts >= rows[i].ts && (rows[i].pinned ==> r.pinned)
            }),
{
    let j = lemma_newest_twin(rows, i, rows.len() as int);
    assert forall|x: int| 0 <= x < rows.len() && x != j && twins(rows[j], #[trigger] rows[x]) implies old_newer(
        rows[j],
        rows[x],
    ) by {
        assert(twins(rows[i], rows[x]));
    }
    assert(survives(rows, j));
    let k = lemma_present(rows, rows.len() as int, j);
    let r = rehashed(rows, rows.len() as int)[k];
    assert(r == merged_row(rows, j));
    if rows[i].pinned {
        assert(twins(rows[j], rows[i]) && rows[i].pinned);
    }
}

proof fn lemma_rehash_gives_a_history(rows: Seq<OldView>, n: int)
    requires
        0 <= n <= rows.len(),
        old_ids_increase(rows),
        old_hashes_differ(rows),
        forall|i: int|
            0 <= i < rows.len() && holds_text(#[trigger] rows[i]) ==> is_stable_form(
                stable(rows[i]),
            ),
    ensures
        store::ids_increase(rehashed(rows, n)),
        store::hashes_differ(rehashed(rows, n)),
    decreases n,
{
    if n > 0 {
        lemma_rehash_gives_a_history(rows, n - 1);
        let front = rehashed(rows, n - 1);
        let out = rehashed(rows, n);
        let last = n - 1;
        if out.len() > front.len() {
            let r = out[front.len() as int];
            assert(comes_from(rows, last, r));
            assert forall|k: int| 0 <= k < front.len() implies (#[trigger] front[k]).id < r.id
                && front[k].hash != r.hash by {
                let i = lemma_origin(rows, n - 1, k);
                assert(rows[i].id < rows[last].id);
                if holds_text(rows[i]) && holds_text(rows[last]) {
                    if stable(rows[i]) == stable(rows[last]) {
                        assert(twins(rows[i], rows[last]) && twins(rows[last], rows[i]));
                        assert(old_newer(rows[i], rows[last]));
                        assert(old_newer(rows[last], rows[i]));
                    }
                } else if holds_text(rows[i]) {
                    lemma_stable_is_no_image(stable(rows[i]), rows[last].hash->0);
                } else if holds_text(rows[last]) {
                    lemma_stable_is_no_image(stable(rows[last]), rows[i].hash->0);
                } else {
                    assert(rows[i].hash != rows[last].hash);
                }
            }
            assert(out == front.push(r));
        }
    }
}

proof fn lemma_stable_is_no_image(h: Seq<char>, image: Seq<char>)
    requires
        is_stable_form(h),
        marks_image(image),
    ensures
        h != image,
{
    reveal_strlit("img:");
    assert("img:"@[0] == 'i');
    assert(text::folded("img:"@[0]) == text::folded(image[0 + 0int]));
    assert(digest::is_hex(h[0]));
}

/// A row as earlier versions would have written it.
pub open spec fn as_old(r: RowView) -> OldView {
    OldView {
        id: r.id,
        hash: Some(r.hash),
        text: r.text,
        mime: r.mime,
        ts: r.ts,
        pinned: r.pinned,
        size: r.size,
        image_path: r.image_path,
    }
}

proof fn lemma_no_first_image(rows: Seq<OldView>, i: int, n: int)
    requires
        0 <= n <= rows.len(),
        0 <= i < rows.len(),
        rows[i].image_path is None,
        forall|j: int| 0 <= j < rows.len() && twins(rows[i], #[trigger] rows[j]) ==> j == i,
    ensures
        first_image(rows, i, n) is None,
    decreases n,
{
    if n > 0 {
        lemma_no_first_image(rows, i, n - 1);
        if twins(rows[i], rows[n - 1]) {
            assert(n - 1 == i);
        }
    }
}

/// A database whose texts have stable hashes stays as it is.
pub proof fn law_rehash_twice_changes_nothing(rows: Seq<RowView>, n: int)
    requires
        0 <= n <= rows.len(),
        store::hashes_differ(rows),
        forall|i: int|
            0 <= i < rows.len() ==> marks_image((#[trigger] rows[i]).hash) || rows[i].hash
                == digest::text_hash(rows[i].text),
    ensures
        rehashed(rows.map_values(|r: RowView| as_old(r)), n) == rows.take(n),
    decreases n,
{
    let old = rows.map_values(|r: RowView| as_old(r));
    if n > 0 {
        law_rehash_twice_changes_nothing(rows, n - 1);
        let i = n - 1;
        assert(rows.take(n) == rows.take(n - 1).push(rows[i]));
        assert(old[i] == as_old(rows[i]));
        if holds_text(old[i]) {
            assert forall|j: int| 0 <= j < old.len() && twins(old[i], #[trigger] old[j]) implies j
                == i by {
                assert(old[j] == as_old(rows[j]));
                assert(rows[j].hash == rows[i].hash);
                if j < i {
                    assert(rows[j].hash != rows[i].hash);
                } else if j > i {
                    assert(rows[i].hash != rows[j].hash);
                }
            }
            assert(survives(old, i));
            assert(any_pinned(old, i) == rows[i].pinned) by {
                if rows[i].pinned {
                    assert(twins(old[i], old[i]) && old[i].pinned);
                }
            }
            if rows[i].image_path is None {
                lemma_no_first_image(old, i, old.len() as int);
            }
            assert(merged_row(old, i) == rows[i]);
        } else {
            assert(kept_row(old[i]) == rows[i]);
        }
    } else {
        assert(rows.take(0) == Seq::<RowView>::empty());
    }
}

proof fn lemma_remapped(rows: Seq<OldView>, n: int, i: int, h: Seq<char>)
    requires
        0 <= i < n <= rows.len(),
        holds_text(rows[i]),
        rows[i].hash == Some(h),
        forall|a: int, b: int|
            0 <= a < b < rows.len() && (#[trigger] rows[a]).hash is Some ==> rows[a].hash != (
            #[trigger] rows[b]).hash,
    ensures
        remapped(rows, n, h) == Some(stable(rows[i])),
    decreases n,
{
    if i < n - 1 {
        assert(rows[i].hash != rows[n - 1].hash);
        lemma_remapped(rows, n - 1, i, h);
    }
}

/// The pointer to the current item follows its entry to the new hash.
pub proof fn law_pointer_follows(rows: Seq<OldView>, i: int, h: Seq<char>)
    requires
        0 <= i < rows.len(),
        holds_text(rows[i]),
        rows[i].hash == Some(h),
        store::is_clean(h),
        old_hashes_differ(rows),
    ensures
        moved_pointer(rows, Some(h)) == Some(stable(rows[i])),
{
    lemma_remapped(rows, rows.len() as int, i, h);
}

/// Every row of the result is one of the rows before: its id, text, type, time and size
/// are those of that row. A text is pinned where one of the texts with its hash was,
/// and has a data file only where one of them had it.
pub proof fn law_rehashed_rows_come_from_old_rows(rows: Seq<OldView>, k: int)
    requires
        0 <= k < rehashed(rows, rows.len() as int).len(),
    ensures
        ({
            let r = rehashed(rows, rows.len() as int)[k];
            exists|i: int|
                0 <= i < rows.len() && {
                    let o = #[trigger] rows[i];
                    &&& r.id == o.id && r.text == o.text && r.mime == o.mime && r.ts == o.ts
                    &&& r.size == o.size
                    &&& o.image_path is Some ==> r.image_path == o.image_path
                    &&& r.image_path is Some ==> exists|j: int|
                        0 <= j < rows.len() && (#[trigger] rows[j]).image_path == r.image_path && (j
                            == i || twins(o, rows[j]))
                    &&& o.hash is Some && text::found_at(o.hash->0, "img:"@, 0) ==> r.hash
                        == o.hash->0 && r.pinned == o.pinned
                    &&& o.hash is None || !text::found_at(o.hash->0, "img:"@, 0) ==> r.hash
                        == digest::text_hash(o.text) && (r.pinned <==> exists|j: int|
                        0 <= j < rows.len() && (#[trigger] rows[j]).pinned && holds_text(rows[j])
                            && digest::text_hash(rows[j].text) == r.hash)
                }
        }),
{
    let i = lemma_origin(rows, rows.len() as int, k);
    let o = rows[i];
    let r = rehashed(rows, rows.len() as int)[k];
    if holds_text(o) {
        assert(r == merged_row(rows, i));
        if o.image_path is None && r.image_path is Some {
            lemma_first_image_is_of_a_twin(rows, i, rows.len() as int);
        }
        if r.pinned {
            let j = choose|j: int|
                0 <= j < rows.len() && twins(rows[i], #[trigger] rows[j]) && rows[j].pinned;
            assert(rows[j].pinned && holds_text(rows[j]) && digest::text_hash(rows[j].text)
                == r.hash);
        }
        if exists|j: int|
            0 <= j < rows.len() && (#[trigger] rows[j]).pinned && holds_text(rows[j])
                && digest::text_hash(rows[j].text) == r.hash {
            let j = choose|j: int|
                0 <= j < rows.len() && (#[trigger] rows[j]).pinned && holds_text(rows[j])
                    && digest::text_hash(rows[j].text) == r.hash;
            assert(twins(rows[i], rows[j]));
        }
    }
}

proof fn lemma_first_image_is_of_a_twin(rows: Seq<OldView>, i: int, n: int)
    requires
        0 <= n <= rows.len(),
        first_image(rows, i, n) is Some,
    ensures
        exists|j: int|
            0 <= j < n && (#[trigger] rows[j]).image_path == first_image(rows, i, n) && twins(
                rows[i],
                rows[j],
            ),
    decreases n,
{
    if n > 0 {
        if first_image(rows, i, n - 1) is Some {
            lemma_first_image_is_of_a_twin(rows, i, n - 1);
        } else {
            assert(rows[n - 1].image_path == first_image(rows, i, n));
        }
    }
}

proof fn lemma_not_remapped(rows: Seq<OldView>, n: int, h: Seq<char>)
    requires
        0 <= n <= rows.len(),
        forall|i: int|
            0 <= i < rows.len() && holds_text(#[trigger] rows[i]) ==> rows[i].hash != Some(h),
    ensures
        remapped(rows, n, h) is None,
    decreases n,
{
    if n > 0 {
        lemma_not_remapped(rows, n - 1, h);
        assert(holds_text(rows[n - 1]) ==> rows[n - 1].hash != Some(h));
    }
}

/// A pointer that names no text among the rows stays as it is.
pub proof fn law_other_pointers_stay(rows: Seq<OldView>, current: Option<Seq<char>>)
    requires
        forall|i: int|
            0 <= i < rows.len() && holds_text(#[trigger] rows[i]) ==> rows[i].hash != store::pointed(
                current,
            ),
    ensures
        moved_pointer(rows, current) == current,
{
    if store::pointed(current) is Some {
        lemma_not_remapped(rows, rows.len() as int, store::pointed(current)->0);
    }
}

/// A row holds a text unless its hash begins as the hashes of images do.
pub proof fn law_images_are_told_by_their_hashes(r: OldView)
    ensures
        holds_text(r) <==> r.hash is None || !text::found_at(r.hash->0, "img:"@, 0),
{
}

/// Each step brings the schema one version further, up to the last, which is the
/// fourth; there is a step exactly as long as it is not reached.
pub proof fn law_schema_goes_step_by_step(version: i64, has_image_column: bool)
    ensures
        step_from(version, has_image_column) is Some <==> version < 4,
        0 < version < 4 ==> version_after(version) == version + 1,
        version <= 0 ==> version_after(version) == 1,
        step_from(version, has_image_column) == Some(SchemaStep::AddImageColumn) ==> version == 1
            && !has_image_column,
        step_from(version, has_image_column) == Some(SchemaStep::RehashTexts) <==> version == 3,
        step_from(version, has_image_column) == Some(SchemaStep::CreateIndex) <==> version == 2,
        step_from(version, has_image_column) == Some(SchemaStep::CreateTable) <==> version < 1,
{
}

/// What contracts speak of an old row is what it holds.
pub proof fn law_old_rows_are_their_fields(v: Seq<OldRow>, i: int)
    requires
        0 <= i < v.len(),
    ensures
        old_views(v).len() == v.len(),
        ({
            let a = v[i];
            let b = old_views(v)[i];
            &&& b.id == a.id && b.text == a.text@ && b.mime == a.mime@ && b.ts == a.ts
            &&& b.pinned == a.pinned && b.size == a.size
            &&& b.hash == store::opt_text(a.hash) && b.image_path == store::opt_text(a.image_path)
        }),
{
}

} // verus!
