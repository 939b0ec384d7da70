//! The history in memory and the table it is kept in: reading all rows back,
//! and the changes that an operation asks of the table.

use super::digest;
use super::{Row, RowView, Store, StoreError, StoreView};
use crate::order;
use crate::order::Key;
use crate::store;
use vstd::prelude::*;

verus! {

/// The rank by which rows with equal hashes are brought together.
spec fn hash_rank(r: RowView) -> int {
    digest::fnv(crate::text::utf8(r.hash)) as int
}

fn ids_and_rows_fine(rows: &Vec<Row>, last_id: i64) -> (b: bool)
    ensures
        b == ({
            let view = store::rows_view(rows@);
            &&& store::ids_increase(view)
            &&& forall|i: int|
                0 <= i < view.len() ==> store::row_valid(#[trigger] view[i], last_id as int)
        }),
{
    let ghost view = store::rows_view(rows@);
    let mut i: usize = 0;
    while i < rows.len()
        invariant
            i <= rows.len(),
            view == store::rows_view(rows@),
            forall|a: int, b: int|
                0 <= a < b < i ==> (#[trigger] view[a]).id < (#[trigger] view[b]).id,
            forall|a: int| 0 <= a < i ==> store::row_valid(#[trigger] view[a], last_id as int),
        decreases rows.len() - i,
    {
        assert(view[i as int] == rows@[i as int]@);
        let r = &rows[i];
        if i > 0 && rows[i - 1].id >= r.id {
            assert(view[i - 1] == rows@[i - 1]@);
            assert(view[i - 1].id >= view[i as int].id);
            return false;
        }
        let t = crate::text::trim(r.hash.as_str());
        if r.id < 1 || r.id > last_id || r.size < 0 || r.hash.as_str().is_empty() || t != r.hash {
            assert(!store::row_valid(view[i as int], last_id as int));
            return false;
        }
        assert forall|a: int, b: int| 0 <= a < b < i + 1 implies (#[trigger] view[a]).id < (
        #[trigger] view[b]).id by {
            if b == i {
                assert(view[i - 1] == rows@[i - 1]@);
                if a < i - 1 {
                    assert(view[a].id < view[i - 1].id);
                }
            }
        }
        i += 1;
    }
    true
}

fn hashes_fine(rows: &Vec<Row>) -> (b: bool)
    requires
        store::ids_increase(store::rows_view(rows@)),
    ensures
        b == store::hashes_differ(store::rows_view(rows@)),
{
    let ghost view = store::rows_view(rows@);
    let mut keys: Vec<Key> = Vec::new();
    let mut i: usize = 0;
    while i < rows.len()
        invariant
            i <= rows.len(),
            keys.len() == i,
            view == store::rows_view(rows@),
            forall|x: int|
                0 <= x < i ==> {
                    let k = #[trigger] keys@[x];
                    k.at == x && k.id == view[x].id && k.rank == hash_rank(view[x]) && k.ts == 0
                },
        decreases rows.len() - i,
    {
        assert(view[i as int] == rows@[i as int]@);
        let h: u64 = digest::fnv64(rows[i].hash.as_str().as_bytes());
        keys.push(Key { rank: h as i128, ts: 0, id: rows[i].id as i128, at: i });
        i += 1;
    }
    assert forall|x: int, y: int| 0 <= x < y < keys.len() implies (#[trigger] keys@[x]).id != (
    #[trigger] keys@[y]).id by {
        assert(view[x].id < view[y].id);
    }
    let sorted = order::sort(&keys);
    proof {
        assert forall|x: int| 0 <= x < sorted.len() implies {
            let k = #[trigger] sorted@[x];
            k.at < rows.len() && k.id == view[k.at as int].id && k.rank == hash_rank(
                view[k.at as int],
            ) && k.ts == 0
        } by {
            assert(sorted@.contains(sorted@[x]));
            assert(keys@.contains(sorted@[x]));
            let z = choose|z: int| 0 <= z < keys.len() && keys@[z] == sorted@[x];
            assert(keys@[z].at == z);
        }
    }
    let mut x: usize = 0;
    while x < sorted.len()
        invariant
            x <= sorted.len(),
            view == store::rows_view(rows@),
            store::ids_increase(view),
            order::keys_sorted(sorted@),
            forall|x: int|
                0 <= x < sorted.len() ==> {
                    let k = #[trigger] sorted@[x];
                    k.at < rows.len() && k.id == view[k.at as int].id && k.rank == hash_rank(
                        view[k.at as int],
                    ) && k.ts == 0
                },
            forall|a: int, b: int|
                0 <= a < x && a < b < sorted.len() ==> view[(#[trigger] sorted@[a]).at as int].hash
                    != view[(#[trigger] sorted@[b]).at as int].hash,
        decreases sorted.len() - x,
    {
        let p: usize = sorted[x].at;
        let mut y: usize = x + 1;
        while y < sorted.len() && sorted[y].rank == sorted[x].rank
            invariant
                x < y <= sorted.len(),
                view == store::rows_view(rows@),
                store::ids_increase(view),
                order::keys_sorted(sorted@),
                forall|x: int|
                    0 <= x < sorted.len() ==> {
                        let k = #[trigger] sorted@[x];
                        k.at < rows.len() && k.id == view[k.at as int].id && k.rank == hash_rank(
                            view[k.at as int],
                        ) && k.ts == 0
                    },
                p == sorted@[x as int].at,
                forall|b: int|
                    x < b < y ==> view[p as int].hash != view[(
                    #[trigger] sorted@[b]).at as int].hash,
            decreases sorted.len() - y,
        {
            let q: usize = sorted[y].at;
            assert(view[p as int] == rows@[p as int]@ && view[q as int] == rows@[q as int]@);
            if rows[p].hash == rows[q].hash {
                proof {
                    assert(order::key_above(sorted@[x as int], sorted@[y as int]));
                    assert(view[p as int].id != view[q as int].id);
                    if p < q {
                        assert(view[p as int].hash == view[q as int].hash);
                    } else {
                        assert(view[q as int].hash == view[p as int].hash);
                    }
                }
                return false;
            }
            y += 1;
        }
        assert forall|b: int| x < b < sorted.len() implies view[p as int].hash != view[(
        #[trigger] sorted@[b]).at as int].hash by {
            if b >= y {
                assert(order::key_above(sorted@[x as int], sorted@[y as int]));
                if b > y {
                    assert(order::key_above(sorted@[y as int], sorted@[b]));
                }
                assert(sorted@[b].rank < sorted@[x as int].rank);
            }
        }
        x += 1;
    }
    assert forall|i: int, j: int| 0 <= i < j < view.len() implies (#[trigger] view[i]).hash != (
    #[trigger] view[j]).hash by {
        assert(keys@[i].at == i && keys@[j].at == j);
        assert(keys@.contains(keys@[i]) && keys@.contains(keys@[j]));
        assert(sorted@.contains(keys@[i]) && sorted@.contains(keys@[j]));
        let a = choose|a: int| 0 <= a < sorted.len() && sorted@[a] == keys@[i];
        let b = choose|b: int| 0 <= b < sorted.len() && sorted@[b] == keys@[j];
        if a < b {
            assert(view[sorted@[a].at as int].hash != view[sorted@[b].at as int].hash);
        } else {
            assert(view[sorted@[b].at as int].hash != view[sorted@[a].at as int].hash);
        }
    }
    true
}

impl Store {
    /// A history without entries.
    pub fn new() -> (s: Store)
        ensures
            s.wf(),
            s@ == (StoreView { rows: Seq::empty(), last_id: 0, current: None }),
    {
        let s = Store { rows: Vec::new(), last_id: 0, current: None };
        assert(s@.rows == Seq::<RowView>::empty());
        s
    }

    /// The history that the rows of the table make, by increasing id, with the
    /// last id that the table gave out and the pointer to the current item.
    pub fn load(rows: Vec<Row>, last_id: i64, current: Option<String>) -> (r: Result<
        Store,
        StoreError,
    >)
        ensures
            ({
                let v = StoreView {
                    rows: store::rows_view(rows@),
                    last_id: last_id as int,
                    current: store::opt_text(current),
                };
                match r {
                    Ok(s) => s.wf() && s@ == v,
                    Err(e) => !v.valid() && e == StoreError::Invalid,
                }
            }),
    {
        if last_id < 0 || !ids_and_rows_fine(&rows, last_id) || !hashes_fine(&rows) {
            return Err(StoreError::Invalid);
        }
        Ok(Store { rows, last_id, current })
    }
}

/// A change of one row of the table.
#[derive(Debug, Clone)]
pub enum Change {
    /// The row is deleted, and its data file with it.
    Remove { id: i64, image_path: Option<String> },
    /// The row is added.
    Insert(Row),
    /// The row with this id is replaced.
    Update(Row),
}

/// The contents of a change.
pub enum ChangeView {
    Remove { id: int, image_path: Option<Seq<char>> },
    Insert(RowView),
    Update(RowView),
}

impl View for Change {
    type V = ChangeView;

    open spec fn view(&self) -> ChangeView {
        match self {
            Change::Remove { id, image_path } => ChangeView::Remove {
                id: *id as int,
                image_path: store::opt_text(*image_path),
            },
            Change::Insert(r) => ChangeView::Insert(r@),
            Change::Update(r) => ChangeView::Update(r@),
        }
    }
}

/// The contents of a list of changes.
pub open spec fn changes_view(s: Seq<Change>) -> Seq<ChangeView> {
    s.map_values(|c: Change| c@)
}

/// The removals that the first `n` rows before an operation call for.
pub open spec fn removals(before: Seq<RowView>, after: Seq<RowView>, n: int) -> Seq<ChangeView>
    decreases n,
{
    if n <= 0 {
        Seq::empty()
    } else {
        let front = removals(before, after, n - 1);
        let r = before[n - 1];
        if store::has_id(after, r.id) {
            front
        } else {
            front.push(ChangeView::Remove { id: r.id, image_path: r.image_path })
        }
    }
}

/// The additions and replacements that the first `n` rows after an operation
/// call for.
pub open spec fn writes(before: Seq<RowView>, after: Seq<RowView>, n: int) -> Seq<ChangeView>
    decreases n,
{
    if n <= 0 {
        Seq::empty()
    } else {
        let front = writes(before, after, n - 1);
        let r = after[n - 1];
        if !store::has_id(before, r.id) {
            front.push(ChangeView::Insert(r))
        } else if before[store::id_index(before, r.id)] != r {
            front.push(ChangeView::Update(r))
        } else {
            front
        }
    }
}

/// The changes that an operation asks of the table: what goes, then what comes
/// or is replaced, each by increasing id.
pub open spec fn change_list(before: Seq<RowView>, after: Seq<RowView>) -> Seq<ChangeView> {
    removals(before, after, before.len() as int) + writes(before, after, after.len() as int)
}

/// The position of a row by its id.
fn find_sorted(rows: &Vec<Row>, id: i64) -> (r: Option<usize>)
    requires
        store::ids_increase(store::rows_view(rows@)),
    ensures
        match r {
            Some(i) => i < rows.len() && rows@[i as int].id == id,
            None => !store::has_id(store::rows_view(rows@), id as int),
        },
{
    let ghost view = store::rows_view(rows@);
    let mut lo: usize = 0;
    let mut hi: usize = rows.len();
    while lo < hi
        invariant
            lo <= hi <= rows.len(),
            view == store::rows_view(rows@),
            store::ids_increase(view),
            forall|k: int| 0 <= k < lo ==> (#[trigger] view[k]).id < id,
            forall|k: int| hi <= k < view.len() ==> (#[trigger] view[k]).id > id,
        decreases hi - lo,
    {
        let mid: usize = lo + (hi - lo) / 2;
        assert(view[mid as int] == rows@[mid as int]@);
        let m: i64 = rows[mid].id;
        if m == id {
            return Some(mid);
        } else if m < id {
            assert forall|k: int| 0 <= k < mid + 1 implies (#[trigger] view[k]).id < id by {
                if k < mid {
                    assert(view[k].id < view[mid as int].id);
                }
            }
            lo = mid + 1;
        } else {
            assert forall|k: int| mid <= k < view.len() implies (#[trigger] view[k]).id > id by {
                if k > mid {
                    assert(view[mid as int].id < view[k].id);
                }
            }
            hi = mid;
        }
    }
    None
}

fn same_opt(a: &Option<String>, b: &Option<String>) -> (r: bool)
    ensures
        r == (store::opt_text(*a) == store::opt_text(*b)),
{
    match (a, b) {
        (Some(x), Some(y)) => *x == *y,
        (None, None) => true,
        _ => false,
    }
}

fn same_row(a: &Row, b: &Row) -> (r: bool)
    ensures
        r == (a@ == b@),
{
    a.id == b.id && a.hash == b.hash && a.text == b.text && a.mime == b.mime && a.ts == b.ts
        && a.pinned == b.pinned && a.size == b.size && same_opt(&a.image_path, &b.image_path)
}

proof fn lemma_changes_push(out: Seq<Change>, c: Change)
    ensures
        changes_view(out.push(c)) == changes_view(out).push(c@),
{
    assert(changes_view(out.push(c)) =~= changes_view(out).push(c@));
}

/// The changes that turn the rows before an operation into those after it.
pub fn changes(before: &Store, after: &Store) -> (out: Vec<Change>)
    requires
        before.wf(),
        after.wf(),
    ensures
        changes_view(out@) == change_list(before@.rows, after@.rows),
{
    let ghost old_rows = before@.rows;
    let ghost new_rows = after@.rows;
    let mut out: Vec<Change> = Vec::new();
    let mut i: usize = 0;
    assert(changes_view(out@) =~= removals(old_rows, new_rows, 0));
    while i < before.rows.len()
        invariant
            i <= before.rows.len(),
            after.wf(),
            old_rows == before@.rows,
            new_rows == after@.rows,
            changes_view(out@) == removals(old_rows, new_rows, i as int),
        decreases before.rows.len() - i,
    {
        assert(old_rows[i as int] == before.rows@[i as int]@);
        let r = &before.rows[i];
        let found = find_sorted(&after.rows, r.id);
        if let Some(k) = found {
            assert(new_rows[k as int].id == r.id);
        }
        if found.is_none() {
            let c = Change::Remove { id: r.id, image_path: store::copy_opt(&r.image_path) };
            proof {
                lemma_changes_push(out@, c);
            }
            out.push(c);
        }
        i += 1;
    }
    let ghost first = changes_view(out@);
    let mut j: usize = 0;
    assert(first =~= first + writes(old_rows, new_rows, 0));
    while j < after.rows.len()
        invariant
            j <= after.rows.len(),
            before.wf(),
            old_rows == before@.rows,
            new_rows == after@.rows,
            changes_view(out@) == first + writes(old_rows, new_rows, j as int),
        decreases after.rows.len() - j,
    {
        assert(new_rows[j as int] == after.rows@[j as int]@);
        let r = &after.rows[j];
        let found = find_sorted(&before.rows, r.id);
        let ghost front = writes(old_rows, new_rows, j as int);
        match found {
            None => {
                let c = Change::Insert(r.copy());
                proof {
                    lemma_changes_push(out@, c);
                    assert(first + front.push(c@) =~= (first + front).push(c@));
                }
                out.push(c);
            },
            Some(k) => {
                proof {
                    assert(old_rows[k as int] == before.rows@[k as int]@);
                    super::query::lemma_id_unique(old_rows, r.id as int, k as int);
                }
                if !same_row(&before.rows[k], r) {
                    let c = Change::Update(r.copy());
                    proof {
                        lemma_changes_push(out@, c);
                        assert(first + front.push(c@) =~= (first + front).push(c@));
                    }
                    out.push(c);
                }
            },
        }
        j += 1;
    }
    out
}

/// The table that holds the given rows, by id.
pub open spec fn table(rows: Seq<RowView>) -> Map<int, RowView> {
    Map::new(|id: int| store::has_id(rows, id), |id: int| rows[store::id_index(rows, id)])
}

/// The table after a change.
pub open spec fn changed(t: Map<int, RowView>, c: ChangeView) -> Map<int, RowView> {
    match c {
        ChangeView::Remove { id, .. } => t.remove(id),
        ChangeView::Insert(r) => t.insert(r.id, r),
        ChangeView::Update(r) => t.insert(r.id, r),
    }
}

/// The table after some changes, one after the other.
pub open spec fn replayed(t: Map<int, RowView>, cs: Seq<ChangeView>) -> Map<int, RowView>
    decreases cs.len(),
{
    if cs.len() == 0 {
        t
    } else {
        changed(replayed(t, cs.drop_last()), cs.last())
    }
}

proof fn lemma_replayed_push(t: Map<int, RowView>, cs: Seq<ChangeView>, c: ChangeView)
    ensures
        replayed(t, cs.push(c)) == changed(replayed(t, cs), c),
{
    assert(cs.push(c).drop_last() =~= cs);
}

/// Whether an id is that of one of the first `n` rows.
spec fn is_early(rows: Seq<RowView>, n: int, id: int) -> bool {
    exists|i: int| 0 <= i < n && (#[trigger] rows[i]).id == id
}

proof fn lemma_early_step(rows: Seq<RowView>, n: int, id: int)
    requires
        0 < n <= rows.len(),
    ensures
        is_early(rows, n, id) <==> is_early(rows, n - 1, id) || rows[n - 1].id == id,
{
    if is_early(rows, n, id) && !is_early(rows, n - 1, id) {
        let i = choose|i: int| 0 <= i < n && (#[trigger] rows[i]).id == id;
        assert(i == n - 1);
    }
    if rows[n - 1].id == id {
        assert(is_early(rows, n, id));
    }
}

proof fn lemma_removed(before: Seq<RowView>, after: Seq<RowView>, n: int)
    requires
        0 <= n <= before.len(),
    ensures
        ({
            let t = replayed(table(before), removals(before, after, n));
            forall|id: int|
                {
                    &&& #[trigger] t.dom().contains(id) <==> store::has_id(before, id) && !(
                    is_early(before, n, id) && !store::has_id(after, id))
                    &&& t.dom().contains(id) ==> t[id] == table(before)[id]
                }
        }),
    decreases n,
{
    if n > 0 {
        lemma_removed(before, after, n - 1);
        let front = removals(before, after, n - 1);
        let r = before[n - 1];
        let t0 = replayed(table(before), front);
        let t = replayed(table(before), removals(before, after, n));
        if !store::has_id(after, r.id) {
            lemma_replayed_push(
                table(before),
                front,
                ChangeView::Remove { id: r.id, image_path: r.image_path },
            );
        }
        assert forall|id: int|
            {
                &&& #[trigger] t.dom().contains(id) <==> store::has_id(before, id) && !(is_early(
                    before,
                    n,
                    id,
                ) && !store::has_id(after, id))
                &&& t.dom().contains(id) ==> t[id] == table(before)[id]
            } by {
            lemma_early_step(before, n, id);
            assert(t0.dom().contains(id) <==> store::has_id(before, id) && !(is_early(
                before,
                n - 1,
                id,
            ) && !store::has_id(after, id)));
        }
    }
}

proof fn lemma_written(before: Seq<RowView>, after: Seq<RowView>, n: int)
    requires
        store::ids_increase(before),
        store::ids_increase(after),
        0 <= n <= after.len(),
    ensures
        ({
            let first = removals(before, after, before.len() as int);
            let t = replayed(table(before), first + writes(before, after, n));
            forall|id: int|
                {
                    &&& #[trigger] t.dom().contains(id) <==> is_early(after, n, id) || (
                    store::has_id(before, id) && store::has_id(after, id))
                    &&& t.dom().contains(id) ==> t[id] == if is_early(after, n, id) {
                        table(after)[id]
                    } else {
                        table(before)[id]
                    }
                }
        }),
    decreases n,
{
    let first = removals(before, after, before.len() as int);
    if n <= 0 {
        assert(first + writes(before, after, n) =~= first);
        lemma_removed(before, after, before.len() as int);
        let t = replayed(table(before), first);
        assert forall|id: int|
            {
                &&& #[trigger] t.dom().contains(id) <==> is_early(after, n, id) || (store::has_id(
                    before,
                    id,
                ) && store::has_id(after, id))
                &&& t.dom().contains(id) ==> t[id] == if is_early(after, n, id) {
                    table(after)[id]
                } else {
                    table(before)[id]
                }
            } by {
            assert(is_early(before, before.len() as int, id) <==> store::has_id(before, id));
        }
    } else {
        lemma_written(before, after, n - 1);
        let front = writes(before, after, n - 1);
        let r = after[n - 1];
        super::query::lemma_id_unique(after, r.id, n - 1);
        let t0 = replayed(table(before), first + front);
        let t = replayed(table(before), first + writes(before, after, n));
        let c = if !store::has_id(before, r.id) {
            ChangeView::Insert(r)
        } else {
            ChangeView::Update(r)
        };
        lemma_replayed_push(table(before), first + front, c);
        assert(first + front.push(c) =~= (first + front).push(c));
        assert forall|id: int|
            {
                &&& #[trigger] t.dom().contains(id) <==> is_early(after, n, id) || (store::has_id(
                    before,
                    id,
                ) && store::has_id(after, id))
                &&& t.dom().contains(id) ==> t[id] == if is_early(after, n, id) {
                    table(after)[id]
                } else {
                    table(before)[id]
                }
            } by {
            lemma_early_step(after, n, id);
            assert(t0.dom().contains(id) <==> is_early(after, n - 1, id) || (store::has_id(
                before,
                id,
            ) && store::has_id(after, id)));
        }
    }
}

/// The changes turn the table before an operation into the table after it.
pub proof fn law_changes_lead_to_the_new_table(before: Seq<RowView>, after: Seq<RowView>)
    requires
        store::ids_increase(before),
        store::ids_increase(after),
    ensures
        replayed(table(before), change_list(before, after)) == table(after),
{
    lemma_written(before, after, after.len() as int);
    let t = replayed(table(before), change_list(before, after));
    assert forall|id: int| #[trigger] t.dom().contains(id) <==> table(after).dom().contains(id) by {
        assert(is_early(after, after.len() as int, id) <==> store::has_id(after, id));
    }
    assert forall|id: int| #[trigger] t.dom().contains(id) implies t[id] == table(after)[id] by {
        assert(is_early(after, after.len() as int, id) <==> store::has_id(after, id));
    }
    assert(t =~= table(after));
}

/// An operation that leaves the rows as they are asks nothing of the table.
pub proof fn law_no_change_is_no_work(rows: Seq<RowView>)
    requires
        store::ids_increase(rows),
    ensures
        change_list(rows, rows) == Seq::<ChangeView>::empty(),
{
    lemma_nothing_goes(rows, rows.len() as int);
    lemma_nothing_comes(rows, rows.len() as int);
    assert(change_list(rows, rows) =~= Seq::empty());
}

proof fn lemma_nothing_goes(rows: Seq<RowView>, n: int)
    requires
        0 <= n <= rows.len(),
    ensures
        removals(rows, rows, n) == Seq::<ChangeView>::empty(),
    decreases n,
{
    if n > 0 {
        lemma_nothing_goes(rows, n - 1);
        assert(store::has_id(rows, rows[n - 1].id));
    }
}

proof fn lemma_nothing_comes(rows: Seq<RowView>, n: int)
    requires
        store::ids_increase(rows),
        0 <= n <= rows.len(),
    ensures
        writes(rows, rows, n) == Seq::<ChangeView>::empty(),
    decreases n,
{
    if n > 0 {
        lemma_nothing_comes(rows, n - 1);
        super::query::lemma_id_unique(rows, rows[n - 1].id, n - 1);
    }
}

proof fn lemma_removals_are_right(before: Seq<RowView>, after: Seq<RowView>, n: int, k: int)
    requires
        0 <= n <= before.len(),
        0 <= k < removals(before, after, n).len(),
    ensures
        exists|i: int|
            0 <= i < n && !store::has_id(after, (#[trigger] before[i]).id) && removals(
                before,
                after,
                n,
            )[k] == (ChangeView::Remove { id: before[i].id, image_path: before[i].image_path }),
    decreases n,
{
    if n > 0 {
        let front = removals(before, after, n - 1);
        if k < front.len() {
            lemma_removals_are_right(before, after, n - 1, k);
            assert(removals(before, after, n)[k] == front[k]);
        } else {
            assert(!store::has_id(after, before[n - 1].id));
        }
    }
}

proof fn lemma_writes_are_right(before: Seq<RowView>, after: Seq<RowView>, n: int, k: int)
    requires
        0 <= n <= after.len(),
        0 <= k < writes(before, after, n).len(),
    ensures
        exists|i: int|
            0 <= i < n && writes(before, after, n)[k] == if store::has_id(
                before,
                (#[trigger] after[i]).id,
            ) {
                ChangeView::Update(after[i])
            } else {
                ChangeView::Insert(after[i])
            },
    decreases n,
{
    if n > 0 {
        let front = writes(before, after, n - 1);
        if k < front.len() {
            lemma_writes_are_right(before, after, n - 1, k);
            assert(writes(before, after, n)[k] == front[k]);
        } else {
            let r = after[n - 1];
            assert(writes(before, after, n)[k] == if store::has_id(before, r.id) {
                ChangeView::Update(r)
            } else {
                ChangeView::Insert(r)
            });
        }
    }
}

/// Each change has its reason: a row is removed, with its own data file, where it is
/// there no longer; a row is added where its id is new, and replaced where it is not.
pub proof fn law_changes_have_their_reasons(before: Seq<RowView>, after: Seq<RowView>, k: int)
    requires
        0 <= k < change_list(before, after).len(),
    ensures
        match change_list(before, after)[k] {
            ChangeView::Remove { id, image_path } => exists|i: int|
                0 <= i < before.len() && (#[trigger] before[i]).id == id && before[i].image_path
                    == image_path && !store::has_id(after, id),
            ChangeView::Insert(r) => after.contains(r) && !store::has_id(before, r.id),
            ChangeView::Update(r) => after.contains(r) && store::has_id(before, r.id),
        },
{
    let gone = removals(before, after, before.len() as int);
    if k < gone.len() {
        lemma_removals_are_right(before, after, before.len() as int, k);
    } else {
        let j = k - gone.len();
        lemma_writes_are_right(before, after, after.len() as int, j);
        let i = choose|i: int|
            0 <= i < after.len() && writes(before, after, after.len() as int)[j]
                == if store::has_id(before, (#[trigger] after[i]).id) {
                ChangeView::Update(after[i])
            } else {
                ChangeView::Insert(after[i])
            };
        assert(after.contains(after[i]));
    }
}

} // verus!
