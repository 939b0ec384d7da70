//! Which rows leave when the history or its images take too much room.

use super::{Row, RowView, Store, StoreError, StoreView};
use crate::store;
use vstd::prelude::*;

verus! {

/// Captured earlier; within one millisecond, stored earlier.
pub open spec fn older(a: RowView, b: RowView) -> bool {
    a.ts < b.ts || (a.ts == b.ts && a.id < b.id)
}

/// The rows that may leave to make room for others: all that are neither pinned
/// nor the current item.
pub open spec fn spare(cur: Seq<char>) -> spec_fn(RowView) -> bool {
    |r: RowView| !r.pinned && r.hash != cur
}

/// The rows that may leave to make room for images: those with a data file,
/// unless pinned or the current item.
pub open spec fn spare_image(cur: Seq<char>) -> spec_fn(RowView) -> bool {
    |r: RowView| !r.pinned && r.image_path is Some && r.hash != cur
}

/// Whether some row may leave.
pub open spec fn some_may(rows: Seq<RowView>, may: spec_fn(RowView) -> bool) -> bool {
    exists|i: int| 0 <= i < rows.len() && may(#[trigger] rows[i])
}

/// Whether the row at `i` may leave and none that may is older.
pub open spec fn is_oldest(rows: Seq<RowView>, may: spec_fn(RowView) -> bool, i: int) -> bool {
    &&& 0 <= i < rows.len()
    &&& may(rows[i])
    &&& forall|j: int| 0 <= j < rows.len() && may(#[trigger] rows[j]) ==> !older(rows[j], rows[i])
}

/// The position of the oldest row that may leave.
pub open spec fn oldest(rows: Seq<RowView>, may: spec_fn(RowView) -> bool) -> int {
    choose|i: int| is_oldest(rows, may, i)
}

/// The rows without the `k` oldest that may leave.
pub open spec fn drop_oldest(
    rows: Seq<RowView>,
    may: spec_fn(RowView) -> bool,
    k: nat,
) -> Seq<RowView>
    decreases k,
{
    if k == 0 || !some_may(rows, may) {
        rows
    } else {
        drop_oldest(rows.remove(oldest(rows, may)), may, (k - 1) as nat)
    }
}

/// The rows after the history is cut to `max` entries: the oldest rows leave, but
/// never a pinned one or the current item.
pub open spec fn cut_to(rows: Seq<RowView>, cur: Seq<char>, max: nat) -> Seq<RowView> {
    if rows.len() > max {
        drop_oldest(rows, spare(cur), (rows.len() - max) as nat)
    } else {
        rows
    }
}

/// The rows after images of at least `need` bytes have left, the oldest first,
/// or all that may.
pub open spec fn drop_images(rows: Seq<RowView>, cur: Seq<char>, need: int) -> Seq<RowView>
    decreases rows.len(),
    via drop_images_decreases
{
    if need <= 0 || !some_may(rows, spare_image(cur)) {
        rows
    } else {
        let i = oldest(rows, spare_image(cur));
        drop_images(rows.remove(i), cur, need - rows[i].size)
    }
}

#[via_fn]
proof fn drop_images_decreases(rows: Seq<RowView>, cur: Seq<char>, need: int) {
    if some_may(rows, spare_image(cur)) {
        lemma_oldest_exists(rows, spare_image(cur));
    }
}

/// The bytes of all images together.
pub open spec fn image_total(rows: Seq<RowView>) -> int
    decreases rows.len(),
{
    if rows.len() == 0 {
        0
    } else {
        image_total(rows.drop_last()) + if rows.last().image_path is Some {
            rows.last().size
        } else {
            0
        }
    }
}

/// Where some row may leave, one of them is the oldest.
pub proof fn lemma_oldest_exists(rows: Seq<RowView>, may: spec_fn(RowView) -> bool)
    requires
        some_may(rows, may),
    ensures
        is_oldest(rows, may, oldest(rows, may)),
    decreases rows.len(),
{
    let front = rows.drop_last();
    let last = rows.len() - 1;
    if some_may(front, may) {
        lemma_oldest_exists(front, may);
        let i = oldest(front, may);
        if may(rows[last]) && older(rows[last], rows[i]) {
            assert forall|j: int| 0 <= j < rows.len() && may(#[trigger] rows[j]) implies !older(
                rows[j],
                rows[last],
            ) by {
                if j < last {
                    assert(front[j] == rows[j]);
                }
            }
            assert(is_oldest(rows, may, last));
        } else {
            assert forall|j: int| 0 <= j < rows.len() && may(#[trigger] rows[j]) implies !older(
                rows[j],
                rows[i],
            ) by {
                if j < last {
                    assert(front[j] == rows[j]);
                }
            }
            assert(is_oldest(rows, may, i));
        }
    } else {
        let k = choose|k: int| 0 <= k < rows.len() && may(#[trigger] rows[k]);
        if k < last {
            assert(may(front[k]));
        }
        assert forall|j: int| 0 <= j < rows.len() && may(#[trigger] rows[j]) implies j == last by {
            if j < last {
                assert(may(front[j]));
            }
        }
        assert(is_oldest(rows, may, last));
    }
}

/// No other row is as old as the oldest.
pub proof fn lemma_oldest_unique(rows: Seq<RowView>, may: spec_fn(RowView) -> bool, i: int)
    requires
        store::ids_increase(rows),
        is_oldest(rows, may, i),
    ensures
        oldest(rows, may) == i,
{
    let j = oldest(rows, may);
    assert(is_oldest(rows, may, j));
    if i < j {
        assert(rows[i].id < rows[j].id);
    } else if j < i {
        assert(rows[j].id < rows[i].id);
    }
}

/// Rows that remain after one has left still form a history.
pub proof fn lemma_remove_valid(s: StoreView, i: int)
    requires
        s.valid(),
        0 <= i < s.rows.len(),
    ensures
        (StoreView { rows: s.rows.remove(i), ..s }).valid(),
{
    let t = s.rows.remove(i);
    assert forall|a: int| 0 <= a < t.len() implies store::row_valid(#[trigger] t[a], s.last_id) by {
        let x = if a < i {
            a
        } else {
            a + 1
        };
        assert(t[a] == s.rows[x]);
    }
    assert forall|a: int, b: int| 0 <= a < b < t.len() implies (#[trigger] t[a]).id < (
    #[trigger] t[b]).id && t[a].hash != t[b].hash by {
        let x = if a < i {
            a
        } else {
            a + 1
        };
        let y = if b < i {
            b
        } else {
            b + 1
        };
        assert(t[a] == s.rows[x] && t[b] == s.rows[y]);
    }
}

fn is_older(a: &Row, b: &Row) -> (r: bool)
    ensures
        r == older(a@, b@),
{
    a.ts < b.ts || (a.ts == b.ts && a.id < b.id)
}

fn may_leave(r: &Row, images: bool, cur: &String) -> (b: bool)
    ensures
        images ==> b == spare_image(cur@)(r@),
        !images ==> b == spare(cur@)(r@),
{
    !r.pinned && r.hash != *cur && (!images || r.image_path.is_some())
}

/// The rows that may leave, for entries or for images.
spec fn leaving(images: bool, cur: Seq<char>) -> spec_fn(RowView) -> bool {
    if images {
        spare_image(cur)
    } else {
        spare(cur)
    }
}

fn find_oldest(rows: &Vec<Row>, images: bool, cur: &String) -> (r: Option<usize>)
    ensures
        match r {
            Some(i) => is_oldest(store::rows_view(rows@), leaving(images, cur@), i as int),
            None => !some_may(store::rows_view(rows@), leaving(images, cur@)),
        },
{
    let ghost view = store::rows_view(rows@);
    let ghost may = leaving(images, cur@);
    let mut best: Option<usize> = None;
    let mut i: usize = 0;
    while i < rows.len()
        invariant
            i <= rows.len(),
            view == store::rows_view(rows@),
            may == leaving(images, cur@),
            match best {
                Some(b) => b < i && may(view[b as int]) && forall|j: int|
                    0 <= j < i && may(#[trigger] view[j]) ==> !older(view[j], view[b as int]),
                None => forall|j: int| 0 <= j < i ==> !may(#[trigger] view[j]),
            },
        decreases rows.len() - i,
    {
        assert(view[i as int] == rows@[i as int]@);
        if may_leave(&rows[i], images, cur) {
            match best {
                Some(b) => {
                    assert(view[b as int] == rows@[b as int]@);
                    if is_older(&rows[i], &rows[b]) {
                        best = Some(i);
                    }
                },
                None => {
                    best = Some(i);
                },
            }
        }
        i += 1;
    }
    best
}

/// Cuts the history to `max_items` entries: where there are more, the oldest
/// leave. Pinned entries and the current item never do.
pub fn enforce_max_items(s: &mut Store, max_items: usize)
    requires
        old(s).wf(),
    ensures
        final(s).wf(),
        ({
            let rows = old(s)@.rows;
            let cur = store::pointed_or_empty(old(s)@.current);
            &&& final(s)@ == (StoreView { rows: cut_to(rows, cur, max_items as nat), ..old(s)@ })
            &&& forall|r: RowView| #[trigger]
                rows.contains(r) && (r.pinned || r.hash == cur) ==> final(s)@.rows.contains(r)
        }),
{
    proof {
        super::laws::law_cut_drops_the_oldest(s@, max_items as nat);
    }
    if s.rows.len() <= max_items {
        return;
    }
    let cur = store::current_or_empty(s);
    let ghost goal = cut_to(old(s)@.rows, cur@, max_items as nat);
    let mut k: usize = s.rows.len() - max_items;
    while k > 0
        invariant
            s.wf(),
            s@.last_id == old(s)@.last_id,
            s@.current == old(s)@.current,
            drop_oldest(s@.rows, spare(cur@), k as nat) == goal,
        ensures
            s@.rows == goal,
        decreases k,
    {
        match find_oldest(&s.rows, false, &cur) {
            Some(i) => {
                let ghost before = s@;
                proof {
                    lemma_oldest_unique(before.rows, spare(cur@), i as int);
                    lemma_remove_valid(before, i as int);
                }
                s.rows.remove(i);
                assert(s@.rows == before.rows.remove(i as int));
                k -= 1;
            },
            None => {
                break;
            },
        }
    }
}

fn image_bytes(s: &Store) -> (t: u128)
    requires
        s.wf(),
    ensures
        t == image_total(s@.rows),
{
    let ghost view = s@.rows;
    let mut t: u128 = 0;
    let mut i: usize = 0;
    while i < s.rows.len()
        invariant
            i <= s.rows.len(),
            s.wf(),
            view == s@.rows,
            t == image_total(view.take(i as int)),
            t <= i * 0x7fff_ffff_ffff_ffff,
        decreases s.rows.len() - i,
    {
        assert(view[i as int] == s.rows@[i as int]@);
        assert(store::row_valid(view[i as int], s@.last_id));
        assert(view.take(i + 1).drop_last() == view.take(i as int));
        assert(view.take(i + 1).last() == view[i as int]);
        assert(i * 0x7fff_ffff_ffff_ffff + 0x7fff_ffff_ffff_ffff == (i + 1)
            * 0x7fff_ffff_ffff_ffff) by (nonlinear_arith);
        assert((i + 1) * 0x7fff_ffff_ffff_ffff <= u128::MAX) by (nonlinear_arith)
            requires
                i + 1 <= 0x1_0000_0000_0000_0000,
        ;
        if s.rows[i].image_path.is_some() {
            t = t + s.rows[i].size as u128;
        }
        i += 1;
    }
    assert(view.take(s.rows.len() as int) == view);
    t
}

/// The image quota: while all images together exceed `max_bytes`, the oldest
/// image entry that is neither pinned nor the current item leaves. Zero means
/// no quota. Returns how many entries left.
pub fn gc_images(s: &mut Store, max_bytes: u64) -> (r: Result<usize, StoreError>)
    requires
        old(s).wf(),
    ensures
        final(s).wf(),
        r is Err <==> max_bytes != 0 && image_total(old(s)@.rows) > i64::MAX,
        r matches Err(e) ==> e == StoreError::SumOverflow && final(s)@ == old(s)@,
        r matches Ok(n) ==> {
            let rows = old(s)@.rows;
            let cur = store::pointed_or_empty(old(s)@.current);
            let kept = if max_bytes == 0 {
                rows
            } else {
                drop_images(rows, cur, image_total(rows) - max_bytes)
            };
            &&& final(s)@ == (StoreView { rows: kept, ..old(s)@ })
            &&& n == rows.len() - kept.len()
        },
{
    if max_bytes == 0 {
        return Ok(0);
    }
    let total: u128 = image_bytes(s);
    if total > 0x7fff_ffff_ffff_ffff {
        return Err(StoreError::SumOverflow);
    }
    let cur = store::current_or_empty(s);
    let mut need: i128 = total as i128 - max_bytes as i128;
    let mut n: usize = 0;
    let ghost goal = drop_images(old(s)@.rows, cur@, need as int);
    let ghost first: i128 = need;
    while need > 0
        invariant
            s.wf(),
            s@.last_id == old(s)@.last_id,
            s@.current == old(s)@.current,
            need <= first <= 0x7fff_ffff_ffff_ffff,
            first >= -0x1_0000_0000_0000_0000,
            n == old(s)@.rows.len() - s@.rows.len(),
            n <= old(s).rows.len(),
            need >= first - n * 0x7fff_ffff_ffff_ffff,
            goal == drop_images(s@.rows, cur@, need as int),
        ensures
            s@.rows == goal,
        decreases s.rows.len(),
    {
        match find_oldest(&s.rows, true, &cur) {
            Some(i) => {
                let ghost before = s@;
                let size: i64 = s.rows[i].size;
                proof {
                    lemma_oldest_unique(before.rows, spare_image(cur@), i as int);
                    lemma_remove_valid(before, i as int);
                    assert(before.rows[i as int] == s.rows@[i as int]@);
                    assert(store::row_valid(before.rows[i as int], before.last_id));
                    assert(n * 0x7fff_ffff_ffff_ffff + 0x7fff_ffff_ffff_ffff == (n + 1)
                        * 0x7fff_ffff_ffff_ffff) by (nonlinear_arith);
                }
                s.rows.remove(i);
                assert(s@.rows == before.rows.remove(i as int));
                need = need - size as i128;
                n += 1;
            },
            None => {
                break;
            },
        }
    }
    Ok(n)
}

} // verus!
