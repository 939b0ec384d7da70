//! Reading the history: the list, the search, single entries.

use super::{Clip, ClipView, Row, RowView, Store, StoreError};
use crate::config::Config;
use crate::order;
use crate::order::Key;
use crate::store;
use crate::text;
use vstd::prelude::*;

verus! {

/// Captured later; within one millisecond, stored later.
pub open spec fn newer(a: RowView, b: RowView) -> bool {
    a.ts > b.ts || (a.ts == b.ts && a.id > b.id)
}

/// Higher rank first, then the newer.
pub open spec fn by_rank(rank: spec_fn(RowView) -> int) -> spec_fn(RowView, RowView) -> bool {
    |a: RowView, b: RowView| rank(a) > rank(b) || (rank(a) == rank(b) && newer(a, b))
}

/// The rank of a row in the list: the current item above all others, then the
/// pinned ones where they come first.
pub open spec fn list_rank(cur: Seq<char>, pinned_on_top: bool) -> spec_fn(RowView) -> int {
    |r: RowView|
        (if r.hash == cur {
            2int
        } else {
            0
        }) + (if pinned_on_top && r.pinned {
            1int
        } else {
            0
        })
}

/// All rows in the order of the list.
pub open spec fn listed(s: store::StoreView, pinned_on_top: bool) -> Seq<RowView> {
    order::arrangement(
        s.rows,
        by_rank(list_rank(store::pointed_or_empty(s.current), pinned_on_top)),
    )
}

/// The rank of a search result by time alone.
pub open spec fn no_rank() -> spec_fn(RowView) -> int {
    |r: RowView| 0int
}

/// The rows whose text contains the needle.
pub open spec fn mentions(needle: Seq<char>) -> spec_fn(RowView) -> bool {
    |r: RowView| text::found_in(r.text, needle)
}

/// The rows whose text contains the needle, the newest first.
pub open spec fn scanned(rows: Seq<RowView>, needle: Seq<char>) -> Seq<RowView> {
    order::arrangement(rows.filter(mentions(needle)), by_rank(no_rank()))
}

/// No two rows each come before the other.
pub proof fn lemma_by_rank_asymmetric(rank: spec_fn(RowView) -> int)
    ensures
        order::asymmetric(by_rank(rank)),
{
}

proof fn lemma_clips_push(out: Seq<Clip>, c: Clip, rows: Seq<RowView>, r: RowView)
    requires
        store::clips_view(out) == store::clips_of(rows),
        c@ == store::clip_of(r),
    ensures
        store::clips_view(out.push(c)) == store::clips_of(rows.push(r)),
{
    assert(store::clips_view(out.push(c)) == store::clips_view(out).push(c@));
    assert(store::clips_of(rows.push(r)) == store::clips_of(rows).push(store::clip_of(r)));
}

/// The clips of the chosen rows, ranked, at most `limit` of them. A row is
/// chosen where `pick` gives it a rank.
fn ranked_clips(
    rows: &Vec<Row>,
    pick: &Vec<Option<i64>>,
    limit: usize,
    Ghost(items): Ghost<Seq<RowView>>,
    Ghost(rank): Ghost<spec_fn(RowView) -> int>,
) -> (out: Vec<Clip>)
    requires
        pick.len() == rows.len(),
        store::ids_increase(store::rows_view(rows@)),
        forall|i: int|
            0 <= i < rows.len() ==> (pick@[i] is Some <==> items.contains(
                #[trigger] store::rows_view(rows@)[i],
            )),
        forall|i: int|
            0 <= i < rows.len() && (#[trigger] pick@[i]) is Some ==> pick@[i]->0 == rank(
                store::rows_view(rows@)[i],
            ),
        forall|r: RowView| #[trigger]
            items.contains(r) ==> store::rows_view(rows@).contains(r),
    ensures
        store::clips_view(out@) == store::clips_of(
            order::first_n(order::arrangement(items, by_rank(rank)), limit as nat),
        ),
{
    let ghost view = store::rows_view(rows@);
    let mut keys: Vec<Key> = Vec::new();
    let mut i: usize = 0;
    while i < rows.len()
        invariant
            i <= rows.len(),
            pick.len() == rows.len(),
            view == store::rows_view(rows@),
            store::ids_increase(view),
            forall|x: int|
                0 <= x < keys.len() ==> {
                    let k = #[trigger] keys@[x];
                    &&& k.at < i
                    &&& k.id == view[k.at as int].id
                    &&& k.ts == view[k.at as int].ts
                    &&& pick@[k.at as int] is Some
                    &&& pick@[k.at as int]->0 == k.rank
                },
            forall|x: int, y: int|
                0 <= x < y < keys.len() ==> (#[trigger] keys@[x]).at < (#[trigger] keys@[y]).at,
            forall|a: int|
                0 <= a < i && (#[trigger] pick@[a]) is Some ==> exists|x: int|
                    0 <= x < keys.len() && (#[trigger] keys@[x]).at == a,
        decreases rows.len() - i,
    {
        assert(view[i as int] == rows@[i as int]@);
        let ghost keys0 = keys@;
        if let Some(r) = pick[i] {
            keys.push(Key { rank: r as i128, ts: rows[i].ts, id: rows[i].id as i128, at: i });
        }
        proof {
            assert forall|a: int| 0 <= a < i + 1 && (#[trigger] pick@[a]) is Some implies exists|
                x: int,
            |
                0 <= x < keys.len() && (#[trigger] keys@[x]).at == a by {
                if a < i {
                    let x = choose|x: int| 0 <= x < keys0.len() && (#[trigger] keys0[x]).at == a;
                    assert(keys@[x].at == a);
                } else {
                    assert(keys@[keys0.len() as int].at == a);
                }
            }
        }
        i += 1;
    }
    assert forall|x: int, y: int| 0 <= x < y < keys.len() implies (#[trigger] keys@[x]).id != (
    #[trigger] keys@[y]).id by {
        assert(view[keys@[x].at as int].id < view[keys@[y].at as int].id);
    }
    let sorted = order::sort(&keys);
    let ghost full = Seq::new(sorted@.len(), |x: int| view[sorted@[x].at as int]);
    proof {
        let before = by_rank(rank);
        assert forall|x: int| 0 <= x < sorted.len() implies {
            let k = #[trigger] sorted@[x];
            &&& k.at < rows.len()
            &&& k.id == view[k.at as int].id
            &&& k.ts == view[k.at as int].ts
            &&& k.rank == rank(view[k.at as int])
            &&& items.contains(view[k.at as int])
        } by {
            assert(sorted@.contains(sorted@[x]));
            assert(keys@.contains(sorted@[x]));
            let z = choose|z: int| 0 <= z < keys.len() && keys@[z] == sorted@[x];
            assert(keys@[z].at < rows.len());
        }
        assert forall|x: int, y: int| 0 <= x < y < full.len() implies before(
            #[trigger] full[x],
            #[trigger] full[y],
        ) by {
            assert(order::key_above(sorted@[x], sorted@[y]));
        }
        assert forall|r: RowView| #![auto] full.contains(r) <==> items.contains(r) by {
            if full.contains(r) {
                let x = choose|x: int| 0 <= x < full.len() && full[x] == r;
                assert(items.contains(view[sorted@[x].at as int]));
            }
            if items.contains(r) {
                assert(view.contains(r));
                let a = choose|a: int| 0 <= a < view.len() && view[a] == r;
                assert(pick@[a] is Some);
                let z = choose|z: int| 0 <= z < keys.len() && (#[trigger] keys@[z]).at == a;
                assert(keys@.contains(keys@[z]));
                assert(sorted@.contains(keys@[z]));
                let x = choose|x: int| 0 <= x < sorted.len() && sorted@[x] == keys@[z];
                assert(full[x] == r);
            }
        }
        lemma_by_rank_asymmetric(rank);
        order::lemma_arrangement(full, items, before);
    }
    let n: usize = if sorted.len() <= limit {
        sorted.len()
    } else {
        limit
    };
    let mut out: Vec<Clip> = Vec::new();
    let mut x: usize = 0;
    while x < n
        invariant
            x <= n <= sorted.len(),
            view == store::rows_view(rows@),
            full == Seq::new(sorted@.len(), |x: int| view[sorted@[x].at as int]),
            forall|x: int| 0 <= x < sorted.len() ==> (#[trigger] sorted@[x]).at < rows.len(),
            store::clips_view(out@) == store::clips_of(full.take(x as int)),
        decreases n - x,
    {
        let at: usize = sorted[x].at;
        let c = rows[at].clip();
        proof {
            assert(full.take(x + 1) == full.take(x as int).push(full[x as int]));
            lemma_clips_push(out@, c, full.take(x as int), full[x as int]);
        }
        out.push(c);
        x += 1;
    }
    assert(full.take(sorted@.len() as int) == full);
    out
}

/// The entries of the history, at most `limit` of them: the current item first,
/// then the pinned ones where the settings say so, then the newest.
pub fn list(s: &Store, limit: usize, cfg: &Config) -> (out: Vec<Clip>)
    requires
        s.wf(),
    ensures
        store::clips_view(out@) == store::clips_of(
            order::first_n(listed(s@, cfg.pinned_on_top), limit as nat),
        ),
{
    let cur = store::current_or_empty(s);
    let mut pick: Vec<Option<i64>> = Vec::new();
    let mut i: usize = 0;
    let ghost rank = list_rank(cur@, cfg.pinned_on_top);
    while i < s.rows.len()
        invariant
            i <= s.rows.len(),
            pick.len() == i,
            rank == list_rank(cur@, cfg.pinned_on_top),
            forall|x: int|
                0 <= x < i ==> #[trigger] pick@[x] is Some && pick@[x]->0 == rank(s@.rows[x]),
        decreases s.rows.len() - i,
    {
        assert(s@.rows[i as int] == s.rows@[i as int]@);
        let a: i64 = if s.rows[i].hash == cur {
            2
        } else {
            0
        };
        let b: i64 = if cfg.pinned_on_top && s.rows[i].pinned {
            1
        } else {
            0
        };
        pick.push(Some(a + b));
        i += 1;
    }
    ranked_clips(&s.rows, &pick, limit, Ghost(s@.rows), Ghost(rank))
}

/// How a query is answered.
#[derive(Debug, Clone)]
pub enum SearchPlan {
    /// There is nothing to look for.
    Nothing,
    /// The texts are scanned: the full-text index knows no words this short.
    Scan { needle: String },
    /// The full-text index is asked for this phrase.
    Index { phrase: String },
}

/// The shortest query that the full-text index can answer.
pub const INDEX_MIN_CHARS: usize = 3;

/// A phrase of the query language of the full-text index: in quotes, with
/// quotes inside doubled.
pub open spec fn quoted(q: Seq<char>) -> Seq<char> {
    "\""@ + text::replaced(q, '"', "\"\""@) + "\""@
}

/// How the trimmed query is answered.
pub fn search_plan(query: &str) -> (p: SearchPlan)
    ensures
        ({
            let q = text::trimmed(query@);
            match p {
                SearchPlan::Nothing => q.len() == 0,
                SearchPlan::Scan { needle } => 0 < q.len() < INDEX_MIN_CHARS && needle@ == q,
                SearchPlan::Index { phrase } => q.len() >= INDEX_MIN_CHARS && phrase@ == quoted(q),
            }
        }),
{
    let q = text::trim(query);
    let n: usize = text::chars_of(q.as_str()).len();
    if n == 0 {
        SearchPlan::Nothing
    } else if n < INDEX_MIN_CHARS {
        SearchPlan::Scan { needle: q }
    } else {
        let mut phrase = "\"".to_owned();
        phrase.append(text::replace(q.as_str(), '"', "\"\"").as_str());
        phrase.append("\"");
        SearchPlan::Index { phrase }
    }
}

/// The rows with the given ids, in the order of the ids; ids that no row has
/// are left out.
pub open spec fn rows_of_ids(rows: Seq<RowView>, ids: Seq<i64>) -> Seq<RowView>
    decreases ids.len(),
{
    if ids.len() == 0 {
        Seq::empty()
    } else {
        let front = rows_of_ids(rows, ids.drop_last());
        if store::has_id(rows, ids.last() as int) {
            front.push(rows[store::id_index(rows, ids.last() as int)])
        } else {
            front
        }
    }
}

/// The rows that a search yields.
pub open spec fn search_rows(rows: Seq<RowView>, query: Seq<char>, ranked: Seq<i64>) -> Seq<
    RowView,
> {
    let q = text::trimmed(query);
    if q.len() == 0 {
        Seq::empty()
    } else if q.len() < INDEX_MIN_CHARS {
        scanned(rows, q)
    } else {
        rows_of_ids(rows, ranked)
    }
}

/// Only one row has a given id.
pub proof fn lemma_id_unique(rows: Seq<RowView>, id: int, i: int)
    requires
        store::ids_increase(rows),
        0 <= i < rows.len(),
        rows[i].id == id,
    ensures
        store::has_id(rows, id),
        store::id_index(rows, id) == i,
{
    assert(store::has_id(rows, id));
    let j = store::id_index(rows, id);
    assert(rows[j].id == id);
    if i < j {
        assert(rows[i].id < rows[j].id);
    } else if j < i {
        assert(rows[j].id < rows[i].id);
    }
}

/// Searches the whole history, at most `limit` entries. Short queries are
/// looked up as they stand in the texts, the newest entry first. For longer
/// ones `ranked` holds the ids that the full-text index found, the best first.
pub fn search(s: &Store, query: &str, limit: usize, ranked: &Vec<i64>) -> (out: Vec<Clip>)
    requires
        s.wf(),
    ensures
        store::clips_view(out@) == store::clips_of(
            order::first_n(search_rows(s@.rows, query@, ranked@), limit as nat),
        ),
{
    match search_plan(query) {
        SearchPlan::Nothing => Vec::new(),
        SearchPlan::Scan { needle } => scan(s, &needle, limit),
        SearchPlan::Index { .. } => clips_of_ids(s, ranked, limit),
    }
}

fn scan(s: &Store, needle: &String, limit: usize) -> (out: Vec<Clip>)
    requires
        s.wf(),
    ensures
        store::clips_view(out@) == store::clips_of(
            order::first_n(scanned(s@.rows, needle@), limit as nat),
        ),
{
    let ghost items = s@.rows.filter(mentions(needle@));
    let mut pick: Vec<Option<i64>> = Vec::new();
    let mut i: usize = 0;
    while i < s.rows.len()
        invariant
            i <= s.rows.len(),
            pick.len() == i,
            forall|x: int|
                0 <= x < i ==> {
                    &&& (#[trigger] pick@[x]) is Some <==> mentions(needle@)(s@.rows[x])
                    &&& pick@[x] is Some ==> pick@[x]->0 == 0
                },
        decreases s.rows.len() - i,
    {
        assert(s@.rows[i as int] == s.rows@[i as int]@);
        if text::contains_folded(s.rows[i].text.as_str(), needle.as_str()) {
            pick.push(Some(0));
        } else {
            pick.push(None);
        }
        i += 1;
    }
    proof {
        let view = s@.rows;
        let p = mentions(needle@);
        assert forall|r: RowView| #[trigger] items.contains(r) implies view.contains(r) by {
            view.lemma_filter_contains_rev(p, r);
        }
        assert forall|i: int| 0 <= i < view.len() implies (pick@[i] is Some <==> items.contains(
            #[trigger] view[i],
        )) by {
            if items.contains(view[i]) {
                let k = choose|k: int| 0 <= k < items.len() && items[k] == view[i];
                assert(p(items[k]));
            }
            if p(view[i]) {
                view.lemma_filter_contains(p, i);
            }
        }
    }
    ranked_clips(&s.rows, &pick, limit, Ghost(items), Ghost(no_rank()))
}

fn clips_of_ids(s: &Store, ids: &Vec<i64>, limit: usize) -> (out: Vec<Clip>)
    requires
        s.wf(),
    ensures
        store::clips_view(out@) == store::clips_of(
            order::first_n(rows_of_ids(s@.rows, ids@), limit as nat),
        ),
{
    let ghost view = s@.rows;
    let mut out: Vec<Clip> = Vec::new();
    let mut i: usize = 0;
    while i < ids.len() && out.len() < limit
        invariant
            i <= ids.len(),
            s.wf(),
            view == s@.rows,
            out.len() <= limit,
            store::clips_view(out@) == store::clips_of(rows_of_ids(view, ids@.take(i as int))),
        decreases ids.len() - i,
    {
        assert(ids@.take(i + 1).drop_last() == ids@.take(i as int));
        if let Some(k) = store::find_id(&s.rows, ids[i]) {
            proof {
                assert(view[k as int] == s.rows@[k as int]@);
                lemma_id_unique(view, ids@[i as int] as int, k as int);
            }
            let c = s.rows[k].clip();
            proof {
                lemma_clips_push(
                    out@,
                    c,
                    rows_of_ids(view, ids@.take(i as int)),
                    view[k as int],
                );
            }
            out.push(c);
        }
        i += 1;
    }
    proof {
        assert(ids@.take(ids.len() as int) == ids@);
        lemma_rows_of_ids_prefix(view, ids@, i as int);
        let all = rows_of_ids(view, ids@);
        let part = rows_of_ids(view, ids@.take(i as int));
        assert(store::clips_view(out@).len() == part.len());
        if i < ids.len() {
            assert(all.take(limit as int) == part);
            assert(all.len() <= limit ==> all == part);
        }
    }
    out
}

proof fn lemma_rows_of_ids_prefix(rows: Seq<RowView>, ids: Seq<i64>, n: int)
    requires
        0 <= n <= ids.len(),
    ensures
        ({
            let part = rows_of_ids(rows, ids.take(n));
            let all = rows_of_ids(rows, ids);
            part.len() <= all.len() && all.take(part.len() as int) == part
        }),
    decreases ids.len(),
{
    let part = rows_of_ids(rows, ids.take(n));
    let all = rows_of_ids(rows, ids);
    if n == ids.len() {
        assert(ids.take(n) == ids);
        assert(all.take(part.len() as int) == part);
    } else {
        lemma_rows_of_ids_prefix(rows, ids.drop_last(), n);
        assert(ids.drop_last().take(n) == ids.take(n));
        let front = rows_of_ids(rows, ids.drop_last());
        assert(all.take(part.len() as int) == front.take(part.len() as int));
    }
}

/// The entry with the given id.
pub fn get(s: &Store, id: i64) -> (r: Result<Clip, StoreError>)
    requires
        s.wf(),
    ensures
        match r {
            Ok(c) => store::has_id(s@.rows, id as int) && c@ == clip_at(s@.rows, id as int),
            Err(e) => !store::has_id(s@.rows, id as int) && e == StoreError::NotFound,
        },
{
    match store::find_id(&s.rows, id) {
        Some(i) => {
            proof {
                assert(s@.rows[i as int] == s.rows@[i as int]@);
                lemma_id_unique(s@.rows, id as int, i as int);
            }
            Ok(s.rows[i].clip())
        },
        None => Err(StoreError::NotFound),
    }
}

/// The clip of the row with the given id.
pub open spec fn clip_at(rows: Seq<RowView>, id: int) -> ClipView {
    store::clip_of(rows[store::id_index(rows, id)])
}

/// Whether the entry with the given id is pinned.
pub fn is_pinned(s: &Store, id: i64) -> (r: Result<bool, StoreError>)
    requires
        s.wf(),
    ensures
        match r {
            Ok(b) => store::has_id(s@.rows, id as int) && b == s@.rows[store::id_index(
                s@.rows,
                id as int,
            )].pinned,
            Err(e) => !store::has_id(s@.rows, id as int) && e == StoreError::NotFound,
        },
{
    match store::find_id(&s.rows, id) {
        Some(i) => {
            proof {
                assert(s@.rows[i as int] == s.rows@[i as int]@);
                lemma_id_unique(s@.rows, id as int, i as int);
            }
            Ok(s.rows[i].pinned)
        },
        None => Err(StoreError::NotFound),
    }
}

} // verus!
