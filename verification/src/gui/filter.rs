//! Which entries the window shows for a query, and in which order.

use super::search;
use crate::order;
use crate::order::Key;
use crate::store::Clip;
use crate::text;
use vstd::prelude::*;

verus! {

/// What `str::to_lowercase` makes of a text.
pub uninterp spec fn lowercase(s: Seq<char>) -> Seq<char>;

/// `str::to_lowercase`: the result is a function of the text, named
/// `lowercase`.
#[verifier::external_body]
pub(crate) fn to_lowercase(s: &str) -> (r: String)
    ensures
        r@ == lowercase(s@),
{
    s.to_lowercase()
}

/// The texts of a list of entries.
pub open spec fn clip_texts(clips: Seq<Clip>) -> Seq<Seq<char>> {
    clips.map_values(|c: Clip| c.text@)
}

/// The positions from zero up to `n`.
pub open spec fn all_positions(n: nat) -> Seq<int> {
    Seq::new(n, |i: int| i)
}

/// The positions of the texts that match a query in small letters.
pub open spec fn matching(texts: Seq<Seq<char>>, q: Seq<char>) -> Seq<int> {
    all_positions(texts.len()).filter(|i: int| search::score_of(q, texts[i]) is Some)
}

/// The better score first; of equal scores the one that comes first.
pub open spec fn better(texts: Seq<Seq<char>>, q: Seq<char>) -> spec_fn(int, int) -> bool {
    |i: int, j: int|
        {
            let a = search::score_of(q, texts[i])->0;
            let b = search::score_of(q, texts[j])->0;
            a > b || (a == b && i < j)
        }
}

/// The positions of the texts that match, the best first.
pub open spec fn best_first(texts: Seq<Seq<char>>, q: Seq<char>) -> Seq<int> {
    order::arrangement(matching(texts, q), better(texts, q))
}

/// Whether search results are those of this query and of this list.
pub open spec fn is_fresh(
    query: Seq<char>,
    hits: Seq<Seq<char>>,
    hits_query: Seq<char>,
    hits_gen: u64,
    clips_gen: u64,
) -> bool {
    hits_query == query && hits_gen == clips_gen && hits.len() > 0
}

/// Which of the two lists is shown: the search results where they are fresh,
/// else the entries that are loaded.
pub open spec fn shows_hits(
    query: Seq<char>,
    hits: Seq<Seq<char>>,
    hits_query: Seq<char>,
    hits_gen: u64,
    clips_gen: u64,
) -> bool {
    query.len() > 0 && is_fresh(query, hits, hits_query, hits_gen, clips_gen)
}

/// The positions that are shown of one of the two lists. All in their order
/// where there is no query; search results of which none matches stay in theirs.
pub open spec fn shown(texts: Seq<Seq<char>>, query: Seq<char>, from_hits: bool) -> Seq<int> {
    let best = best_first(texts, lowercase(query));
    if query.len() == 0 || (from_hits && best.len() == 0) {
        all_positions(texts.len())
    } else {
        best
    }
}

/// The contents of a list of positions.
pub open spec fn positions(v: Seq<usize>) -> Seq<int> {
    v.map_values(|i: usize| i as int)
}

fn count_up(n: usize) -> (v: Vec<usize>)
    ensures
        positions(v@) == all_positions(n as nat),
        v.len() == n,
        forall|k: int| 0 <= k < n ==> #[trigger] v@[k] == k,
{
    let mut v: Vec<usize> = Vec::new();
    let mut i: usize = 0;
    while i < n
        invariant
            i <= n,
            v.len() == i,
            forall|k: int| 0 <= k < i ==> #[trigger] v@[k] == k,
        decreases n - i,
    {
        v.push(i);
        i += 1;
    }
    assert(positions(v@) == all_positions(n as nat));
    v
}

/// No two positions are each better than the other.
pub proof fn lemma_better_asymmetric(texts: Seq<Seq<char>>, q: Seq<char>)
    ensures
        order::asymmetric(better(texts, q)),
{
}

fn rank_all(clips: &Vec<Clip>, q: &Vec<char>) -> (v: Vec<usize>)
    ensures
        positions(v@) == best_first(clip_texts(clips@), q@),
        forall|k: int| 0 <= k < v.len() ==> #[trigger] v@[k] < clips.len(),
{
    let ghost texts = clip_texts(clips@);
    let ghost items = matching(texts, q@);
    let mut keys: Vec<Key> = Vec::new();
    let mut i: usize = 0;
    while i < clips.len()
        invariant
            i <= clips.len(),
            texts == clip_texts(clips@),
            forall|x: int|
                0 <= x < keys.len() ==> {
                    let k = #[trigger] keys@[x];
                    &&& k.at < i
                    &&& k.id == -(k.at as int)
                    &&& k.ts == 0
                    &&& search::score_of(q@, texts[k.at as int]) == Some(k.rank as int)
                },
            forall|x: int, y: int|
                0 <= x < y < keys.len() ==> (#[trigger] keys@[x]).at < (#[trigger] keys@[y]).at,
            forall|a: int|
                0 <= a < i && search::score_of(q@, #[trigger] texts[a]) is Some ==> exists|x: int|
                    0 <= x < keys.len() && (#[trigger] keys@[x]).at == a,
        decreases clips.len() - i,
    {
        let ghost keys0 = keys@;
        let t = text::chars_of(clips[i].text.as_str());
        assert(texts[i as int] == t@);
        let s = search::score(q, &t);
        if let Some(s) = s {
            keys.push(Key { rank: s, ts: 0, id: -(i as i128), at: i });
        }
        proof {
            assert forall|a: int|
                0 <= a < i + 1 && search::score_of(q@, #[trigger] texts[a]) is Some implies exists|
                x: int,
            |
                0 <= x < keys.len() && (#[trigger] keys@[x]).at == a by {
                if a < i {
                    let x = choose|x: int| 0 <= x < keys0.len() && (#[trigger] keys0[x]).at == a;
                    assert(keys@[x].at == a);
                } else {
                    assert(keys@[keys0.len() as int].at == a);
                }
            }
        }
        i += 1;
    }
    let sorted = order::sort(&keys);
    let ghost full = Seq::new(sorted@.len(), |x: int| sorted@[x].at as int);
    proof {
        let before = better(texts, q@);
        let p = |i: int| search::score_of(q@, texts[i]) is Some;
        let every = all_positions(texts.len());
        assert forall|x: int| 0 <= x < sorted.len() implies {
            let k = #[trigger] sorted@[x];
            &&& k.at < clips.len()
            &&& k.id == -(k.at as int)
            &&& k.ts == 0
            &&& search::score_of(q@, texts[k.at as int]) == Some(k.rank as int)
        } by {
            assert(sorted@.contains(sorted@[x]));
            assert(keys@.contains(sorted@[x]));
            let z = choose|z: int| 0 <= z < keys.len() && keys@[z] == sorted@[x];
            assert(keys@[z].at < clips.len());
        }
        assert forall|x: int, y: int| 0 <= x < y < full.len() implies before(
            #[trigger] full[x],
            #[trigger] full[y],
        ) by {
            assert(order::key_above(sorted@[x], sorted@[y]));
        }
        assert forall|a: int| #![auto] full.contains(a) <==> items.contains(a) by {
            if full.contains(a) {
                let x = choose|x: int| 0 <= x < full.len() && full[x] == a;
                assert(sorted@[x].at == a);
                assert(every[a] == a && p(every[a]));
                every.lemma_filter_contains(p, a);
            }
            if items.contains(a) {
                every.lemma_filter_contains_rev(p, a);
                let k = choose|k: int| 0 <= k < items.len() && items[k] == a;
                every.lemma_filter_pred(p, k);
                let e = choose|e: int| 0 <= e < every.len() && every[e] == a;
                assert(search::score_of(q@, texts[a]) is Some);
                let z = choose|z: int| 0 <= z < keys.len() && (#[trigger] keys@[z]).at == a;
                assert(keys@.contains(keys@[z]));
                assert(sorted@.contains(keys@[z]));
                let x = choose|x: int| 0 <= x < sorted.len() && sorted@[x] == keys@[z];
                assert(full[x] == a);
            }
        }
        lemma_better_asymmetric(texts, q@);
        order::lemma_arrangement(full, items, before);
    }
    let mut v: Vec<usize> = Vec::new();
    let mut x: usize = 0;
    while x < sorted.len()
        invariant
            x <= sorted.len(),
            v.len() == x,
            forall|x: int| 0 <= x < sorted.len() ==> (#[trigger] sorted@[x]).at < clips.len(),
            forall|k: int| 0 <= k < x ==> #[trigger] v@[k] == sorted@[k].at,
        decreases sorted.len() - x,
    {
        v.push(sorted[x].at);
        x += 1;
    }
    assert(positions(v@) == full);
    v
}

/// Which entries are shown: whether they are search results, and their
/// positions in that list. Without a query all loaded entries are shown in
/// their order. Search results count only if they are those of this query and
/// of the list as it is.
pub fn compute_filtered(
    query: &str,
    clips: &Vec<Clip>,
    search_hits: &Vec<Clip>,
    search_hits_query: &str,
    search_hits_gen: u64,
    clips_gen: u64,
) -> (r: (bool, Vec<usize>))
    ensures
        r.0 == shows_hits(
            query@,
            clip_texts(search_hits@),
            search_hits_query@,
            search_hits_gen,
            clips_gen,
        ),
        ({
            let source = if r.0 {
                search_hits@
            } else {
                clips@
            };
            &&& positions(r.1@) == shown(clip_texts(source), query@, r.0)
            &&& forall|k: int| 0 <= k < r.1@.len() ==> #[trigger] r.1@[k] < source.len()
        }),
{
    if query.is_empty() {
        return (false, count_up(clips.len()));
    }
    let q = text::chars_of(to_lowercase(query).as_str());
    if text::same(search_hits_query, query) && search_hits_gen == clips_gen && search_hits.len()
        > 0 {
        let best = rank_all(search_hits, &q);
        if best.len() == 0 {
            assert(positions(best@).len() == 0);
            return (true, count_up(search_hits.len()));
        }
        assert(positions(best@).len() == best@.len());
        return (true, best);
    }
    (false, rank_all(clips, &q))
}

} // verus!
