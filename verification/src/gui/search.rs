//! Fuzzy matching: a query matches a text that holds its characters in order.

use crate::text;
use vstd::prelude::*;

verus! {

/// What `char::is_alphanumeric` answers.
pub uninterp spec fn is_alphanumeric(c: char) -> bool;

/// `char::is_alphanumeric`: the answer is a function of the character, named
/// `is_alphanumeric`.
#[verifier::external_body]
fn alphanumeric(c: char) -> (b: bool)
    ensures
        b == is_alphanumeric(c),
{
    c.is_alphanumeric()
}

/// Whether a character is a letter or a digit of ASCII.
pub open spec fn is_plain(c: char) -> bool {
    ('a' <= c <= 'z') || ('A' <= c <= 'Z') || ('0' <= c <= '9')
}

/// Whether a character is part of a word: a letter or a digit, of ASCII or any
/// other.
pub open spec fn in_word(c: char) -> bool {
    is_plain(c) || is_alphanumeric(c)
}

fn part_of_word(c: char) -> (b: bool)
    ensures
        b == in_word(c),
{
    ('a' <= c && c <= 'z') || ('A' <= c && c <= 'Z') || ('0' <= c && c <= '9') || alphanumeric(c)
}

/// Equal but for ASCII case.
pub open spec fn same_letter(a: char, b: char) -> bool {
    text::folded(a) == text::folded(b)
}

/// Equal but for ASCII case.
pub fn ci_eq(a: char, b: char) -> (r: bool)
    ensures
        r == same_letter(a, b),
{
    text::fold(a) == text::fold(b)
}

/// How many characters of the query the first `i` characters of the text
/// account for, each character of the text taken for the next one of the query
/// that it equals.
pub open spec fn matched(q: Seq<char>, t: Seq<char>, i: int) -> int
    decreases i,
{
    if i <= 0 {
        0
    } else {
        let m = matched(q, t, i - 1);
        if m < q.len() && same_letter(q[m], t[i - 1]) {
            m + 1
        } else {
            m
        }
    }
}

/// Whether the character at `i` is one of those that match.
pub open spec fn is_hit(q: Seq<char>, t: Seq<char>, i: int) -> bool {
    matched(q, t, i + 1) > matched(q, t, i)
}

/// Whether the whole query is found.
pub open spec fn is_match(q: Seq<char>, t: Seq<char>) -> bool {
    matched(q, t, t.len() as int) == q.len()
}

/// What a character that matches is worth: more after another that matches and
/// at the start of a word, less the further back it stands.
pub open spec fn gain(q: Seq<char>, t: Seq<char>, i: int) -> int {
    2 + (if i > 0 && is_hit(q, t, i - 1) {
        4int
    } else {
        0
    }) + (if i == 0 || !in_word(t[i - 1]) {
        5int
    } else {
        0
    }) - i / 64
}

/// What the characters that match among the first `i` are worth together.
pub open spec fn total_gain(q: Seq<char>, t: Seq<char>, i: int) -> int
    decreases i,
{
    if i <= 0 {
        0
    } else {
        total_gain(q, t, i - 1) + if is_hit(q, t, i - 1) {
            gain(q, t, i - 1)
        } else {
            0
        }
    }
}

/// The score of a text for a query: none where it does not match or there is no
/// query.
pub open spec fn score_of(q: Seq<char>, t: Seq<char>) -> Option<int> {
    if q.len() > 0 && is_match(q, t) {
        Some(total_gain(q, t, t.len() as int))
    } else {
        None
    }
}

proof fn lemma_matched(q: Seq<char>, t: Seq<char>, i: int)
    requires
        0 <= i <= t.len(),
    ensures
        0 <= matched(q, t, i) <= q.len(),
        matched(q, t, i) <= i,
    decreases i,
{
    if i > 0 {
        lemma_matched(q, t, i - 1);
    }
}

proof fn lemma_after_match(q: Seq<char>, t: Seq<char>, i: int, n: int)
    requires
        0 <= i <= n <= t.len(),
        matched(q, t, i) == q.len(),
    ensures
        matched(q, t, n) == q.len(),
        total_gain(q, t, n) == total_gain(q, t, i),
    decreases n,
{
    if i < n {
        lemma_after_match(q, t, i, n - 1);
    }
}

/// The score of a text, whatever its length.
pub(crate) fn score(q: &Vec<char>, t: &Vec<char>) -> (r: Option<i128>)
    ensures
        match r {
            Some(s) => score_of(q@, t@) == Some(s as int),
            None => score_of(q@, t@) is None,
        },
{
    if q.len() == 0 {
        return None;
    }
    let mut m: usize = 0;
    let mut total: i128 = 0;
    let mut prev_hit = false;
    let mut i: usize = 0;
    while i < t.len()
        invariant
            i <= t.len(),
            m < q.len(),
            m == matched(q@, t@, i as int),
            prev_hit == (i > 0 && is_hit(q@, t@, i - 1)),
            total == total_gain(q@, t@, i as int),
            -i * 0x400_0000_0000_0000 <= total <= i * 11,
        decreases t.len() - i,
    {
        let ghost total0 = total;
        let hit = ci_eq(q[m], t[i]);
        if hit {
            m += 1;
            total = total + 2;
            if prev_hit {
                total = total + 4;
            }
            if i == 0 || !part_of_word(t[i - 1]) {
                total = total + 5;
            }
            total = total - (i / 64) as i128;
            proof {
                assert(total == total0 + gain(q@, t@, i as int));
            }
            if m == q.len() {
                proof {
                    lemma_after_match(q@, t@, i + 1, t.len() as int);
                }
                return Some(total);
            }
        }
        prev_hit = hit;
        i += 1;
    }
    None
}

proof fn lemma_gain_bound(q: Seq<char>, t: Seq<char>, i: int)
    requires
        0 <= i <= t.len(),
    ensures
        -matched(q, t, i) * (t.len() / 64 + 11) <= total_gain(q, t, i) <= matched(q, t, i) * (
        t.len() / 64 + 11),
    decreases i,
{
    if i > 0 {
        lemma_gain_bound(q, t, i - 1);
        let k = t.len() / 64 + 11;
        let m = matched(q, t, i - 1);
        assert((m + 1) * k == m * k + k) by (nonlinear_arith);
        assert(-(m + 1) * k == -m * k - k) by (nonlinear_arith);
        assert((i - 1) / 64 <= t.len() / 64);
    }
}

/// The score of a text for a query in small letters; `None` where it does not
/// match. The lengths must be such that no score leaves the range of the type.
pub fn fuzzy_score(q: &str, t: &str) -> (r: Option<i32>)
    requires
        q@.len() * (t@.len() / 64 + 11) <= i32::MAX,
    ensures
        match r {
            Some(s) => score_of(q@, t@) == Some(s as int),
            None => score_of(q@, t@) is None,
        },
{
    let a = text::chars_of(q);
    let b = text::chars_of(t);
    match score(&a, &b) {
        Some(s) => {
            proof {
                lemma_matched(q@, t@, t@.len() as int);
                lemma_gain_bound(q@, t@, t@.len() as int);
                assert(matched(q@, t@, t@.len() as int) == q@.len());
                assert(-(q@.len() as int) * (t@.len() / 64 + 11) == -(q@.len() * (t@.len() / 64
                    + 11))) by (nonlinear_arith);
            }
            Some(s as i32)
        },
        None => None,
    }
}

/// Which characters of the text match the query; `None` where not all of the
/// query is found.
pub fn fuzzy_flags(q: &str, t: &str) -> (r: Option<Vec<bool>>)
    ensures
        r is Some <==> is_match(q@, t@),
        r matches Some(v) ==> v@.len() == t@.len() && forall|i: int|
            0 <= i < t@.len() ==> #[trigger] v@[i] == is_hit(q@, t@, i),
{
    let a = text::chars_of(q);
    let b = text::chars_of(t);
    let mut flags: Vec<bool> = Vec::new();
    let mut m: usize = 0;
    let mut i: usize = 0;
    while i < b.len()
        invariant
            i <= b.len(),
            m <= a.len(),
            m == matched(a@, b@, i as int),
            flags.len() == i,
            forall|k: int| 0 <= k < i ==> #[trigger] flags@[k] == is_hit(a@, b@, k),
        decreases b.len() - i,
    {
        let hit = m < a.len() && ci_eq(a[m], b[i]);
        if hit {
            m += 1;
        }
        flags.push(hit);
        i += 1;
    }
    if m == a.len() {
        Some(flags)
    } else {
        None
    }
}

proof fn lemma_greedy(q: Seq<char>, t: Seq<char>, at: Seq<int>, n: int)
    requires
        0 <= n <= t.len(),
        forall|k: int| 0 <= k < at.len() ==> 0 <= #[trigger] at[k] < n,
        forall|k: int, l: int| 0 <= k < l < at.len() ==> #[trigger] at[k] < #[trigger] at[l],
        at.len() <= q.len(),
        forall|k: int| 0 <= k < at.len() ==> same_letter(q[k], t[#[trigger] at[k]]),
    ensures
        matched(q, t, n) >= at.len(),
    decreases n,
{
    if n > 0 {
        lemma_matched(q, t, n - 1);
        if at.len() > 0 && at.last() == n - 1 {
            let front = at.drop_last();
            assert forall|k: int| 0 <= k < front.len() implies 0 <= #[trigger] front[k] < n - 1 by {
                assert(at[k] < at[at.len() - 1]);
            }
            lemma_greedy(q, t, front, n - 1);
            if matched(q, t, n - 1) == front.len() {
                assert(same_letter(q[front.len() as int], t[at[at.len() - 1]]));
            }
        } else {
            assert forall|k: int| 0 <= k < at.len() implies 0 <= #[trigger] at[k] < n - 1 by {
                if k < at.len() - 1 {
                    assert(at[k] < at[at.len() - 1]);
                }
            }
            lemma_greedy(q, t, at, n - 1);
        }
    } else {
        assert(at.len() == 0) by {
            if at.len() > 0 {
                assert(at[0] < 0);
            }
        }
    }
}

/// Whether the positions are those of the query's characters in the text, one
/// behind the other.
pub open spec fn holds_in_order(q: Seq<char>, t: Seq<char>, at: Seq<int>) -> bool {
    &&& at.len() == q.len()
    &&& forall|k: int| 0 <= k < at.len() ==> 0 <= #[trigger] at[k] < t.len()
    &&& forall|k: int, l: int| 0 <= k < l < at.len() ==> #[trigger] at[k] < #[trigger] at[l]
    &&& forall|k: int| 0 <= k < at.len() ==> same_letter(q[k], t[#[trigger] at[k]])
}

proof fn lemma_hits(q: Seq<char>, t: Seq<char>, n: int) -> (at: Seq<int>)
    requires
        0 <= n <= t.len(),
    ensures
        at.len() == matched(q, t, n),
        at.len() <= q.len(),
        forall|k: int| 0 <= k < at.len() ==> 0 <= #[trigger] at[k] < n,
        forall|k: int, l: int| 0 <= k < l < at.len() ==> #[trigger] at[k] < #[trigger] at[l],
        forall|k: int| 0 <= k < at.len() ==> same_letter(q[k], t[#[trigger] at[k]]),
    decreases n,
{
    if n == 0 {
        Seq::empty()
    } else {
        let front = lemma_hits(q, t, n - 1);
        if is_hit(q, t, n - 1) {
            front.push(n - 1)
        } else {
            front
        }
    }
}

/// A query matches exactly the texts that hold its characters in order, and
/// these are the texts that have a score.
pub proof fn law_matches_are_subsequences(q: Seq<char>, t: Seq<char>)
    ensures
        is_match(q, t) <==> exists|at: Seq<int>| #[trigger] holds_in_order(q, t, at),
        q.len() > 0 ==> (score_of(q, t) is Some <==> is_match(q, t)),
{
    if is_match(q, t) {
        let at = lemma_hits(q, t, t.len() as int);
        assert(holds_in_order(q, t, at));
    }
    if exists|at: Seq<int>| #[trigger] holds_in_order(q, t, at) {
        let at = choose|at: Seq<int>| #[trigger] holds_in_order(q, t, at);
        lemma_greedy(q, t, at, t.len() as int);
        lemma_matched(q, t, t.len() as int);
    }
}

/// What stands behind a match does not change its score.
pub proof fn law_appended_text_keeps_the_score(q: Seq<char>, t: Seq<char>, u: Seq<char>)
    requires
        score_of(q, t) is Some,
    ensures
        score_of(q, t + u) == score_of(q, t),
{
    let n = t.len() as int;
    lemma_same_front(q, t, t + u, n);
    lemma_after_match(q, t + u, n, (t + u).len() as int);
}

proof fn lemma_same_front(q: Seq<char>, t: Seq<char>, w: Seq<char>, i: int)
    requires
        0 <= i <= t.len() <= w.len(),
        forall|k: int| 0 <= k < t.len() ==> t[k] == w[k],
    ensures
        matched(q, t, i) == matched(q, w, i),
        i > 0 ==> matched(q, t, i - 1) == matched(q, w, i - 1),
        total_gain(q, t, i) == total_gain(q, w, i),
    decreases i,
{
    if i > 0 {
        lemma_same_front(q, t, w, i - 1);
    }
}

/// Whether two texts are equal but for ASCII case.
pub open spec fn same_letters(a: Seq<char>, b: Seq<char>) -> bool {
    &&& a.len() == b.len()
    &&& forall|i: int| 0 <= i < a.len() ==> same_letter(#[trigger] a[i], b[i])
}

/// The case of ASCII letters does not count, neither in the query nor in the text.
pub proof fn law_case_does_not_count(
    q: Seq<char>,
    r: Seq<char>,
    t: Seq<char>,
    u: Seq<char>,
)
    requires
        same_letters(q, r),
        same_letters(t, u),
    ensures
        score_of(q, t) == score_of(r, u),
{
    lemma_same_letters(q, r, t, u, t.len() as int);
}

proof fn lemma_same_letters(
    q: Seq<char>,
    r: Seq<char>,
    t: Seq<char>,
    u: Seq<char>,
    i: int,
)
    requires
        same_letters(q, r),
        same_letters(t, u),
        0 <= i <= t.len(),
    ensures
        matched(q, t, i) == matched(r, u, i),
        i > 0 ==> matched(q, t, i - 1) == matched(r, u, i - 1),
        total_gain(q, t, i) == total_gain(r, u, i),
    decreases i,
{
    if i > 0 {
        lemma_same_letters(q, r, t, u, i - 1);
        lemma_matched(q, t, i - 1);
        let m = matched(q, t, i - 1);
        assert(same_letter(t[i - 1], u[i - 1]));
        if m < q.len() {
            assert(same_letter(q[m], r[m]));
        }
        if i > 1 {
            assert(same_letter(t[i - 2], u[i - 2]));
            assert(in_word(t[i - 2]) == in_word(u[i - 2]));
        }
    }
}

/// Two characters match where they are equal, or the small and the capital form of one
/// ASCII letter.
pub proof fn law_letters_match_in_both_cases(a: char, b: char)
    ensures
        same_letter(a, b) <==> {
            ||| a == b
            ||| 'A' <= a <= 'Z' && b as int == a as int + 32
            ||| 'A' <= b <= 'Z' && a as int == b as int + 32
        },
{
    text::law_folding_joins_the_two_cases(a, b);
}

/// The score of a single character goes by where it first stands: two, five more at
/// the start of a word, and one less for every sixty-four characters in front of it.
pub proof fn law_score_of_one_character(c: char, t: Seq<char>, i: int)
    requires
        0 <= i < t.len(),
        same_letter(c, t[i]),
        forall|k: int| 0 <= k < i ==> !same_letter(c, #[trigger] t[k]),
    ensures
        score_of(seq![c], t) == Some(
            2 + (if i == 0 || !in_word(t[i - 1]) {
                5int
            } else {
                0
            }) - i / 64,
        ),
{
    let q = seq![c];
    lemma_no_hit_before(q, t, i);
    assert(matched(q, t, i + 1) == 1);
    if i > 0 {
        lemma_no_hit_before(q, t, i - 1);
        assert(!is_hit(q, t, i - 1));
    }
    assert(total_gain(q, t, i + 1) == gain(q, t, i));
    lemma_after_match(q, t, i + 1, t.len() as int);
}

proof fn lemma_no_hit_before(q: Seq<char>, t: Seq<char>, i: int)
    requires
        q.len() == 1,
        0 <= i <= t.len(),
        forall|k: int| 0 <= k < i ==> !same_letter(q[0], #[trigger] t[k]),
    ensures
        matched(q, t, i) == 0,
        total_gain(q, t, i) == 0,
    decreases i,
{
    if i > 0 {
        lemma_no_hit_before(q, t, i - 1);
        assert(!same_letter(q[0], t[i - 1]));
    }
}

/// A further character that follows a match directly adds six to the score, five more
/// where it starts a word, and one less for every sixty-four characters in front of it.
pub proof fn law_score_of_a_run(q: Seq<char>, t: Seq<char>, c: char, d: char)
    requires
        score_of(q, t) is Some,
        t.len() > 0,
        score_of(q, t.drop_last()) is None,
        same_letter(c, d),
    ensures
        score_of(q.push(c), t.push(d)) == Some(
            score_of(q, t)->0 + 6 + (if !in_word(t.last()) {
                5int
            } else {
                0
            }) - t.len() as int / 64,
        ),
{
    let n = t.len() as int;
    let p = q.push(c);
    let u = t.push(d);
    lemma_same_front(q, t.drop_last(), t, n - 1);
    lemma_matched(q, t, n - 1);
    lemma_longer_query(q, c, t, n);
    lemma_same_front(p, t, u, n);
    lemma_same_front(p, t, u, n - 1);
    assert(is_hit(q, t, n - 1));
    assert(matched(p, u, n) == q.len());
    assert(matched(p, u, n - 1) == q.len() - 1);
    assert(p[q.len() as int] == c && u[n] == d);
    assert(matched(p, u, n + 1) == p.len());
    assert(total_gain(p, u, n + 1) == total_gain(p, u, n) + gain(p, u, n));
}

proof fn lemma_longer_query(q: Seq<char>, c: char, t: Seq<char>, n: int)
    requires
        0 < n <= t.len(),
        matched(q, t, n - 1) < q.len(),
    ensures
        matched(q.push(c), t, n) == matched(q, t, n),
        matched(q.push(c), t, n - 1) == matched(q, t, n - 1),
        total_gain(q.push(c), t, n) == total_gain(q, t, n),
    decreases n,
{
    let p = q.push(c);
    lemma_matched(q, t, n - 1);
    if n > 1 {
        lemma_matched(q, t, n - 2);
        lemma_longer_query(q, c, t, n - 1);
        if matched(q, t, n - 2) < q.len() {
            assert(p[matched(q, t, n - 2)] == q[matched(q, t, n - 2)]);
        }
    }
    assert(p[matched(q, t, n - 1)] == q[matched(q, t, n - 1)]);
    assert(matched(p, t, n) == matched(q, t, n));
    assert(is_hit(p, t, n - 1) == is_hit(q, t, n - 1));
    if n > 1 {
        assert(is_hit(p, t, n - 2) == is_hit(q, t, n - 2));
    }
    assert(gain(p, t, n - 1) == gain(q, t, n - 1));
    assert(total_gain(p, t, n - 1) == total_gain(q, t, n - 1));
}

/// Letters and digits of ASCII are part of words.
pub proof fn law_plain_letters_are_in_words(c: char)
    ensures
        'a' <= c <= 'z' || 'A' <= c <= 'Z' || '0' <= c <= '9' ==> in_word(c),
        !('a' <= c <= 'z' || 'A' <= c <= 'Z' || '0' <= c <= '9') ==> in_word(c) == is_alphanumeric(
            c,
        ),
{
}

proof fn lemma_hit_places(q: Seq<char>, t: Seq<char>, n: int) -> (at: Seq<int>)
    requires
        0 <= n <= t.len(),
    ensures
        at.len() == matched(q, t, n),
        at.len() <= q.len(),
        forall|k: int| 0 <= k < at.len() ==> 0 <= #[trigger] at[k] < n,
        forall|k: int, l: int| 0 <= k < l < at.len() ==> #[trigger] at[k] < #[trigger] at[l],
        forall|k: int| 0 <= k < at.len() ==> same_letter(q[k], t[#[trigger] at[k]]),
        forall|i: int| 0 <= i < n ==> (at.contains(i) <==> #[trigger] is_hit(q, t, i)),
    decreases n,
{
    if n == 0 {
        Seq::empty()
    } else {
        let front = lemma_hit_places(q, t, n - 1);
        let at = if is_hit(q, t, n - 1) {
            front.push(n - 1)
        } else {
            front
        };
        assert forall|i: int| 0 <= i < n implies (at.contains(i) <==> #[trigger] is_hit(q, t, i)) by {
            if front.contains(i) {
                let k = choose|k: int| 0 <= k < front.len() && front[k] == i;
                assert(at[k] == i);
            }
            if i == n - 1 {
                if is_hit(q, t, i) {
                    assert(at[front.len() as int] == i);
                }
                if front.contains(i) {
                    let k = choose|k: int| 0 <= k < front.len() && front[k] == i;
                    assert(front[k] < n - 1);
                }
            } else if at.contains(i) {
                let k = choose|k: int| 0 <= k < at.len() && at[k] == i;
                assert(front[k] == i);
            }
        }
        at
    }
}

/// The characters that are marked as matching are those of the query, in its order and
/// no others.
pub proof fn law_marked_characters_spell_the_query(q: Seq<char>, t: Seq<char>)
    requires
        is_match(q, t),
    ensures
        exists|at: Seq<int>| #[trigger]
            holds_in_order(q, t, at) && forall|i: int|
                0 <= i < t.len() ==> (at.contains(i) <==> #[trigger] is_hit(q, t, i)),
{
    let at = lemma_hit_places(q, t, t.len() as int);
    assert(holds_in_order(q, t, at));
}

/// A further character behind a gap adds two to the score, five more where it starts a
/// word, and one less for every sixty-four characters in front of it.
pub proof fn law_score_behind_a_gap(q: Seq<char>, t: Seq<char>, gap: Seq<char>, c: char, d: char)
    requires
        score_of(q, t) is Some,
        t.len() > 0,
        score_of(q, t.drop_last()) is None,
        gap.len() > 0,
        forall|i: int| 0 <= i < gap.len() ==> !same_letter(c, #[trigger] gap[i]),
        same_letter(c, d),
    ensures
        score_of(q.push(c), t + gap.push(d)) == Some(
            score_of(q, t)->0 + 2 + (if !in_word(gap.last()) {
                5int
            } else {
                0
            }) - (t.len() + gap.len()) as int / 64,
        ),
{
    let n = t.len() as int;
    let p = q.push(c);
    let u = t + gap.push(d);
    let m = n + gap.len() as int;
    lemma_same_front(q, t.drop_last(), t, n - 1);
    lemma_matched(q, t, n - 1);
    lemma_longer_query(q, c, t, n);
    lemma_same_front(p, t, u, n);
    lemma_gap(p, u, n, m);
    lemma_gap(p, u, n, m - 1);
    assert(u[m] == d && p[q.len() as int] == c);
    assert(u[m - 1] == gap.last());
    assert(!is_hit(p, u, m - 1));
    assert(matched(p, u, m + 1) == p.len());
    assert(total_gain(p, u, m + 1) == total_gain(p, u, m) + gain(p, u, m));
}

proof fn lemma_gap(q: Seq<char>, t: Seq<char>, i: int, n: int)
    requires
        0 <= i <= n <= t.len(),
        0 <= matched(q, t, i) < q.len(),
        forall|k: int| i <= k < n ==> !same_letter(q[matched(q, t, i)], #[trigger] t[k]),
    ensures
        matched(q, t, n) == matched(q, t, i),
        total_gain(q, t, n) == total_gain(q, t, i),
    decreases n,
{
    if i < n {
        lemma_gap(q, t, i, n - 1);
        assert(!same_letter(q[matched(q, t, i)], t[n - 1]));
    }
}

} // verus!
