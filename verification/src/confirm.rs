//! Confirmation of deletions: a pinned entry is deleted only when it is asked
//! for twice within a short time.
//!
//! What is pending lives in a file, since the two requests may come from
//! different processes. The functions here take the contents of that file and
//! leave in it what is to be written back; `None` is a file that is not there.

use crate::store;
use crate::store::maintain;
use crate::store::{Store, StoreError, StoreView};
use crate::text;
use vstd::prelude::*;

verus! {

/// How long a pending deletion is good for, in milliseconds.
pub const PENDING_TTL_MS: u128 = 15_000;

/// What a request to delete leads to.
#[derive(Debug, Clone, Copy, PartialEq, Eq, Structural)]
pub enum Decision {
    /// The entry is deleted.
    Deleted,
    /// The entry is kept until the request is repeated.
    Pending,
}

/// The entry that the file's contents name and the time at which they were
/// written.
pub open spec fn written(file: Option<Seq<char>>) -> Option<(int, nat)> {
    match file {
        None => None,
        Some(raw) => {
            let w = text::words_of(raw);
            if w.len() < 2 {
                None
            } else {
                match (
                    text::within(text::int_literal(w[0]), i64::MIN as int, i64::MAX as int),
                    text::nat_literal(w[1]),
                ) {
                    (Some(id), Some(ts)) => if ts <= u128::MAX {
                        Some((id, ts))
                    } else {
                        None
                    },
                    _ => None,
                }
            }
        },
    }
}

/// The entry whose deletion is pending: none where the file is damaged or was
/// written too long ago.
pub open spec fn armed(file: Option<Seq<char>>, now_ms: nat) -> Option<int> {
    match written(file) {
        Some((id, ts)) => if now_ms > ts + PENDING_TTL_MS {
            None
        } else {
            Some(id)
        },
        None => None,
    }
}

/// What the file holds when the deletion of an entry becomes pending.
pub open spec fn armed_file(id: int, now_ms: nat) -> Seq<char> {
    text::dec_int(id).push(' ') + text::dec_nat(now_ms)
}

/// What a request leads to: an entry that is not pinned is deleted, a pinned
/// one where its deletion is pending.
pub open spec fn decision(file: Option<Seq<char>>, id: int, pinned: bool, now_ms: nat) -> Decision {
    if !pinned || armed(file, now_ms) == Some(id) {
        Decision::Deleted
    } else {
        Decision::Pending
    }
}

/// What the file holds after a request.
pub open spec fn file_after(
    file: Option<Seq<char>>,
    id: int,
    pinned: bool,
    now_ms: nat,
) -> Option<Seq<char>> {
    match decision(file, id, pinned, now_ms) {
        Decision::Deleted => None,
        Decision::Pending => Some(armed_file(id, now_ms)),
    }
}

fn read(file: &Option<String>, now_ms: u128) -> (r: Option<i64>)
    ensures
        match r {
            Some(id) => armed(store::opt_text(*file), now_ms as nat) == Some(id as int),
            None => armed(store::opt_text(*file), now_ms as nat) is None,
        },
{
    let raw = match file {
        Some(raw) => raw,
        None => {
            return None;
        },
    };
    let w = text::words(raw.as_str());
    let ghost all = text::texts(w@);
    if w.len() < 2 {
        return None;
    }
    assert(all[0] == w@[0]@);
    assert(all[1] == w@[1]@);
    let id: i64 = match text::parse_i64(w[0].as_str()) {
        Some(id) => id,
        None => {
            return None;
        },
    };
    let ts: u128 = match text::parse_u128(w[1].as_str()) {
        Some(ts) => ts,
        None => {
            return None;
        },
    };
    if now_ms > ts && now_ms - ts > PENDING_TTL_MS {
        None
    } else {
        Some(id)
    }
}

/// The entry whose deletion is pending. A file that names none, because it is
/// damaged or out of date, is removed.
pub fn pending_id(file: &mut Option<String>, now_ms: u128) -> (r: Option<i64>)
    ensures
        match r {
            Some(id) => {
                &&& armed(store::opt_text(*old(file)), now_ms as nat) == Some(id as int)
                &&& *final(file) == *old(file)
            },
            None => {
                &&& armed(store::opt_text(*old(file)), now_ms as nat) is None
                &&& *final(file) is None
            },
        },
{
    match read(file, now_ms) {
        Some(id) => Some(id),
        None => {
            *file = None;
            None
        },
    }
}

/// Drops what is pending.
pub fn clear(file: &mut Option<String>)
    ensures
        *final(file) is None,
{
    *file = None;
}

fn arm(file: &mut Option<String>, id: i64, now_ms: u128)
    ensures
        store::opt_text(*final(file)) == Some(armed_file(id as int, now_ms as nat)),
{
    let mut raw = String::new();
    text::push_i64(&mut raw, id);
    assert(raw@ == text::dec_int(id as int));
    raw.push(' ');
    text::push_u128(&mut raw, now_ms);
    *file = Some(raw);
}

/// Decides on a request to delete an entry. Nothing is deleted here.
pub fn decide(file: &mut Option<String>, id: i64, pinned: bool, now_ms: u128) -> (d: Decision)
    ensures
        d == decision(store::opt_text(*old(file)), id as int, pinned, now_ms as nat),
        store::opt_text(*final(file)) == file_after(
            store::opt_text(*old(file)),
            id as int,
            pinned,
            now_ms as nat,
        ),
{
    if !pinned {
        clear(file);
        return Decision::Deleted;
    }
    let same = match read(file, now_ms) {
        Some(p) => p == id,
        None => false,
    };
    if same {
        clear(file);
        Decision::Deleted
    } else {
        arm(file, id, now_ms);
        Decision::Pending
    }
}

/// Decides on a request and deletes the entry where that is the decision.
pub fn request(s: &mut Store, file: &mut Option<String>, id: i64, now_ms: u128) -> (r: Result<
    Decision,
    StoreError,
>)
    requires
        old(s).wf(),
    ensures
        final(s).wf(),
        ({
            let rows = old(s)@.rows;
            let before = store::opt_text(*old(file));
            let pinned = rows[store::id_index(rows, id as int)].pinned;
            let d = decision(before, id as int, pinned, now_ms as nat);
            if !store::has_id(rows, id as int) {
                &&& r == Err::<Decision, StoreError>(StoreError::NotFound)
                &&& final(s)@ == old(s)@
                &&& *final(file) == *old(file)
            } else {
                &&& r == Ok::<Decision, StoreError>(d)
                &&& store::opt_text(*final(file)) == file_after(
                    before,
                    id as int,
                    pinned,
                    now_ms as nat,
                )
                &&& final(s)@ == if d == Decision::Deleted {
                    StoreView { rows: maintain::without_id(rows, id as int), ..old(s)@ }
                } else {
                    old(s)@
                }
            }
        }),
{
    let pinned = match store::is_pinned(s, id) {
        Ok(b) => b,
        Err(e) => {
            return Err(e);
        },
    };
    let d = decide(file, id, pinned, now_ms);
    if d == Decision::Deleted {
        store::delete(s, id);
    }
    Ok(d)
}

/// The file written when a deletion becomes pending names that entry, for as
/// long as it is good.
pub proof fn law_armed_file_is_read_back(id: int, written_ms: nat, now_ms: nat)
    requires
        i64::MIN <= id <= i64::MAX,
        written_ms <= u128::MAX,
    ensures
        armed(Some(armed_file(id, written_ms)), now_ms) == if now_ms <= written_ms
            + PENDING_TTL_MS {
            Some(id)
        } else {
            None
        },
{
    text::lemma_dec_int_value(id);
    text::lemma_dec_nat(written_ms);
    text::lemma_dec_nat_value(written_ms);
    let b = text::dec_nat(written_ms);
    assert forall|i: int| 0 <= i < b.len() implies !text::is_space(#[trigger] b[i]) by {
        assert('0' <= b[i] <= '9');
    }
    text::lemma_two_words(text::dec_int(id), b);
}

/// A pinned entry needs two requests: the first keeps it, and a second one that
/// comes in time deletes it. One that comes too late starts anew.
pub proof fn law_pinned_needs_two_requests(
    file: Option<Seq<char>>,
    id: int,
    first_ms: nat,
    second_ms: nat,
)
    requires
        i64::MIN <= id <= i64::MAX,
        first_ms <= u128::MAX,
        armed(file, first_ms) != Some(id),
    ensures
        decision(file, id, true, first_ms) == Decision::Pending,
        ({
            let between = file_after(file, id, true, first_ms);
            if second_ms <= first_ms + PENDING_TTL_MS {
                &&& decision(between, id, true, second_ms) == Decision::Deleted
                &&& file_after(between, id, true, second_ms) is None
            } else {
                &&& decision(between, id, true, second_ms) == Decision::Pending
                &&& file_after(between, id, true, second_ms) == Some(armed_file(id, second_ms))
            }
        }),
{
    law_armed_file_is_read_back(id, first_ms, second_ms);
}

/// A request for another pinned entry moves what is pending: the first entry
/// again needs two requests.
pub proof fn law_pending_moves(
    file: Option<Seq<char>>,
    a: int,
    b: int,
    first_ms: nat,
    second_ms: nat,
)
    requires
        i64::MIN <= b <= i64::MAX,
        first_ms <= u128::MAX,
        a != b,
        armed(file, first_ms) != Some(b),
    ensures
        decision(file_after(file, b, true, first_ms), a, true, second_ms) == Decision::Pending,
{
    law_armed_file_is_read_back(b, first_ms, second_ms);
}

/// After a deletion nothing is pending.
pub proof fn law_deletion_clears(file: Option<Seq<char>>, id: int, pinned: bool, now_ms: nat)
    requires
        decision(file, id, pinned, now_ms) == Decision::Deleted,
    ensures
        forall|later_ms: nat|
            armed(#[trigger] file_after(file, id, pinned, now_ms), later_ms) is None,
{
}

/// An entry without a pin is deleted at once. One with a pin is deleted only where its
/// own deletion is pending; else nothing is deleted, and its deletion is pending from
/// then on, for fifteen seconds.
pub proof fn law_only_pins_are_asked_about(
    file: Option<Seq<char>>,
    id: int,
    now_ms: nat,
    later_ms: nat,
)
    requires
        i64::MIN <= id <= i64::MAX,
        now_ms <= u128::MAX,
    ensures
        decision(file, id, false, now_ms) == Decision::Deleted,
        decision(file, id, true, now_ms) == Decision::Deleted <==> armed(file, now_ms) == Some(id),
        decision(None, id, true, now_ms) == Decision::Pending,
        decision(file, id, true, now_ms) == Decision::Pending ==> armed(
            file_after(file, id, true, now_ms),
            later_ms,
        ) == if later_ms <= now_ms + 15_000 {
            Some(id)
        } else {
            None
        },
        file_after(file, id, false, now_ms) is None,
{
    law_armed_file_is_read_back(id, now_ms, later_ms);
}

/// What is pending is an id and a time, in two words; a file with fewer words, or with
/// words that are no numbers, names nothing.
pub proof fn law_damaged_files_name_nothing(raw: Seq<char>, now_ms: nat)
    ensures
        armed(None, now_ms) is None,
        ({
            let w = text::words_of(raw);
            w.len() < 2 || text::int_literal(w[0]) is None || text::nat_literal(w[1]) is None
                ==> armed(Some(raw), now_ms) is None
        }),
{
}

/// What is pending is what the first two words name: an id, and a moment from which it
/// counts for fifteen seconds, whatever else the file holds.
pub proof fn law_pending_is_what_the_words_name(raw: Seq<char>, id: int, ts: nat, now_ms: nat)
    requires
        text::words_of(raw).len() >= 2,
        text::int_literal(text::words_of(raw)[0]) == Some(id),
        text::nat_literal(text::words_of(raw)[1]) == Some(ts),
        i64::MIN <= id <= i64::MAX,
        ts <= u128::MAX,
    ensures
        armed(Some(raw), now_ms) == if now_ms <= ts + 15_000 {
            Some(id)
        } else {
            None
        },
{
}

} // verus!
