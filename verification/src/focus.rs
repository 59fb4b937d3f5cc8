//! Per-user focus: the problem a user picked as the target of their next
//! commands, which lapses twenty minutes after it was set.

use std::collections::HashMap;
use vstd::prelude::*;

verus! {

broadcast use vstd::std_specs::hash::group_hash_axioms;

/// How long a focus lasts: twenty minutes, in nanoseconds.
pub const FOCUS_DURATION_NANOS: u64 = 1_200_000_000_000;

/// The time that has passed from `set_at` to `now`, zero when `now` is earlier.
pub open spec fn elapsed(set_at: u64, now: u64) -> nat {
    if now >= set_at {
        (now - set_at) as nat
    } else {
        0
    }
}

/// The focused link of `user_id` at time `now`: the link last set for the
/// user, unless it was cleared or twenty minutes or more have passed.
pub open spec fn focus_at(m: Map<u64, (Seq<char>, u64)>, user_id: u64, now: u64) -> Option<
    Seq<char>,
> {
    if m.contains_key(user_id) && elapsed(m[user_id].1, now) < FOCUS_DURATION_NANOS {
        Some(m[user_id].0)
    } else {
        None
    }
}

/// The focus of every user: a link and the time (in nanoseconds on a
/// monotonic clock) at which it was set.
pub struct FocusStore {
    entries: HashMap<u64, (String, u64)>,
}

impl View for FocusStore {
    type V = Map<u64, (Seq<char>, u64)>;

    closed spec fn view(&self) -> Map<u64, (Seq<char>, u64)> {
        Map::new(
            |k: u64| self.entries@.contains_key(k),
            |k: u64| (self.entries@[k].0@, self.entries@[k].1),
        )
    }
}

impl FocusStore {
    /// A store in which no user has a focus.
    pub fn new() -> (r: FocusStore)
        ensures
            r@ == Map::<u64, (Seq<char>, u64)>::empty(),
    {
        let r = FocusStore { entries: HashMap::new() };
        assert(r@ =~= Map::<u64, (Seq<char>, u64)>::empty());
        r
    }
}

/// Focuses `user_id` on `link`, as of time `now`.
pub fn set(store: &mut FocusStore, user_id: u64, link: String, now: u64)
    ensures
        final(store)@ == old(store)@.insert(user_id, (link@, now)),
{
    let ghost l = link@;
    store.entries.insert(user_id, (link, now));
    assert(final(store)@ =~= old(store)@.insert(user_id, (l, now)));
}

/// The link `user_id` is focused on at time `now`, if the focus has not lapsed.
pub fn get(store: &FocusStore, user_id: u64, now: u64) -> (r: Option<String>)
    ensures
        match r {
            Some(l) => focus_at(store@, user_id, now) == Some(l@),
            None => focus_at(store@, user_id, now) is None,
        },
{
    match store.entries.get(&user_id) {
        Some(entry) => {
            let set_at = entry.1;
            let passed = if now >= set_at { now - set_at } else { 0 };
            if passed < FOCUS_DURATION_NANOS {
                Some(entry.0.clone())
            } else {
                None
            }
        },
        None => None,
    }
}

/// Removes the focus of `user_id`.
pub fn clear(store: &mut FocusStore, user_id: u64)
    ensures
        final(store)@ == old(store)@.remove(user_id),
{
    store.entries.remove(&user_id);
    assert(final(store)@ =~= old(store)@.remove(user_id));
}

/// A focus that was just set is found until twenty minutes have passed,
/// and not after.
pub proof fn lemma_get_after_set(
    m: Map<u64, (Seq<char>, u64)>,
    user_id: u64,
    link: Seq<char>,
    set_at: u64,
    now: u64,
)
    ensures
        elapsed(set_at, now) < FOCUS_DURATION_NANOS ==> focus_at(
            m.insert(user_id, (link, set_at)),
            user_id,
            now,
        ) == Some(link),
        elapsed(set_at, now) >= FOCUS_DURATION_NANOS ==> focus_at(
            m.insert(user_id, (link, set_at)),
            user_id,
            now,
        ) is None,
{
}

/// After a clear the user has no focus.
pub proof fn lemma_get_after_clear(m: Map<u64, (Seq<char>, u64)>, user_id: u64, now: u64)
    ensures
        focus_at(m.remove(user_id), user_id, now) is None,
{
}

/// Setting or clearing the focus of one user leaves every other user's focus as it was.
pub proof fn lemma_other_users_unchanged(
    m: Map<u64, (Seq<char>, u64)>,
    user_id: u64,
    other: u64,
    link: Seq<char>,
    set_at: u64,
    now: u64,
)
    requires
        other != user_id,
    ensures
        focus_at(m.insert(user_id, (link, set_at)), other, now) == focus_at(m, other, now),
        focus_at(m.remove(user_id), other, now) == focus_at(m, other, now),
{
}

} // verus!
