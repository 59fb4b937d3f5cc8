//! Display names that users chose for the attribution of their problems.

use std::collections::HashMap;
use vstd::prelude::*;

verus! {

broadcast use vstd::std_specs::hash::group_hash_axioms;

/// The name shown for `user_id`: the one the user set, else `fallback`.
pub open spec fn resolved_name(m: Map<u64, Seq<char>>, user_id: u64, fallback: Seq<char>) -> Seq<
    char,
> {
    if m.contains_key(user_id) {
        m[user_id]
    } else {
        fallback
    }
}

/// What `serde_json` reads from `text` as a JSON object from user ids to
/// names; `None` when the text is not such an object.
pub uninterp spec fn names_of_json(text: Seq<char>) -> Option<Map<u64, Seq<char>>>;

/// The names held in a map from user id to name.
pub open spec fn names_view(m: Map<u64, String>) -> Map<u64, Seq<char>> {
    Map::new(|k: u64| m.contains_key(k), |k: u64| m[k]@)
}

/// Calls `serde_json::from_str::<HashMap<u64, String>>(text)`, `None` on an
/// error. The contract claims only that the result is the one
/// `names_of_json` names: it depends on the text alone.
#[verifier::external_body]
fn parse_names(text: &str) -> (r: Option<HashMap<u64, String>>)
    ensures
        match r {
            Some(m) => names_of_json(text@) == Some(names_view(m@)),
            None => names_of_json(text@) is None,
        },
{
    match serde_json::from_str::<HashMap<u64, String>>(text) {
        Ok(m) => Some(m),
        Err(_) => None,
    }
}

/// The display names chosen by users, by user id.
pub struct Authors {
    names: HashMap<u64, String>,
}

impl View for Authors {
    type V = Map<u64, Seq<char>>;

    closed spec fn view(&self) -> Map<u64, Seq<char>> {
        Map::new(|k: u64| self.names@.contains_key(k), |k: u64| self.names@[k]@)
    }
}

impl Authors {
    /// No names chosen.
    pub fn new() -> (r: Authors)
        ensures
            r@ == Map::<u64, Seq<char>>::empty(),
    {
        let r = Authors { names: HashMap::new() };
        assert(r@ =~= Map::<u64, Seq<char>>::empty());
        r
    }

    /// The names held in `names`.
    pub fn from_map(names: HashMap<u64, String>) -> (r: Authors)
        ensures
            r@ == names_view(names@),
    {
        let r = Authors { names };
        assert(r@ =~= names_view(names@));
        r
    }

    /// The names saved as the JSON text `text`; none when the text does not
    /// read as a map from user ids to names.
    pub fn from_text(text: &str) -> (r: Authors)
        ensures
            r@ == match names_of_json(text@) {
                Some(m) => m,
                None => Map::empty(),
            },
    {
        match parse_names(text) {
            Some(m) => Authors::from_map(m),
            None => Authors::new(),
        }
    }

    /// The names, as a map from user id to name.
    pub fn into_map(self) -> (r: HashMap<u64, String>)
        ensures
            self@ == names_view(r@),
    {
        assert(self@ =~= names_view(self.names@));
        self.names
    }
}

/// The name shown for `user_id`: the one the user set, else `fallback`.
pub fn resolve(authors: &Authors, user_id: u64, fallback: String) -> (r: String)
    ensures
        r@ == resolved_name(authors@, user_id, fallback@),
{
    match authors.names.get(&user_id) {
        Some(name) => name.clone(),
        None => fallback,
    }
}

/// Records `name` as the display name of `user_id`.
pub fn set(authors: &mut Authors, user_id: u64, name: String)
    ensures
        final(authors)@ == old(authors)@.insert(user_id, name@),
{
    let ghost n = name@;
    authors.names.insert(user_id, name);
    assert(final(authors)@ =~= old(authors)@.insert(user_id, n));
}

/// After a user sets a name, that name is shown for them whatever the fallback.
pub proof fn lemma_resolve_after_set(
    m: Map<u64, Seq<char>>,
    user_id: u64,
    name: Seq<char>,
    fallback: Seq<char>,
)
    ensures
        resolved_name(m.insert(user_id, name), user_id, fallback) == name,
{
}

/// Setting one user's name leaves every other user's shown name as it was.
pub proof fn lemma_set_keeps_others(
    m: Map<u64, Seq<char>>,
    user_id: u64,
    other: u64,
    name: Seq<char>,
    fallback: Seq<char>,
)
    requires
        other != user_id,
    ensures
        resolved_name(m.insert(user_id, name), other, fallback) == resolved_name(m, other, fallback),
{
}

/// A user who never set a name is shown under the fallback.
pub proof fn lemma_resolve_unset(m: Map<u64, Seq<char>>, user_id: u64, fallback: Seq<char>)
    requires
        !m.contains_key(user_id),
    ensures
        resolved_name(m, user_id, fallback) == fallback,
{
}

} // verus!
