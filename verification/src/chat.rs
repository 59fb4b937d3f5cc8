//! Group chat messages: the submission hashtag and the messages that carry it.

use vstd::prelude::*;
use crate::problem::{split_submission, Problem, ProblemView, Timestamp};
use crate::scanner::{text_after, text_after_tag};
use crate::text::{chars_of, opt_string_view, trim_start_char, trim_start_matches_char};

verus! {

broadcast use vstd::string::group_string_axioms;

/// The hashtag that marks a submission: `#` followed by the configured tag
/// without its leading `#`s.
pub open spec fn hashtag_of(raw: Seq<char>) -> Seq<char> {
    seq!['#'] + trim_start_char(raw, '#')
}

/// The hashtag that marks a submission (see `hashtag_of`).
pub fn target_hashtag(raw: &str) -> (r: String)
    ensures
        r@ == hashtag_of(raw@),
{
    let mut r = "#".to_owned();
    r.append(trim_start_matches_char(raw, '#'));
    proof {
        reveal_strlit("#");
    }
    assert(r@ =~= hashtag_of(raw@));
    r
}


// ---------------------------------------------------------------------------
// UTF-16, in which Telegram counts entity offsets

/// The UTF-16 code units of one character.
pub open spec fn utf16_units(c: char) -> Seq<u16> {
    let v = c as u32;
    if v < 0x10000 {
        seq![v as u16]
    } else {
        let w = (v - 0x10000) as u32;
        seq![(0xD800 + w / 1024) as u16, (0xDC00 + w % 1024) as u16]
    }
}

/// The UTF-16 encoding of `s` (as `str::encode_utf16`).
pub open spec fn utf16_of(s: Seq<char>) -> Seq<u16>
    decreases s.len(),
{
    if s.len() == 0 {
        seq![]
    } else {
        utf16_of(s.drop_last()) + utf16_units(s.last())
    }
}

/// Whether `u` is a UTF-16 high (leading) surrogate.
pub open spec fn is_high_surrogate(u: u16) -> bool {
    0xD800 <= u && u <= 0xDBFF
}

/// Whether `u` is a UTF-16 low (trailing) surrogate.
pub open spec fn is_low_surrogate(u: u16) -> bool {
    0xDC00 <= u && u <= 0xDFFF
}

/// The code point that Unicode replaces undecodable input with, U+FFFD.
pub open spec fn replacement() -> u32 {
    0xFFFD
}

/// The code points of `u` decoded as UTF-16, each unpaired surrogate
/// replaced by U+FFFD (as `String::from_utf16_lossy`).
pub open spec fn decode_lossy(u: Seq<u16>) -> Seq<u32>
    decreases u.len(),
{
    if u.len() == 0 {
        seq![]
    } else if !is_high_surrogate(u[0]) && !is_low_surrogate(u[0]) {
        seq![u[0] as u32] + decode_lossy(u.drop_first())
    } else if is_high_surrogate(u[0]) && u.len() >= 2 && is_low_surrogate(u[1]) {
        seq![(0x10000 + (u[0] - 0xD800) * 1024 + (u[1] - 0xDC00)) as u32] + decode_lossy(u.skip(2))
    } else {
        seq![replacement()] + decode_lossy(u.drop_first())
    }
}

/// The code points of `s`.
pub open spec fn code_points(s: Seq<char>) -> Seq<u32> {
    s.map_values(|c: char| c as u32)
}

proof fn lemma_utf16_cons(s: Seq<char>)
    requires
        s.len() > 0,
    ensures
        utf16_of(s) == utf16_units(s[0]) + utf16_of(s.drop_first()),
    decreases s.len(),
{
    if s.len() == 1 {
        assert(s.drop_last() =~= Seq::<char>::empty());
        assert(s.drop_first() =~= Seq::<char>::empty());
        assert(utf16_of(s.drop_first()) =~= Seq::<u16>::empty());
        assert(utf16_of(s) =~= utf16_units(s[0]));
        assert(utf16_units(s[0]) + Seq::<u16>::empty() =~= utf16_units(s[0]));
    } else {
        lemma_utf16_cons(s.drop_last());
        assert(s.drop_last().drop_first() =~= s.drop_first().drop_last());
        assert(s.drop_first().last() == s.last());
        assert(s.drop_last()[0] == s[0]);
        let u0 = utf16_units(s[0]);
        let mid = utf16_of(s.drop_first().drop_last());
        let ul = utf16_units(s.last());
        assert(utf16_of(s) == (u0 + mid) + ul);
        assert(utf16_of(s.drop_first()) == mid + ul);
        assert((u0 + mid) + ul =~= u0 + (mid + ul));
    }
}

proof fn lemma_utf16_concat(a: Seq<char>, b: Seq<char>)
    ensures
        utf16_of(a + b) == utf16_of(a) + utf16_of(b),
    decreases b.len(),
{
    if b.len() == 0 {
        assert(a + b =~= a);
        assert(utf16_of(a) + utf16_of(b) =~= utf16_of(a));
    } else {
        lemma_utf16_concat(a, b.drop_last());
        assert((a + b).drop_last() =~= a + b.drop_last());
        assert((a + b).last() == b.last());
        assert(utf16_of(a + b) == utf16_of(a + b.drop_last()) + utf16_units(b.last()));
        assert(utf16_of(a) + utf16_of(b) =~= (utf16_of(a) + utf16_of(b.drop_last())) + utf16_units(
            b.last(),
        ));
    }
}

proof fn lemma_decode_units(c: char, rest: Seq<u16>)
    ensures
        decode_lossy(utf16_units(c) + rest) == seq![c as u32] + decode_lossy(rest),
{
    let v = c as u32;
    let u = utf16_units(c) + rest;
    if v < 0x10000 {
        assert(!(0xD800 <= v && v <= 0xDFFF));
        assert(u[0] == v as u16);
        assert(u.drop_first() =~= rest);
    } else {
        let w = (v - 0x10000) as u32;
        assert(w < 0x100000);
        vstd::arithmetic::div_mod::lemma_fundamental_div_mod(w as int, 1024);
        assert(0 <= w % 1024 < 1024) by {
            vstd::arithmetic::div_mod::lemma_mod_bound(w as int, 1024);
        }
        assert(w / 1024 < 1024) by {
            vstd::arithmetic::div_mod::lemma_div_is_ordered(w as int, 0x100000 - 1, 1024);
        }
        let hi = (0xD800 + w / 1024) as u16;
        let lo = (0xDC00 + w % 1024) as u16;
        assert(u[0] == hi);
        assert(u[1] == lo);
        assert(is_high_surrogate(hi));
        assert(is_low_surrogate(lo));
        assert(u.skip(2) =~= rest);
        assert((0x10000 + (hi - 0xD800) * 1024 + (lo - 0xDC00)) as u32 == v);
    }
}

/// Decoding the UTF-16 encoding of a text gives back its characters.
pub proof fn lemma_decode_encode(s: Seq<char>)
    ensures
        decode_lossy(utf16_of(s)) == code_points(s),
    decreases s.len(),
{
    if s.len() == 0 {
        assert(code_points(s) =~= Seq::<u32>::empty());
    } else {
        lemma_utf16_cons(s);
        lemma_decode_units(s[0], utf16_of(s.drop_first()));
        lemma_decode_encode(s.drop_first());
        assert(code_points(s) =~= seq![s[0] as u32] + code_points(s.drop_first()));
    }
}

/// The UTF-16 encoding of the characters `v`.
pub fn encode_utf16(v: &Vec<char>) -> (r: Vec<u16>)
    ensures
        r@ == utf16_of(v@),
{
    let mut r: Vec<u16> = Vec::new();
    let mut i: usize = 0;
    while i < v.len()
        invariant
            i <= v.len(),
            r@ == utf16_of(v@.take(i as int)),
        decreases v.len() - i,
    {
        let c = v[i] as u32;
        if c < 0x10000 {
            r.push(c as u16);
        } else {
            let w = c - 0x10000;
            r.push((0xD800 + w / 1024) as u16);
            r.push((0xDC00 + w % 1024) as u16);
        }
        proof {
            assert(v@.take(i + 1).drop_last() =~= v@.take(i as int));
            assert(r@ =~= utf16_of(v@.take(i + 1)));
        }
        i = i + 1;
    }
    assert(v@.take(v.len() as int) =~= v@);
    r
}

/// The code points of `units[from..to]` decoded as UTF-16 (see `decode_lossy`).
pub fn decode_utf16_lossy(units: &Vec<u16>, from: usize, to: usize) -> (r: Vec<u32>)
    requires
        from <= to <= units.len(),
    ensures
        r@ == decode_lossy(units@.subrange(from as int, to as int)),
{
    let mut r: Vec<u32> = Vec::new();
    let mut i = from;
    assert(r@ + decode_lossy(units@.subrange(i as int, to as int)) =~= decode_lossy(
        units@.subrange(from as int, to as int),
    ));
    while i < to
        invariant
            from <= i <= to <= units.len(),
            r@ + decode_lossy(units@.subrange(i as int, to as int)) == decode_lossy(
                units@.subrange(from as int, to as int),
            ),
        decreases to - i,
    {
        let ghost rest = units@.subrange(i as int, to as int);
        let ghost before = r@;
        let a = units[i];
        if a < 0xD800 || a > 0xDFFF {
            r.push(a as u32);
            proof {
                assert(rest.drop_first() =~= units@.subrange(i + 1, to as int));
                assert(r@ + decode_lossy(units@.subrange(i + 1, to as int)) =~= before
                    + decode_lossy(rest));
            }
            i = i + 1;
        } else if a <= 0xDBFF && i + 1 < to && 0xDC00 <= units[i + 1] && units[i + 1] <= 0xDFFF {
            let b = units[i + 1];
            r.push(0x10000 + (a as u32 - 0xD800) * 1024 + (b as u32 - 0xDC00));
            proof {
                assert(rest.skip(2) =~= units@.subrange(i + 2, to as int));
                assert(r@ + decode_lossy(units@.subrange(i + 2, to as int)) =~= before
                    + decode_lossy(rest));
            }
            i = i + 2;
        } else {
            r.push(0xFFFD);
            proof {
                assert(rest.drop_first() =~= units@.subrange(i + 1, to as int));
                assert(r@ + decode_lossy(units@.subrange(i + 1, to as int)) =~= before
                    + decode_lossy(rest));
            }
            i = i + 1;
        }
    }
    assert(units@.subrange(to as int, to as int) =~= Seq::<u16>::empty());
    assert(r@ =~= r@ + decode_lossy(units@.subrange(to as int, to as int)));
    r
}

// ---------------------------------------------------------------------------
// Messages in a group chat

/// A formatting entity of a message: whether it is a hashtag, and where it
/// stands, in UTF-16 code units.
#[derive(Clone, Copy)]
pub struct Entity {
    pub is_hashtag: bool,
    pub offset: usize,
    pub length: usize,
}

/// What the bot reads of an incoming message: whether it was sent in a
/// private chat, its text, and its entities.
pub struct IncomingMessage {
    pub is_private: bool,
    pub text: Option<String>,
    pub entities: Vec<Entity>,
}

/// Whether entity `e` of a text with UTF-16 units `units` is the hashtag `tag`.
pub open spec fn entity_is_tag(e: Entity, units: Seq<u16>, tag: Seq<char>) -> bool {
    &&& e.is_hashtag
    &&& e.offset + e.length <= units.len()
    &&& decode_lossy(units.subrange(e.offset as int, e.offset + e.length)) == code_points(tag)
}

/// Whether some entity of a text is the hashtag `tag`.
pub open spec fn has_tag(entities: Seq<Entity>, text: Seq<char>, tag: Seq<char>) -> bool {
    exists|i: int| 0 <= i < entities.len() && entity_is_tag(entities[i], utf16_of(text), tag)
}

/// Whether no entity's end overflows a `usize`.
pub open spec fn entities_in_range(entities: Seq<Entity>) -> bool {
    forall|i: int| 0 <= i < entities.len() ==> #[trigger] entities[i].offset + entities[i].length <= usize::MAX
}

/// The text to log for a group message: its text, when one of its hashtag
/// entities is the submission hashtag (configured as `hashtag_raw`).
pub open spec fn submission_text(
    is_private: bool,
    text: Option<Seq<char>>,
    entities: Seq<Entity>,
    hashtag_raw: Seq<char>,
) -> Option<Seq<char>> {
    match text {
        Some(t) => if !is_private && has_tag(entities, t, hashtag_of(hashtag_raw)) {
            Some(t)
        } else {
            None
        },
        None => None,
    }
}

/// A group message whose text holds the submission hashtag, with a hashtag
/// entity that covers exactly the hashtag (offset and length counted in
/// UTF-16 units, as Telegram counts them), is a submission.
pub proof fn lemma_marked_text_is_submission(
    before: Seq<char>,
    after: Seq<char>,
    hashtag_raw: Seq<char>,
    entities: Seq<Entity>,
    i: int,
)
    requires
        0 <= i < entities.len(),
        entities[i].is_hashtag,
        entities[i].offset == utf16_of(before).len(),
        entities[i].length == utf16_of(hashtag_of(hashtag_raw)).len(),
    ensures
        submission_text(false, Some(before + hashtag_of(hashtag_raw) + after), entities, hashtag_raw)
            == Some(before + hashtag_of(hashtag_raw) + after),
{
    let tag = hashtag_of(hashtag_raw);
    let text = before + tag + after;
    lemma_utf16_concat(before + tag, after);
    lemma_utf16_concat(before, tag);
    let units = utf16_of(text);
    let e = entities[i];
    assert(units == utf16_of(before) + utf16_of(tag) + utf16_of(after));
    assert(units.subrange(e.offset as int, e.offset + e.length) =~= utf16_of(tag));
    lemma_decode_encode(tag);
    assert(entity_is_tag(entities[i], units, tag));
    assert(has_tag(entities, text, tag));
}

/// The text of `msg` if it is a group message that carries the submission
/// hashtag (see `submission_text`); the caller prints it.
pub fn handle(msg: &IncomingMessage, hashtag_raw: &str) -> (r: Option<String>)
    requires
        entities_in_range(msg.entities@),
    ensures
        opt_string_view(r) == submission_text(
            msg.is_private,
            opt_string_view(msg.text),
            msg.entities@,
            hashtag_raw@,
        ),
{
    if msg.is_private {
        return None;
    }
    let text = match &msg.text {
        Some(t) => t,
        None => {
            return None;
        },
    };
    assert(opt_string_view(msg.text) == Some(text@));
    let target = target_hashtag(hashtag_raw);
    let target_chars = chars_of(target.as_str());
    let mut target_points: Vec<u32> = Vec::new();
    let mut k: usize = 0;
    while k < target_chars.len()
        invariant
            k <= target_chars.len(),
            target_points@ == code_points(target_chars@.take(k as int)),
        decreases target_chars.len() - k,
    {
        target_points.push(target_chars[k] as u32);
        assert(code_points(target_chars@.take(k + 1)) =~= code_points(target_chars@.take(k as int)).push(
            target_chars@[k as int] as u32,
        ));
        k = k + 1;
    }
    assert(target_chars@.take(target_chars.len() as int) =~= target_chars@);
    let units = encode_utf16(&chars_of(text.as_str()));
    let mut i: usize = 0;
    while i < msg.entities.len()
        invariant
            i <= msg.entities.len(),
            entities_in_range(msg.entities@),
            !msg.is_private,
            opt_string_view(msg.text) == Some(text@),
            units@ == utf16_of(text@),
            target_points@ == code_points(hashtag_of(hashtag_raw@)),
            forall|j: int| 0 <= j < i ==> !entity_is_tag(
                #[trigger] msg.entities@[j],
                units@,
                hashtag_of(hashtag_raw@),
            ),
        decreases msg.entities.len() - i,
    {
        let e = msg.entities[i];
        assert(e.offset + e.length <= usize::MAX);
        if e.is_hashtag && e.offset + e.length <= units.len() {
            let decoded = decode_utf16_lossy(&units, e.offset, e.offset + e.length);
            if vec_u32_eq(&decoded, &target_points) {
                assert(entity_is_tag(msg.entities@[i as int], units@, hashtag_of(hashtag_raw@)));
                assert(has_tag(msg.entities@, text@, hashtag_of(hashtag_raw@)));
                return Some(text.clone());
            }
        }
        i = i + 1;
    }
    None
}

/// Whether two sequences of code points are equal.
fn vec_u32_eq(a: &Vec<u32>, b: &Vec<u32>) -> (r: bool)
    ensures
        r == (a@ == b@),
{
    if a.len() != b.len() {
        return false;
    }
    let mut i: usize = 0;
    while i < a.len()
        invariant
            i <= a.len() == b.len(),
            forall|j: int| 0 <= j < i ==> a@[j] == b@[j],
        decreases a.len() - i,
    {
        if a[i] != b[i] {
            return false;
        }
        i = i + 1;
    }
    assert(a@ =~= b@);
    true
}


// ---------------------------------------------------------------------------
// Submissions

/// The problem that a group message submits: when the message carries the
/// submission hashtag (see `submission_text`), the problem made from the
/// text after the hashtag (see `text_after_tag` and `Problem::from_message`),
/// with the message's link, its author's display name and its date.
pub fn submission(
    msg: &IncomingMessage,
    hashtag_raw: &str,
    link: String,
    author: String,
    date: Timestamp,
) -> (r: Option<Problem>)
    requires
        entities_in_range(msg.entities@),
    ensures
        match submission_text(msg.is_private, opt_string_view(msg.text), msg.entities@, hashtag_raw@) {
            None => r is None,
            Some(text) => r matches Some(p) && p@ == (ProblemView {
                link: link@,
                legend: split_submission(text_after_tag(text, hashtag_of(hashtag_raw@))).1,
                name: split_submission(text_after_tag(text, hashtag_of(hashtag_raw@))).0,
                author: author@,
                date_secs: date.unix_secs(),
                date_nanos: date.unix_nanos(),
                editorial: seq![],
                editorial_link: seq![],
                difficulty: seq![],
                tags: seq![],
            }),
        },
{
    match handle(msg, hashtag_raw) {
        None => None,
        Some(text) => {
            let tag = target_hashtag(hashtag_raw);
            let rest = text_after(text.as_str(), tag.as_str());
            match Problem::from_message(link, rest, author, date) {
                Ok(p) => Some(p),
                Err(_) => None,
            }
        },
    }
}

// ---------------------------------------------------------------------------
// Message links

/// The link up to and including its last `/`: for the link to a message,
/// the link prefix of its chat. Empty when the link holds no `/`.
pub open spec fn prefix_through_last_slash(s: Seq<char>) -> Seq<char>
    decreases s.len(),
{
    if s.len() == 0 {
        seq![]
    } else if s.last() == '/' {
        s
    } else {
        prefix_through_last_slash(s.drop_last())
    }
}

/// The link prefix of the chat of a message, from the message's link (see
/// `prefix_through_last_slash`).
pub fn link_prefix_of_message(link: &str) -> (r: String)
    ensures
        r@ == prefix_through_last_slash(link@),
{
    let v = chars_of(link);
    let mut k = v.len();
    assert(link@.take(k as int) =~= link@);
    while k > 0 && v[k - 1] != '/'
        invariant
            k <= v.len(),
            v@ == link@,
            prefix_through_last_slash(link@) == prefix_through_last_slash(link@.take(k as int)),
        decreases k,
    {
        assert(link@.take(k as int).drop_last() =~= link@.take(k - 1));
        k = k - 1;
    }
    if k == 0 {
        assert(link@.take(0) =~= Seq::<char>::empty());
    }
    link.substring_char(0, k).to_owned()
}

} // verus!
