//! Scanning a Telegram Desktop HTML export for submitted problems.

use vstd::prelude::*;
use crate::numbers::{decimal, decimal_text, parse_u64, u64_of};
use crate::problem::{split_submission, Problem, ProblemView, Timestamp, sheet_date_text};
use crate::text::{
    opt_str_view, opt_string_view,
    chars_of, contains_str, ends_with, find, find_str, has_prefix, has_suffix, index_of_char,
    lemma_index_of_char_at, starts_with, str_eq, trim, trim_start_char, trim_start_matches_char,
    trim_str, views,
};

verus! {

broadcast use vstd::string::group_string_axioms;

// ---------------------------------------------------------------------------
// Message links

/// The link prefix of a chat: `https://t.me/<username>/` for a public group
/// (the username without leading `@`), `https://t.me/c/<id>/` for a private
/// one (the id without leading `-`); `None` when neither is known.
pub open spec fn link_prefix_of(chat_username: Option<Seq<char>>, chat_id: Option<Seq<char>>) -> Option<
    Seq<char>,
> {
    match chat_username {
        Some(u) => Some("https://t.me/"@ + trim_start_char(u, '@') + "/"@),
        None => match chat_id {
            Some(id) => Some("https://t.me/c/"@ + trim_start_char(id, '-') + "/"@),
            None => None,
        },
    }
}

/// The link to message `msg_id` of a chat (see `link_prefix_of`).
pub open spec fn link_of(
    msg_id: Seq<char>,
    chat_username: Option<Seq<char>>,
    chat_id: Option<Seq<char>>,
) -> Option<Seq<char>> {
    match link_prefix_of(chat_username, chat_id) {
        Some(p) => Some(p + msg_id),
        None => None,
    }
}

/// The link prefix of a chat (see `link_prefix_of`).
pub fn chat_link_prefix(chat_username: Option<&str>, chat_id: Option<&str>) -> (r: Option<String>)
    ensures
        opt_string_view(r) == link_prefix_of(opt_str_view(chat_username), opt_str_view(chat_id)),
{
    match chat_username {
        Some(u) => {
            let mut r = "https://t.me/".to_owned();
            r.append(trim_start_matches_char(u, '@'));
            r.append("/");
            Some(r)
        },
        None => match chat_id {
            Some(id) => {
                let mut r = "https://t.me/c/".to_owned();
                r.append(trim_start_matches_char(id, '-'));
                r.append("/");
                Some(r)
            },
            None => None,
        },
    }
}

/// The link to message `msg_id` of a chat (see `link_of`).
pub fn make_link(msg_id: &str, chat_username: Option<&str>, chat_id: Option<&str>) -> (r: Option<
    String,
>)
    ensures
        opt_string_view(r) == link_of(msg_id@, opt_str_view(chat_username), opt_str_view(chat_id)),
{
    match chat_link_prefix(chat_username, chat_id) {
        Some(p) => {
            let mut r = p;
            r.append(msg_id);
            Some(r)
        },
        None => None,
    }
}

// ---------------------------------------------------------------------------
// Export files

/// Whether a file of the export holds messages: `messages*.html`.
pub open spec fn is_message_file_name(name: Seq<char>) -> bool {
    has_prefix(name, "messages"@) && has_suffix(name, ".html"@)
}

/// Whether a file of the export holds messages (see `is_message_file_name`).
pub fn is_message_file(name: &str) -> (r: bool)
    ensures
        r == is_message_file_name(name@),
{
    starts_with(name, "messages") && ends_with(name, ".html")
}

/// The place of an export file in reading order, from its name without
/// extension (`None` when the name is not valid text): `messages` comes
/// first (1), then `messages<n>` by `n`; any other name comes last.
pub open spec fn file_order_key_of(stem: Option<Seq<char>>) -> u64 {
    match stem {
        None => u64::MAX,
        Some(s) => if !has_prefix(s, "messages"@) {
            u64::MAX
        } else {
            let rest = s.skip("messages"@.len() as int);
            if rest.len() == 0 {
                1
            } else {
                match u64_of(rest) {
                    Some(n) => n,
                    None => u64::MAX,
                }
            }
        },
    }
}

/// The place of an export file in reading order (see `file_order_key_of`).
pub fn file_order_key(stem: Option<&str>) -> (r: u64)
    ensures
        r == file_order_key_of(opt_str_view(stem)),
{
    proof {
        reveal_strlit("messages");
    }
    match stem {
        None => u64::MAX,
        Some(s) => {
            if !starts_with(s, "messages") {
                return u64::MAX;
            }
            let n = s.unicode_len();
            let rest = s.substring_char(8, n);
            assert(rest@ =~= s@.skip("messages"@.len() as int));
            if n == 8 {
                1
            } else {
                match parse_u64(rest) {
                    Some(v) => v,
                    None => u64::MAX,
                }
            }
        },
    }
}

/// Whether file `a` comes before file `b` in reading order: by key, then by
/// their order in the directory listing.
pub open spec fn reads_before(keys: Seq<u64>, a: int, b: int) -> bool {
    keys[a] < keys[b] || (keys[a] == keys[b] && a < b)
}

/// Whether file `j` comes after every file in `placed` (always, when none is placed).
pub open spec fn after_placed(keys: Seq<u64>, placed: Seq<usize>, j: int) -> bool {
    placed.len() == 0 || reads_before(keys, placed.last() as int, j)
}

/// The indices in `r` are in reading order, each below `keys.len()`.
pub open spec fn in_reading_order(keys: Seq<u64>, r: Seq<usize>) -> bool {
    &&& forall|i: int| 0 <= i < r.len() ==> #[trigger] r[i] < keys.len()
    &&& forall|i: int, j: int|
        0 <= i < j < r.len() ==> reads_before(keys, #[trigger] r[i] as int, #[trigger] r[j] as int)
}

/// The files placed so far are exactly those up to the last placed one.
pub open spec fn placed_prefix(keys: Seq<u64>, r: Seq<usize>) -> bool {
    r.len() > 0 ==> forall|k: usize|
        k < keys.len() ==> (#[trigger] r.contains(k) <==> !after_placed(keys, r, k as int))
}

/// The reading order of files with order keys `keys`: the indices of the
/// files sorted by key, files with equal keys kept in listing order (a
/// stable sort).
pub fn reading_order(keys: &Vec<u64>) -> (r: Vec<usize>)
    ensures
        r@.len() == keys@.len(),
        in_reading_order(keys@, r@),
        forall|k: usize| k < keys@.len() ==> r@.contains(k),
{
    let n = keys.len();
    let mut r: Vec<usize> = Vec::new();
    // Repeatedly append the first file (in reading order) that comes after the last one appended.
    loop
        invariant
            n == keys.len(),
            r@.len() <= n,
            in_reading_order(keys@, r@),
            placed_prefix(keys@, r@),
        decreases n - r@.len(),
    {
        let mut best: Option<usize> = None;
        let mut k: usize = 0;
        while k < n
            invariant
                n == keys.len(),
                k <= n,
                in_reading_order(keys@, r@),
                best matches Some(b) ==> b < k && after_placed(keys@, r@, b as int),
                best matches Some(b) ==> forall|j: int|
                    0 <= j < k && #[trigger] after_placed(keys@, r@, j) ==> (j == b || reads_before(
                        keys@,
                        b as int,
                        j,
                    )),
                best is None ==> forall|j: int| 0 <= j < k ==> !#[trigger] after_placed(keys@, r@, j),
            decreases n - k,
        {
            let after = match r.last() {
                None => true,
                Some(l) => keys[*l] < keys[k] || (keys[*l] == keys[k] && *l < k),
            };
            assert(after == after_placed(keys@, r@, k as int));
            if after {
                match best {
                    None => {
                        best = Some(k);
                    },
                    Some(b) => {
                        if keys[k] < keys[b] {
                            best = Some(k);
                        }
                    },
                }
            }
            k = k + 1;
        }
        match best {
            None => {
                proof {
                    if n > 0 {
                        assert(!after_placed(keys@, r@, 0));
                    }
                    lemma_all_placed(keys@, r@);
                }
                return r;
            },
            Some(b) => {
                let ghost old_r = r@;
                proof {
                    if old_r.len() > 0 {
                        assert(!old_r.contains(b)) by {
                            if old_r.contains(b) {
                                let i = choose|i: int| 0 <= i < old_r.len() && old_r[i] == b;
                                if i < old_r.len() - 1 {
                                    assert(reads_before(keys@, old_r[i] as int, old_r.last() as int));
                                }
                            }
                        }
                    }
                    lemma_distinct_bound(keys@, old_r);
                    if old_r.len() == n {
                        lemma_full_placed(keys@, old_r);
                        assert(old_r.contains(b));
                        assert(false);
                    }
                }
                r.push(b);
                proof {
                    assert(r@.last() == b);
                    assert(r@.drop_last() =~= old_r);
                    assert forall|i: int, j: int| 0 <= i < j < r@.len() implies reads_before(
                        keys@,
                        #[trigger] r@[i] as int,
                        #[trigger] r@[j] as int,
                    ) by {
                        if j == r@.len() - 1 && i < j {
                            if i < old_r.len() - 1 {
                                assert(reads_before(keys@, old_r[i] as int, old_r.last() as int));
                            }
                        }
                    }
                    assert forall|kk: usize| kk < n implies (#[trigger] r@.contains(kk)
                        <==> !after_placed(keys@, r@, kk as int)) by {
                        if r@.contains(kk) && kk != b {
                            let i = choose|i: int| 0 <= i < r@.len() && r@[i] == kk;
                            assert(i < old_r.len());
                            assert(old_r[i] == kk);
                            assert(old_r.contains(kk));
                            assert(!after_placed(keys@, old_r, kk as int));
                            if old_r.len() > 0 && kk != old_r.last() {
                                assert(reads_before(keys@, kk as int, old_r.last() as int));
                            }
                            assert(!after_placed(keys@, r@, kk as int));
                        }
                        if !r@.contains(kk) {
                            assert(kk != b);
                            assert(!old_r.contains(kk));
                            if old_r.len() > 0 {
                                assert(after_placed(keys@, old_r, kk as int));
                            }
                            assert(after_placed(keys@, old_r, kk as int));
                            assert(kk == b || reads_before(keys@, b as int, kk as int));
                            assert(after_placed(keys@, r@, kk as int));
                        }
                        if kk == b {
                            assert(r@[r@.len() - 1] == b);
                            assert(r@.contains(kk));
                        }
                    }
                }
            },
        }
    }
}

/// Distinct indices below `keys.len()`, strictly ordered: no more of them than files.
proof fn lemma_distinct_bound(keys: Seq<u64>, r: Seq<usize>)
    requires
        keys.len() <= usize::MAX,
        in_reading_order(keys, r),
    ensures
        r.len() <= keys.len(),
        r.no_duplicates(),
{
    let s = r.to_set();
    assert(r.no_duplicates()) by {
        assert forall|i: int, j: int| 0 <= i < r.len() && 0 <= j < r.len() && i != j implies r[i]
            != r[j] by {
            if i < j {
                assert(reads_before(keys, r[i] as int, r[j] as int));
            } else {
                assert(reads_before(keys, r[j] as int, r[i] as int));
            }
        }
    }
    r.unique_seq_to_set();
    let full = Set::new(|k: usize| k < keys.len());
    lemma_usize_range_len(keys.len());
    assert(s.subset_of(full));
    vstd::set_lib::lemma_len_subset(s, full);
}

/// As many distinct indices below `keys.len()` as files: every file is among them.
proof fn lemma_full_placed(keys: Seq<u64>, r: Seq<usize>)
    requires
        keys.len() <= usize::MAX,
        in_reading_order(keys, r),
        r.len() == keys.len(),
    ensures
        forall|k: usize| k < keys.len() ==> r.contains(k),
{
    lemma_distinct_bound(keys, r);
    r.unique_seq_to_set();
    let s = r.to_set();
    let full = Set::new(|k: usize| k < keys.len());
    lemma_usize_range_len(keys.len());
    assert(s.subset_of(full));
    assert forall|k: usize| k < keys.len() implies r.contains(k) by {
        if !r.contains(k) {
            assert(s.subset_of(full.remove(k)));
            vstd::set_lib::lemma_len_subset(s, full.remove(k));
            assert(false);
        }
    }
}

proof fn lemma_usize_range_len(n: nat)
    requires
        n <= usize::MAX + 1,
    ensures
        Set::new(|k: usize| k < n).finite(),
        Set::new(|k: usize| k < n).len() == n,
    decreases n,
{
    if n == 0 {
        assert(Set::new(|k: usize| k < n) =~= Set::<usize>::empty());
    } else {
        lemma_usize_range_len((n - 1) as nat);
        assert(Set::new(|k: usize| k < n) =~= Set::new(|k: usize| k < (n - 1) as nat).insert(
            (n - 1) as usize,
        ));
    }
}

/// When no file comes after the last one placed, every file is placed.
proof fn lemma_all_placed(keys: Seq<u64>, r: Seq<usize>)
    requires
        keys.len() <= usize::MAX,
        placed_prefix(keys, r),
        forall|j: int| 0 <= j < keys.len() ==> !#[trigger] after_placed(keys, r, j),
        in_reading_order(keys, r),
    ensures
        forall|k: usize| k < keys.len() ==> r.contains(k),
        r.len() == keys.len(),
{
    if r.len() > 0 {
        assert forall|k: usize| k < keys.len() implies r.contains(k) by {
            assert(!after_placed(keys, r, k as int));
        }
        lemma_distinct_bound(keys, r);
        r.unique_seq_to_set();
        let s = r.to_set();
        let full = Set::new(|k: usize| k < keys.len());
        lemma_usize_range_len(keys.len());
        assert(full.subset_of(s)) by {
            assert forall|k: usize| full.contains(k) implies s.contains(k) by {
                assert(r.contains(k));
            }
        }
        assert(s.subset_of(full));
        vstd::set_lib::lemma_len_subset(full, s);
    } else {
        if keys.len() > 0 {
            assert(!after_placed(keys, r, 0));
        }
    }
}


// ---------------------------------------------------------------------------
// Message text in the export's HTML

/// A node of the export's HTML, as far as the message text is concerned.
pub enum HtmlNode {
    /// Text.
    Text(String),
    /// An element, with its tag name and children.
    Element { name: String, children: Vec<HtmlNode> },
    /// Anything else (a comment, say), which holds no message text.
    Other,
}

/// The text of the nodes `children`, concatenated.
pub open spec fn children_text(children: Seq<HtmlNode>) -> Seq<char>
    decreases children,
{
    if children.len() == 0 {
        seq![]
    } else {
        children_text(children.drop_last()) + node_text(children.last())
    }
}

/// The text of a node: a text node's text; a line break for a `br`
/// element; the text of any other element's children; nothing otherwise.
pub open spec fn node_text(node: HtmlNode) -> Seq<char>
    decreases node,
{
    match node {
        HtmlNode::Text(t) => t@,
        HtmlNode::Element { name, children } => if name@ == "br"@ {
            seq!['\n']
        } else {
            children_text(children@)
        },
        HtmlNode::Other => seq![],
    }
}


/// The text of the nodes `children`, concatenated (see `node_text`).
pub fn element_text(children: &Vec<HtmlNode>) -> (r: String)
    ensures
        r@ == children_text(children@),
    decreases children@, 1nat,
{
    let mut r = String::new();
    let mut i: usize = 0;
    while i < children.len()
        invariant
            i <= children.len(),
            r@ == children_text(children@.take(i as int)),
        decreases children.len() - i,
    {
        proof {
            assert(decreases_to!(children@ => children@[i as int]));
        }
        let t = node_text_of(&children[i]);
        r.append(t.as_str());
        proof {
            assert(children@.take(i + 1).drop_last() =~= children@.take(i as int));
        }
        i = i + 1;
    }
    assert(children@.take(children.len() as int) =~= children@);
    r
}

/// The text of one node (see `node_text`).
pub fn node_text_of(node: &HtmlNode) -> (r: String)
    ensures
        r@ == node_text(*node),
    decreases *node, 0nat,
{
    match node {
        HtmlNode::Text(t) => t.clone(),
        HtmlNode::Element { name, children } => {
            if str_eq(name.as_str(), "br") {
                proof {
                    reveal_strlit("\n");
                }
                "\n".to_owned()
            } else {
                proof {
                    assert(decreases_to!(*node => children@));
                }
                element_text(children)
            }
        },
        HtmlNode::Other => String::new(),
    }
}


// ---------------------------------------------------------------------------
// Dates in the export

/// What `chrono` reads from `text` with the export's date format
/// `%d.%m.%Y %H:%M:%S`, taken as UTC: seconds and nanoseconds since the
/// Unix epoch; `None` when the text does not match the format.
pub uninterp spec fn export_date_instant(text: Seq<char>) -> Option<(i64, u32)>;

/// Calls `chrono::NaiveDateTime::parse_from_str(text, "%d.%m.%Y %H:%M:%S")`
/// and, when it succeeds, takes the result as UTC and returns its Unix
/// seconds and subsecond nanoseconds. The contract claims only that the
/// result is the one `export_date_instant` names: it depends on the text alone.
#[verifier::external_body]
fn parse_export_date(text: &str) -> (r: Option<(i64, u32)>)
    ensures
        r == export_date_instant(text@),
{
    match chrono::NaiveDateTime::parse_from_str(text, "%d.%m.%Y %H:%M:%S") {
        Ok(n) => {
            let d = n.and_utc();
            Some((d.timestamp(), d.timestamp_subsec_nanos()))
        },
        Err(_) => None,
    }
}

/// The date and time of an export date title such as
/// `"01.02.2024 10:20:30 UTC+03:00"`: the text before its second space
/// (the whole text when it has fewer than two spaces).
pub open spec fn date_time_part(title: Seq<char>) -> Seq<char> {
    let i = index_of_char(title, ' ');
    if i == title.len() {
        title
    } else {
        let j = index_of_char(title.skip(i + 1 as int), ' ');
        if i + 1 + j == title.len() {
            title
        } else {
            title.take(i + 1 + j as int)
        }
    }
}

/// The date and time of an export date title (see `date_time_part`).
pub fn date_time_of(title: &str) -> (r: &str)
    ensures
        r@ == date_time_part(title@),
{
    let v = chars_of(title);
    let n = v.len();
    let mut i: usize = 0;
    while i < n && v[i] != ' '
        invariant
            i <= n == v.len(),
            v@ == title@,
            forall|j: int| 0 <= j < i ==> #[trigger] v@[j] != ' ',
        decreases n - i,
    {
        i = i + 1;
    }
    proof {
        lemma_index_of_char_at(title@, ' ', i as int);
    }
    if i == n {
        return title;
    }
    let mut k: usize = i + 1;
    while k < n && v[k] != ' '
        invariant
            i < n,
            i + 1 <= k <= n == v.len(),
            v@ == title@,
            forall|j: int| i + 1 <= j < k ==> #[trigger] v@[j] != ' ',
        decreases n - k,
    {
        k = k + 1;
    }
    proof {
        let t = title@.skip(i + 1 as int);
        assert forall|j: int| 0 <= j < k - i - 1 implies #[trigger] t[j] != ' ' by {
            assert(t[j] == title@[j + i + 1]);
        }
        if k < n {
            assert(t[k - i - 1] == title@[k as int]);
        }
        lemma_index_of_char_at(t, ' ', k - i - 1);
    }
    if k == n {
        title
    } else {
        let r = title.substring_char(0, k);
        assert(r@ =~= title@.take(k as int));
        r
    }
}

// ---------------------------------------------------------------------------
// Scanning messages

/// The body of a message of the export: the texts of its links, and its nodes.
pub struct ExportText {
    pub anchor_texts: Vec<String>,
    pub children: Vec<HtmlNode>,
}

/// What the scan reads of one message of the export: the text of its first
/// sender-name element, the title of its first date element, its first
/// body element, and its `id` attribute.
pub struct ExportMessage {
    pub from_name: Option<String>,
    pub date_title: Option<String>,
    pub text: Option<ExportText>,
    pub id: Option<String>,
}

/// The counts that a scan reports.
pub struct ScanCounts {
    pub total: usize,
    pub no_date: usize,
    pub no_text: usize,
    pub no_tag: usize,
    pub bad_date: usize,
    pub bad_problem: usize,
    pub skipped: usize,
    pub added: usize,
}

/// The abstract state of a scan.
pub ghost struct ScanView {
    pub author: Seq<char>,
    pub existing: Seq<Seq<char>>,
    pub total: nat,
    pub no_date: nat,
    pub no_text: nat,
    pub no_tag: nat,
    pub bad_date: nat,
    pub bad_problem: nat,
    pub skipped: nat,
    pub added: nat,
    pub awaiting: Option<Option<Seq<char>>>,
}

/// The state of a scan: the author of the last message that named one, the
/// links already known, the counts, and (between finding a problem and
/// learning whether it was written) the link of the problem found.
pub struct ScanState {
    author: String,
    existing: Vec<String>,
    counts: ScanCounts,
    awaiting: Option<Option<String>>,
}

impl View for ScanState {
    type V = ScanView;

    closed spec fn view(&self) -> ScanView {
        ScanView {
            author: self.author@,
            existing: views(self.existing@),
            total: self.counts.total as nat,
            no_date: self.counts.no_date as nat,
            no_text: self.counts.no_text as nat,
            no_tag: self.counts.no_tag as nat,
            bad_date: self.counts.bad_date as nat,
            bad_problem: self.counts.bad_problem as nat,
            skipped: self.counts.skipped as nat,
            added: self.counts.added as nat,
            awaiting: match self.awaiting {
                Some(l) => Some(opt_string_view(l)),
                None => None,
            },
        }
    }
}

/// Every message counted under one head at most: the counts add up to no
/// more than the total.
pub open spec fn counts_consistent(v: ScanView) -> bool {
    v.no_date + v.no_text + v.no_tag + v.bad_date + v.bad_problem + v.skipped + v.added + (if v.awaiting is Some {
        1int
    } else {
        0int
    }) <= v.total
}

/// Whether some link text of a message body is the hashtag `tag` (trimmed).
pub open spec fn has_hashtag_link(anchor_texts: Seq<Seq<char>>, tag: Seq<char>) -> bool {
    exists|i: int| 0 <= i < anchor_texts.len() && trim(#[trigger] anchor_texts[i]) == tag
}

/// The submission text of a message body: what follows the first
/// occurrence of the hashtag `tag` in the body's text, trimmed; empty when
/// the hashtag does not occur.
pub open spec fn text_after_tag(full: Seq<char>, tag: Seq<char>) -> Seq<char> {
    match find(full, tag) {
        Some(i) => trim(full.skip(i + tag.len())),
        None => seq![],
    }
}

/// The abstract content of an `ExportMessage`.
pub ghost struct ExportMessageView {
    pub from_name: Option<Seq<char>>,
    pub date_title: Option<Seq<char>>,
    pub text: Option<(Seq<Seq<char>>, Seq<char>)>,
    pub id: Option<Seq<char>>,
}

impl View for ExportMessage {
    type V = ExportMessageView;

    open spec fn view(&self) -> ExportMessageView {
        ExportMessageView {
            from_name: opt_string_view(self.from_name),
            date_title: opt_string_view(self.date_title),
            text: match self.text {
                Some(t) => Some((views(t.anchor_texts@), children_text(t.children@))),
                None => None,
            },
            id: opt_string_view(self.id),
        }
    }
}

/// A reference to an element of a parsed HTML page (`scraper::ElementRef`).
#[verifier::external_type_specification]
#[verifier::external_body]
pub struct ExElementRef<'a>(scraper::ElementRef<'a>);

/// A parsed CSS selector (`scraper::Selector`).
#[verifier::external_type_specification]
#[verifier::external_body]
pub struct ExSelector(scraper::Selector);

/// What `scraper` finds in the HTML page `html`: for each element that
/// `message_sel` selects, in document order, the message it holds (see
/// `ExportMessage`, read with the other selectors); `None` when one of the
/// selectors does not parse.
pub uninterp spec fn export_page(
    html: Seq<char>,
    message_sel: Seq<char>,
    from_sel: Seq<char>,
    date_sel: Seq<char>,
    text_sel: Seq<char>,
    link_sel: Seq<char>,
) -> Option<Seq<ExportMessageView>>;

/// Parses `html` with `scraper::Html::parse_document` and the five selectors
/// with `scraper::Selector::parse`, and reads each element that
/// `message_sel` selects (see `message_of`). The contract claims only that
/// the result is the one `export_page` names: it depends on the arguments alone.
#[verifier::external_body]
fn read_export_page(
    html: &str,
    message_sel: &str,
    from_sel: &str,
    date_sel: &str,
    text_sel: &str,
    link_sel: &str,
) -> (r: Option<Vec<ExportMessage>>)
    ensures
        match r {
            Some(v) => export_page(html@, message_sel@, from_sel@, date_sel@, text_sel@, link_sel@)
                == Some(v@.map_values(|m: ExportMessage| m@)),
            None => export_page(html@, message_sel@, from_sel@, date_sel@, text_sel@, link_sel@) is None,
        },
{
    let sels = (
        scraper::Selector::parse(message_sel),
        scraper::Selector::parse(from_sel),
        scraper::Selector::parse(date_sel),
        scraper::Selector::parse(text_sel),
        scraper::Selector::parse(link_sel),
    );
    let (Ok(m), Ok(f), Ok(d), Ok(t), Ok(a)) = sels else { return None };
    let doc = scraper::Html::parse_document(html);
    let mut v = Vec::new();
    for el in doc.select(&m) {
        v.push(message_of(el, &f, &d, &t, &a));
    }
    Some(v)
}

/// Converts one message element: the text of its first `from` element, the
/// `title` attribute of its first `date` element, its first `text` element
/// (see `body_of`), and its `id` attribute. It makes no claim of its own:
/// `read_export_page`, its only caller, states the result of the whole page.
#[verifier::external_body]
fn message_of(
    el: scraper::ElementRef,
    from: &scraper::Selector,
    date: &scraper::Selector,
    text: &scraper::Selector,
    link: &scraper::Selector,
) -> ExportMessage {
    let text = match el.select(text).next() {
        Some(e) => Some(body_of(e, link)),
        None => None,
    };
    ExportMessage {
        from_name: first_text(el, from),
        date_title: first_attr(el, date, "title"),
        text,
        id: owned(el.value().attr("id")),
    }
}

/// The text of the first element that `sel` selects in `el`. It makes no
/// claim of its own: `read_export_page` states the result of the whole page.
#[verifier::external_body]
fn first_text(el: scraper::ElementRef, sel: &scraper::Selector) -> Option<String> {
    match el.select(sel).next() {
        Some(e) => Some(e.text().collect::<String>()),
        None => None,
    }
}

/// The attribute `name` of the first element that `sel` selects in `el`. It
/// makes no claim of its own: `read_export_page` states the result of the
/// whole page.
#[verifier::external_body]
fn first_attr(el: scraper::ElementRef, sel: &scraper::Selector, name: &str) -> Option<String> {
    match el.select(sel).next() {
        Some(e) => owned(e.value().attr(name)),
        None => None,
    }
}

/// An owned copy of an optional string slice.
pub fn owned(o: Option<&str>) -> (r: Option<String>)
    ensures
        opt_string_view(r) == opt_str_view(o),
{
    match o {
        Some(s) => Some(s.to_owned()),
        None => None,
    }
}

/// Converts a message body element: the texts of the elements that `link`
/// selects in it, and its children (see `children_of`). It makes no claim of
/// its own: `read_export_page` states the result of the whole page.
#[verifier::external_body]
fn body_of(el: scraper::ElementRef, link: &scraper::Selector) -> ExportText {
    let mut anchor_texts = Vec::new();
    for a in el.select(link) {
        anchor_texts.push(a.text().collect::<String>());
    }
    ExportText { anchor_texts, children: children_of(el) }
}

/// Converts the children of an element, one arm per kind of node: text,
/// element (with its name and its own children), anything else. It makes no
/// claim of its own: `read_export_page` states the result of the whole page.
#[verifier::external_body]
fn children_of(el: scraper::ElementRef) -> Vec<HtmlNode> {
    let mut v = Vec::new();
    for child in el.children() {
        let kids = match scraper::ElementRef::wrap(child) {
            Some(c) => children_of(c),
            None => Vec::new(),
        };
        v.push(match child.value() {
            scraper::node::Node::Text(t) => HtmlNode::Text(t.to_string()),
            scraper::node::Node::Element(e) => HtmlNode::Element { name: e.name().to_string(), children: kids },
            _ => HtmlNode::Other,
        });
    }
    v
}

/// The messages of a page of the export, as `scraper` finds them with the
/// export's selectors: messages `.message.default`, sender names
/// `.from_name`, dates `.date`, bodies `.text`, links `a`.
pub open spec fn export_messages_of(html: Seq<char>) -> Option<Seq<ExportMessageView>> {
    export_page(html, ".message.default"@, ".from_name"@, ".date"@, ".text"@, "a"@)
}

/// The messages of a page of the export (see `export_messages_of`).
pub fn export_messages(html: &str) -> (r: Option<Vec<ExportMessage>>)
    ensures
        match r {
            Some(v) => export_messages_of(html@) == Some(v@.map_values(|m: ExportMessage| m@)),
            None => export_messages_of(html@) is None,
        },
{
    read_export_page(html, ".message.default", ".from_name", ".date", ".text", "a")
}

/// The link under which a message with id `msg_id` is recorded: its link
/// when the chat is known, else the bare id.
pub open spec fn recorded_link(
    msg_id: Seq<char>,
    chat_username: Option<Seq<char>>,
    chat_id: Option<Seq<char>>,
) -> Seq<char> {
    match link_of(msg_id, chat_username, chat_id) {
        Some(l) => l,
        None => msg_id,
    }
}

/// The instant of a date title, when `chrono` reads it and can represent it.
pub open spec fn title_instant(title: Seq<char>) -> Option<(i64, u32)> {
    match export_date_instant(date_time_part(title)) {
        Some((secs, nanos)) => if sheet_date_text(secs, nanos) is Some {
            Some((secs, nanos))
        } else {
            None
        },
        None => None,
    }
}

/// The scan after reading message `m`, and the problem it holds if any
/// (see `scan_step_with`), its date title read with `chrono`.
pub open spec fn scan_step(
    s: ScanView,
    m: ExportMessageView,
    tag: Seq<char>,
    chat_username: Option<Seq<char>>,
    chat_id: Option<Seq<char>>,
) -> (ScanView, Option<ProblemView>) {
    scan_step_with(
        s,
        m,
        match m.date_title {
            Some(t) => title_instant(t),
            None => None,
        },
        tag,
        chat_username,
        chat_id,
    )
}

/// The view of an optional instant.
pub open spec fn opt_instant(t: Option<Timestamp>) -> Option<(i64, u32)> {
    match t {
        Some(t) => Some((t.unix_secs(), t.unix_nanos())),
        None => None,
    }
}

/// The scan after reading message `m` whose date title reads as `instant`,
/// and the problem it holds if any.
/// In order: the sender name, when there is one, becomes the current
/// author; a message without a date title counts as no-date, without a body
/// as no-text, without the hashtag among its link texts as no-tag; a
/// message whose id is not `message<n>` is passed over; a known link counts
/// as a duplicate; a date that does not read counts as bad-date; otherwise
/// the text after the hashtag is a new problem, awaiting its write.
pub open spec fn scan_step_with(
    s: ScanView,
    m: ExportMessageView,
    instant: Option<(i64, u32)>,
    tag: Seq<char>,
    chat_username: Option<Seq<char>>,
    chat_id: Option<Seq<char>>,
) -> (ScanView, Option<ProblemView>) {
    let author = match m.from_name {
        Some(f) => trim(f),
        None => s.author,
    };
    let s1 = ScanView { author, total: s.total + 1, ..s };
    if m.date_title is None {
        (ScanView { no_date: s1.no_date + 1, ..s1 }, None)
    } else if m.text is None {
        (ScanView { no_text: s1.no_text + 1, ..s1 }, None)
    } else if !has_hashtag_link(m.text.unwrap().0, tag) {
        (ScanView { no_tag: s1.no_tag + 1, ..s1 }, None)
    } else if m.id is None || !has_prefix(m.id.unwrap(), "message"@) {
        (s1, None)
    } else {
        let msg_id = m.id.unwrap().skip("message"@.len() as int);
        let link_opt = link_of(msg_id, chat_username, chat_id);
        let link = recorded_link(msg_id, chat_username, chat_id);
        if link_opt is Some && s.existing.contains(link) {
            (ScanView { skipped: s1.skipped + 1, ..s1 }, None)
        } else {
            match instant {
                None => (ScanView { bad_date: s1.bad_date + 1, ..s1 }, None),
                Some((secs, nanos)) => {
                    let rest = text_after_tag(m.text.unwrap().1, tag);
                    (
                        ScanView { awaiting: Some(link_opt), ..s1 },
                        Some(
                            ProblemView {
                                link,
                                legend: split_submission(rest).1,
                                name: split_submission(rest).0,
                                author,
                                date_secs: secs,
                                date_nanos: nanos,
                                editorial: seq![],
                                editorial_link: seq![],
                                difficulty: seq![],
                                tags: seq![],
                            },
                        ),
                    )
                },
            }
        }
    }
}

/// Whether some link text is the hashtag `tag` (see `has_hashtag_link`).
pub fn has_tag_link(anchor_texts: &Vec<String>, tag: &str) -> (r: bool)
    ensures
        r == has_hashtag_link(views(anchor_texts@), tag@),
{
    let mut i: usize = 0;
    while i < anchor_texts.len()
        invariant
            i <= anchor_texts.len(),
            forall|j: int| 0 <= j < i ==> trim(#[trigger] views(anchor_texts@)[j]) != tag@,
        decreases anchor_texts.len() - i,
    {
        assert(views(anchor_texts@)[i as int] == anchor_texts@[i as int]@);
        if str_eq(trim_str(anchor_texts[i].as_str()), tag) {
            return true;
        }
        i = i + 1;
    }
    false
}

/// The submission text of a message body (see `text_after_tag`).
pub fn text_after(full: &str, tag: &str) -> (r: String)
    ensures
        r@ == text_after_tag(full@, tag@),
{
    match find_str(full, tag) {
        Some(k) => {
            let n = full.unicode_len();
            let start = k + tag.unicode_len();
            let after = full.substring_char(start, n);
            assert(after@ =~= full@.skip(k + tag@.len()));
            trim_str(after).to_owned()
        },
        None => String::new(),
    }
}

/// The instant of a date title (see `title_instant`).
pub fn message_date(title: &str) -> (r: Option<Timestamp>)
    ensures
        match r {
            Some(t) => title_instant(title@) == Some((t.unix_secs(), t.unix_nanos())),
            None => title_instant(title@) is None,
        },
{
    match parse_export_date(date_time_of(title)) {
        None => None,
        Some((secs, nanos)) => Timestamp::from_unix(secs, nanos),
    }
}

/// The scan after the problem found last was written (`written`) or not:
/// a written one counts as added, and its link (when it has one) becomes known.
pub open spec fn after_write(s: ScanView, written: bool) -> ScanView {
    if written {
        ScanView {
            added: s.added + 1,
            existing: match s.awaiting.unwrap() {
                Some(l) => s.existing.push(l),
                None => s.existing,
            },
            awaiting: None,
            ..s
        }
    } else {
        ScanView { awaiting: None, ..s }
    }
}

/// A scan run: from state `s`, each message in turn is read (with the
/// instant its date title reads as) and, when it holds a problem, its write
/// succeeds or not as the third component says. The state after the run,
/// and the links of the problems written, in order.
pub open spec fn scan_run(
    s: ScanView,
    ms: Seq<(ExportMessageView, Option<(i64, u32)>, bool)>,
    tag: Seq<char>,
    chat_username: Option<Seq<char>>,
    chat_id: Option<Seq<char>>,
) -> (ScanView, Seq<Seq<char>>)
    decreases ms.len(),
{
    if ms.len() == 0 {
        (s, seq![])
    } else {
        let prev = scan_run(s, ms.drop_last(), tag, chat_username, chat_id);
        let step = scan_step_with(prev.0, ms.last().0, ms.last().1, tag, chat_username, chat_id);
        match step.1 {
            None => (step.0, prev.1),
            Some(p) => if ms.last().2 {
                (after_write(step.0, true), prev.1.push(p.link))
            } else {
                (after_write(step.0, false), prev.1)
            },
        }
    }
}

/// A scan run writes no link twice and no link that was known before it:
/// the links written are distinct, none was among the known links, and
/// afterwards the known links are the old ones followed by those written
/// (for a chat whose links are known, so that messages have links).
pub proof fn lemma_scan_run_writes_new_links_once(
    s: ScanView,
    ms: Seq<(ExportMessageView, Option<(i64, u32)>, bool)>,
    tag: Seq<char>,
    chat_username: Option<Seq<char>>,
    chat_id: Option<Seq<char>>,
)
    requires
        link_prefix_of(chat_username, chat_id) is Some,
        s.awaiting is None,
    ensures
        ({
            let (t, written) = scan_run(s, ms, tag, chat_username, chat_id);
            &&& written.no_duplicates()
            &&& forall|i: int| 0 <= i < written.len() ==> !s.existing.contains(#[trigger] written[i])
            &&& t.existing == s.existing + written
            &&& t.awaiting is None
        }),
    decreases ms.len(),
{
    if ms.len() == 0 {
        assert(s.existing + Seq::<Seq<char>>::empty() =~= s.existing);
    } else {
        lemma_scan_run_writes_new_links_once(s, ms.drop_last(), tag, chat_username, chat_id);
        let prev = scan_run(s, ms.drop_last(), tag, chat_username, chat_id);
        let m = ms.last().0;
        let step = scan_step_with(prev.0, m, ms.last().1, tag, chat_username, chat_id);
        if step.1 is Some && ms.last().2 {
            let msg_id = m.id.unwrap().skip("message"@.len() as int);
            let link = recorded_link(msg_id, chat_username, chat_id);
            assert(step.1.unwrap().link == link);
            assert(!prev.0.existing.contains(link));
            let w = prev.1.push(link);
            assert forall|i: int| 0 <= i < prev.1.len() implies prev.1[i] != link by {
                assert(prev.0.existing[s.existing.len() + i] == prev.1[i]);
            }
            assert forall|i: int| 0 <= i < s.existing.len() implies s.existing[i] != link by {
                assert(prev.0.existing[i] == s.existing[i]);
            }
            assert forall|i: int| 0 <= i < w.len() implies !s.existing.contains(#[trigger] w[i]) by {
                if i == prev.1.len() {
                    assert(w[i] == link);
                } else {
                    assert(w[i] == prev.1[i]);
                }
            }
            assert(w.no_duplicates()) by {
                assert forall|i: int, j: int| 0 <= i < w.len() && 0 <= j < w.len() && i != j implies w[i]
                    != w[j] by {
                    if i < prev.1.len() && j < prev.1.len() {
                        assert(w[i] == prev.1[i] && w[j] == prev.1[j]);
                    } else if i < prev.1.len() {
                        assert(w[i] == prev.1[i]);
                    } else if j < prev.1.len() {
                        assert(w[j] == prev.1[j]);
                    }
                }
            }
            assert(prev.0.existing.push(link) =~= s.existing + w);
        }
    }
}

/// A message is added once: after it was read and its problem written, the
/// same message read again adds nothing and counts as a duplicate (for a
/// chat whose links are known, so that messages have links).
pub proof fn lemma_rescan_is_duplicate(
    s: ScanView,
    m: ExportMessageView,
    instant: Option<(i64, u32)>,
    tag: Seq<char>,
    chat_username: Option<Seq<char>>,
    chat_id: Option<Seq<char>>,
)
    requires
        scan_step_with(s, m, instant, tag, chat_username, chat_id).1 is Some,
        link_prefix_of(chat_username, chat_id) is Some,
    ensures
        ({
            let s1 = after_write(scan_step_with(s, m, instant, tag, chat_username, chat_id).0, true);
            let s2 = scan_step_with(s1, m, instant, tag, chat_username, chat_id);
            &&& s2.1 is None
            &&& s2.0 == (ScanView { total: s1.total + 1, skipped: s1.skipped + 1, ..s1 })
        }),
{
    let s1 = after_write(scan_step_with(s, m, instant, tag, chat_username, chat_id).0, true);
    let msg_id = m.id.unwrap().skip("message"@.len() as int);
    let link = recorded_link(msg_id, chat_username, chat_id);
    assert(s1.existing == s.existing.push(link));
    assert(s1.existing.contains(link)) by {
        assert(s1.existing[s1.existing.len() - 1] == link);
    }
    let author = match m.from_name {
        Some(f) => trim(f),
        None => s1.author,
    };
    assert(author == s1.author);
    assert(ScanView { author, total: s1.total + 1, ..s1 } == ScanView { total: s1.total + 1, ..s1 });
}

/// The current author follows the sender names: after any message that has
/// a sender name, the current author is that name trimmed, whether or not the
/// message has a date, a body or the hashtag; after a message without one
/// (a joined message) it stays as it was. A problem found is attributed to
/// the current author after the message. Every message read counts once in
/// the total, and reading one makes no link known.
pub proof fn lemma_author_follows_sender_name(
    s: ScanView,
    m: ExportMessageView,
    instant: Option<(i64, u32)>,
    tag: Seq<char>,
    chat_username: Option<Seq<char>>,
    chat_id: Option<Seq<char>>,
)
    ensures
        ({
            let (t, found) = scan_step_with(s, m, instant, tag, chat_username, chat_id);
            &&& m.from_name is Some ==> t.author == trim(m.from_name.unwrap())
            &&& m.from_name is None ==> t.author == s.author
            &&& found is Some ==> found.unwrap().author == t.author
            &&& t.total == s.total + 1
            &&& t.existing == s.existing
        }),
{
}

/// The number of messages of a scan that were classified: counted under
/// one of the heads, or holding the problem that awaits its write.
pub open spec fn classified(v: ScanView) -> int {
    v.no_date + v.no_text + v.no_tag + v.bad_date + v.bad_problem + v.skipped + v.added + (if v.awaiting
        is Some {
        1int
    } else {
        0int
    })
}

/// The id of message `m` after its `message` prefix.
pub open spec fn message_number(m: ExportMessageView) -> Seq<char> {
    m.id.unwrap().skip(7)
}

/// Which message holds a problem, and what it is. A message holds one
/// exactly when it has a date title, a body with the hashtag among its link
/// texts, an id `message<n>`, a link that is not yet known, and a date that
/// reads; the problem is then recorded under the message's link, dated by
/// that date, named and described by the text after the hashtag, with
/// nothing attached yet, and awaits its write. Otherwise the message is
/// counted under the first check it fails (no date title, no body, no
/// hashtag, a known link, a date that does not read), or under none when
/// its id is not `message<n>`; no head ever shrinks, and a message is
/// counted under one head at most.
pub proof fn lemma_which_message_holds_a_problem(
    s: ScanView,
    m: ExportMessageView,
    instant: Option<(i64, u32)>,
    tag: Seq<char>,
    chat_username: Option<Seq<char>>,
    chat_id: Option<Seq<char>>,
)
    requires
        s.awaiting is None,
    ensures
        ({
            let (t, found) = scan_step_with(s, m, instant, tag, chat_username, chat_id);
            let id_ok = m.id is Some && has_prefix(m.id.unwrap(), "message"@);
            let known = link_of(message_number(m), chat_username, chat_id) is Some && s.existing.contains(
                recorded_link(message_number(m), chat_username, chat_id),
            );
            &&& found is Some <==> (m.date_title is Some && m.text is Some && has_hashtag_link(
                m.text.unwrap().0,
                tag,
            ) && id_ok && !known && instant is Some)
            &&& found is Some ==> {
                let p = found.unwrap();
                let rest = text_after_tag(m.text.unwrap().1, tag);
                &&& p.link == recorded_link(message_number(m), chat_username, chat_id)
                &&& p.date_secs == instant.unwrap().0 && p.date_nanos == instant.unwrap().1
                &&& p.name == split_submission(rest).0 && p.legend == split_submission(rest).1
                &&& p.editorial.len() == 0 && p.editorial_link.len() == 0
                &&& p.difficulty.len() == 0 && p.tags.len() == 0
                &&& t.awaiting == Some(link_of(message_number(m), chat_username, chat_id))
            }
            &&& found is None ==> t.awaiting is None
            &&& m.date_title is None ==> t.no_date == s.no_date + 1
            &&& m.date_title is Some && m.text is None ==> t.no_text == s.no_text + 1
            &&& m.date_title is Some && m.text is Some && !has_hashtag_link(m.text.unwrap().0, tag)
                ==> t.no_tag == s.no_tag + 1
            &&& m.date_title is Some && m.text is Some && has_hashtag_link(m.text.unwrap().0, tag)
                && id_ok && known ==> t.skipped == s.skipped + 1
            &&& m.date_title is Some && m.text is Some && has_hashtag_link(m.text.unwrap().0, tag)
                && id_ok && !known && instant is None ==> t.bad_date == s.bad_date + 1
            &&& !(m.date_title is Some && m.text is Some && has_hashtag_link(m.text.unwrap().0, tag))
                || !id_ok ==> t.skipped == s.skipped && t.bad_date == s.bad_date
            &&& t.no_date >= s.no_date && t.no_text >= s.no_text && t.no_tag >= s.no_tag
            &&& t.skipped >= s.skipped && t.bad_date >= s.bad_date
            &&& t.bad_problem == s.bad_problem && t.added == s.added
            &&& classified(t) <= classified(s) + 1
            &&& m.date_title is Some && m.text is Some && has_hashtag_link(m.text.unwrap().0, tag) && !id_ok
                ==> classified(t) == classified(s)
        }),
{
    reveal_strlit("message");
}

impl ScanState {
    /// A scan that starts with the links `existing` known, no author and no counts.
    pub fn new(existing: Vec<String>) -> (r: ScanState)
        ensures
            r@ == (ScanView {
                author: seq![],
                existing: views(existing@),
                total: 0,
                no_date: 0,
                no_text: 0,
                no_tag: 0,
                bad_date: 0,
                bad_problem: 0,
                skipped: 0,
                added: 0,
                awaiting: None,
            }),
    {
        ScanState {
            author: String::new(),
            existing,
            counts: ScanCounts {
                total: 0,
                no_date: 0,
                no_text: 0,
                no_tag: 0,
                bad_date: 0,
                bad_problem: 0,
                skipped: 0,
                added: 0,
            },
            awaiting: None,
        }
    }

    /// Whether another message can be counted.
    pub fn can_take_message(&self) -> (r: bool)
        ensures
            r == (self@.total < usize::MAX),
    {
        self.counts.total < usize::MAX
    }

    /// Whether the scan awaits the outcome of a write.
    pub fn is_awaiting(&self) -> (r: bool)
        ensures
            r == (self@.awaiting is Some),
    {
        self.awaiting.is_some()
    }

    /// Reads one message of the export (see `scan_step`), marked with the
    /// hashtag `tag`, in the chat named by `chat_username` or `chat_id`.
    /// Returns the problem it holds, whose write the caller then reports
    /// with `finish_write`.
    pub fn scan_message(
        &mut self,
        m: &ExportMessage,
        tag: &str,
        chat_username: Option<&str>,
        chat_id: Option<&str>,
    ) -> (r: Option<Problem>)
        requires
            counts_consistent(old(self)@),
            old(self)@.awaiting is None,
            old(self)@.total < usize::MAX,
        ensures
            counts_consistent(final(self)@),
            (final(self)@, match r {
                Some(p) => Some(p@),
                None => None,
            }) == scan_step(old(self)@, m@, tag@, opt_str_view(chat_username), opt_str_view(chat_id)),
    {
        let date = match &m.date_title {
            Some(t) => message_date(t.as_str()),
            None => None,
        };
        self.scan_message_at(m, date, tag, chat_username, chat_id)
    }

    /// Reads one message of the export whose date title reads as `date`
    /// (see `scan_step_with`).
    pub fn scan_message_at(
        &mut self,
        m: &ExportMessage,
        date: Option<Timestamp>,
        tag: &str,
        chat_username: Option<&str>,
        chat_id: Option<&str>,
    ) -> (r: Option<Problem>)
        requires
            counts_consistent(old(self)@),
            old(self)@.awaiting is None,
            old(self)@.total < usize::MAX,
        ensures
            counts_consistent(final(self)@),
            (final(self)@, match r {
                Some(p) => Some(p@),
                None => None,
            }) == scan_step_with(
                old(self)@,
                m@,
                opt_instant(date),
                tag@,
                opt_str_view(chat_username),
                opt_str_view(chat_id),
            ),
    {
        if let Some(f) = &m.from_name {
            self.author = trim_str(f.as_str()).to_owned();
        }
        self.counts.total = self.counts.total + 1;
        if m.date_title.is_none() {
            self.counts.no_date = self.counts.no_date + 1;
            return None;
        }
        let body = match &m.text {
            None => {
                self.counts.no_text = self.counts.no_text + 1;
                return None;
            },
            Some(b) => b,
        };
        let found = has_tag_link(&body.anchor_texts, tag);
        if !found {
            self.counts.no_tag = self.counts.no_tag + 1;
            return None;
        }
        let id = match &m.id {
            None => {
                return None;
            },
            Some(id) => id,
        };
        if !starts_with(id.as_str(), "message") {
            return None;
        }
        proof {
            reveal_strlit("message");
        }
        let msg_id = id.as_str().substring_char(7, id.as_str().unicode_len());
        assert(msg_id@ =~= id@.skip("message"@.len() as int));
        let link_opt = make_link(msg_id, chat_username, chat_id);
        let link = match &link_opt {
            Some(l) => l.clone(),
            None => msg_id.to_owned(),
        };
        if link_opt.is_some() && contains_str(&self.existing, link.as_str()) {
            self.counts.skipped = self.counts.skipped + 1;
            return None;
        }
        let date = match date {
            None => {
                self.counts.bad_date = self.counts.bad_date + 1;
                return None;
            },
            Some(d) => d,
        };
        let full = element_text(&body.children);
        let rest = text_after(full.as_str(), tag);
        match Problem::from_message(link, rest, self.author.clone(), date) {
            Ok(problem) => {
                self.awaiting = Some(link_opt);
                Some(problem)
            },
            Err(_) => {
                self.counts.bad_problem = self.counts.bad_problem + 1;
                None
            },
        }
    }

    /// Reports whether the problem found last was written (see `after_write`).
    pub fn finish_write(&mut self, written: bool)
        requires
            counts_consistent(old(self)@),
            old(self)@.awaiting is Some,
        ensures
            counts_consistent(final(self)@),
            final(self)@ == after_write(old(self)@, written),
    {
        let awaiting = self.awaiting.take();
        if written {
            self.counts.added = self.counts.added + 1;
            if let Some(Some(link)) = awaiting {
                let ghost before = self.existing@;
                self.existing.push(link);
                assert(views(self.existing@) =~= views(before).push(link@));
            }
        }
    }

    /// The scan's counts, in the words of its console summary.
    pub fn summary(&self) -> (r: String)
        ensures
            r@ == "Messages: "@ + decimal_text(self@.total) + " total, "@ + decimal_text(self@.no_date)
                + " no-date, "@ + decimal_text(self@.no_text) + " no-text, "@ + decimal_text(
                self@.no_tag,
            ) + " no-tag, "@ + decimal_text(self@.bad_date) + " bad-date, "@ + decimal_text(
                self@.bad_problem,
            ) + " bad-problem, "@ + decimal_text(self@.skipped) + " duplicate, "@ + decimal_text(
                self@.added,
            ) + " added"@,
    {
        let mut r = "Messages: ".to_owned();
        r.append(decimal(self.counts.total as u64).as_str());
        r.append(" total, ");
        r.append(decimal(self.counts.no_date as u64).as_str());
        r.append(" no-date, ");
        r.append(decimal(self.counts.no_text as u64).as_str());
        r.append(" no-text, ");
        r.append(decimal(self.counts.no_tag as u64).as_str());
        r.append(" no-tag, ");
        r.append(decimal(self.counts.bad_date as u64).as_str());
        r.append(" bad-date, ");
        r.append(decimal(self.counts.bad_problem as u64).as_str());
        r.append(" bad-problem, ");
        r.append(decimal(self.counts.skipped as u64).as_str());
        r.append(" duplicate, ");
        r.append(decimal(self.counts.added as u64).as_str());
        r.append(" added");
        r
    }

    /// The result of the scan: how many problems were added and how many duplicates skipped.
    pub fn report(&self) -> (r: String)
        ensures
            r@ == "Added "@ + decimal_text(self@.added) + " new problems, skipped "@ + decimal_text(
                self@.skipped,
            ) + " duplicates"@,
    {
        let mut r = "Added ".to_owned();
        r.append(decimal(self.counts.added as u64).as_str());
        r.append(" new problems, skipped ");
        r.append(decimal(self.counts.skipped as u64).as_str());
        r.append(" duplicates");
        r
    }
}

/// The links of the problems `ps`, in order.
pub fn links_of(ps: &Vec<Problem>) -> (r: Vec<String>)
    ensures
        views(r@) == ps@.map_values(|p: Problem| p@.link),
{
    let mut r: Vec<String> = Vec::new();
    let mut i: usize = 0;
    while i < ps.len()
        invariant
            i <= ps.len(),
            views(r@) == ps@.take(i as int).map_values(|p: Problem| p@.link),
        decreases ps.len() - i,
    {
        let ghost before = r@;
        let l = ps[i].link().to_owned();
        r.push(l);
        assert(views(r@) =~= views(before).push(ps@[i as int]@.link));
        assert(ps@.take(i + 1).map_values(|p: Problem| p@.link) =~= ps@.take(i as int).map_values(
            |p: Problem| p@.link,
        ).push(ps@[i as int]@.link));
        i = i + 1;
    }
    assert(ps@.take(ps.len() as int) =~= ps@);
    r
}

} // verus!
