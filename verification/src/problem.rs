//! A submitted problem, as kept in the pending list and pushed to the sheet.

use std::fmt::Write;
use vstd::prelude::*;
use crate::text::{
    chars_of, index_of_char, lemma_index_of_char_at, opt_string_view, trim, trim_str,
};

verus! {

broadcast use vstd::string::group_string_axioms;

/// What `chrono` writes for the UTC instant `secs` seconds and `nanos`
/// nanoseconds after the Unix epoch in the strftime format `format`; `None`
/// when `chrono` cannot represent the instant or the format is not valid.
pub uninterp spec fn date_text(secs: i64, nanos: u32, format: Seq<char>) -> Option<Seq<char>>;

/// The default date format of the sheet's date column.
pub const DEFAULT_DATE_FORMAT: &'static str = "%Y-%m-%d %H:%M:%S";

/// The instant's text in the default date format of the sheet.
pub open spec fn sheet_date_text(secs: i64, nanos: u32) -> Option<Seq<char>> {
    date_text(secs, nanos, DEFAULT_DATE_FORMAT@)
}

/// Calls `chrono::DateTime::<Utc>::from_timestamp(secs, nanos)` and, when it
/// gives an instant, writes it with `format` (a `chrono` strftime format).
/// The contract claims only that the result is the one `date_text` names: it
/// depends on the three arguments alone. `None` when there is no instant or
/// the formatting reports an error.
#[verifier::external_body]
fn format_date(secs: i64, nanos: u32, format: &str) -> (r: Option<String>)
    ensures
        opt_string_view(r) == date_text(secs, nanos, format@),
{
    match chrono::DateTime::<chrono::Utc>::from_timestamp(secs, nanos) {
        Some(d) => {
            let mut s = String::new();
            match write!(s, "{}", d.format(format)) {
                Ok(()) => Some(s),
                Err(_) => None,
            }
        },
        None => None,
    }
}

/// An instant in UTC: seconds and nanoseconds since the Unix epoch, always
/// one that `chrono` can represent and format.
#[derive(Debug, PartialEq, Eq)]
pub struct Timestamp {
    secs: i64,
    nanos: u32,
}

impl Timestamp {
    #[verifier::type_invariant]
    closed spec fn representable(self) -> bool {
        sheet_date_text(self.secs, self.nanos) is Some
    }

    /// Seconds since the Unix epoch.
    pub closed spec fn unix_secs(self) -> i64 {
        self.secs
    }

    /// Nanoseconds past `unix_secs`.
    pub closed spec fn unix_nanos(self) -> u32 {
        self.nanos
    }

    /// The instant's text in the sheet's date format.
    pub open spec fn sheet_text(self) -> Seq<char> {
        sheet_date_text(self.unix_secs(), self.unix_nanos()).unwrap()
    }

    /// The instant `secs` seconds and `nanos` nanoseconds after the epoch,
    /// if `chrono` can represent it.
    pub fn from_unix(secs: i64, nanos: u32) -> (r: Option<Timestamp>)
        ensures
            r is Some <==> sheet_date_text(secs, nanos) is Some,
            r matches Some(t) ==> t.unix_secs() == secs && t.unix_nanos() == nanos,
    {
        match format_date(secs, nanos, DEFAULT_DATE_FORMAT) {
            Some(_) => Some(Timestamp { secs, nanos }),
            None => None,
        }
    }

    /// Seconds since the Unix epoch.
    pub fn secs(&self) -> (r: i64)
        ensures
            r == self.unix_secs(),
    {
        self.secs
    }

    /// Nanoseconds past `secs`.
    pub fn nanos(&self) -> (r: u32)
        ensures
            r == self.unix_nanos(),
    {
        self.nanos
    }

    /// The instant in the date format `format`, if `chrono` can write it so.
    pub fn format(&self, format: &str) -> (r: Option<String>)
        ensures
            opt_string_view(r) == date_text(self.unix_secs(), self.unix_nanos(), format@),
    {
        format_date(self.secs, self.nanos, format)
    }

    /// The instant in the sheet's default date format, `%Y-%m-%d %H:%M:%S`.
    pub fn sheet_date(&self) -> (r: String)
        ensures
            r@ == self.sheet_text(),
    {
        proof {
            use_type_invariant(self);
        }
        match format_date(self.secs, self.nanos, DEFAULT_DATE_FORMAT) {
            Some(s) => s,
            None => {
                proof {
                    assert(false);
                }
                String::new()
            },
        }
    }
}

impl Clone for Timestamp {
    fn clone(&self) -> (r: Timestamp)
        ensures
            r.unix_secs() == self.unix_secs(),
            r.unix_nanos() == self.unix_nanos(),
    {
        proof {
            use_type_invariant(self);
        }
        Timestamp { secs: self.secs, nanos: self.nanos }
    }
}

/// The abstract content of a problem.
pub ghost struct ProblemView {
    pub link: Seq<char>,
    pub legend: Seq<char>,
    pub name: Seq<char>,
    pub author: Seq<char>,
    pub date_secs: i64,
    pub date_nanos: u32,
    pub editorial: Seq<char>,
    pub editorial_link: Seq<char>,
    pub difficulty: Seq<char>,
    pub tags: Seq<char>,
}

/// A problem: its statement, where it was posted, and what was attached to it later.
#[derive(Debug, PartialEq, Eq)]
pub struct Problem {
    link: String,
    legend: String,
    name: String,
    author: String,
    date: Timestamp,
    editorial: String,
    editorial_link: String,
    difficulty: String,
    tags: String,
}

impl View for Problem {
    type V = ProblemView;

    closed spec fn view(&self) -> ProblemView {
        ProblemView {
            link: self.link@,
            legend: self.legend@,
            name: self.name@,
            author: self.author@,
            date_secs: self.date.unix_secs(),
            date_nanos: self.date.unix_nanos(),
            editorial: self.editorial@,
            editorial_link: self.editorial_link@,
            difficulty: self.difficulty@,
            tags: self.tags@,
        }
    }
}

/// The name and legend of a submission: when the text has a newline, the
/// first line (trimmed) is the name and the rest (trimmed) the legend;
/// otherwise the name is empty and the whole text (trimmed) is the legend.
pub open spec fn split_submission(message: Seq<char>) -> (Seq<char>, Seq<char>) {
    let i = index_of_char(message, '\n');
    if i < message.len() {
        (trim(message.take(i as int)), trim(message.skip(i + 1 as int)))
    } else {
        (Seq::<char>::empty(), trim(message))
    }
}

/// The row that a problem fills in the sheet: name, author, difficulty,
/// date, legend, editorial, tags, link, editorial link.
pub open spec fn sheet_row(p: ProblemView, date_text: Seq<char>) -> Seq<Seq<char>> {
    seq![
        p.name,
        p.author,
        p.difficulty,
        date_text,
        p.legend,
        p.editorial,
        p.tags,
        p.link,
        p.editorial_link,
    ]
}

impl Problem {
    /// A problem made of all its parts.
    pub fn from_parts(
        link: String,
        legend: String,
        name: String,
        author: String,
        date: Timestamp,
        editorial: String,
        editorial_link: String,
        difficulty: String,
        tags: String,
    ) -> (r: Problem)
        ensures
            r@ == (ProblemView {
                link: link@,
                legend: legend@,
                name: name@,
                author: author@,
                date_secs: date.unix_secs(),
                date_nanos: date.unix_nanos(),
                editorial: editorial@,
                editorial_link: editorial_link@,
                difficulty: difficulty@,
                tags: tags@,
            }),
    {
        Problem { link, legend, name, author, date, editorial, editorial_link, difficulty, tags }
    }

    /// The problem parsed from a submission: `message` is the text after the
    /// hashtag (see `split_submission`); editorial, difficulty and tags are empty.
    pub fn from_message(link: String, message: String, author: String, date: Timestamp) -> (r:
        Result<Problem, String>)
        ensures
            r matches Ok(p) && p@ == (ProblemView {
                link: link@,
                legend: split_submission(message@).1,
                name: split_submission(message@).0,
                author: author@,
                date_secs: date.unix_secs(),
                date_nanos: date.unix_nanos(),
                editorial: Seq::<char>::empty(),
                editorial_link: Seq::<char>::empty(),
                difficulty: Seq::<char>::empty(),
                tags: Seq::<char>::empty(),
            }),
    {
        let v = chars_of(message.as_str());
        let mut i: usize = 0;
        while i < v.len() && v[i] != '\n'
            invariant
                i <= v.len(),
                v@ == message@,
                forall|j: int| 0 <= j < i ==> #[trigger] v@[j] != '\n',
            decreases v.len() - i,
        {
            i = i + 1;
        }
        proof {
            lemma_index_of_char_at(message@, '\n', i as int);
        }
        let (name, legend) = if i < v.len() {
            let first = message.as_str().substring_char(0, i);
            let rest = message.as_str().substring_char(i + 1, v.len());
            proof {
                assert(first@ =~= message@.take(i as int));
                assert(rest@ =~= message@.skip(i + 1 as int));
            }
            (trim_str(first).to_owned(), trim_str(rest).to_owned())
        } else {
            (String::new(), trim_str(message.as_str()).to_owned())
        };
        Ok(
            Problem {
                link,
                legend,
                name,
                author,
                date,
                editorial: String::new(),
                editorial_link: String::new(),
                difficulty: String::new(),
                tags: String::new(),
            },
        )
    }

    pub fn name(&self) -> (r: &str)
        ensures
            r@ == self@.name,
    {
        self.name.as_str()
    }

    pub fn link(&self) -> (r: &str)
        ensures
            r@ == self@.link,
    {
        self.link.as_str()
    }

    pub fn author(&self) -> (r: &str)
        ensures
            r@ == self@.author,
    {
        self.author.as_str()
    }

    pub fn legend(&self) -> (r: &str)
        ensures
            r@ == self@.legend,
    {
        self.legend.as_str()
    }

    pub fn editorial(&self) -> (r: &str)
        ensures
            r@ == self@.editorial,
    {
        self.editorial.as_str()
    }

    pub fn editorial_link(&self) -> (r: &str)
        ensures
            r@ == self@.editorial_link,
    {
        self.editorial_link.as_str()
    }

    pub fn difficulty(&self) -> (r: &str)
        ensures
            r@ == self@.difficulty,
    {
        self.difficulty.as_str()
    }

    pub fn tags(&self) -> (r: &str)
        ensures
            r@ == self@.tags,
    {
        self.tags.as_str()
    }

    pub fn date(&self) -> (r: &Timestamp)
        ensures
            r.unix_secs() == self@.date_secs,
            r.unix_nanos() == self@.date_nanos,
    {
        &self.date
    }

    pub fn set_difficulty(&mut self, v: String)
        ensures
            final(self)@ == (ProblemView { difficulty: v@, ..old(self)@ }),
    {
        self.difficulty = v;
    }

    pub fn set_tags(&mut self, v: String)
        ensures
            final(self)@ == (ProblemView { tags: v@, ..old(self)@ }),
    {
        self.tags = v;
    }

    pub fn set_editorial(&mut self, v: String)
        ensures
            final(self)@ == (ProblemView { editorial: v@, ..old(self)@ }),
    {
        self.editorial = v;
    }

    pub fn set_editorial_link(&mut self, v: String)
        ensures
            final(self)@ == (ProblemView { editorial_link: v@, ..old(self)@ }),
    {
        self.editorial_link = v;
    }

    /// The problem's row in the sheet (see `sheet_row`), with `date_text` in
    /// the date column.
    pub fn sheet_row_with(&self, date_text: String) -> (r: Vec<String>)
        ensures
            r@.map_values(|s: String| s@) == sheet_row(self@, date_text@),
    {
        let mut r: Vec<String> = Vec::new();
        r.push(self.name.clone());
        r.push(self.author.clone());
        r.push(self.difficulty.clone());
        r.push(date_text);
        r.push(self.legend.clone());
        r.push(self.editorial.clone());
        r.push(self.tags.clone());
        r.push(self.link.clone());
        r.push(self.editorial_link.clone());
        assert(r@.map_values(|s: String| s@) =~= sheet_row(self@, r@[3]@));
        r
    }

    /// The problem's row in the sheet (see `sheet_row`), the date in the
    /// date format `format`; `None` when `chrono` cannot write the date so.
    pub fn to_sheet_row_with_format(&self, format: &str) -> (r: Option<Vec<String>>)
        ensures
            match r {
                Some(row) => date_text(self@.date_secs, self@.date_nanos, format@) is Some
                    && row@.map_values(|s: String| s@) == sheet_row(
                    self@,
                    date_text(self@.date_secs, self@.date_nanos, format@).unwrap(),
                ),
                None => date_text(self@.date_secs, self@.date_nanos, format@) is None,
            },
    {
        match self.date.format(format) {
            Some(text) => Some(self.sheet_row_with(text)),
            None => None,
        }
    }

    /// The problem's row in the sheet (see `sheet_row`), the date in the
    /// default format `%Y-%m-%d %H:%M:%S`.
    pub fn to_sheet_row(&self) -> (r: Vec<String>)
        ensures
            r@.map_values(|s: String| s@) == sheet_row(
                self@,
                sheet_date_text(self@.date_secs, self@.date_nanos).unwrap(),
            ),
    {
        self.sheet_row_with(self.date.sheet_date())
    }
}

impl Clone for Problem {
    fn clone(&self) -> (r: Problem)
        ensures
            r@ == self@,
    {
        Problem {
            link: self.link.clone(),
            legend: self.legend.clone(),
            name: self.name.clone(),
            author: self.author.clone(),
            date: self.date.clone(),
            editorial: self.editorial.clone(),
            editorial_link: self.editorial_link.clone(),
            difficulty: self.difficulty.clone(),
            tags: self.tags.clone(),
        }
    }
}

} // verus!
