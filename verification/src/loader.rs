//! Loading pending problems into the spreadsheet: which lines are entries,
//! the tally of the load, and what is kept for the next one.

use vstd::prelude::*;
use crate::numbers::{decimal, decimal_text};
use crate::numbers::digit_char;
use crate::text::{
    is_plain_line, join_with_newline, lemma_lines_terminated, lines, trim, trim_str, views,
};

verus! {

broadcast use vstd::string::group_string_axioms;

/// The lines of the pending list that hold an entry: those that are not blank.
pub open spec fn entries(ls: Seq<Seq<char>>) -> Seq<Seq<char>>
    decreases ls.len(),
{
    if ls.len() == 0 {
        seq![]
    } else if trim(ls.last()).len() > 0 {
        entries(ls.drop_last()).push(ls.last())
    } else {
        entries(ls.drop_last())
    }
}

/// The lines of the pending list that hold an entry (see `entries`).
pub fn pending_entries(lines: &Vec<String>) -> (r: Vec<String>)
    ensures
        views(r@) == entries(views(lines@)),
{
    let mut r: Vec<String> = Vec::new();
    let mut i: usize = 0;
    while i < lines.len()
        invariant
            i <= lines.len(),
            views(r@) == entries(views(lines@).take(i as int)),
        decreases lines.len() - i,
    {
        let ghost before = r@;
        proof {
            assert(views(lines@).take(i + 1).drop_last() =~= views(lines@).take(i as int));
            assert(views(lines@).take(i + 1).last() == lines@[i as int]@);
        }
        if trim_str(lines[i].as_str()).unicode_len() > 0 {
            r.push(lines[i].clone());
            assert(views(r@) =~= views(before).push(lines@[i as int]@));
        }
        i = i + 1;
    }
    assert(views(lines@).take(lines.len() as int) =~= views(lines@));
    r
}

/// The text of a file that holds each of `ls` followed by a newline.
pub open spec fn newline_terminated(ls: Seq<Seq<char>>) -> Seq<char>
    decreases ls.len(),
{
    if ls.len() == 0 {
        seq![]
    } else {
        newline_terminated(ls.drop_last()) + ls.last() + seq!['\n']
    }
}

/// The tally of a load: how many entries went into the sheet, and the
/// entries that did not, kept in order for the next load.
pub struct LoadTally {
    ok: usize,
    failed: Vec<String>,
    total: usize,
}

/// The abstract state of a load: entries loaded, entries that failed, and
/// how many entries the load has.
pub ghost struct LoadView {
    pub ok: nat,
    pub failed: Seq<Seq<char>>,
    pub total: nat,
}

impl View for LoadTally {
    type V = LoadView;

    closed spec fn view(&self) -> LoadView {
        LoadView { ok: self.ok as nat, failed: views(self.failed@), total: self.total as nat }
    }
}

impl LoadTally {
    /// Every entry counted once: no more entries counted than the load has.
    pub open spec fn wf(&self) -> bool {
        self@.ok + self@.failed.len() <= self@.total
    }

    /// The tally of a load of `total` entries, before any is tried.
    pub fn new(total: usize) -> (r: LoadTally)
        ensures
            r.wf(),
            r@ == (LoadView { ok: 0, failed: seq![], total: total as nat }),
    {
        let r = LoadTally { ok: 0, failed: Vec::new(), total };
        assert(views(r.failed@) =~= Seq::<Seq<char>>::empty());
        r
    }

    /// Whether an entry is left to count.
    pub fn can_record(&self) -> (r: bool)
        requires
            self.wf(),
        ensures
            r == (self@.ok + self@.failed.len() < self@.total),
    {
        self.ok < self.total - self.failed.len()
    }

    /// Counts entry `line` as loaded (`loaded`) or failed.
    pub fn record(&mut self, line: String, loaded: bool)
        requires
            old(self).wf(),
            old(self)@.ok + old(self)@.failed.len() < old(self)@.total,
        ensures
            final(self).wf(),
            final(self)@ == (if loaded {
                LoadView { ok: old(self)@.ok + 1, ..old(self)@ }
            } else {
                LoadView { failed: old(self)@.failed.push(line@), ..old(self)@ }
            }),
    {
        if loaded {
            self.ok = self.ok + 1;
        } else {
            let ghost before = self.failed@;
            self.failed.push(line);
            assert(views(self.failed@) =~= views(before).push(line@));
        }
    }

    /// The new text of the pending list: the failed entries, each on its own line.
    pub fn kept_text(&self) -> (r: String)
        ensures
            r@ == newline_terminated(self@.failed),
    {
        let mut r = String::new();
        let mut i: usize = 0;
        while i < self.failed.len()
            invariant
                i <= self.failed.len(),
                r@ == newline_terminated(views(self.failed@).take(i as int)),
            decreases self.failed.len() - i,
        {
            r.append(self.failed[i].as_str());
            r.append("\n");
            proof {
                reveal_strlit("\n");
                assert(views(self.failed@).take(i + 1).drop_last() =~= views(self.failed@).take(
                    i as int,
                ));
                assert(r@ =~= newline_terminated(views(self.failed@).take(i + 1)));
            }
            i = i + 1;
        }
        assert(views(self.failed@).take(self.failed.len() as int) =~= views(self.failed@));
        r
    }

    /// The failed entries.
    pub fn failed(&self) -> (r: &Vec<String>)
        ensures
            views(r@) == self@.failed,
    {
        &self.failed
    }

    /// The result of the load, naming `path`, where failed entries are kept.
    pub fn summary(&self, path: &str) -> (r: String)
        ensures
            r@ == load_summary_text(self@.ok, self@.failed.len(), path@),
    {
        let mut r = "Loaded ".to_owned();
        r.append(decimal(self.ok as u64).as_str());
        r.append(" problems");
        if self.failed.len() > 0 {
            r.append(", ");
            r.append(decimal(self.failed.len() as u64).as_str());
            r.append(" failed (kept in ");
            r.append(path);
            r.append(")");
        }
        r
    }
}

/// The result of a load: `Loaded <ok> problems`, and when some failed,
/// `, <n> failed (kept in <path>)`.
pub open spec fn load_summary_text(ok: nat, failed: nat, path: Seq<char>) -> Seq<char> {
    if failed == 0 {
        "Loaded "@ + decimal_text(ok) + " problems"@
    } else {
        "Loaded "@ + decimal_text(ok) + " problems"@ + ", "@ + decimal_text(failed)
            + " failed (kept in "@ + path + ")"@
    }
}


proof fn lemma_terminated_is_joined(f: Seq<Seq<char>>)
    requires
        f.len() > 0,
    ensures
        newline_terminated(f) == join_with_newline(f) + seq!['\n'],
    decreases f.len(),
{
    if f.len() == 1 {
        assert(f.drop_last() =~= Seq::<Seq<char>>::empty());
        assert(newline_terminated(f.drop_last()) == Seq::<char>::empty());
        assert(newline_terminated(f) == Seq::<char>::empty() + f.last() + seq!['\n']);
        assert(join_with_newline(f) == f[0]);
        assert(f.last() == f[0]);
        assert(newline_terminated(f) =~= join_with_newline(f) + seq!['\n']);
    } else {
        lemma_terminated_is_joined(f.drop_last());
        let a = join_with_newline(f.drop_last());
        assert(newline_terminated(f) == (a + seq!['\n']) + f.last() + seq!['\n']);
        assert(join_with_newline(f) == a + seq!['\n'] + f.last());
        assert(newline_terminated(f) =~= join_with_newline(f) + seq!['\n']);
    }
}

proof fn lemma_entries_of_nonblank(f: Seq<Seq<char>>)
    requires
        forall|k: int| 0 <= k < f.len() ==> trim(#[trigger] f[k]).len() > 0,
    ensures
        entries(f) == f,
    decreases f.len(),
{
    if f.len() > 0 {
        lemma_entries_of_nonblank(f.drop_last());
        assert(f.drop_last().push(f.last()) =~= f);
    }
}

/// What a load keeps is what the next load tries: the kept entries, written
/// one per line and read back, are the same entries in the same order (for
/// entries that are not blank, hold no `'\n'` and end in no `'\r'`).
pub proof fn lemma_next_load_tries_what_was_kept(failed: Seq<Seq<char>>)
    requires
        forall|k: int| 0 <= k < failed.len() ==> is_plain_line(#[trigger] failed[k]),
        forall|k: int| 0 <= k < failed.len() ==> trim(#[trigger] failed[k]).len() > 0,
    ensures
        entries(lines(newline_terminated(failed))) == failed,
{
    if failed.len() > 0 {
        lemma_terminated_is_joined(failed);
        lemma_lines_terminated(failed);
    } else {
        assert(lines(newline_terminated(failed)) =~= Seq::<Seq<char>>::empty());
    }
    lemma_entries_of_nonblank(failed);
}

/// After a load in which nothing failed, the pending list is empty, so the
/// next load has no entry to try and reports `Loaded 0 problems`.
pub proof fn lemma_clean_load_leaves_nothing(path: Seq<char>)
    ensures
        newline_terminated(seq![]) == Seq::<char>::empty(),
        entries(lines(Seq::<char>::empty())) == Seq::<Seq<char>>::empty(),
        load_summary_text(0, 0, path) == "Loaded 0 problems"@,
{
    reveal_strlit("0123456789");
    reveal_strlit("Loaded ");
    reveal_strlit(" problems");
    reveal_strlit("Loaded 0 problems");
    assert(decimal_text(0) == seq![digit_char(0)]);
    assert("Loaded "@ + decimal_text(0) + " problems"@ =~= "Loaded 0 problems"@);
}

} // verus!
