//! Bot commands: recognising a command in a message and the decisions that
//! each command makes.

use vstd::prelude::*;
use crate::authors::{self, Authors};
use crate::chat::{hashtag_of, target_hashtag};
use crate::focus::{self, focus_at, FocusStore, FOCUS_DURATION_NANOS};
use crate::problem::{Problem, ProblemView};
use crate::text::{
    opt_str_view, opt_string_view,
    file_text, file_text_of, is_plain_line, lemma_file_text_lines, lines, views, str_eq,
    chars_of, has_prefix, index_of_white_space, is_white_space, is_whitespace,
    lemma_index_of_white_space_at, lemma_trim_start_at, skip_white_space, starts_with, trim_start,
};

verus! {

broadcast use vstd::string::group_string_axioms;

/// What follows command `cmd` at the start of `text`, with leading
/// whitespace removed; `None` when `text` does not start with the command.
/// The command must be followed by the end of the text, a space, a newline,
/// or `@` and a bot name (which is skipped up to the next whitespace).
pub open spec fn command_argument(text: Seq<char>, cmd: Seq<char>) -> Option<Seq<char>> {
    if !has_prefix(text, cmd) {
        None
    } else {
        let rest = text.skip(cmd.len() as int);
        if rest.len() == 0 || rest[0] == ' ' || rest[0] == '\n' {
            Some(trim_start(rest))
        } else if rest[0] == '@' {
            let after = rest.drop_first();
            Some(trim_start(after.skip(index_of_white_space(after) as int)))
        } else {
            None
        }
    }
}

/// The argument of command `cmd` in `text`, if `text` is that command.
pub fn strip_command<'a>(text: &'a str, cmd: &str) -> (r: Option<&'a str>)
    ensures
        opt_str_view(r) == command_argument(text@, cmd@),
{
    if !starts_with(text, cmd) {
        return None;
    }
    let v = chars_of(text);
    let c = cmd.unicode_len();
    let ghost rest = text@.skip(c as int);
    if c == v.len() || v[c] == ' ' || v[c] == '\n' {
        let i = skip_white_space(&v, c);
        proof {
            assert forall|j: int| 0 <= j < i - c implies is_white_space(#[trigger] rest[j]) by {
                assert(rest[j] == text@[j + c]);
            }
            if i < v.len() {
                assert(rest[i - c] == text@[i as int]);
            }
            lemma_trim_start_at(rest, i - c);
            assert(rest.skip(i - c) =~= text@.skip(i as int));
        }
        Some(text.substring_char(i, v.len()))
    } else if v[c] == '@' {
        let ghost after = rest.drop_first();
        let mut w = c + 1;
        while w < v.len() && !is_whitespace(v[w])
            invariant
                c < v.len(),
                c + 1 <= w <= v.len(),
                v@ == text@,
                forall|j: int| c + 1 <= j < w ==> !is_white_space(#[trigger] v@[j]),
            decreases v.len() - w,
        {
            w = w + 1;
        }
        let i = skip_white_space(&v, w);
        proof {
            assert forall|j: int| 0 <= j < w - c - 1 implies !is_white_space(#[trigger] after[j]) by {
                assert(after[j] == text@[j + c + 1]);
            }
            if w < v.len() {
                assert(after[w - c - 1] == text@[w as int]);
            }
            lemma_index_of_white_space_at(after, w - c - 1);
            let t = after.skip(w - c - 1);
            assert(t =~= text@.skip(w as int));
            assert forall|j: int| 0 <= j < i - w implies is_white_space(#[trigger] t[j]) by {
                assert(t[j] == text@[j + w]);
            }
            if i < v.len() {
                assert(t[i - w] == text@[i as int]);
            }
            lemma_trim_start_at(t, i - w);
            assert(t.skip(i - w) =~= text@.skip(i as int));
        }
        Some(text.substring_char(i, v.len()))
    } else {
        None
    }
}


/// A command that a message asks for.
pub enum Command {
    /// `/set_name`, with its argument.
    SetName(String),
    /// `/help`.
    Help,
    /// `/leave` (group chats only).
    Leave,
    /// `/load` (group chats only).
    Load,
    /// `/set_difficulty`, with its argument (group chats only).
    SetDifficulty(String),
    /// `/set_tags`, with its argument (group chats only).
    SetTags(String),
    /// `/editorial` or `/solution` (group chats only).
    Editorial,
    /// `/focus_problem` (group chats only).
    FocusProblem,
    /// `/clear_focus` (group chats only).
    ClearFocus,
    /// Nothing for the command handler to do.
    Ignore,
}

/// The abstract content of a `Command`.
pub ghost enum CommandView {
    SetName(Seq<char>),
    Help,
    Leave,
    Load,
    SetDifficulty(Seq<char>),
    SetTags(Seq<char>),
    Editorial,
    FocusProblem,
    ClearFocus,
    Ignore,
}

impl View for Command {
    type V = CommandView;

    open spec fn view(&self) -> CommandView {
        match self {
            Command::SetName(s) => CommandView::SetName(s@),
            Command::Help => CommandView::Help,
            Command::Leave => CommandView::Leave,
            Command::Load => CommandView::Load,
            Command::SetDifficulty(s) => CommandView::SetDifficulty(s@),
            Command::SetTags(s) => CommandView::SetTags(s@),
            Command::Editorial => CommandView::Editorial,
            Command::FocusProblem => CommandView::FocusProblem,
            Command::ClearFocus => CommandView::ClearFocus,
            Command::Ignore => CommandView::Ignore,
        }
    }
}

/// The command that a message with text `text` asks for. `/set_name` and
/// `/help` are answered in every chat, the others in group chats only; the
/// first command in this order that the text is wins: `/set_name`, `/help`,
/// `/leave`, `/load`, `/set_difficulty`, `/set_tags`, `/editorial` or
/// `/solution`, `/focus_problem`, `/clear_focus`.
pub open spec fn command_of(text: Option<Seq<char>>, is_private: bool) -> CommandView {
    match text {
        None => CommandView::Ignore,
        Some(t) => if command_argument(t, "/set_name"@) is Some {
            CommandView::SetName(command_argument(t, "/set_name"@).unwrap())
        } else if command_argument(t, "/help"@) is Some {
            CommandView::Help
        } else if is_private {
            CommandView::Ignore
        } else if command_argument(t, "/leave"@) is Some {
            CommandView::Leave
        } else if command_argument(t, "/load"@) is Some {
            CommandView::Load
        } else if command_argument(t, "/set_difficulty"@) is Some {
            CommandView::SetDifficulty(command_argument(t, "/set_difficulty"@).unwrap())
        } else if command_argument(t, "/set_tags"@) is Some {
            CommandView::SetTags(command_argument(t, "/set_tags"@).unwrap())
        } else if command_argument(t, "/editorial"@) is Some || command_argument(
            t,
            "/solution"@,
        ) is Some {
            CommandView::Editorial
        } else if command_argument(t, "/focus_problem"@) is Some {
            CommandView::FocusProblem
        } else if command_argument(t, "/clear_focus"@) is Some {
            CommandView::ClearFocus
        } else {
            CommandView::Ignore
        },
    }
}

/// The command that a message asks for (see `command_of`).
pub fn parse_command(text: Option<&str>, is_private: bool) -> (r: Command)
    ensures
        r@ == command_of(opt_str_view(text), is_private),
{
    let t = match text {
        None => {
            return Command::Ignore;
        },
        Some(t) => t,
    };
    if let Some(name) = strip_command(t, "/set_name") {
        return Command::SetName(name.to_owned());
    }
    if strip_command(t, "/help").is_some() {
        return Command::Help;
    }
    if is_private {
        return Command::Ignore;
    }
    if strip_command(t, "/leave").is_some() {
        Command::Leave
    } else if strip_command(t, "/load").is_some() {
        Command::Load
    } else if let Some(value) = strip_command(t, "/set_difficulty") {
        Command::SetDifficulty(value.to_owned())
    } else if let Some(value) = strip_command(t, "/set_tags") {
        Command::SetTags(value.to_owned())
    } else if strip_command(t, "/editorial").is_some() || strip_command(t, "/solution").is_some() {
        Command::Editorial
    } else if strip_command(t, "/focus_problem").is_some() {
        Command::FocusProblem
    } else if strip_command(t, "/clear_focus").is_some() {
        Command::ClearFocus
    } else {
        Command::Ignore
    }
}


proof fn lemma_not_prefix(s: Seq<char>, p: Seq<char>, i: int)
    requires
        0 <= i < p.len(),
        i < s.len(),
        s[i] != p[i],
    ensures
        !has_prefix(s, p),
{
    if p.len() <= s.len() {
        assert(s.take(p.len() as int)[i] != p[i]);
    }
}

proof fn lemma_is_prefix(p: Seq<char>, rest: Seq<char>)
    ensures
        has_prefix(p + rest, p),
        (p + rest).skip(p.len() as int) == rest,
{
    assert((p + rest).take(p.len() as int) =~= p);
    assert((p + rest).skip(p.len() as int) =~= rest);
}

/// `/solution` is another name for `/editorial`: in a group chat both ask
/// for the same command, whatever argument follows.
pub proof fn lemma_solution_is_editorial(rest: Seq<char>)
    requires
        rest.len() == 0 || rest[0] == ' ' || rest[0] == '\n' || rest[0] == '@',
    ensures
        command_of(Some("/editorial"@ + rest), false) == CommandView::Editorial,
        command_of(Some("/solution"@ + rest), false) == CommandView::Editorial,
{
    reveal_strlit("/editorial");
    reveal_strlit("/solution");
    reveal_strlit("/set_name");
    reveal_strlit("/help");
    reveal_strlit("/leave");
    reveal_strlit("/load");
    reveal_strlit("/set_difficulty");
    reveal_strlit("/set_tags");
    let e = "/editorial"@ + rest;
    let o = "/solution"@ + rest;
    assert(e[1] == 'e' && e[2] == 'd');
    assert(o[1] == 's' && o[2] == 'o');
    lemma_not_prefix(e, "/set_name"@, 1);
    lemma_not_prefix(e, "/help"@, 1);
    lemma_not_prefix(e, "/leave"@, 1);
    lemma_not_prefix(e, "/load"@, 1);
    lemma_not_prefix(e, "/set_difficulty"@, 1);
    lemma_not_prefix(e, "/set_tags"@, 1);
    lemma_is_prefix("/editorial"@, rest);
    lemma_not_prefix(o, "/set_name"@, 2);
    lemma_not_prefix(o, "/help"@, 1);
    lemma_not_prefix(o, "/leave"@, 1);
    lemma_not_prefix(o, "/load"@, 1);
    lemma_not_prefix(o, "/set_difficulty"@, 2);
    lemma_not_prefix(o, "/set_tags"@, 2);
    lemma_not_prefix(o, "/editorial"@, 1);
    lemma_is_prefix("/solution"@, rest);
}

// ---------------------------------------------------------------------------
// /set_name and /help

/// The reply to `/set_name` with argument `name` from `sender` (`None` when
/// the message has no sender).
pub open spec fn set_name_reply_text(name: Seq<char>, sender: Option<u64>) -> Seq<char> {
    if name.len() == 0 {
        "Usage: /set_name <your name>"@
    } else if sender is Some {
        "Your name is now \""@ + name + "\""@
    } else {
        "Could not identify you as a user."@
    }
}

/// Answers `/set_name`: records `name` for the sender when the name is not
/// empty and the sender is known. Returns the reply, and whether a name was
/// recorded (and so the names need saving).
pub fn set_name(authors: &mut Authors, name: String, sender: Option<u64>) -> (r: (String, bool))
    ensures
        r.0@ == set_name_reply_text(name@, sender),
        r.1 == (name@.len() > 0 && sender is Some),
        final(authors)@ == (if name@.len() > 0 && sender is Some {
            old(authors)@.insert(sender.unwrap(), name@)
        } else {
            old(authors)@
        }),
{
    if name.as_str().unicode_len() == 0 {
        return ("Usage: /set_name <your name>".to_owned(), false);
    }
    match sender {
        Some(user) => {
            let mut r = "Your name is now \"".to_owned();
            r.append(name.as_str());
            r.append("\"");
            authors::set(authors, user, name);
            (r, true)
        },
        None => ("Could not identify you as a user.".to_owned(), false),
    }
}

/// The `/help` text for submissions marked with `tag`.
pub open spec fn help_text_of(tag: Seq<char>) -> Seq<char> {
    tag + " <Legend>\nor\n"@ + tag + HELP_BODY@
}

/// What follows the two submission formats in the `/help` text.
pub const HELP_BODY: &'static str = " <Problem Name>
<Legend>

Submit a problem. If the text after the hashtag contains a newline, the first line is the name and the rest is the legend. Otherwise the whole text is treated as the legend.

/set_name <name> \u{2014} set your display name for attribution
/set_difficulty <value> \u{2014} set difficulty for the target problem: reply > focus > last (group only)
/set_tags <value> \u{2014} set tags for the target problem: reply > focus > last (group only)
/editorial (or /solution) \u{2014} reply to an editorial message to attach it to the target problem: reply-to-reply > focus > last (group only)
/focus_problem \u{2014} reply to a problem to focus it for 20 minutes; without a reply, clears focus (group only)
/clear_focus \u{2014} clear the focused problem (group only)
/load \u{2014} push pending problems to the spreadsheet (group only)
/leave \u{2014} make the bot leave the chat (group only)
/help \u{2014} show this message";

/// The reply to `/help`, for the configured hashtag `hashtag_raw`.
pub fn help_text(hashtag_raw: &str) -> (r: String)
    ensures
        r@ == help_text_of(hashtag_of(hashtag_raw@)),
{
    let tag = target_hashtag(hashtag_raw);
    let mut r = tag.clone();
    r.append(" <Legend>\nor\n");
    r.append(tag.as_str());
    r.append(HELP_BODY);
    r
}

// ---------------------------------------------------------------------------
// Finding the problem a command is about

/// Whether `p` was posted in the chat whose links start with `prefix`, by `author`.
pub open spec fn posted_by(p: ProblemView, prefix: Seq<char>, author: Seq<char>) -> bool {
    has_prefix(p.link, prefix) && p.author == author
}

/// The link of the last problem in `ps` posted in the chat with link prefix
/// `prefix` by `author`.
pub open spec fn last_posted_by(ps: Seq<ProblemView>, prefix: Seq<char>, author: Seq<char>) -> Option<
    Seq<char>,
>
    decreases ps.len(),
{
    if ps.len() == 0 {
        None
    } else if posted_by(ps.last(), prefix, author) {
        Some(ps.last().link)
    } else {
        last_posted_by(ps.drop_last(), prefix, author)
    }
}

/// The problem found by `last_posted_by` is the last one of the author in
/// the chat: it is in `ps`, its link starts with `prefix`, its author is
/// `author`, and no problem after it has both; when none is found, no
/// problem of `ps` has both.
pub proof fn lemma_last_posted_by_is_last(ps: Seq<ProblemView>, prefix: Seq<char>, author: Seq<char>)
    ensures
        last_posted_by(ps, prefix, author) is Some ==> exists|i: int|
            0 <= i < ps.len() && #[trigger] ps[i].link == last_posted_by(ps, prefix, author).unwrap()
                && has_prefix(ps[i].link, prefix) && ps[i].author == author && forall|j: int|
                i < j < ps.len() ==> !(has_prefix(#[trigger] ps[j].link, prefix) && ps[j].author
                    == author),
        last_posted_by(ps, prefix, author) is None ==> forall|i: int|
            0 <= i < ps.len() ==> !(has_prefix(#[trigger] ps[i].link, prefix) && ps[i].author == author),
    decreases ps.len(),
{
    if ps.len() > 0 {
        let k = ps.len() - 1;
        if has_prefix(ps[k].link, prefix) && ps[k].author == author {
            assert(ps[k].link == last_posted_by(ps, prefix, author).unwrap());
        } else {
            let q = ps.drop_last();
            lemma_last_posted_by_is_last(q, prefix, author);
            if last_posted_by(q, prefix, author) is Some {
                let i = choose|i: int|
                    0 <= i < q.len() && #[trigger] q[i].link == last_posted_by(q, prefix, author).unwrap()
                        && has_prefix(q[i].link, prefix) && q[i].author == author && forall|j: int|
                        i < j < q.len() ==> !(has_prefix(#[trigger] q[j].link, prefix) && q[j].author
                            == author);
                assert(ps[i] == q[i]);
                assert forall|j: int| i < j < ps.len() implies !(has_prefix(#[trigger] ps[j].link, prefix)
                    && ps[j].author == author) by {
                    if j < k {
                        assert(ps[j] == q[j]);
                    }
                }
            } else {
                assert forall|i: int| 0 <= i < ps.len() implies !(has_prefix(#[trigger] ps[i].link, prefix)
                    && ps[i].author == author) by {
                    if i < k {
                        assert(ps[i] == q[i]);
                    }
                }
            }
        }
    }
}

/// The views of a sequence of problems.
pub open spec fn problem_views(ps: Seq<Problem>) -> Seq<ProblemView> {
    ps.map_values(|p: Problem| p@)
}

/// The link of the problem that a command is about: the replied-to message
/// if there is one; else the sender's focus at time `now`; else the last
/// pending problem posted in this chat by `author`. `pending` is `None` when
/// the pending list cannot be read.
pub open spec fn target_link_of(
    reply_link: Option<Seq<char>>,
    sender: Option<u64>,
    focus: Map<u64, (Seq<char>, u64)>,
    now: u64,
    pending: Option<Seq<ProblemView>>,
    prefix: Seq<char>,
    author: Seq<char>,
) -> Option<Seq<char>> {
    if reply_link is Some {
        reply_link
    } else if sender is Some && focus_at(focus, sender.unwrap(), now) is Some {
        focus_at(focus, sender.unwrap(), now)
    } else {
        match pending {
            None => None,
            Some(ps) => last_posted_by(ps, prefix, author),
        }
    }
}

/// The link of the last problem in `ps` posted in the chat with link prefix
/// `prefix` by `author`.
pub fn last_link_posted_by(ps: &Vec<Problem>, prefix: &str, author: &str) -> (r: Option<String>)
    ensures
        opt_string_view(r) == last_posted_by(problem_views(ps@), prefix@, author@),
{
    let mut i = ps.len();
    assert(problem_views(ps@).take(i as int) =~= problem_views(ps@));
    while i > 0
        invariant
            i <= ps.len(),
            last_posted_by(problem_views(ps@), prefix@, author@) == last_posted_by(
                problem_views(ps@).take(i as int),
                prefix@,
                author@,
            ),
        decreases i,
    {
        let p = &ps[i - 1];
        let ghost pre = problem_views(ps@).take(i as int);
        assert(pre.last() == p@);
        assert(pre.drop_last() =~= problem_views(ps@).take(i - 1));
        if starts_with(p.link(), prefix) && str_eq(p.author(), author) {
            return Some(p.link().to_owned());
        }
        i = i - 1;
    }
    assert(problem_views(ps@).take(0) =~= Seq::<ProblemView>::empty());
    None
}

/// The link of the problem that a command is about (see `target_link_of`).
pub fn find_target_link(
    reply_link: Option<String>,
    sender: Option<u64>,
    focus: &FocusStore,
    now: u64,
    pending: Option<&Vec<Problem>>,
    prefix: &str,
    author: &str,
) -> (r: Option<String>)
    ensures
        opt_string_view(r) == target_link_of(
            opt_string_view(reply_link),
            sender,
            focus@,
            now,
            match pending {
                Some(ps) => Some(problem_views(ps@)),
                None => None,
            },
            prefix@,
            author@,
        ),
{
    if reply_link.is_some() {
        return reply_link;
    }
    if let Some(user) = sender {
        if let Some(link) = focus::get(focus, user, now) {
            return Some(link);
        }
    }
    match pending {
        None => None,
        Some(ps) => last_link_posted_by(ps, prefix, author),
    }
}

/// The order in which the target of a command is chosen: a replied-to
/// message wins over everything else, whatever the sender's focus and the
/// pending list; without one, a live focus of the sender wins over the
/// pending list; without either, the last pending problem posted in this
/// chat by `author` is the target, and there is none when the pending list
/// cannot be read.
pub proof fn lemma_reply_then_focus_then_last(
    reply_link: Option<Seq<char>>,
    sender: Option<u64>,
    focus: Map<u64, (Seq<char>, u64)>,
    now: u64,
    pending: Option<Seq<ProblemView>>,
    prefix: Seq<char>,
    author: Seq<char>,
)
    ensures
        reply_link is Some ==> target_link_of(reply_link, sender, focus, now, pending, prefix, author)
            == Some(reply_link.unwrap()),
        reply_link is None && sender is Some && focus_at(focus, sender.unwrap(), now) is Some
            ==> target_link_of(reply_link, sender, focus, now, pending, prefix, author) == Some(
            focus[sender.unwrap()].0,
        ),
        reply_link is None && sender is None && pending is Some ==> target_link_of(
            reply_link,
            sender,
            focus,
            now,
            pending,
            prefix,
            author,
        ) == last_posted_by(pending.unwrap(), prefix, author),
        reply_link is None && (sender is None || focus_at(focus, sender.unwrap(), now) is None)
            && pending is None ==> target_link_of(reply_link, sender, focus, now, pending, prefix, author)
            is None,
{
}

/// Whether some problem in `ps` has link `link`.
pub open spec fn is_pending(ps: Seq<ProblemView>, link: Seq<char>) -> bool {
    exists|i: int| 0 <= i < ps.len() && ps[i].link == link
}

/// Whether some problem in `ps` has link `link`.
pub fn is_pending_problem(ps: &Vec<Problem>, link: &str) -> (r: bool)
    ensures
        r == is_pending(problem_views(ps@), link@),
{
    let mut i: usize = 0;
    while i < ps.len()
        invariant
            i <= ps.len(),
            forall|j: int| 0 <= j < i ==> ps@[j]@.link != link@,
        decreases ps.len() - i,
    {
        if str_eq(ps[i].link(), link) {
            assert(problem_views(ps@)[i as int].link == link@);
            return true;
        }
        i = i + 1;
    }
    assert forall|j: int| 0 <= j < problem_views(ps@).len() implies problem_views(ps@)[j].link != link@ by {
        assert(problem_views(ps@)[j] == ps@[j]@);
    }
    false
}

// ---------------------------------------------------------------------------
// /focus_problem and /clear_focus

/// The reply to `/focus_problem`: `None` when nothing is sent.
pub open spec fn focus_reply_text(
    reply_link: Option<Seq<char>>,
    sender: Option<u64>,
    pending: Seq<ProblemView>,
) -> Option<Seq<char>> {
    match reply_link {
        None => Some("Focus cleared."@),
        Some(link) => if !is_pending(pending, link) {
            Some("The replied message is not a known pending problem."@)
        } else if sender is Some {
            Some("Focus set for 20 minutes."@)
        } else {
            None
        },
    }
}

/// The focus store after `/focus_problem`.
pub open spec fn focus_after(
    focus: Map<u64, (Seq<char>, u64)>,
    reply_link: Option<Seq<char>>,
    sender: Option<u64>,
    pending: Seq<ProblemView>,
    now: u64,
) -> Map<u64, (Seq<char>, u64)> {
    match (reply_link, sender) {
        (None, Some(user)) => focus.remove(user),
        (Some(link), Some(user)) => if is_pending(pending, link) {
            focus.insert(user, (link, now))
        } else {
            focus
        },
        _ => focus,
    }
}

/// Answers `/focus_problem`. With a replied-to message that is a pending
/// problem, focuses the sender on it; without one, clears the sender's
/// focus. Returns the reply to send, if any.
pub fn focus_problem(
    focus: &mut FocusStore,
    reply_link: Option<String>,
    sender: Option<u64>,
    pending: &Vec<Problem>,
    now: u64,
) -> (r: Option<String>)
    ensures
        opt_string_view(r) == focus_reply_text(
            opt_string_view(reply_link),
            sender,
            problem_views(pending@),
        ),
        final(focus)@ == focus_after(
            old(focus)@,
            opt_string_view(reply_link),
            sender,
            problem_views(pending@),
            now,
        ),
{
    let link = match reply_link {
        None => {
            if let Some(user) = sender {
                focus::clear(focus, user);
            }
            return Some("Focus cleared.".to_owned());
        },
        Some(link) => link,
    };
    if !is_pending_problem(pending, link.as_str()) {
        return Some("The replied message is not a known pending problem.".to_owned());
    }
    match sender {
        Some(user) => {
            focus::set(focus, user, link, now);
            Some("Focus set for 20 minutes.".to_owned())
        },
        None => None,
    }
}

/// A focus lasts twenty minutes from the moment it is set: after
/// `/focus_problem` from a known sender replies to a pending problem with
/// link `l` at time `now`, the sender's focus is `l` at every time `t` from
/// `now` until twenty minutes later, and is gone from then on; meanwhile a
/// command of that sender without a replied-to message is about `l`, and
/// the reply says so. `/focus_problem` without a replied-to message leaves
/// the sender with no focus at any time, and one that replies to a message
/// that is not pending leaves every focus as it was.
pub proof fn lemma_focus_lasts_twenty_minutes(
    focus: Map<u64, (Seq<char>, u64)>,
    l: Seq<char>,
    user: u64,
    pending: Seq<ProblemView>,
    now: u64,
    t: u64,
    later_pending: Option<Seq<ProblemView>>,
    prefix: Seq<char>,
    author: Seq<char>,
)
    ensures
        is_pending(pending, l) && now <= t && t < now + FOCUS_DURATION_NANOS ==> focus_at(
            focus_after(focus, Some(l), Some(user), pending, now),
            user,
            t,
        ) == Some(l),
        is_pending(pending, l) && now <= t && t < now + FOCUS_DURATION_NANOS ==> target_link_of(
            None,
            Some(user),
            focus_after(focus, Some(l), Some(user), pending, now),
            t,
            later_pending,
            prefix,
            author,
        ) == Some(l),
        is_pending(pending, l) && t >= now + FOCUS_DURATION_NANOS ==> focus_at(
            focus_after(focus, Some(l), Some(user), pending, now),
            user,
            t,
        ) is None,
        is_pending(pending, l) ==> focus_reply_text(Some(l), Some(user), pending) == Some(
            "Focus set for 20 minutes."@,
        ),
        focus_at(focus_after(focus, None, Some(user), pending, now), user, t) is None,
        !is_pending(pending, l) ==> focus_after(focus, Some(l), Some(user), pending, now) == focus,
{
}

/// Answers `/clear_focus`: clears the sender's focus and returns the reply.
pub fn clear_focus(focus: &mut FocusStore, sender: Option<u64>) -> (r: String)
    ensures
        r@ == "Focus cleared."@,
        final(focus)@ == (match sender {
            Some(user) => old(focus)@.remove(user),
            None => old(focus)@,
        }),
{
    if let Some(user) = sender {
        focus::clear(focus, user);
    }
    "Focus cleared.".to_owned()
}


// ---------------------------------------------------------------------------
// /set_difficulty, /set_tags and /editorial

/// A field that `/set_difficulty` or `/set_tags` sets.
pub enum Field {
    Difficulty,
    Tags,
}

/// A change to a pending problem.
pub enum Edit {
    /// Set the difficulty.
    Difficulty(String),
    /// Set the tags.
    Tags(String),
    /// Attach an editorial: its text and the link to its message.
    Editorial { text: String, link: String },
}

/// The abstract content of an `Edit`.
pub ghost enum EditView {
    Difficulty(Seq<char>),
    Tags(Seq<char>),
    Editorial { text: Seq<char>, link: Seq<char> },
}

impl View for Edit {
    type V = EditView;

    open spec fn view(&self) -> EditView {
        match self {
            Edit::Difficulty(v) => EditView::Difficulty(v@),
            Edit::Tags(v) => EditView::Tags(v@),
            Edit::Editorial { text, link } => EditView::Editorial { text: text@, link: link@ },
        }
    }
}

/// `p` after `edit`.
pub open spec fn edited(p: ProblemView, edit: EditView) -> ProblemView {
    match edit {
        EditView::Difficulty(v) => ProblemView { difficulty: v, ..p },
        EditView::Tags(v) => ProblemView { tags: v, ..p },
        EditView::Editorial { text, link } => ProblemView { editorial: text, editorial_link: link, ..p },
    }
}

/// Whether `a` and `b` are the same statement posted at the same place and
/// time by the same author.
pub open spec fn same_statement(a: ProblemView, b: ProblemView) -> bool {
    &&& a.link == b.link
    &&& a.legend == b.legend
    &&& a.name == b.name
    &&& a.author == b.author
    &&& a.date_secs == b.date_secs
    &&& a.date_nanos == b.date_nanos
}

/// An edit changes its own field and nothing else: a difficulty edit sets
/// the difficulty, a tags edit the tags, an editorial edit the editorial
/// and its link; every other field keeps its value.
pub proof fn lemma_edit_sets_its_field_only(p: ProblemView, v: Seq<char>, text: Seq<char>, link: Seq<char>)
    ensures
        edited(p, EditView::Difficulty(v)).difficulty == v,
        edited(p, EditView::Difficulty(v)).tags == p.tags,
        edited(p, EditView::Difficulty(v)).editorial == p.editorial,
        edited(p, EditView::Difficulty(v)).editorial_link == p.editorial_link,
        same_statement(edited(p, EditView::Difficulty(v)), p),
        edited(p, EditView::Tags(v)).tags == v,
        edited(p, EditView::Tags(v)).difficulty == p.difficulty,
        edited(p, EditView::Tags(v)).editorial == p.editorial,
        edited(p, EditView::Tags(v)).editorial_link == p.editorial_link,
        same_statement(edited(p, EditView::Tags(v)), p),
        edited(p, EditView::Editorial { text, link }).editorial == text,
        edited(p, EditView::Editorial { text, link }).editorial_link == link,
        edited(p, EditView::Editorial { text, link }).difficulty == p.difficulty,
        edited(p, EditView::Editorial { text, link }).tags == p.tags,
        same_statement(edited(p, EditView::Editorial { text, link }), p),
{
}

/// What a command decided: a reply to send, or an edit of the pending
/// problem with link `target`.
pub enum Decision {
    Reply(String),
    Update { target: String, edit: Edit },
}

/// The abstract content of a `Decision`.
pub ghost enum DecisionView {
    Reply(Seq<char>),
    Update { target: Seq<char>, edit: EditView },
}

impl View for Decision {
    type V = DecisionView;

    open spec fn view(&self) -> DecisionView {
        match self {
            Decision::Reply(s) => DecisionView::Reply(s@),
            Decision::Update { target, edit } => DecisionView::Update { target: target@, edit: edit@ },
        }
    }
}

/// The command that sets `field`.
pub open spec fn field_command(field: Field) -> Seq<char> {
    match field {
        Field::Difficulty => "/set_difficulty"@,
        Field::Tags => "/set_tags"@,
    }
}

/// The reply when no target problem is found.
pub open spec fn no_target_text() -> Seq<char> {
    "No matching problem found in the pending list."@
}

/// What `/set_difficulty` or `/set_tags` with argument `value` decides:
/// a usage reply for an empty value; else an edit of the target problem
/// (see `target_link_of`), or a reply that there is none.
pub open spec fn field_decision(
    field: Field,
    value: Seq<char>,
    target: Option<Seq<char>>,
) -> DecisionView {
    if value.len() == 0 {
        DecisionView::Reply("Usage: "@ + field_command(field) + " <value>"@)
    } else {
        match target {
            None => DecisionView::Reply(no_target_text()),
            Some(t) => DecisionView::Update {
                target: t,
                edit: match field {
                    Field::Difficulty => EditView::Difficulty(value),
                    Field::Tags => EditView::Tags(value),
                },
            },
        }
    }
}

/// Decides `/set_difficulty` or `/set_tags` (see `field_decision`).
pub fn decide_field(
    field: Field,
    value: String,
    reply_link: Option<String>,
    sender: Option<u64>,
    focus: &FocusStore,
    now: u64,
    pending: Option<&Vec<Problem>>,
    prefix: &str,
    author: &str,
) -> (r: Decision)
    ensures
        r@ == field_decision(
            field,
            value@,
            target_link_of(
                opt_string_view(reply_link),
                sender,
                focus@,
                now,
                match pending {
                    Some(ps) => Some(problem_views(ps@)),
                    None => None,
                },
                prefix@,
                author@,
            ),
        ),
{
    if value.as_str().unicode_len() == 0 {
        let mut r = "Usage: ".to_owned();
        match field {
            Field::Difficulty => r.append("/set_difficulty"),
            Field::Tags => r.append("/set_tags"),
        }
        r.append(" <value>");
        return Decision::Reply(r);
    }
    match find_target_link(reply_link, sender, focus, now, pending, prefix, author) {
        None => Decision::Reply("No matching problem found in the pending list.".to_owned()),
        Some(target) => Decision::Update {
            target,
            edit: match field {
                Field::Difficulty => Edit::Difficulty(value),
                Field::Tags => Edit::Tags(value),
            },
        },
    }
}

/// `/set_difficulty` edits the difficulty and `/set_tags` the tags: for a
/// non-empty value and a found target `t`, the decision is an update of `t`
/// which, applied to any problem, sets the field named by the command to
/// the value and leaves the other field as it was. An empty value gets the
/// usage reply, and no target the reply that there is none.
pub proof fn lemma_field_decision_sets_named_field(
    field: Field,
    value: Seq<char>,
    t: Seq<char>,
    p: ProblemView,
)
    ensures
        value.len() > 0 && (field is Difficulty) ==> field_decision(field, value, Some(t))
            == (DecisionView::Update { target: t, edit: EditView::Difficulty(value) }),
        value.len() > 0 && (field is Tags) ==> field_decision(field, value, Some(t))
            == (DecisionView::Update { target: t, edit: EditView::Tags(value) }),
        value.len() > 0 ==> (match field_decision(field, value, Some(t)) {
            DecisionView::Update { target, edit } => {
                &&& target == t
                &&& (field is Difficulty) ==> edited(p, edit).difficulty == value && edited(p, edit).tags
                    == p.tags
                &&& (field is Tags) ==> edited(p, edit).tags == value && edited(p, edit).difficulty
                    == p.difficulty
            },
            DecisionView::Reply(_) => false,
        }),
        value.len() > 0 ==> field_decision(field, value, None) == DecisionView::Reply(no_target_text()),
        value.len() == 0 && (field is Difficulty) ==> field_decision(field, value, Some(t))
            == DecisionView::Reply("Usage: /set_difficulty <value>"@),
        value.len() == 0 && (field is Tags) ==> field_decision(field, value, Some(t))
            == DecisionView::Reply("Usage: /set_tags <value>"@),
{
    if value.len() == 0 {
        reveal_strlit("Usage: ");
        reveal_strlit("/set_difficulty");
        reveal_strlit("/set_tags");
        reveal_strlit(" <value>");
        reveal_strlit("Usage: /set_difficulty <value>");
        reveal_strlit("Usage: /set_tags <value>");
        assert("Usage: "@ + "/set_difficulty"@ + " <value>"@ =~= "Usage: /set_difficulty <value>"@);
        assert("Usage: "@ + "/set_tags"@ + " <value>"@ =~= "Usage: /set_tags <value>"@);
    }
}

/// The message an `/editorial` command replied to: its text (if any), the
/// link to it, and the link to the message it in turn replied to (if any).
pub struct RepliedMessage {
    pub text: Option<String>,
    pub link: String,
    pub statement_link: Option<String>,
}

/// The abstract content of a `RepliedMessage`.
pub ghost struct RepliedMessageView {
    pub text: Option<Seq<char>>,
    pub link: Seq<char>,
    pub statement_link: Option<Seq<char>>,
}

impl View for RepliedMessage {
    type V = RepliedMessageView;

    open spec fn view(&self) -> RepliedMessageView {
        RepliedMessageView {
            text: opt_string_view(self.text),
            link: self.link@,
            statement_link: opt_string_view(self.statement_link),
        }
    }
}

/// What `/editorial` decides. Without a replied-to message, or when it has
/// no text, a reply saying so. Otherwise the editorial is attached to the
/// message that the editorial replied to; when it replied to none, to the
/// problem given by `fallback_target` (the sender's focus, else the last
/// problem of the sender in this chat); when there is none, a reply saying so.
pub open spec fn editorial_decision(
    replied: Option<RepliedMessageView>,
    fallback_target: Option<Seq<char>>,
) -> DecisionView {
    match replied {
        None => DecisionView::Reply("Reply to a message containing the editorial."@),
        Some(m) => match m.text {
            None => DecisionView::Reply("The replied message has no text."@),
            Some(text) => {
                let target = if m.statement_link is Some {
                    m.statement_link
                } else {
                    fallback_target
                };
                match target {
                    None => DecisionView::Reply(no_target_text()),
                    Some(t) => DecisionView::Update {
                        target: t,
                        edit: EditView::Editorial { text, link: m.link },
                    },
                }
            },
        },
    }
}

/// Where `/editorial` attaches an editorial: to the message that the
/// editorial's message replied to when there is one, whatever the fallback;
/// else to the fallback target. The editorial is the text of the replied-to
/// message and its link is that message's link. Without a replied-to
/// message, without text, or without any target, the reply says so.
pub proof fn lemma_editorial_goes_to_statement(m: RepliedMessageView, fallback_target: Option<Seq<char>>)
    ensures
        m.text is Some && m.statement_link is Some ==> editorial_decision(Some(m), fallback_target)
            == (DecisionView::Update {
            target: m.statement_link.unwrap(),
            edit: EditView::Editorial { text: m.text.unwrap(), link: m.link },
        }),
        m.text is Some && m.statement_link is None && fallback_target is Some ==> editorial_decision(
            Some(m),
            fallback_target,
        ) == (DecisionView::Update {
            target: fallback_target.unwrap(),
            edit: EditView::Editorial { text: m.text.unwrap(), link: m.link },
        }),
        m.text is Some && m.statement_link is None && fallback_target is None ==> editorial_decision(
            Some(m),
            fallback_target,
        ) == DecisionView::Reply(no_target_text()),
        m.text is None ==> editorial_decision(Some(m), fallback_target) == DecisionView::Reply(
            "The replied message has no text."@,
        ),
        editorial_decision(None, fallback_target) == DecisionView::Reply(
            "Reply to a message containing the editorial."@,
        ),
{
}

/// Decides `/editorial` (see `editorial_decision`).
pub fn decide_editorial(
    replied: Option<RepliedMessage>,
    sender: Option<u64>,
    focus: &FocusStore,
    now: u64,
    pending: Option<&Vec<Problem>>,
    prefix: &str,
    author: &str,
) -> (r: Decision)
    ensures
        r@ == editorial_decision(
            match replied {
                Some(m) => Some(m@),
                None => None,
            },
            target_link_of(
                None,
                sender,
                focus@,
                now,
                match pending {
                    Some(ps) => Some(problem_views(ps@)),
                    None => None,
                },
                prefix@,
                author@,
            ),
        ),
{
    let m = match replied {
        None => {
            return Decision::Reply("Reply to a message containing the editorial.".to_owned());
        },
        Some(m) => m,
    };
    let text = match m.text {
        None => {
            return Decision::Reply("The replied message has no text.".to_owned());
        },
        Some(t) => t,
    };
    let target = match m.statement_link {
        Some(l) => Some(l),
        None => find_target_link(None, sender, focus, now, pending, prefix, author),
    };
    match target {
        None => Decision::Reply("No matching problem found in the pending list.".to_owned()),
        Some(t) => Decision::Update { target: t, edit: Edit::Editorial { text, link: m.link } },
    }
}

// ---------------------------------------------------------------------------
// Editing the pending list

/// The views of a sequence of optional problems.
pub open spec fn opt_problem_views(ps: Seq<Option<Problem>>) -> Seq<Option<ProblemView>> {
    ps.map_values(|o: Option<Problem>| match o {
        Some(p) => Some(p@),
        None => None,
    })
}

/// Whether entry `i` of `ps` is a problem with link `link`.
pub open spec fn has_link_at(ps: Seq<Option<ProblemView>>, i: int, link: Seq<char>) -> bool {
    0 <= i < ps.len() && ps[i] is Some && ps[i].unwrap().link == link
}

/// The first entry of `ps` that is a problem with link `link`.
pub open spec fn first_with_link(ps: Seq<Option<ProblemView>>, link: Seq<char>) -> Option<int> {
    if exists|i: int| has_link_at(ps, i, link) {
        Some(
            choose|i: int|
                has_link_at(ps, i, link) && forall|j: int| 0 <= j < i ==> !has_link_at(ps, j, link),
        )
    } else {
        None
    }
}

/// An edit of one line of the pending list: the line's index, the edited
/// problem, and the name to show for it.
pub struct PendingUpdate {
    pub index: usize,
    pub problem: Problem,
    pub display: String,
}

/// The name shown for an edited problem: its name, or its link when the name is empty.
pub open spec fn display_name(p: ProblemView, link: Seq<char>) -> Seq<char> {
    if p.name.len() == 0 {
        link
    } else {
        p.name
    }
}

/// The reply when the target is not in the pending list.
pub open spec fn not_found_text() -> Seq<char> {
    "Problem not found in pending list."@
}

/// Plans the edit of the problem with link `link` in the pending list, whose
/// lines parsed as `parsed` (`None` for a line that is not a problem): the
/// first line that is a problem with that link is edited.
pub fn plan_update(parsed: &Vec<Option<Problem>>, link: &str, edit: Edit) -> (r: Result<
    PendingUpdate,
    String,
>)
    ensures
        match r {
            Err(e) => e@ == not_found_text() && first_with_link(opt_problem_views(parsed@), link@) is None,
            Ok(u) => {
                &&& first_with_link(opt_problem_views(parsed@), link@) == Some(u.index as int)
                &&& u.problem@ == edited(parsed@[u.index as int].unwrap()@, edit@)
                &&& u.display@ == display_name(u.problem@, link@)
            },
        },
{
    let ghost views = opt_problem_views(parsed@);
    let mut i: usize = 0;
    while i < parsed.len()
        invariant
            i <= parsed.len(),
            views == opt_problem_views(parsed@),
            forall|j: int| 0 <= j < i ==> !has_link_at(views, j, link@),
        decreases parsed.len() - i,
    {
        if let Some(p) = &parsed[i] {
            if str_eq(p.link(), link) {
                assert(has_link_at(views, i as int, link@));
                let mut q = p.clone();
                match edit {
                    Edit::Difficulty(v) => q.set_difficulty(v),
                    Edit::Tags(v) => q.set_tags(v),
                    Edit::Editorial { text, link: l } => {
                        q.set_editorial(text);
                        q.set_editorial_link(l);
                    },
                }
                let display = if q.name().unicode_len() == 0 {
                    link.to_owned()
                } else {
                    q.name().to_owned()
                };
                proof {
                    let k = first_with_link(views, link@).unwrap();
                    assert(has_link_at(views, k, link@));
                    assert(k == i);
                }
                return Ok(PendingUpdate { index: i, problem: q, display });
            }
        }
        assert(!has_link_at(views, i as int, link@));
        i = i + 1;
    }
    Err("Problem not found in pending list.".to_owned())
}

/// The new text of the pending list: its lines with line `index` replaced by `new_line`.
pub fn rewrite_pending(lines: Vec<String>, index: usize, new_line: String) -> (r: String)
    requires
        index < lines.len(),
    ensures
        r@ == file_text(views(lines@).update(index as int, new_line@)),
{
    let mut lines = lines;
    let ghost before = views(lines@);
    let ghost nl = new_line@;
    lines.set(index, new_line);
    assert(views(lines@) =~= before.update(index as int, nl));
    file_text_of(&lines)
}

/// Editing one problem of the pending list changes that line and no other:
/// reading the rewritten text back gives the old lines with the one line
/// replaced (for lines that hold no `'\n'` and end in no `'\r'`, the new one
/// not empty).
pub proof fn lemma_rewrite_changes_one_line(ls: Seq<Seq<char>>, index: int, new_line: Seq<char>)
    requires
        0 <= index < ls.len(),
        forall|k: int| 0 <= k < ls.len() ==> is_plain_line(#[trigger] ls[k]),
        is_plain_line(new_line),
        new_line.len() > 0,
    ensures
        lines(file_text(ls.update(index, new_line))) == ls.update(index, new_line),
{
    let u = ls.update(index, new_line);
    assert forall|k: int| 0 <= k < u.len() implies is_plain_line(#[trigger] u[k]) by {
        if k != index {
            assert(u[k] == ls[k]);
        }
    }
    lemma_file_text_lines(u);
}

/// The reply after an edit: `Updated: ` and the problem's name, or the error.
pub fn update_reply(result: Result<String, String>) -> (r: String)
    ensures
        r@ == match result {
            Ok(display) => "Updated: "@ + display@,
            Err(e) => e@,
        },
{
    match result {
        Ok(display) => {
            let mut r = "Updated: ".to_owned();
            r.append(display.as_str());
            r
        },
        Err(e) => e,
    }
}


// ---------------------------------------------------------------------------
// The command menus

/// A command and its description, as shown in a chat's command menu.
pub open spec fn entry(name: &str, description: &str) -> (Seq<char>, Seq<char>) {
    (name@, description@)
}

/// The views of a list of menu entries.
pub open spec fn menu_views(v: Seq<(String, String)>) -> Seq<(Seq<char>, Seq<char>)> {
    v.map_values(|e: (String, String)| (e.0@, e.1@))
}

fn push_entry(menu: &mut Vec<(String, String)>, name: &str, description: &str)
    ensures
        menu_views(final(menu)@) == menu_views(old(menu)@).push((name@, description@)),
{
    let ghost before = menu@;
    menu.push((name.to_owned(), description.to_owned()));
    assert(menu_views(menu@) =~= menu_views(before).push((name@, description@)));
}

/// The command menu of private chats.
pub fn private_menu() -> (r: Vec<(String, String)>)
    ensures
        menu_views(r@) == seq![
            entry("set_name", "Set your display name for attribution"),
            entry("help", "Show available commands"),
        ],
{
    let mut r: Vec<(String, String)> = Vec::new();
    push_entry(&mut r, "set_name", "Set your display name for attribution");
    push_entry(&mut r, "help", "Show available commands");
    assert(menu_views(r@) =~= seq![
        entry("set_name", "Set your display name for attribution"),
        entry("help", "Show available commands"),
    ]);
    r
}

/// The command menu of group chats.
pub fn group_menu() -> (r: Vec<(String, String)>)
    ensures
        menu_views(r@) == seq![
            entry("set_name", "Set your display name for attribution"),
            entry("set_difficulty", "Set difficulty for the target problem"),
            entry("set_tags", "Set tags for the target problem"),
            entry("editorial", "Reply to attach editorial to the target problem"),
            entry("solution", "Alias for /editorial"),
            entry("focus_problem", "Reply to focus a problem for 20 minutes"),
            entry("clear_focus", "Clear the focused problem"),
            entry("load", "Push pending problems to the spreadsheet"),
            entry("leave", "Make the bot leave the chat"),
            entry("help", "Show available commands"),
        ],
{
    let mut r: Vec<(String, String)> = Vec::new();
    push_entry(&mut r, "set_name", "Set your display name for attribution");
    push_entry(&mut r, "set_difficulty", "Set difficulty for the target problem");
    push_entry(&mut r, "set_tags", "Set tags for the target problem");
    push_entry(&mut r, "editorial", "Reply to attach editorial to the target problem");
    push_entry(&mut r, "solution", "Alias for /editorial");
    push_entry(&mut r, "focus_problem", "Reply to focus a problem for 20 minutes");
    push_entry(&mut r, "clear_focus", "Clear the focused problem");
    push_entry(&mut r, "load", "Push pending problems to the spreadsheet");
    push_entry(&mut r, "leave", "Make the bot leave the chat");
    push_entry(&mut r, "help", "Show available commands");
    assert(menu_views(r@) =~= seq![
        entry("set_name", "Set your display name for attribution"),
        entry("set_difficulty", "Set difficulty for the target problem"),
        entry("set_tags", "Set tags for the target problem"),
        entry("editorial", "Reply to attach editorial to the target problem"),
        entry("solution", "Alias for /editorial"),
        entry("focus_problem", "Reply to focus a problem for 20 minutes"),
        entry("clear_focus", "Clear the focused problem"),
        entry("load", "Push pending problems to the spreadsheet"),
        entry("leave", "Make the bot leave the chat"),
        entry("help", "Show available commands"),
    ]);
    r
}

} // verus!
