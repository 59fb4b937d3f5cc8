# problem_manager_bot

A Telegram bot that collects competitive programming problems posted in group
chats (messages tagged with a configured hashtag such as `#problem`), keeps them
in a pending JSONL list, lets group members attach difficulty, tags and
editorials, and pushes the list into a Google Sheet.

## Layout

- `src/` — the verified library (Verus). Every decision of the bot lives here,
  with contracts over mathematical models:
  - `text` — whitespace, trimming, prefixes, search, and the pending list's
    line format (`lines`, `file_text`), with the law that writing lines and
    reading them back gives the same lines;
  - `numbers` — decimal text of counts and `u64` parsing;
  - `problem` — the problem record, parsing a submission into name and
    legend, and its sheet row;
  - `authors`, `focus` — display names and the twenty-minute focus, with
    their laws;
  - `commands` — command recognition and each command's decision, including
    the choice of the target problem (reply, then focus, then last problem)
    and the edit of one line of the pending list;
  - `chat`, `personal` — which messages carry the hashtag (entity offsets in
    UTF-16 units) and the submission they make;
  - `scanner` — reading a Telegram Desktop export: its HTML pages (parsed
    with `scraper` behind a trusted wrapper), links, file order (a stable
    sort), message text, dates, and the scan's state machine, with the law
    that a scan run writes no link twice;
  - `loader`, `sheets` — the tally of a load (what one load keeps is what
    the next tries) and the retry policy of the Sheets API.
- `app/` — the program: command line, Telegram, files, JSON of problems
  and HTTP, calling the library for every decision.
- `tests/` — tests of the library on concrete values.
