//! Appending rows to the Google Sheet: the request address and the
//! retries when the Sheets API limits the rate.

use vstd::prelude::*;
use crate::numbers::{parse_u64, u64_of};

verus! {

broadcast use vstd::string::group_string_axioms;

/// How many requests an append makes at most.
pub const MAX_RETRIES: u32 = 5;

/// The HTTP status with which the Sheets API limits the rate.
pub const TOO_MANY_REQUESTS: u16 = 429;

/// The address to which a row of sheet `sheet` of spreadsheet `spreadsheet_id` is appended.
pub open spec fn append_url_of(spreadsheet_id: Seq<char>, sheet: Seq<char>) -> Seq<char> {
    "https://sheets.googleapis.com/v4/spreadsheets/"@ + spreadsheet_id + "/values/"@ + sheet
        + "!A1:append?valueInputOption=USER_ENTERED"@
}

/// The address to which a row is appended (see `append_url_of`).
pub fn append_url(spreadsheet_id: &str, sheet: &str) -> (r: String)
    ensures
        r@ == append_url_of(spreadsheet_id@, sheet@),
{
    let mut r = "https://sheets.googleapis.com/v4/spreadsheets/".to_owned();
    r.append(spreadsheet_id);
    r.append("/values/");
    r.append(sheet);
    r.append("!A1:append?valueInputOption=USER_ENTERED");
    r
}

/// The error when the rate limit outlasts every retry.
pub fn rate_limit_error() -> (r: String)
    ensures
        r@ == "Sheets API rate limit exceeded after retries"@,
{
    "Sheets API rate limit exceeded after retries".to_owned()
}

/// `2` to the power `n`.
pub open spec fn pow2(n: nat) -> nat
    decreases n,
{
    if n == 0 {
        1
    } else {
        2 * pow2((n - 1) as nat)
    }
}

/// What to do after a response to an append.
pub enum Outcome {
    /// The row was appended.
    Appended,
    /// The request failed with an error status.
    Failed,
    /// The rate was limited: wait this many seconds before the next request.
    Wait(u64),
}

/// The retries of one append: how many requests were rate-limited so far,
/// and how long to wait after the next limited one when the API says nothing.
pub struct Retries {
    attempt: u32,
    delay_secs: u64,
}

impl Retries {
    /// The number of rate-limited requests so far.
    pub closed spec fn attempts(&self) -> nat {
        self.attempt as nat
    }

    /// The wait, in seconds, after the next rate-limited request when the
    /// response does not say how long to wait.
    pub closed spec fn default_delay(&self) -> nat {
        self.delay_secs as nat
    }

    /// The delay doubles with every limited request, from one second, and no
    /// more than `MAX_RETRIES` requests are made.
    pub open spec fn wf(&self) -> bool {
        &&& self.attempts() <= MAX_RETRIES
        &&& self.default_delay() == pow2(self.attempts())
    }

    /// The retries of an append before its first request.
    pub fn new() -> (r: Retries)
        ensures
            r.wf(),
            r.attempts() == 0,
            r.default_delay() == 1,
    {
        Retries { attempt: 0, delay_secs: 1 }
    }

    /// Whether another request may be made.
    pub fn can_send(&self) -> (r: bool)
        ensures
            r == (self.attempts() < MAX_RETRIES),
    {
        self.attempt < MAX_RETRIES
    }

    /// The number of rate-limited requests so far.
    pub fn attempt(&self) -> (r: u32)
        ensures
            r == self.attempts(),
    {
        self.attempt
    }

    /// Decides on a response with HTTP status `status` and, when present and
    /// readable, the text of its `Retry-After` header. A 429 is rate
    /// limiting: wait as long as the header says in whole seconds, else the
    /// default delay, which then doubles. Any other 4xx or 5xx status is a
    /// failure; every other status, success.
    pub fn on_response(&mut self, status: u16, retry_after: Option<&str>) -> (r: Outcome)
        requires
            old(self).wf(),
            old(self).attempts() < MAX_RETRIES,
        ensures
            final(self).wf(),
            status == TOO_MANY_REQUESTS ==> {
                &&& r == Outcome::Wait(
                    match retry_after {
                        Some(t) => match u64_of(t@) {
                            Some(n) => n,
                            None => old(self).default_delay() as u64,
                        },
                        None => old(self).default_delay() as u64,
                    },
                )
                &&& final(self).attempts() == old(self).attempts() + 1
                &&& final(self).default_delay() == 2 * old(self).default_delay()
            },
            status != TOO_MANY_REQUESTS ==> {
                &&& r == (if 400 <= status < 600 {
                    Outcome::Failed
                } else {
                    Outcome::Appended
                })
                &&& *final(self) == *old(self)
            },
    {
        if status == TOO_MANY_REQUESTS {
            let wait = match retry_after {
                Some(t) => match parse_u64(t) {
                    Some(n) => n,
                    None => self.delay_secs,
                },
                None => self.delay_secs,
            };
            proof {
                reveal_with_fuel(pow2, 6);
                assert(pow2(4) == 16);
                lemma_pow2_mono(self.attempt as nat, 4);
            }
            self.delay_secs = self.delay_secs * 2;
            self.attempt = self.attempt + 1;
            Outcome::Wait(wait)
        } else if 400 <= status && status < 600 {
            Outcome::Failed
        } else {
            Outcome::Appended
        }
    }
}

proof fn lemma_pow2_mono(a: nat, b: nat)
    requires
        a <= b,
    ensures
        pow2(a) <= pow2(b),
    decreases b,
{
    if a < b {
        lemma_pow2_mono(a, (b - 1) as nat);
    }
}

} // verus!
