//! Work-done progress reports around long-running requests.
//!
//! Running a task with progress reporting is a sequence the server drives:
//! when reporting is enabled, it takes a fresh token, creates the progress
//! with it, sends a begin report, runs the task and sends an end report.
//! This module decides the token and the reports; the server sends them.

use vstd::prelude::*;
use crate::text::{decimal_spec, lemma_decimal_injective, u64_to_decimal};

verus! {

/// Whether progress is reported, and the counter from which tokens are made.
pub struct ProgressReporter {
    enabled: bool,
    token_counter: u64,
}

/// The begin report of a progress: its token, title, message and whether
/// it can be cancelled.
pub struct ProgressBegin {
    pub token: String,
    pub title: String,
    pub cancellable: bool,
    pub message: Option<String>,
}

/// The token made from counter value `n`: `mcshader-` and `n` in decimal.
pub open spec fn token_spec(n: u64) -> Seq<char> {
    "mcshader-"@ + decimal_spec(n as nat)
}

impl ProgressReporter {
    /// Whether progress is reported.
    pub closed spec fn enabled_spec(&self) -> bool {
        self.enabled
    }

    /// The counter from which the next token is made.
    pub closed spec fn counter_spec(&self) -> u64 {
        self.token_counter
    }

    /// A reporter that does not report, with its counter at zero.
    pub fn new() -> (r: ProgressReporter)
        ensures
            !r.enabled_spec(),
            r.counter_spec() == 0,
    {
        ProgressReporter { enabled: false, token_counter: 0 }
    }

    /// Turns reporting on or off.
    pub fn set_enabled(&mut self, enabled: bool)
        ensures
            final(self).enabled_spec() == enabled,
            final(self).counter_spec() == old(self).counter_spec(),
    {
        self.enabled = enabled;
    }

    /// Whether progress is reported.
    pub fn is_enabled(&self) -> (r: bool)
        ensures
            r == self.enabled_spec(),
    {
        self.enabled
    }

    /// Starts a progress run: when reporting is off, `None` and nothing
    /// changes; when it is on, the begin report with the token made from
    /// the counter, which then moves on by one (wrapping).
    pub fn begin(&mut self, title: &str, message: Option<String>) -> (r: Option<ProgressBegin>)
        ensures
            final(self).enabled_spec() == old(self).enabled_spec(),
            !old(self).enabled_spec() ==> r is None && final(self).counter_spec() == old(
                self,
            ).counter_spec(),
            old(self).enabled_spec() ==> (r matches Some(b) && b.token@ == token_spec(
                old(self).counter_spec(),
            ) && b.title@ == title@ && !b.cancellable && b.message == message
                && final(self).counter_spec() == old(self).counter_spec().wrapping_add(1)),
    {
        if !self.enabled {
            return None;
        }
        let n = self.token_counter;
        self.token_counter = n.wrapping_add(1);
        let mut token = String::new();
        token.append("mcshader-");
        let digits = u64_to_decimal(n);
        token.append(digits.as_str());
        assert(token@ =~= token_spec(n));
        Some(ProgressBegin { token, title: title.to_owned(), cancellable: false, message })
    }
}

/// Tokens made from different counter values differ, so two runs of a
/// reporter, which take consecutive counter values, never share a token.
pub proof fn lemma_tokens_distinct(a: u64, b: u64)
    requires
        a != b,
    ensures
        token_spec(a) != token_spec(b),
{
    if token_spec(a) == token_spec(b) {
        let p = "mcshader-"@;
        assert(token_spec(a).subrange(p.len() as int, token_spec(a).len() as int) =~= decimal_spec(
            a as nat,
        ));
        assert(token_spec(b).subrange(p.len() as int, token_spec(b).len() as int) =~= decimal_spec(
            b as nat,
        ));
        lemma_decimal_injective(a as nat, b as nat);
    }
}

/// Two runs in a row, with reporting on, get different tokens: the counter
/// moves on between them, wrapping at the end of its range.
pub proof fn lemma_consecutive_tokens_differ(counter: u64)
    ensures
        token_spec(counter) != token_spec(counter.wrapping_add(1)),
{
    assert(counter.wrapping_add(1) != counter) by {
        if counter == u64::MAX {
            assert(counter.wrapping_add(1) == 0);
        } else {
            assert(counter.wrapping_add(1) == counter + 1);
        }
    }
    lemma_tokens_distinct(counter, counter.wrapping_add(1));
}

/// The message of the end report of a progress.
pub fn end_message() -> (r: String)
    ensures
        r@ == "Done"@,
{
    "Done".to_owned()
}

} // verus!
