//! Interpretation of what a running transfer prints: the item in progress
//! on one channel, overall progress and statistics on the other.

use vstd::prelude::*;
use crate::number::{parse_bounded, parse_unsigned};
use crate::split::{Delim, split_tokens, tokens, trim, trimmed};
use crate::text::{chars_of, push_text, rows, slice_of, starts_with, texts};

verus! {

/// The percentage that the token `t` gives: `t` is a number from 0 to 100
/// followed by `%`. A token with a larger number gives none, like one whose
/// text before the `%` is no number.
pub open spec fn percent_of_token(t: Seq<char>) -> Option<nat> {
    if t.len() > 0 && t.last() == '%' {
        parse_unsigned(t.drop_last(), 100)
    } else {
        None
    }
}

/// The percentage of the first token that gives one.
pub open spec fn first_percent(toks: Seq<Seq<char>>) -> Option<nat>
    decreases toks.len(),
{
    if toks.len() == 0 {
        None
    } else if percent_of_token(toks[0]) is Some {
        percent_of_token(toks[0])
    } else {
        first_percent(toks.skip(1))
    }
}

/// The overall progress that a diagnostics line reports: the percentage of
/// the first of its white-space separated tokens that gives one.
pub open spec fn progress_percent(line: Seq<char>) -> Option<nat> {
    first_percent(tokens(line, Delim::Whitespace))
}

/// The progress that a line reports is a position from 0 to 100.
pub proof fn lemma_percent_in_range(line: Seq<char>)
    ensures
        progress_percent(line) is Some ==> progress_percent(line)->0 <= 100,
{
    lemma_first_percent_in_range(tokens(line, Delim::Whitespace));
}

/// The percentage of the first token that gives one is at most 100.
pub proof fn lemma_first_percent_in_range(toks: Seq<Seq<char>>)
    ensures
        first_percent(toks) is Some ==> first_percent(toks)->0 <= 100,
    decreases toks.len(),
{
    if toks.len() > 0 && percent_of_token(toks[0]) is None {
        lemma_first_percent_in_range(toks.skip(1));
    }
}

/// Whether a diagnostics line belongs to the statistics of the run.
pub open spec fn is_stats_line(line: Seq<char>) -> bool {
    "sent "@.is_prefix_of(line) || "total size is "@.is_prefix_of(line)
}

/// What a line of the progress channel changes: a line that is not blank
/// becomes the item on display, a blank one changes nothing.
pub open spec fn current_item(line: Seq<char>) -> Option<Seq<char>> {
    if trim(line).len() == 0 {
        None
    } else {
        Some(line)
    }
}

fn token_percent(t: &Vec<char>) -> (r: Option<u8>)
    ensures
        match r {
            Some(v) => percent_of_token(t@) == Some(v as nat) && v <= 100,
            None => percent_of_token(t@) is None,
        },
{
    if t.len() == 0 || t[t.len() - 1] != '%' {
        return None;
    }
    let body = slice_of(t, 0, t.len() - 1);
    proof {
        assert(body@ == t@.drop_last());
    }
    match parse_bounded(&body, 100) {
        Some(v) => Some(v as u8),
        None => None,
    }
}

/// The overall progress that a diagnostics line reports, if it reports
/// any: a position from 0 to 100.
pub fn parse_progress_percent(line: &str) -> (r: Option<u8>)
    ensures
        match r {
            Some(v) => progress_percent(line@) == Some(v as nat) && v <= 100,
            None => progress_percent(line@) is None,
        },
{
    let s = chars_of(line);
    let toks = split_tokens(&s, Delim::Whitespace);
    let ghost all = rows(toks@);
    let mut i: usize = 0;
    proof {
        assert(all.skip(0) == all);
    }
    while i < toks.len()
        invariant
            i <= toks.len(),
            all == rows(toks@),
            all == tokens(line@, Delim::Whitespace),
            first_percent(all) == first_percent(all.skip(i as int)),
        decreases toks.len() - i,
    {
        proof {
            assert(all.skip(i as int)[0] == toks@[i as int]@);
            assert(all.skip(i as int).skip(1) == all.skip(i + 1));
        }
        match token_percent(&toks[i]) {
            Some(v) => {
                return Some(v);
            },
            None => {},
        }
        i += 1;
    }
    None
}

/// What a line of the progress channel puts on display, if anything.
pub fn progress_message(line: &str) -> (r: Option<String>)
    ensures
        match r {
            Some(m) => current_item(line@) == Some(m@),
            None => current_item(line@) is None,
        },
{
    let s = chars_of(line);
    if trimmed(&s).len() == 0 {
        None
    } else {
        Some(line.to_owned())
    }
}

/// Whether a diagnostics line belongs to the statistics of the run.
pub fn stats_line(line: &str) -> (r: bool)
    ensures
        r == is_stats_line(line@),
{
    let s = chars_of(line);
    starts_with(&s, &chars_of("sent ")) || starts_with(&s, &chars_of("total size is "))
}

/// Takes one line of the diagnostics channel in: a statistics line is
/// added to `stats` as it stands, and the overall progress that the line
/// reports is returned.
pub fn interpret_diagnostic(line: &str, stats: &mut Vec<String>) -> (r: Option<u8>)
    ensures
        texts(final(stats)@) == if is_stats_line(line@) {
            texts(old(stats)@).push(line@)
        } else {
            texts(old(stats)@)
        },
        match r {
            Some(v) => progress_percent(line@) == Some(v as nat) && v <= 100,
            None => progress_percent(line@) is None,
        },
{
    let percent = parse_progress_percent(line);
    if stats_line(line) {
        push_text(stats, line);
    }
    percent
}

} // verus!
