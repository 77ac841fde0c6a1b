//! What a dry run shows: the tree of pending changes and the size that a
//! transfer would move.

use vstd::prelude::*;
use crate::split::{lines, split_lines, trim, trimmed};
use crate::text::{chars_of, rows, starts_with, string_of};
use crate::tree::{render_text, render_tree};

verus! {

/// The preview of a transfer.
pub struct DryRunSummary {
    /// The drawing of the tree of pending changes.
    pub tree: String,
    /// The line that tells the size to transfer, where the run printed one.
    pub transferred_line: Option<String>,
}

/// The first of `ls` that starts with `p`.
pub open spec fn first_with_prefix(ls: Seq<Seq<char>>, p: Seq<char>) -> Option<Seq<char>>
    decreases ls.len(),
{
    if ls.len() == 0 {
        None
    } else if p.is_prefix_of(ls[0]) {
        Some(ls[0])
    } else {
        first_with_prefix(ls.skip(1), p)
    }
}

/// The line of the diagnostics `stderr` that tells the size to transfer:
/// the first that starts with `Total transferred file size:`, trimmed.
pub open spec fn transferred_line(stderr: Seq<char>) -> Option<Seq<char>> {
    match first_with_prefix(lines(stderr), "Total transferred file size:"@) {
        Some(l) => Some(trim(l)),
        None => None,
    }
}

/// The view of an optional string.
pub open spec fn text_of(o: Option<String>) -> Option<Seq<char>> {
    match o {
        Some(s) => Some(s@),
        None => None,
    }
}

/// Reads the preview out of what a finished dry run printed: `stdout`
/// holds the itemized changes, `stderr` the statistics.
pub fn dry_run_summary(stdout: &str, stderr: &str) -> (summary: DryRunSummary)
    ensures
        summary.tree@ == render_text(stdout@),
        text_of(summary.transferred_line) == transferred_line(stderr@),
{
    let tree = render_tree(stdout);
    let ls = split_lines(&chars_of(stderr));
    let p = chars_of("Total transferred file size:");
    let ghost all = rows(ls@);
    let mut found: Option<String> = None;
    let mut i: usize = 0;
    proof {
        assert(all.skip(0) == all);
    }
    while i < ls.len()
        invariant_except_break
            found is None,
            first_with_prefix(all, p@) == first_with_prefix(all.skip(i as int), p@),
        invariant
            i <= ls.len(),
            all == rows(ls@),
            all == lines(stderr@),
            p@ == "Total transferred file size:"@,
        ensures
            text_of(found) == transferred_line(stderr@),
        decreases ls.len() - i,
    {
        proof {
            assert(all.skip(i as int)[0] == ls@[i as int]@);
            assert(all.skip(i as int).skip(1) == all.skip(i + 1));
        }
        if starts_with(&ls[i], &p) {
            found = Some(string_of(&trimmed(&ls[i])));
            break ;
        }
        i += 1;
    }
    DryRunSummary { tree, transferred_line: found }
}

} // verus!
