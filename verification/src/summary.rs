//! The summary of a finished transfer, read from the statistics lines that
//! the transfer printed.

use vstd::prelude::*;
use crate::number::{parse_bounded, parse_unsigned};
use crate::size::{format_size, size_text};
use crate::split::{trim, trimmed};
use crate::text::{
    chars_of, find, find_first, push_str, push_text, slice_of, starts_with, string_of, texts,
};

verus! {

/// What the statistics lines of a run told: the bytes sent and the total
/// size, each absent where no line gave it.
#[derive(Clone, Copy, Debug)]
pub struct RunStats {
    pub sent: Option<u64>,
    pub total: Option<u64>,
}

impl RunStats {
    /// The two numbers as mathematical values.
    pub open spec fn view(&self) -> (Option<nat>, Option<nat>) {
        (as_nat(self.sent), as_nat(self.total))
    }
}

/// An optional machine number as an optional natural number.
pub open spec fn as_nat(o: Option<u64>) -> Option<nat> {
    match o {
        Some(v) => Some(v as nat),
        None => None,
    }
}

/// `s` without every occurrence of `c`.
pub open spec fn without_char(s: Seq<char>, c: char) -> Seq<char>
    decreases s.len(),
{
    if s.len() == 0 {
        Seq::empty()
    } else if s.last() == c {
        without_char(s.drop_last(), c)
    } else {
        without_char(s.drop_last(), c).push(s.last())
    }
}

/// The byte count that `s` writes: a decimal number of at most 64 bits in
/// which commas may group the digits.
pub open spec fn byte_count(s: Seq<char>) -> Option<nat> {
    parse_unsigned(without_char(s, ','), u64::MAX as nat)
}

/// The text of the number in a trimmed line `sent <N> bytes ...`: what
/// stands between `sent ` and the first ` bytes`.
pub open spec fn sent_number(l: Seq<char>) -> Option<Seq<char>> {
    if "sent "@.is_prefix_of(l) {
        let rest = l.skip("sent "@.len() as int);
        match find(rest, " bytes"@) {
            Some(end) => Some(rest.take(end)),
            None => None,
        }
    } else {
        None
    }
}

/// The text of the number in a trimmed line `total size is <N>  ...`: what
/// follows `total size is `, up to the first two spaces in a row where there
/// are any.
pub open spec fn total_number(l: Seq<char>) -> Option<Seq<char>> {
    if "total size is "@.is_prefix_of(l) {
        let rest = l.skip("total size is "@.len() as int);
        match find(rest, "  "@) {
            Some(end) => Some(rest.take(end)),
            None => Some(rest),
        }
    } else {
        None
    }
}

/// The text of the bytes sent that a statistics line carries, if it carries any.
pub open spec fn sent_field(line: Seq<char>) -> Option<Seq<char>> {
    sent_number(trim(line))
}

/// The text of the total size that a statistics line carries, if it carries any.
pub open spec fn total_field(line: Seq<char>) -> Option<Seq<char>> {
    total_number(trim(line))
}

/// The bytes sent and the total size that the statistics lines give. Each
/// line that carries a field sets it to what its number reads as, or to
/// nothing where it does not read as a number; the last such line decides.
pub open spec fn stats_of(lines: Seq<Seq<char>>) -> (Option<nat>, Option<nat>)
    decreases lines.len(),
{
    if lines.len() == 0 {
        (None, None)
    } else {
        let before = stats_of(lines.drop_last());
        let line = lines.last();
        (
            match sent_field(line) {
                Some(f) => byte_count(f),
                None => before.0,
            },
            match total_field(line) {
                Some(f) => byte_count(f),
                None => before.1,
            },
        )
    }
}

/// The lines of the summary: a heading, the bytes sent and the total size
/// where they are known, and the duration.
pub open spec fn summary_text(stats: (Option<nat>, Option<nat>), duration: Seq<char>) -> Seq<
    Seq<char>,
> {
    seq!["Summary:"@] + (match stats.0 {
        Some(b) => seq!["  sent: "@ + size_text(b)],
        None => Seq::empty(),
    }) + (match stats.1 {
        Some(b) => seq!["  total size: "@ + size_text(b)],
        None => Seq::empty(),
    }) + seq!["  duration: "@ + duration]
}

fn parse_bytes_chars(s: &Vec<char>) -> (r: Option<u64>)
    ensures
        as_nat(r) == byte_count(s@),
{
    let mut digits: Vec<char> = Vec::new();
    let mut i: usize = 0;
    while i < s.len()
        invariant
            i <= s.len(),
            digits@ == without_char(s@.take(i as int), ','),
        decreases s.len() - i,
    {
        proof {
            assert(s@.take(i + 1).drop_last() == s@.take(i as int));
        }
        if s[i] != ',' {
            digits.push(s[i]);
        }
        i += 1;
    }
    proof {
        assert(s@.take(s.len() as int) == s@);
    }
    parse_bounded(&digits, u64::MAX)
}

/// Reads a byte count in which commas may group the digits.
pub fn parse_bytes(s: &str) -> (r: Option<u64>)
    ensures
        as_nat(r) == byte_count(s@),
{
    parse_bytes_chars(&chars_of(s))
}

fn sent_field_of(l: &Vec<char>) -> (r: Option<Vec<char>>)
    ensures
        match r {
            Some(f) => sent_number(l@) == Some(f@),
            None => sent_number(l@) is None,
        },
{
    let p = chars_of("sent ");
    if !starts_with(l, &p) {
        return None;
    }
    let rest = slice_of(l, p.len(), l.len());
    proof {
        assert(rest@ == l@.skip(p@.len() as int));
    }
    match find_first(&rest, &chars_of(" bytes")) {
        Some(end) => {
            let f = slice_of(&rest, 0, end);
            proof {
                assert(f@ == rest@.take(end as int));
            }
            Some(f)
        },
        None => None,
    }
}

fn total_field_of(l: &Vec<char>) -> (r: Option<Vec<char>>)
    ensures
        match r {
            Some(f) => total_number(l@) == Some(f@),
            None => total_number(l@) is None,
        },
{
    let p = chars_of("total size is ");
    if !starts_with(l, &p) {
        return None;
    }
    let rest = slice_of(l, p.len(), l.len());
    proof {
        assert(rest@ == l@.skip(p@.len() as int));
    }
    match find_first(&rest, &chars_of("  ")) {
        Some(end) => {
            let f = slice_of(&rest, 0, end);
            proof {
                assert(f@ == rest@.take(end as int));
            }
            Some(f)
        },
        None => Some(rest),
    }
}

/// Reads the bytes sent and the total size from the statistics lines of a run.
pub fn summarize(stats: &Vec<String>) -> (r: RunStats)
    ensures
        r@ == stats_of(texts(stats@)),
{
    let mut sent: Option<u64> = None;
    let mut total: Option<u64> = None;
    let mut i: usize = 0;
    while i < stats.len()
        invariant
            i <= stats.len(),
            (as_nat(sent), as_nat(total)) == stats_of(texts(stats@).take(i as int)),
        decreases stats.len() - i,
    {
        proof {
            assert(texts(stats@).take(i + 1).drop_last() == texts(stats@).take(i as int));
            assert(texts(stats@).take(i + 1).last() == stats@[i as int]@);
        }
        let l = trimmed(&chars_of(stats[i].as_str()));
        match sent_field_of(&l) {
            Some(f) => {
                sent = parse_bytes_chars(&f);
            },
            None => {},
        }
        match total_field_of(&l) {
            Some(f) => {
                total = parse_bytes_chars(&f);
            },
            None => {},
        }
        i += 1;
    }
    proof {
        assert(texts(stats@).take(stats.len() as int) == texts(stats@));
    }
    RunStats { sent, total }
}

/// The lines of the summary of a run that took `duration`.
pub fn summary_lines(stats: &RunStats, duration: &str) -> (list: Vec<String>)
    ensures
        texts(list@) == summary_text(stats@, duration@),
{
    let mut list: Vec<String> = Vec::new();
    proof {
        assert(texts(list@) =~= Seq::<Seq<char>>::empty());
    }
    push_text(&mut list, "Summary:");
    match stats.sent {
        Some(b) => {
            let mut line = chars_of("  sent: ");
            push_str(&mut line, format_size(b).as_str());
            push_text(&mut list, string_of(&line).as_str());
        },
        None => {},
    }
    let ghost upto_sent = texts(list@);
    match stats.total {
        Some(b) => {
            let mut line = chars_of("  total size: ");
            push_str(&mut line, format_size(b).as_str());
            push_text(&mut list, string_of(&line).as_str());
        },
        None => {},
    }
    let ghost upto_total = texts(list@);
    let mut line = chars_of("  duration: ");
    push_str(&mut line, duration);
    push_text(&mut list, string_of(&line).as_str());
    proof {
        assert(upto_sent =~= seq!["Summary:"@] + (match stats@.0 {
            Some(b) => seq!["  sent: "@ + size_text(b)],
            None => Seq::empty(),
        }));
        assert(upto_total =~= upto_sent + (match stats@.1 {
            Some(b) => seq!["  total size: "@ + size_text(b)],
            None => Seq::empty(),
        }));
        assert(texts(list@) =~= upto_total + seq!["  duration: "@ + duration@]);
    }
    list
}

} // verus!
