//! Classic memory accounting: parses the kernel's memory counter text
//! (`MemTotal:`/`MemAvailable:`/`MemFree:` lines, values in KiB) into a
//! per-tick snapshot with a fixed-point available percentage.

use vstd::prelude::*;
use crate::text::{
    digits_val, is_u64_string, parse_u64, split_char, starts_with, str_split, str_starts_with,
    str_tokens, tokens_of, views_of,
};

verus! {

/// The value a counter line carries: its second whitespace-separated
/// token parsed as a decimal, 0 when missing or unparseable.
pub open spec fn line_value(line: Seq<char>) -> u64 {
    let toks = tokens_of(line);
    if toks.len() >= 2 && is_u64_string(toks[1]) {
        digits_val(toks[1]) as u64
    } else {
        0
    }
}

/// The value of the last line that starts with `tag`; 0 when no line does.
pub open spec fn last_field(lines: Seq<Seq<char>>, tag: Seq<char>) -> u64
    decreases lines.len(),
{
    if lines.len() == 0 {
        0
    } else if starts_with(lines.last(), tag) {
        line_value(lines.last())
    } else {
        last_field(lines.drop_last(), tag)
    }
}

/// A snapshot of memory accounting. `mem_total` and `mem_available` are in
/// KiB; `avail_centipct` is `mem_available / mem_total` in hundredths of a
/// percent (10% = 1000). `total_kb` repeats the total for callers that
/// want the raw counter.
#[derive(Debug, Clone, Copy, PartialEq, Eq, Structural)]
pub struct MemSample {
    pub mem_total: u64,
    pub mem_available: u64,
    pub avail_centipct: u64,
    pub total_kb: u64,
}

/// The available percentage in hundredths of a percent, saturating at
/// `u64::MAX`; zero total yields zero.
pub open spec fn spec_pct(avail: int, total: int) -> int {
    if total > 0 {
        let p = avail * 10000 / total;
        if p > u64::MAX {
            u64::MAX as int
        } else {
            p
        }
    } else {
        0
    }
}

/// The available figure after the fallback: the `MemAvailable` counter, or
/// `MemFree` when the former is missing or zero.
pub open spec fn spec_avail(available: int, free: int) -> int {
    if available > 0 {
        available
    } else {
        free
    }
}

/// The three counter tags are pairwise distinct prefixes: no line can
/// start with two of them.
proof fn lemma_tags_disjoint(line: Seq<char>)
    ensures
        starts_with(line, "MemTotal:"@) ==> !starts_with(line, "MemAvailable:"@),
        starts_with(line, "MemTotal:"@) ==> !starts_with(line, "MemFree:"@),
        starts_with(line, "MemAvailable:"@) ==> !starts_with(line, "MemFree:"@),
{
    reveal_strlit("MemTotal:");
    reveal_strlit("MemAvailable:");
    reveal_strlit("MemFree:");
    if starts_with(line, "MemTotal:"@) && starts_with(line, "MemAvailable:"@) {
        assert(line.take(9)[3] == line[3]);
        assert(line.take(13)[3] == line[3]);
        assert(false);
    }
    if starts_with(line, "MemTotal:"@) && starts_with(line, "MemFree:"@) {
        assert(line.take(9)[3] == line[3]);
        assert(line.take(8)[3] == line[3]);
        assert(false);
    }
    if starts_with(line, "MemAvailable:"@) && starts_with(line, "MemFree:"@) {
        assert(line.take(13)[3] == line[3]);
        assert(line.take(8)[3] == line[3]);
        assert(false);
    }
}

/// Parse the kernel's memory counter text. Each counter takes the value of
/// the last line that starts with its tag (second whitespace-separated
/// token, 0 when missing or unparseable); a missing or zero `MemAvailable`
/// falls back to `MemFree`.
pub fn parse_meminfo(content: &str) -> (r: MemSample)
    ensures
        r.mem_total == last_field(split_char(content@, '\n'), "MemTotal:"@),
        r.mem_available == spec_avail(
            last_field(split_char(content@, '\n'), "MemAvailable:"@) as int,
            last_field(split_char(content@, '\n'), "MemFree:"@) as int,
        ),
        r.total_kb == r.mem_total,
        r.avail_centipct == spec_pct(r.mem_available as int, r.mem_total as int),
{
    let lines = str_split(content, '\n');
    let ghost lviews = views_of(lines@);
    let mut mem_total: u64 = 0;
    let mut mem_available: u64 = 0;
    let mut mem_free: u64 = 0;
    let mut i: usize = 0;
    proof {
        assert(lviews.take(0) =~= Seq::<Seq<char>>::empty());
    }
    while i < lines.len()
        invariant
            0 <= i <= lines@.len(),
            lviews == views_of(lines@),
            lviews.len() == lines@.len(),
            mem_total == last_field(lviews.take(i as int), "MemTotal:"@),
            mem_available == last_field(lviews.take(i as int), "MemAvailable:"@),
            mem_free == last_field(lviews.take(i as int), "MemFree:"@),
        decreases lines@.len() - i,
    {
        let line: &String = &lines[i];
        proof {
            lemma_tags_disjoint(lines@[i as int]@);
            assert(lviews[i as int] == lines@[i as int]@);
            assert(lviews.take(i + 1).last() == lviews[i as int]);
            assert(lviews.take(i + 1).drop_last() =~= lviews.take(i as int));
        }
        if str_starts_with(line.as_str(), "MemTotal:") {
            mem_total = token_value(line.as_str());
        } else if str_starts_with(line.as_str(), "MemAvailable:") {
            mem_available = token_value(line.as_str());
        } else if str_starts_with(line.as_str(), "MemFree:") {
            mem_free = token_value(line.as_str());
        }
        i += 1;
    }
    proof {
        assert(lviews.take(lviews.len() as int) =~= lviews);
    }
    let avail = if mem_available > 0 {
        mem_available
    } else {
        mem_free
    };
    let pct = percentage_centi(avail, mem_total);
    MemSample { mem_total, mem_available: avail, avail_centipct: pct, total_kb: mem_total }
}

/// The value a counter line carries: its second whitespace-separated
/// token, parsed as a decimal; 0 when missing or unparseable.
pub fn token_value(line: &str) -> (r: u64)
    ensures
        r == line_value(line@),
{
    let toks = str_tokens(line);
    if toks.len() >= 2 {
        proof {
            assert(views_of(toks@)[1] == toks@[1]@);
        }
        match parse_u64(toks[1].as_str()) {
            Some(v) => v,
            None => 0,
        }
    } else {
        0
    }
}

/// Fixed-point share: `avail` of `total` in hundredths of a percent,
/// saturating; zero total yields zero.
pub fn percentage_centi(avail: u64, total: u64) -> (r: u64)
    ensures
        r == spec_pct(avail as int, total as int),
{
    if total == 0 {
        return 0;
    }
    let wide: u128 = (avail as u128) * 10000 / (total as u128);
    if wide > u64::MAX as u128 {
        u64::MAX
    } else {
        wide as u64
    }
}

} // verus!
