//! Pressure Stall Information: parses the kernel's memory-pressure text
//! (two lines, `some` and `full`, each with `avg10`/`avg60`/`avg300`
//! percentages and a `total` stall count) into a snapshot. Percentages are
//! kept in hundredths of a percent.

use vstd::prelude::*;
use crate::text::{
    centi_of, digits_val, eq_split, is_u64_string, parse_centi, parse_u64, split_char,
    starts_with, str_eq, str_eq_split, str_split, str_starts_with, str_tokens, tokens_acc,
    tokens_of, views_of,
};

verus! {

/// A pressure-stall snapshot. The `avg` fields are stall percentages in
/// hundredths of a percent (`0.50%` is stored as 50); the `total` fields
/// are cumulative stall time in microseconds.
#[derive(Debug, Clone, Copy, PartialEq, Eq, Structural)]
pub struct PSIMetrics {
    pub some_avg10: u64,
    pub some_avg60: u64,
    pub some_avg300: u64,
    pub some_total: u64,
    pub full_avg10: u64,
    pub full_avg60: u64,
    pub full_avg300: u64,
    pub full_total: u64,
}

/// The all-zero snapshot every parse starts from.
pub open spec fn psi_zero() -> PSIMetrics {
    PSIMetrics {
        some_avg10: 0,
        some_avg60: 0,
        some_avg300: 0,
        some_total: 0,
        full_avg10: 0,
        full_avg60: 0,
        full_avg300: 0,
        full_total: 0,
    }
}

impl Default for PSIMetrics {
    /// The all-zero snapshot.
    fn default() -> (r: PSIMetrics)
        ensures
            r == psi_zero(),
    {
        PSIMetrics {
            some_avg10: 0,
            some_avg60: 0,
            some_avg300: 0,
            some_total: 0,
            full_avg10: 0,
            full_avg60: 0,
            full_avg300: 0,
            full_total: 0,
        }
    }
}

/// The pressure-stall text could not be parsed: a recognized key carried
/// a malformed or out-of-range value.
#[derive(Debug, Clone, Copy, PartialEq, Eq, Structural)]
pub struct PsiParseError;

/// One `key=value` pair applied to the snapshot: the four recognized keys
/// set their field in the given lane (`avg` values as hundredths of a
/// percent), unknown keys change nothing, and a malformed value for a
/// recognized key is an error.
pub open spec fn apply_pair(
    m: PSIMetrics,
    some_lane: bool,
    key: Seq<char>,
    value: Seq<char>,
) -> Option<PSIMetrics> {
    if key == "avg10"@ {
        match centi_of(value) {
            Some(v) => Some(
                if some_lane {
                    PSIMetrics { some_avg10: v as u64, ..m }
                } else {
                    PSIMetrics { full_avg10: v as u64, ..m }
                },
            ),
            None => None,
        }
    } else if key == "avg60"@ {
        match centi_of(value) {
            Some(v) => Some(
                if some_lane {
                    PSIMetrics { some_avg60: v as u64, ..m }
                } else {
                    PSIMetrics { full_avg60: v as u64, ..m }
                },
            ),
            None => None,
        }
    } else if key == "avg300"@ {
        match centi_of(value) {
            Some(v) => Some(
                if some_lane {
                    PSIMetrics { some_avg300: v as u64, ..m }
                } else {
                    PSIMetrics { full_avg300: v as u64, ..m }
                },
            ),
            None => None,
        }
    } else if key == "total"@ {
        if is_u64_string(value) {
            Some(
                if some_lane {
                    PSIMetrics { some_total: digits_val(value) as u64, ..m }
                } else {
                    PSIMetrics { full_total: digits_val(value) as u64, ..m }
                },
            )
        } else {
            None
        }
    } else {
        Some(m)
    }
}

/// A run of tokens applied left to right; a token without `=` changes
/// nothing.
pub open spec fn apply_tokens(
    m: PSIMetrics,
    some_lane: bool,
    toks: Seq<Seq<char>>,
) -> Option<PSIMetrics>
    decreases toks.len(),
{
    if toks.len() == 0 {
        Some(m)
    } else {
        let step = match eq_split(toks[0]) {
            Some(kv) => apply_pair(m, some_lane, kv.0, kv.1),
            None => Some(m),
        };
        match step {
            Some(m1) => apply_tokens(m1, some_lane, toks.skip(1)),
            None => None,
        }
    }
}

/// One line applied to the snapshot: a `some `/`full ` line feeds its
/// pairs (all tokens after the lane word) into that lane; other lines
/// change nothing.
pub open spec fn apply_line(m: PSIMetrics, line: Seq<char>) -> Option<PSIMetrics> {
    if starts_with(line, "some "@) {
        apply_tokens(m, true, tokens_of(line).skip(1))
    } else if starts_with(line, "full "@) {
        apply_tokens(m, false, tokens_of(line).skip(1))
    } else {
        Some(m)
    }
}

/// All lines applied in order.
pub open spec fn apply_lines(m: PSIMetrics, lines: Seq<Seq<char>>) -> Option<PSIMetrics>
    decreases lines.len(),
{
    if lines.len() == 0 {
        Some(m)
    } else {
        match apply_line(m, lines[0]) {
            Some(m1) => apply_lines(m1, lines.skip(1)),
            None => None,
        }
    }
}

/// What parsing the pressure-stall text yields: the zero snapshot with
/// every recognized pair applied, line by line, or nothing on the first
/// malformed value under a recognized key.
pub open spec fn psi_of(content: Seq<char>) -> Option<PSIMetrics> {
    apply_lines(psi_zero(), split_char(content, '\n'))
}

/// A non-empty token run starts a line that begins with a non-space
/// character.
proof fn lemma_first_token_exists(s: Seq<char>, cur: Seq<char>)
    requires
        cur.len() > 0 || (s.len() > 0 && !crate::text::is_space_char(s[0])),
    ensures
        tokens_acc(s, cur).len() >= 1,
    decreases s.len(),
{
    if s.len() == 0 {
    } else if crate::text::is_space_char(s[0]) {
    } else {
        lemma_first_token_exists(s.skip(1), cur.push(s[0]));
    }
}

impl PSIMetrics {
    /// Parse the kernel's pressure-stall text. Succeeds exactly when every
    /// recognized `key=value` pair on a `some `/`full ` line is
    /// well-formed, and then carries the last value each field was given.
    pub fn parse(content: &str) -> (r: Result<PSIMetrics, PsiParseError>)
        ensures
            match r {
                Ok(m) => psi_of(content@) == Some(m),
                Err(_) => psi_of(content@) is None,
            },
    {
        let lines = str_split(content, '\n');
        let ghost lviews = views_of(lines@);
        let mut m = PSIMetrics::default();
        let mut i: usize = 0;
        proof {
            assert(lviews.skip(0) =~= lviews);
        }
        while i < lines.len()
            invariant
                0 <= i <= lines@.len(),
                lviews == views_of(lines@),
                lviews.len() == lines@.len(),
                psi_of(content@) == apply_lines(m, lviews.skip(i as int)),
            decreases lines@.len() - i,
        {
            proof {
                assert(lviews[i as int] == lines@[i as int]@);
                assert(lviews.skip(i as int)[0] == lviews[i as int]);
                assert(lviews.skip(i as int).skip(1) =~= lviews.skip(i + 1));
            }
            m = match Self::apply_line_exec(m, lines[i].as_str()) {
                Some(m1) => m1,
                None => {
                    return Err(PsiParseError);
                },
            };
            i += 1;
        }
        proof {
            assert(lviews.skip(i as int).len() == 0);
        }
        Ok(m)
    }

    /// Apply one line of pressure-stall text to the snapshot.
    fn apply_line_exec(m: PSIMetrics, line: &str) -> (r: Option<PSIMetrics>)
        ensures
            r == apply_line(m, line@),
    {
        if str_starts_with(line, "some ") {
            proof {
                reveal_strlit("some ");
                assert(line@.take(5)[0] == line@[0]);
                assert(!crate::text::is_space_char(line@[0]));
            }
            Self::apply_tokens_exec(m, true, line)
        } else if str_starts_with(line, "full ") {
            proof {
                reveal_strlit("full ");
                assert(line@.take(5)[0] == line@[0]);
                assert(!crate::text::is_space_char(line@[0]));
            }
            Self::apply_tokens_exec(m, false, line)
        } else {
            Some(m)
        }
    }

    /// Apply every pair after the lane word of a `some `/`full ` line.
    fn apply_tokens_exec(m: PSIMetrics, some_lane: bool, line: &str) -> (r: Option<PSIMetrics>)
        requires
            line@.len() > 0,
            !crate::text::is_space_char(line@[0]),
        ensures
            r == apply_tokens(m, some_lane, tokens_of(line@).skip(1)),
    {
        let toks = str_tokens(line);
        let ghost tviews = views_of(toks@);
        proof {
            lemma_first_token_exists(line@, Seq::empty());
            assert(tviews.len() >= 1);
        }
        let mut cur = m;
        let mut i: usize = 1;
        while i < toks.len()
            invariant
                1 <= i <= toks@.len(),
                tviews == views_of(toks@),
                tviews == tokens_of(line@),
                tviews.len() == toks@.len(),
                apply_tokens(m, some_lane, tviews.skip(1)) == apply_tokens(
                    cur,
                    some_lane,
                    tviews.skip(i as int),
                ),
            decreases toks@.len() - i,
        {
            proof {
                assert(tviews[i as int] == toks@[i as int]@);
                assert(tviews.skip(i as int)[0] == tviews[i as int]);
                assert(tviews.skip(i as int).skip(1) =~= tviews.skip(i + 1));
            }
            match str_eq_split(toks[i].as_str()) {
                Some(kv) => {
                    cur = match Self::apply_pair_exec(cur, some_lane, kv.0.as_str(), kv.1.as_str()) {
                        Some(m1) => m1,
                        None => {
                            proof {
                                assert(apply_tokens(cur, some_lane, tviews.skip(i as int)) is None);
                            }
                            return None;
                        },
                    };
                },
                None => {},
            }
            i += 1;
        }
        proof {
            assert(tviews.skip(i as int).len() == 0);
        }
        Some(cur)
    }

    /// Apply one `key=value` pair to the snapshot.
    fn apply_pair_exec(m: PSIMetrics, some_lane: bool, key: &str, value: &str) -> (r: Option<
        PSIMetrics,
    >)
        ensures
            r == apply_pair(m, some_lane, key@, value@),
    {
        if str_eq(key, "avg10") {
            match parse_centi(value) {
                Some(v) => Some(
                    if some_lane {
                        PSIMetrics { some_avg10: v, ..m }
                    } else {
                        PSIMetrics { full_avg10: v, ..m }
                    },
                ),
                None => None,
            }
        } else if str_eq(key, "avg60") {
            match parse_centi(value) {
                Some(v) => Some(
                    if some_lane {
                        PSIMetrics { some_avg60: v, ..m }
                    } else {
                        PSIMetrics { full_avg60: v, ..m }
                    },
                ),
                None => None,
            }
        } else if str_eq(key, "avg300") {
            match parse_centi(value) {
                Some(v) => Some(
                    if some_lane {
                        PSIMetrics { some_avg300: v, ..m }
                    } else {
                        PSIMetrics { full_avg300: v, ..m }
                    },
                ),
                None => None,
            }
        } else if str_eq(key, "total") {
            match parse_u64(value) {
                Some(v) => Some(
                    if some_lane {
                        PSIMetrics { some_total: v, ..m }
                    } else {
                        PSIMetrics { full_total: v, ..m }
                    },
                ),
                None => None,
            }
        } else {
            Some(m)
        }
    }
}

} // verus!
