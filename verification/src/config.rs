//! The configuration store: the supervisor's settings, their defaults,
//! and a parser and printer for the configuration file format — `key =
//! value` lines with integers, decimals, booleans, quoted strings and
//! string arrays, comment lines, and a `[cli]` table. Percentage
//! thresholds for the pressure-stall lane are kept in hundredths of a
//! percent.
//!
//! The format is deliberately small, and everything outside it is a
//! parse error, never a misreading: a comment is a whole line whose
//! first non-space character is `#` (a `#` after a value does not start
//! one), strings are double-quoted without escapes, and array elements
//! carry no commas of their own. The printer stays inside this subset,
//! and the `roundtrip` module proves the two inverse.

use vstd::prelude::*;
use crate::text::{
    centi_of, digits_val, eq_split, is_u64_string, parse_centi, parse_u64, split_char, str_eq,
    str_eq_split, str_split, str_trim, trim_spec, views_of,
};

verus! {

/// Cosmetic settings for the status tool's tables.
#[derive(Debug, Clone, PartialEq)]
pub struct CliUi {
    pub color: Option<String>,
    pub unicode: Option<String>,
    pub table_max_width: Option<usize>,
}

/// The supervisor's settings. Immutable within a tick; replaced whole on
/// reload. `psi_soft_centipct` and `psi_hard_centipct` are thresholds on
/// the pressure-stall `some` 10-second average, in hundredths of a
/// percent.
#[derive(Debug, Clone, PartialEq)]
pub struct Config {
    pub reserve_mb: u64,
    pub soft_threshold_pct: u8,
    pub hard_threshold_pct: u8,
    pub mode: String,
    pub scan_interval_sec: u64,
    pub exclude_names: Vec<String>,
    pub max_actions_per_min: u32,
    pub cli: Option<CliUi>,
    pub psi_enabled: bool,
    pub psi_soft_centipct: u64,
    pub psi_hard_centipct: u64,
    pub protected_units: Vec<String>,
}

/// The mathematical shape of `CliUi`.
#[verifier::ext_equal]
pub ghost struct CliUiV {
    pub color: Option<Seq<char>>,
    pub unicode: Option<Seq<char>>,
    pub table_max_width: Option<usize>,
}

/// The mathematical shape of `Config`.
#[verifier::ext_equal]
pub ghost struct ConfigV {
    pub reserve_mb: u64,
    pub soft_threshold_pct: u8,
    pub hard_threshold_pct: u8,
    pub mode: Seq<char>,
    pub scan_interval_sec: u64,
    pub exclude_names: Seq<Seq<char>>,
    pub max_actions_per_min: u32,
    pub cli: Option<CliUiV>,
    pub psi_enabled: bool,
    pub psi_soft_centipct: u64,
    pub psi_hard_centipct: u64,
    pub protected_units: Seq<Seq<char>>,
}

pub open spec fn opt_str_view(o: Option<String>) -> Option<Seq<char>> {
    match o {
        Some(s) => Some(s@),
        None => None,
    }
}

impl View for CliUi {
    type V = CliUiV;

    open spec fn view(&self) -> CliUiV {
        CliUiV {
            color: opt_str_view(self.color),
            unicode: opt_str_view(self.unicode),
            table_max_width: self.table_max_width,
        }
    }
}

impl View for Config {
    type V = ConfigV;

    open spec fn view(&self) -> ConfigV {
        ConfigV {
            reserve_mb: self.reserve_mb,
            soft_threshold_pct: self.soft_threshold_pct,
            hard_threshold_pct: self.hard_threshold_pct,
            mode: self.mode@,
            scan_interval_sec: self.scan_interval_sec,
            exclude_names: views_of(self.exclude_names@),
            max_actions_per_min: self.max_actions_per_min,
            cli: match self.cli {
                Some(c) => Some(c@),
                None => None,
            },
            psi_enabled: self.psi_enabled,
            psi_soft_centipct: self.psi_soft_centipct,
            psi_hard_centipct: self.psi_hard_centipct,
            protected_units: views_of(self.protected_units@),
        }
    }
}

/// The built-in defaults: a 512 MiB reserve, Soft at 15% and Hard at 5%
/// available, hybrid mode, a 2-second cadence, the stock exclusion and
/// protection lists, 4 actions per minute, and the pressure-stall lane on
/// with Soft at 10% and Hard at 30% stall.
pub open spec fn spec_default_config() -> ConfigV {
    ConfigV {
        reserve_mb: 512,
        soft_threshold_pct: 15,
        hard_threshold_pct: 5,
        mode: "hybrid"@,
        scan_interval_sec: 2,
        exclude_names: seq!["sshd"@, "systemd"@, "sentinel"@],
        max_actions_per_min: 4,
        cli: Some(
            CliUiV { color: Some("auto"@), unicode: Some("auto"@), table_max_width: Some(120) },
        ),
        psi_enabled: true,
        psi_soft_centipct: 1000,
        psi_hard_centipct: 3000,
        protected_units: seq!["sshd.service"@, "sentinel.service"@, "ssh.service"@],
    }
}

/// Whether the pressure-stall lane is consulted when the file does not
/// say: it is.
pub fn default_psi_enabled() -> (r: bool)
    ensures
        r == spec_default_config().psi_enabled,
        r == true,
{
    true
}

impl Default for Config {
    /// The built-in defaults.
    fn default() -> (r: Config)
        ensures
            r@ == spec_default_config(),
    {
        let mut exclude_names: Vec<String> = Vec::new();
        exclude_names.push("sshd".to_owned());
        exclude_names.push("systemd".to_owned());
        exclude_names.push("sentinel".to_owned());
        let mut protected_units: Vec<String> = Vec::new();
        protected_units.push("sshd.service".to_owned());
        protected_units.push("sentinel.service".to_owned());
        protected_units.push("ssh.service".to_owned());
        let r = Config {
            reserve_mb: 512,
            soft_threshold_pct: 15,
            hard_threshold_pct: 5,
            mode: "hybrid".to_owned(),
            scan_interval_sec: 2,
            exclude_names,
            max_actions_per_min: 4,
            cli: Some(
                CliUi {
                    color: Some("auto".to_owned()),
                    unicode: Some("auto".to_owned()),
                    table_max_width: Some(120),
                },
            ),
            psi_enabled: true,
            psi_soft_centipct: 1000,
            psi_hard_centipct: 3000,
            protected_units,
        };
        proof {
            assert(views_of(r.exclude_names@) =~= seq!["sshd"@, "systemd"@, "sentinel"@]);
            assert(views_of(r.protected_units@) =~= seq![
                "sshd.service"@,
                "sentinel.service"@,
                "ssh.service"@,
            ]);
            assert(r@ =~= spec_default_config());
        }
        r
    }
}

/// A quoted string value: `"…"` with no quote inside; its content.
pub open spec fn quoted_str(v: Seq<char>) -> Option<Seq<char>> {
    if v.len() >= 2 && v[0] == '"' && v.last() == '"' && (forall|i: int|
        1 <= i < v.len() - 1 ==> v[i] != '"') {
        Some(v.subrange(1, v.len() - 1))
    } else {
        None
    }
}

/// Each comma-separated piece, trimmed, as a quoted string.
pub open spec fn parse_str_items(pieces: Seq<Seq<char>>) -> Option<Seq<Seq<char>>>
    decreases pieces.len(),
{
    if pieces.len() == 0 {
        Some(Seq::empty())
    } else {
        match quoted_str(trim_spec(pieces[0])) {
            Some(s) => match parse_str_items(pieces.skip(1)) {
                Some(rest) => Some(seq![s] + rest),
                None => None,
            },
            None => None,
        }
    }
}

/// A string-array value: `[ "…", … ]`; its elements. Elements must not
/// themselves contain commas: a comma always separates.
pub open spec fn arr_value(v: Seq<char>) -> Option<Seq<Seq<char>>> {
    if v.len() >= 2 && v[0] == '[' && v.last() == ']' {
        let inner = trim_spec(v.subrange(1, v.len() - 1));
        if inner.len() == 0 {
            Some(Seq::empty())
        } else {
            parse_str_items(split_char(inner, ','))
        }
    } else {
        None
    }
}

/// A boolean value: the word `true` or `false`.
pub open spec fn bool_value(v: Seq<char>) -> Option<bool> {
    if v == "true"@ {
        Some(true)
    } else if v == "false"@ {
        Some(false)
    } else {
        None
    }
}

/// Parse a quoted string value, by characters.
fn parse_quoted(s: &str) -> (r: Option<String>)
    ensures
        match r {
            Some(q) => quoted_str(s@) == Some(q@),
            None => quoted_str(s@) is None,
        },
{
    let n = s.unicode_len();
    if n < 2 || s.get_char(0) != '"' || s.get_char(n - 1) != '"' {
        return None;
    }
    let mut i: usize = 1;
    while i < n - 1
        invariant
            1 <= i <= n - 1,
            n == s@.len(),
            n >= 2,
            forall|j: int| 1 <= j < i ==> s@[j] != '"',
        decreases n - i,
    {
        if s.get_char(i) == '"' {
            return None;
        }
        i += 1;
    }
    Some(s.substring_char(1, n - 1).to_owned())
}

/// Parse a string-array value, by characters.
fn parse_str_array(v: &str) -> (r: Option<Vec<String>>)
    ensures
        match r {
            Some(xs) => arr_value(v@) == Some(views_of(xs@)),
            None => arr_value(v@) is None,
        },
{
    let n = v.unicode_len();
    if n < 2 || v.get_char(0) != '[' || v.get_char(n - 1) != ']' {
        return None;
    }
    let inner_full = v.substring_char(1, n - 1);
    let inner = str_trim(inner_full);
    proof {
        assert(inner@ == trim_spec(v@.subrange(1, n - 1)));
    }
    if inner.unicode_len() == 0 {
        proof {
            assert(arr_value(v@) == Some(Seq::<Seq<char>>::empty()));
            assert(views_of(Seq::<String>::empty()) =~= Seq::<Seq<char>>::empty());
        }
        return Some(Vec::new());
    }
    let pieces = str_split(inner, ',');
    let ghost pviews = views_of(pieces@);
    let mut out: Vec<String> = Vec::new();
    let mut i: usize = 0;
    proof {
        assert(pviews.skip(0) =~= pviews);
        assert(views_of(out@) =~= Seq::<Seq<char>>::empty());
    }
    while i < pieces.len()
        invariant
            0 <= i <= pieces@.len(),
            pviews == views_of(pieces@),
            pviews.len() == pieces@.len(),
            arr_value(v@) == parse_str_items(pviews),
            match parse_str_items(pviews.skip(i as int)) {
                Some(rest) => parse_str_items(pviews) == Some(views_of(out@) + rest),
                None => parse_str_items(pviews) is None,
            },
        decreases pieces@.len() - i,
    {
        proof {
            assert(pviews[i as int] == pieces@[i as int]@);
            assert(pviews.skip(i as int)[0] == pviews[i as int]);
            assert(pviews.skip(i as int).skip(1) =~= pviews.skip(i + 1));
        }
        let piece = str_trim(pieces[i].as_str());
        match parse_quoted(piece) {
            Some(q) => {
                proof {
                    assert(views_of(out@.push(q)) =~= views_of(out@).push(q@));
                    if parse_str_items(pviews.skip(i + 1)) is Some {
                        let rest = parse_str_items(pviews.skip(i + 1)).unwrap();
                        assert(parse_str_items(pviews.skip(i as int)) == Some(seq![q@] + rest));
                        assert(views_of(out@) + (seq![q@] + rest) =~= views_of(out@).push(q@)
                            + rest);
                    }
                }
                out.push(q);
            },
            None => {
                proof {
                    assert(parse_str_items(pviews.skip(i as int)) is None);
                }
                return None;
            },
        }
        i += 1;
    }
    proof {
        assert(pviews.skip(i as int).len() == 0);
        assert(parse_str_items(pviews.skip(i as int)) == Some(Seq::<Seq<char>>::empty()));
        assert(views_of(out@) + Seq::<Seq<char>>::empty() =~= views_of(out@));
    }
    Some(out)
}

/// Parse a boolean value, by characters.
fn parse_bool(v: &str) -> (r: Option<bool>)
    ensures
        r == bool_value(v@),
{
    if str_eq(v, "true") {
        Some(true)
    } else if str_eq(v, "false") {
        Some(false)
    } else {
        None
    }
}

/// A whole-number value that fits a `u64`.
pub open spec fn u64_value(v: Seq<char>) -> Option<u64> {
    if is_u64_string(v) {
        Some(digits_val(v) as u64)
    } else {
        None
    }
}

/// A whole-number value that fits a `u8`.
pub open spec fn u8_value(v: Seq<char>) -> Option<u8> {
    if is_u64_string(v) && digits_val(v) <= u8::MAX {
        Some(digits_val(v) as u8)
    } else {
        None
    }
}

/// A whole-number value that fits a `u32`.
pub open spec fn u32_value(v: Seq<char>) -> Option<u32> {
    if is_u64_string(v) && digits_val(v) <= u32::MAX {
        Some(digits_val(v) as u32)
    } else {
        None
    }
}

/// A whole-number value that fits a `usize`.
pub open spec fn usize_value(v: Seq<char>) -> Option<usize> {
    if is_u64_string(v) && digits_val(v) <= usize::MAX {
        Some(digits_val(v) as usize)
    } else {
        None
    }
}

/// Parse a `u8` value, by characters.
fn parse_u8_val(v: &str) -> (r: Option<u8>)
    ensures
        r == u8_value(v@),
{
    match parse_u64(v) {
        Some(x) => {
            proof {
                crate::text::lemma_digits_val_nonneg(v@);
            }
            if x <= u8::MAX as u64 {
                Some(x as u8)
            } else {
                None
            }
        },
        None => None,
    }
}

/// Parse a `u32` value, by characters.
fn parse_u32_val(v: &str) -> (r: Option<u32>)
    ensures
        r == u32_value(v@),
{
    match parse_u64(v) {
        Some(x) => {
            proof {
                crate::text::lemma_digits_val_nonneg(v@);
            }
            if x <= u32::MAX as u64 {
                Some(x as u32)
            } else {
                None
            }
        },
        None => None,
    }
}

/// Parse a `usize` value, by characters.
fn parse_usize_val(v: &str) -> (r: Option<usize>)
    ensures
        r == usize_value(v@),
{
    match parse_u64(v) {
        Some(x) => {
            proof {
                crate::text::lemma_digits_val_nonneg(v@);
            }
            if x <= usize::MAX as u64 {
                Some(x as usize)
            } else {
                None
            }
        },
        None => None,
    }
}

/// Which table of the file a line belongs to.
#[derive(Debug, Clone, Copy, PartialEq, Eq, Structural)]
pub enum Section {
    Root,
    Cli,
    Other,
}

/// Which of the required fields the parse has met so far.
#[derive(Debug, Clone, Copy, PartialEq, Eq, Structural)]
pub struct SeenFields {
    pub reserve_mb: bool,
    pub soft_threshold_pct: bool,
    pub hard_threshold_pct: bool,
    pub mode: bool,
    pub scan_interval_sec: bool,
    pub exclude_names: bool,
    pub max_actions_per_min: bool,
}

/// The parser's running state: the settings so far, the required fields
/// met, and the current table.
pub struct ParseSt {
    pub cfg: Config,
    pub seen: SeenFields,
    pub section: Section,
}

/// The mathematical shape of `ParseSt`.
#[verifier::ext_equal]
pub ghost struct ParseStV {
    pub cfg: ConfigV,
    pub seen: SeenFields,
    pub section: Section,
}

impl View for ParseSt {
    type V = ParseStV;

    open spec fn view(&self) -> ParseStV {
        ParseStV { cfg: self.cfg@, seen: self.seen, section: self.section }
    }
}

/// Where every parse starts: optional fields at their defaults — the
/// pressure-stall lane on with its stock thresholds, and the stock
/// protection list, so an omitted `protected_units` never disarms the
/// shield — required fields blank and unmet, in the root table.
pub open spec fn init_state_v() -> ParseStV {
    ParseStV {
        cfg: ConfigV {
            reserve_mb: 0,
            soft_threshold_pct: 0,
            hard_threshold_pct: 0,
            mode: Seq::empty(),
            scan_interval_sec: 0,
            exclude_names: Seq::empty(),
            max_actions_per_min: 0,
            cli: None,
            psi_enabled: true,
            psi_soft_centipct: 1000,
            psi_hard_centipct: 3000,
            protected_units: seq!["sshd.service"@, "sentinel.service"@, "ssh.service"@],
        },
        seen: SeenFields {
            reserve_mb: false,
            soft_threshold_pct: false,
            hard_threshold_pct: false,
            mode: false,
            scan_interval_sec: false,
            exclude_names: false,
            max_actions_per_min: false,
        },
        section: Section::Root,
    }
}

/// An empty `[cli]` table.
pub open spec fn empty_cli_v() -> CliUiV {
    CliUiV { color: None, unicode: None, table_max_width: None }
}

/// One `key = value` line of the root table applied to the state: the
/// recognized keys set their field (required ones are marked met),
/// unknown keys are ignored for forward compatibility, and a malformed
/// value under a recognized key is an error.
pub open spec fn apply_root_kv(st: ParseStV, key: Seq<char>, value: Seq<char>) -> Option<
    ParseStV,
> {
    if key == "reserve_mb"@ {
        match u64_value(value) {
            Some(v) => Some(
                ParseStV {
                    cfg: ConfigV { reserve_mb: v, ..st.cfg },
                    seen: SeenFields { reserve_mb: true, ..st.seen },
                    ..st
                },
            ),
            None => None,
        }
    } else if key == "soft_threshold_pct"@ {
        match u8_value(value) {
            Some(v) => Some(
                ParseStV {
                    cfg: ConfigV { soft_threshold_pct: v, ..st.cfg },
                    seen: SeenFields { soft_threshold_pct: true, ..st.seen },
                    ..st
                },
            ),
            None => None,
        }
    } else if key == "hard_threshold_pct"@ {
        match u8_value(value) {
            Some(v) => Some(
                ParseStV {
                    cfg: ConfigV { hard_threshold_pct: v, ..st.cfg },
                    seen: SeenFields { hard_threshold_pct: true, ..st.seen },
                    ..st
                },
            ),
            None => None,
        }
    } else if key == "mode"@ {
        match quoted_str(value) {
            Some(s) => Some(
                ParseStV {
                    cfg: ConfigV { mode: s, ..st.cfg },
                    seen: SeenFields { mode: true, ..st.seen },
                    ..st
                },
            ),
            None => None,
        }
    } else if key == "scan_interval_sec"@ {
        match u64_value(value) {
            Some(v) => Some(
                ParseStV {
                    cfg: ConfigV { scan_interval_sec: v, ..st.cfg },
                    seen: SeenFields { scan_interval_sec: true, ..st.seen },
                    ..st
                },
            ),
            None => None,
        }
    } else if key == "exclude_names"@ {
        match arr_value(value) {
            Some(xs) => Some(
                ParseStV {
                    cfg: ConfigV { exclude_names: xs, ..st.cfg },
                    seen: SeenFields { exclude_names: true, ..st.seen },
                    ..st
                },
            ),
            None => None,
        }
    } else if key == "max_actions_per_min"@ {
        match u32_value(value) {
            Some(v) => Some(
                ParseStV {
                    cfg: ConfigV { max_actions_per_min: v, ..st.cfg },
                    seen: SeenFields { max_actions_per_min: true, ..st.seen },
                    ..st
                },
            ),
            None => None,
        }
    } else if key == "psi_enabled"@ {
        match bool_value(value) {
            Some(v) => Some(ParseStV { cfg: ConfigV { psi_enabled: v, ..st.cfg }, ..st }),
            None => None,
        }
    } else if key == "psi_soft_pct"@ {
        match centi_of(value) {
            Some(v) => Some(
                ParseStV { cfg: ConfigV { psi_soft_centipct: v as u64, ..st.cfg }, ..st },
            ),
            None => None,
        }
    } else if key == "psi_hard_pct"@ {
        match centi_of(value) {
            Some(v) => Some(
                ParseStV { cfg: ConfigV { psi_hard_centipct: v as u64, ..st.cfg }, ..st },
            ),
            None => None,
        }
    } else if key == "protected_units"@ {
        match arr_value(value) {
            Some(xs) => Some(ParseStV { cfg: ConfigV { protected_units: xs, ..st.cfg }, ..st }),
            None => None,
        }
    } else {
        Some(st)
    }
}

/// One `key = value` line of the `[cli]` table applied to the state.
pub open spec fn apply_cli_kv(st: ParseStV, key: Seq<char>, value: Seq<char>) -> Option<
    ParseStV,
> {
    let cli0 = match st.cfg.cli {
        Some(c) => c,
        None => empty_cli_v(),
    };
    if key == "color"@ {
        match quoted_str(value) {
            Some(s) => Some(
                ParseStV {
                    cfg: ConfigV { cli: Some(CliUiV { color: Some(s), ..cli0 }), ..st.cfg },
                    ..st
                },
            ),
            None => None,
        }
    } else if key == "unicode"@ {
        match quoted_str(value) {
            Some(s) => Some(
                ParseStV {
                    cfg: ConfigV { cli: Some(CliUiV { unicode: Some(s), ..cli0 }), ..st.cfg },
                    ..st
                },
            ),
            None => None,
        }
    } else if key == "table_max_width"@ {
        match usize_value(value) {
            Some(v) => Some(
                ParseStV {
                    cfg: ConfigV {
                        cli: Some(CliUiV { table_max_width: Some(v), ..cli0 }),
                        ..st.cfg
                    },
                    ..st
                },
            ),
            None => None,
        }
    } else {
        Some(st)
    }
}

/// One line of the file applied to the state: blank lines and comment
/// lines (first non-space character `#`) change nothing, a `[cli]`
/// header opens the cli table (any other header opens a table whose
/// contents are ignored), and a `key = value` line goes to the current
/// table. A line that is none of these — including a value followed by
/// an inline comment — is an error.
pub open spec fn apply_config_line(st: ParseStV, line: Seq<char>) -> Option<ParseStV> {
    let t = trim_spec(line);
    if t.len() == 0 {
        Some(st)
    } else if t[0] == '#' {
        Some(st)
    } else if t[0] == '[' {
        if t == "[cli]"@ {
            let cli1 = match st.cfg.cli {
                Some(c) => c,
                None => empty_cli_v(),
            };
            Some(
                ParseStV {
                    cfg: ConfigV { cli: Some(cli1), ..st.cfg },
                    section: Section::Cli,
                    ..st
                },
            )
        } else {
            Some(ParseStV { section: Section::Other, ..st })
        }
    } else {
        match eq_split(t) {
            Some(kv) => {
                let key = trim_spec(kv.0);
                let value = trim_spec(kv.1);
                match st.section {
                    Section::Root => apply_root_kv(st, key, value),
                    Section::Cli => apply_cli_kv(st, key, value),
                    Section::Other => Some(st),
                }
            },
            None => None,
        }
    }
}

/// All lines applied in order.
pub open spec fn apply_config_lines(st: ParseStV, lines: Seq<Seq<char>>) -> Option<ParseStV>
    decreases lines.len(),
{
    if lines.len() == 0 {
        Some(st)
    } else {
        match apply_config_line(st, lines[0]) {
            Some(st1) => apply_config_lines(st1, lines.skip(1)),
            None => None,
        }
    }
}

/// Whether every required field was met.
pub open spec fn required_seen(seen: SeenFields) -> bool {
    &&& seen.reserve_mb
    &&& seen.soft_threshold_pct
    &&& seen.hard_threshold_pct
    &&& seen.mode
    &&& seen.scan_interval_sec
    &&& seen.exclude_names
    &&& seen.max_actions_per_min
}

/// What parsing the configuration text yields: every line applied in
/// order, and a settings value only when all required fields were met.
pub open spec fn config_of(content: Seq<char>) -> Option<ConfigV> {
    match apply_config_lines(init_state_v(), split_char(content, '\n')) {
        Some(st) => if required_seen(st.seen) {
            Some(st.cfg)
        } else {
            None
        },
        None => None,
    }
}

/// The configuration text could not be parsed, or a required field was
/// missing.
#[derive(Debug, Clone, Copy, PartialEq, Eq, Structural)]
pub struct ConfigParseError;

/// Apply one root-table `key = value` line.
#[verifier::rlimit(80)]
fn apply_root_exec(st: ParseSt, key: &str, value: &str) -> (r: Option<ParseSt>)
    ensures
        match r {
            Some(s2) => apply_root_kv(st@, key@, value@) == Some(s2@),
            None => apply_root_kv(st@, key@, value@) is None,
        },
{
    let mut st = st;
    if str_eq(key, "reserve_mb") {
        match parse_u64(value) {
            Some(v) => {
                st.cfg.reserve_mb = v;
                st.seen.reserve_mb = true;
                Some(st)
            },
            None => None,
        }
    } else if str_eq(key, "soft_threshold_pct") {
        match parse_u8_val(value) {
            Some(v) => {
                st.cfg.soft_threshold_pct = v;
                st.seen.soft_threshold_pct = true;
                Some(st)
            },
            None => None,
        }
    } else if str_eq(key, "hard_threshold_pct") {
        match parse_u8_val(value) {
            Some(v) => {
                st.cfg.hard_threshold_pct = v;
                st.seen.hard_threshold_pct = true;
                Some(st)
            },
            None => None,
        }
    } else if str_eq(key, "mode") {
        match parse_quoted(value) {
            Some(s) => {
                st.cfg.mode = s;
                st.seen.mode = true;
                Some(st)
            },
            None => None,
        }
    } else if str_eq(key, "scan_interval_sec") {
        match parse_u64(value) {
            Some(v) => {
                st.cfg.scan_interval_sec = v;
                st.seen.scan_interval_sec = true;
                Some(st)
            },
            None => None,
        }
    } else if str_eq(key, "exclude_names") {
        match parse_str_array(value) {
            Some(xs) => {
                st.cfg.exclude_names = xs;
                st.seen.exclude_names = true;
                Some(st)
            },
            None => None,
        }
    } else if str_eq(key, "max_actions_per_min") {
        match parse_u32_val(value) {
            Some(v) => {
                st.cfg.max_actions_per_min = v;
                st.seen.max_actions_per_min = true;
                Some(st)
            },
            None => None,
        }
    } else if str_eq(key, "psi_enabled") {
        match parse_bool(value) {
            Some(v) => {
                st.cfg.psi_enabled = v;
                Some(st)
            },
            None => None,
        }
    } else if str_eq(key, "psi_soft_pct") {
        match parse_centi(value) {
            Some(v) => {
                st.cfg.psi_soft_centipct = v;
                Some(st)
            },
            None => None,
        }
    } else if str_eq(key, "psi_hard_pct") {
        match parse_centi(value) {
            Some(v) => {
                st.cfg.psi_hard_centipct = v;
                Some(st)
            },
            None => None,
        }
    } else if str_eq(key, "protected_units") {
        match parse_str_array(value) {
            Some(xs) => {
                st.cfg.protected_units = xs;
                Some(st)
            },
            None => None,
        }
    } else {
        Some(st)
    }
}

/// Apply one `[cli]`-table `key = value` line.
fn apply_cli_exec(st: ParseSt, key: &str, value: &str) -> (r: Option<ParseSt>)
    ensures
        match r {
            Some(s2) => apply_cli_kv(st@, key@, value@) == Some(s2@),
            None => apply_cli_kv(st@, key@, value@) is None,
        },
{
    let mut st = st;
    if str_eq(key, "color") {
        match parse_quoted(value) {
            Some(s) => {
                if st.cfg.cli.is_none() {
                    st.cfg.cli = Some(
                        CliUi { color: None, unicode: None, table_max_width: None },
                    );
                }
                match &mut st.cfg.cli {
                    Some(c) => {
                        c.color = Some(s);
                    },
                    None => {},
                }
                Some(st)
            },
            None => None,
        }
    } else if str_eq(key, "unicode") {
        match parse_quoted(value) {
            Some(s) => {
                if st.cfg.cli.is_none() {
                    st.cfg.cli = Some(
                        CliUi { color: None, unicode: None, table_max_width: None },
                    );
                }
                match &mut st.cfg.cli {
                    Some(c) => {
                        c.unicode = Some(s);
                    },
                    None => {},
                }
                Some(st)
            },
            None => None,
        }
    } else if str_eq(key, "table_max_width") {
        match parse_usize_val(value) {
            Some(v) => {
                if st.cfg.cli.is_none() {
                    st.cfg.cli = Some(
                        CliUi { color: None, unicode: None, table_max_width: None },
                    );
                }
                match &mut st.cfg.cli {
                    Some(c) => {
                        c.table_max_width = Some(v);
                    },
                    None => {},
                }
                Some(st)
            },
            None => None,
        }
    } else {
        Some(st)
    }
}

/// Apply one line of configuration text.
fn apply_line_exec(st: ParseSt, line: &str) -> (r: Option<ParseSt>)
    ensures
        match r {
            Some(s2) => apply_config_line(st@, line@) == Some(s2@),
            None => apply_config_line(st@, line@) is None,
        },
{
    let t = str_trim(line);
    let n = t.unicode_len();
    if n == 0 {
        return Some(st);
    }
    let c0 = t.get_char(0);
    if c0 == '#' {
        return Some(st);
    }
    if c0 == '[' {
        let mut st = st;
        if str_eq(t, "[cli]") {
            if st.cfg.cli.is_none() {
                st.cfg.cli = Some(CliUi { color: None, unicode: None, table_max_width: None });
            }
            st.section = Section::Cli;
            return Some(st);
        }
        st.section = Section::Other;
        return Some(st);
    }
    match str_eq_split(t) {
        Some(kv) => {
            let key = str_trim(kv.0.as_str());
            let value = str_trim(kv.1.as_str());
            match st.section {
                Section::Root => apply_root_exec(st, key, value),
                Section::Cli => apply_cli_exec(st, key, value),
                Section::Other => Some(st),
            }
        },
        None => None,
    }
}

impl Config {
    /// Parse configuration text. Succeeds exactly when every line is
    /// well-formed and all required fields appear; optional fields keep
    /// their defaults when absent — in particular, a file that omits
    /// `protected_units` keeps the stock protection list rather than
    /// dropping the shield.
    pub fn from_toml(content: &str) -> (r: Result<Config, ConfigParseError>)
        ensures
            match r {
                Ok(c) => config_of(content@) == Some(c@),
                Err(_) => config_of(content@) is None,
            },
    {
        let lines = str_split(content, '\n');
        let ghost lviews = views_of(lines@);
        let mut protected_units: Vec<String> = Vec::new();
        protected_units.push("sshd.service".to_owned());
        protected_units.push("sentinel.service".to_owned());
        protected_units.push("ssh.service".to_owned());
        let mut st = ParseSt {
            cfg: Config {
                reserve_mb: 0,
                soft_threshold_pct: 0,
                hard_threshold_pct: 0,
                mode: String::new(),
                scan_interval_sec: 0,
                exclude_names: Vec::new(),
                max_actions_per_min: 0,
                cli: None,
                psi_enabled: true,
                psi_soft_centipct: 1000,
                psi_hard_centipct: 3000,
                protected_units,
            },
            seen: SeenFields {
                reserve_mb: false,
                soft_threshold_pct: false,
                hard_threshold_pct: false,
                mode: false,
                scan_interval_sec: false,
                exclude_names: false,
                max_actions_per_min: false,
            },
            section: Section::Root,
        };
        proof {
            assert(views_of(st.cfg.exclude_names@) =~= Seq::<Seq<char>>::empty());
            assert(views_of(st.cfg.protected_units@) =~= seq![
                "sshd.service"@,
                "sentinel.service"@,
                "ssh.service"@,
            ]);
            assert(st@ =~= init_state_v());
            assert(lviews.skip(0) =~= lviews);
        }
        let mut i: usize = 0;
        while i < lines.len()
            invariant
                0 <= i <= lines@.len(),
                lviews == views_of(lines@),
                lviews == split_char(content@, '\n'),
                lviews.len() == lines@.len(),
                apply_config_lines(init_state_v(), lviews) == apply_config_lines(
                    st@,
                    lviews.skip(i as int),
                ),
            decreases lines@.len() - i,
        {
            proof {
                assert(lviews[i as int] == lines@[i as int]@);
                assert(lviews.skip(i as int)[0] == lviews[i as int]);
                assert(lviews.skip(i as int).skip(1) =~= lviews.skip(i + 1));
            }
            st = match apply_line_exec(st, lines[i].as_str()) {
                Some(s2) => s2,
                None => {
                    return Err(ConfigParseError);
                },
            };
            i += 1;
        }
        proof {
            assert(lviews.skip(i as int).len() == 0);
        }
        let seen = st.seen;
        if seen.reserve_mb && seen.soft_threshold_pct && seen.hard_threshold_pct && seen.mode
            && seen.scan_interval_sec && seen.exclude_names && seen.max_actions_per_min {
            Ok(st.cfg)
        } else {
            Err(ConfigParseError)
        }
    }
}

/// The character of one decimal digit.
pub open spec fn digit_char(d: int) -> char {
    if d == 0 {
        '0'
    } else if d == 1 {
        '1'
    } else if d == 2 {
        '2'
    } else if d == 3 {
        '3'
    } else if d == 4 {
        '4'
    } else if d == 5 {
        '5'
    } else if d == 6 {
        '6'
    } else if d == 7 {
        '7'
    } else if d == 8 {
        '8'
    } else {
        '9'
    }
}

/// The decimal numeral of a non-negative number, most significant digit
/// first.
pub open spec fn dec_str(v: int) -> Seq<char>
    recommends
        v >= 0,
    decreases v,
{
    if v < 10 {
        seq![digit_char(v)]
    } else {
        dec_str(v / 10).push(digit_char(v % 10))
    }
}

/// A fixed-point value in hundredths rendered with two fraction digits:
/// 1050 becomes `10.50`.
pub open spec fn centi_str(v: int) -> Seq<char>
    recommends
        v >= 0,
{
    dec_str(v / 100) + "."@ + seq![digit_char((v % 100) / 10), digit_char(v % 10)]
}

/// A string value in quotes.
pub open spec fn quoted(s: Seq<char>) -> Seq<char> {
    "\""@ + s + "\""@
}

/// A boolean value as a word.
pub open spec fn bool_str(b: bool) -> Seq<char> {
    if b {
        "true"@
    } else {
        "false"@
    }
}

/// The comma-separated quoted elements of an array, from position `i`.
pub open spec fn arr_items_str(items: Seq<Seq<char>>) -> Seq<char>
    decreases items.len(),
{
    if items.len() == 0 {
        Seq::empty()
    } else if items.len() == 1 {
        quoted(items[0])
    } else {
        quoted(items[0]) + ", "@ + arr_items_str(items.skip(1))
    }
}

/// An array value in brackets.
pub open spec fn arr_str(items: Seq<Seq<char>>) -> Seq<char> {
    "["@ + arr_items_str(items) + "]"@
}

/// The `[cli]` table's text, empty when the table is absent.
pub open spec fn cli_text(cli: Option<CliUiV>) -> Seq<char> {
    match cli {
        None => Seq::empty(),
        Some(u) => "[cli]\n"@ + (match u.color {
            Some(s) => "color = "@ + quoted(s) + "\n"@,
            None => Seq::empty(),
        }) + (match u.unicode {
            Some(s) => "unicode = "@ + quoted(s) + "\n"@,
            None => Seq::empty(),
        }) + (match u.table_max_width {
            Some(w) => "table_max_width = "@ + dec_str(w as int) + "\n"@,
            None => Seq::empty(),
        }),
    }
}

/// The reserve, threshold, mode and cadence lines.
pub open spec fn scalar_lines(c: ConfigV) -> Seq<char> {
    "reserve_mb = "@ + dec_str(c.reserve_mb as int) + "\n"@ + "soft_threshold_pct = "@ + dec_str(
        c.soft_threshold_pct as int,
    ) + "\n"@ + "hard_threshold_pct = "@ + dec_str(c.hard_threshold_pct as int) + "\n"@
        + "mode = "@ + quoted(c.mode) + "\n"@ + "scan_interval_sec = "@ + dec_str(
        c.scan_interval_sec as int,
    ) + "\n"@
}

/// The exclusion, rate-cap and pressure-stall lines.
pub open spec fn policy_lines(c: ConfigV) -> Seq<char> {
    "exclude_names = "@ + arr_str(c.exclude_names) + "\n"@ + "max_actions_per_min = "@ + dec_str(
        c.max_actions_per_min as int,
    ) + "\n"@ + "psi_enabled = "@ + bool_str(c.psi_enabled) + "\n"@ + "psi_soft_pct = "@
        + centi_str(c.psi_soft_centipct as int) + "\n"@ + "psi_hard_pct = "@ + centi_str(
        c.psi_hard_centipct as int,
    ) + "\n"@ + "protected_units = "@ + arr_str(c.protected_units) + "\n"@
}

/// The configuration rendered as file text: one `key = value` line per
/// setting in a fixed order, then the `[cli]` table when present.
pub open spec fn toml_text(c: ConfigV) -> Seq<char> {
    scalar_lines(c) + policy_lines(c) + cli_text(c.cli)
}

/// One digit as text.
fn digit_to_str(d: u64) -> (r: &'static str)
    requires
        d < 10,
    ensures
        r@ == seq![digit_char(d as int)],
{
    proof {
        reveal_strlit("0");
        reveal_strlit("1");
        reveal_strlit("2");
        reveal_strlit("3");
        reveal_strlit("4");
        reveal_strlit("5");
        reveal_strlit("6");
        reveal_strlit("7");
        reveal_strlit("8");
        reveal_strlit("9");
    }
    let r = match d {
        0 => "0",
        1 => "1",
        2 => "2",
        3 => "3",
        4 => "4",
        5 => "5",
        6 => "6",
        7 => "7",
        8 => "8",
        _ => "9",
    };
    proof {
        assert(r@ =~= seq![digit_char(d as int)]);
    }
    r
}

/// A number as its decimal numeral.
fn u64_to_string(v: u64) -> (r: String)
    ensures
        r@ == dec_str(v as int),
    decreases v,
{
    if v < 10 {
        digit_to_str(v).to_owned()
    } else {
        let mut s = u64_to_string(v / 10);
        s.append(digit_to_str(v % 10));
        proof {
            assert(s@ =~= dec_str(v as int));
        }
        s
    }
}

/// A fixed-point value in hundredths as a two-fraction-digit decimal.
fn centi_to_string(v: u64) -> (r: String)
    ensures
        r@ == centi_str(v as int),
{
    let mut s = u64_to_string(v / 100);
    s.append(".");
    s.append(digit_to_str((v % 100) / 10));
    s.append(digit_to_str(v % 10));
    proof {
        assert(s@ =~= centi_str(v as int));
    }
    s
}

/// The elements of an array from position `i` on, quoted and
/// comma-separated.
fn arr_items_to_string(items: &Vec<String>, i: usize) -> (r: String)
    requires
        i <= items@.len(),
    ensures
        r@ == arr_items_str(views_of(items@).skip(i as int)),
    decreases items@.len() - i,
{
    let ghost vs = views_of(items@);
    if i >= items.len() {
        proof {
            assert(vs.skip(i as int).len() == 0);
        }
        String::new()
    } else if i == items.len() - 1 {
        let mut s = "\"".to_owned();
        s.append(items[i].as_str());
        s.append("\"");
        proof {
            assert(vs[i as int] == items@[i as int]@);
            assert(vs.skip(i as int).len() == 1);
            assert(vs.skip(i as int)[0] == vs[i as int]);
            assert(s@ =~= arr_items_str(vs.skip(i as int)));
        }
        s
    } else {
        let mut s = "\"".to_owned();
        s.append(items[i].as_str());
        s.append("\"");
        s.append(", ");
        let rest = arr_items_to_string(items, i + 1);
        s.append(rest.as_str());
        proof {
            assert(vs[i as int] == items@[i as int]@);
            assert(vs.skip(i as int)[0] == vs[i as int]);
            assert(vs.skip(i as int).skip(1) =~= vs.skip(i + 1));
            assert(vs.skip(i as int).len() > 1);
            assert(s@ =~= arr_items_str(vs.skip(i as int)));
        }
        s
    }
}

/// An array value in brackets.
fn arr_to_string(items: &Vec<String>) -> (r: String)
    ensures
        r@ == arr_str(views_of(items@)),
{
    let mut s = "[".to_owned();
    let inner = arr_items_to_string(items, 0);
    s.append(inner.as_str());
    s.append("]");
    proof {
        assert(views_of(items@).skip(0) =~= views_of(items@));
        assert(s@ =~= arr_str(views_of(items@)));
    }
    s
}

impl Config {
    /// The reserve, threshold, mode and cadence lines as text.
    fn render_scalar_lines(&self) -> (r: String)
        ensures
            r@ == scalar_lines(self@),
    {
        let mut out = "reserve_mb = ".to_owned();
        out.append(u64_to_string(self.reserve_mb).as_str());
        out.append("\n");
        out.append("soft_threshold_pct = ");
        out.append(u64_to_string(self.soft_threshold_pct as u64).as_str());
        out.append("\n");
        out.append("hard_threshold_pct = ");
        out.append(u64_to_string(self.hard_threshold_pct as u64).as_str());
        out.append("\n");
        out.append("mode = ");
        out.append("\"");
        out.append(self.mode.as_str());
        out.append("\"");
        out.append("\n");
        out.append("scan_interval_sec = ");
        out.append(u64_to_string(self.scan_interval_sec).as_str());
        out.append("\n");
        proof {
            assert(out@ =~= scalar_lines(self@));
        }
        out
    }

    /// The exclusion, rate-cap and pressure-stall lines as text.
    fn render_policy_lines(&self) -> (r: String)
        ensures
            r@ == policy_lines(self@),
    {
        let mut out = "exclude_names = ".to_owned();
        out.append(arr_to_string(&self.exclude_names).as_str());
        out.append("\n");
        out.append("max_actions_per_min = ");
        out.append(u64_to_string(self.max_actions_per_min as u64).as_str());
        out.append("\n");
        out.append("psi_enabled = ");
        if self.psi_enabled {
            out.append("true");
        } else {
            out.append("false");
        }
        out.append("\n");
        out.append("psi_soft_pct = ");
        out.append(centi_to_string(self.psi_soft_centipct).as_str());
        out.append("\n");
        out.append("psi_hard_pct = ");
        out.append(centi_to_string(self.psi_hard_centipct).as_str());
        out.append("\n");
        out.append("protected_units = ");
        out.append(arr_to_string(&self.protected_units).as_str());
        out.append("\n");
        proof {
            assert(out@ =~= policy_lines(self@));
        }
        out
    }

    /// The `[cli]` table as text, empty when the table is absent.
    fn render_cli_lines(&self) -> (r: String)
        ensures
            r@ == cli_text(self@.cli),
    {
        let mut out = String::new();
        match &self.cli {
            Some(u) => {
                out.append("[cli]\n");
                match &u.color {
                    Some(s) => {
                        out.append("color = ");
                        out.append("\"");
                        out.append(s.as_str());
                        out.append("\"");
                        out.append("\n");
                    },
                    None => {},
                }
                match &u.unicode {
                    Some(s) => {
                        out.append("unicode = ");
                        out.append("\"");
                        out.append(s.as_str());
                        out.append("\"");
                        out.append("\n");
                    },
                    None => {},
                }
                match &u.table_max_width {
                    Some(w) => {
                        out.append("table_max_width = ");
                        out.append(u64_to_string(*w as u64).as_str());
                        out.append("\n");
                    },
                    None => {},
                }
                proof {
                    assert(out@ =~= cli_text(self@.cli));
                }
            },
            None => {
                proof {
                    assert(out@ =~= cli_text(self@.cli));
                }
            },
        }
        out
    }

    /// Render the configuration as file text that `from_toml` reads
    /// back: one line per setting, then the `[cli]` table when present.
    /// The `roundtrip` module proves that parsing this text yields the
    /// configuration again.
    pub fn to_toml(&self) -> (r: String)
        ensures
            r@ == toml_text(self@),
    {
        let mut out = self.render_scalar_lines();
        out.append(self.render_policy_lines().as_str());
        out.append(self.render_cli_lines().as_str());
        out
    }
}

} // verus!
