//! The configuration text inverts: what the printer renders, the parser
//! reads back. The value grammar inverts exactly (numerals, decimals,
//! quoted strings, arrays), and a whole rendered configuration parses
//! back to the configuration it came from, provided its strings survive
//! the file format.

use vstd::prelude::*;
use crate::config::{
    apply_cli_kv, apply_config_line, apply_config_lines, apply_root_kv, arr_items_str, arr_str,
    arr_value, bool_str, bool_value, centi_str, cli_text, config_of, dec_str, digit_char,
    empty_cli_v, init_state_v, policy_lines, quoted, quoted_str, parse_str_items, required_seen,
    scalar_lines, toml_text, u8_value, u32_value, u64_value, usize_value, CliUiV, ConfigV,
    ParseStV, Section, SeenFields,
};
use crate::text::{
    all_digits, centi_of, digit_val, digits_val, eq_split, frac2_val, is_digit, is_space_char,
    is_u64_string, lemma_first_index_at, lemma_split_concat, lemma_split_nosep,
    lemma_trim_extract, lemma_trim_of_padded, split_char, trim_spec,
};

verus! {

/// A digit's character carries the digit's value.
proof fn lemma_digit_char_val(d: int)
    requires
        0 <= d <= 9,
    ensures
        is_digit(digit_char(d)),
        digit_val(digit_char(d)) == d,
{
}

/// A rendered numeral is all digits and reads back to its value.
proof fn lemma_dec_str_props(v: int)
    requires
        v >= 0,
    ensures
        dec_str(v).len() >= 1,
        all_digits(dec_str(v)),
        digits_val(dec_str(v)) == v,
    decreases v,
{
    if v < 10 {
        lemma_digit_char_val(v);
        assert(seq![digit_char(v)].drop_last() =~= Seq::<char>::empty());
        assert(seq![digit_char(v)].last() == digit_char(v));
        assert(digits_val(Seq::<char>::empty()) == 0);
        assert(digits_val(seq![digit_char(v)]) == digit_val(digit_char(v)));
    } else {
        lemma_dec_str_props(v / 10);
        lemma_digit_char_val(v % 10);
        let s = dec_str(v / 10).push(digit_char(v % 10));
        assert(s.drop_last() =~= dec_str(v / 10));
        assert(s.last() == digit_char(v % 10));
        assert forall|j: int| 0 <= j < s.len() implies is_digit(#[trigger] s[j]) by {
            if j < s.len() - 1 {
                assert(s[j] == dec_str(v / 10)[j]);
            }
        }
    }
}

/// Printing a whole number and parsing it back yields the number: the
/// numeral rendering inverts.
pub proof fn lemma_dec_str_roundtrip(v: u64)
    ensures
        u64_value(dec_str(v as int)) == Some(v),
{
    lemma_dec_str_props(v as int);
}

/// Printing a fixed-point value in hundredths and parsing it back yields
/// the value: the decimal rendering inverts.
pub proof fn lemma_centi_roundtrip(v: u64)
    ensures
        centi_of(centi_str(v as int)) == Some(v as int),
{
    reveal_strlit(".");
    let w = v as int;
    let a = dec_str(w / 100);
    let tail = seq![digit_char((w % 100) / 10), digit_char(w % 10)];
    lemma_dec_str_props(w / 100);
    lemma_digit_char_val((w % 100) / 10);
    lemma_digit_char_val(w % 10);
    let s = centi_str(w);
    assert(s =~= a + seq!['.'] + tail);
    assert forall|j: int| 0 <= j < a.len() implies a[j] != '.' by {
        assert(is_digit(a[j]));
    }
    lemma_split_concat(a, '.', tail);
    lemma_split_nosep(tail, '.');
    let pieces = split_char(s, '.');
    assert(pieces =~= seq![a, tail]);
    assert(pieces.len() == 2);
    assert(pieces[0] == a);
    assert(pieces[1] == tail);
    assert(is_u64_string(a));
    assert(tail.len() == 2);
    assert(frac2_val(tail) == digits_val(tail.take(2)));
    assert(tail.take(2) =~= tail);
    assert(tail.drop_last() =~= seq![digit_char((w % 100) / 10)]);
    assert(seq![digit_char((w % 100) / 10)].drop_last() =~= Seq::<char>::empty());
    assert(seq![digit_char((w % 100) / 10)].last() == digit_char((w % 100) / 10));
    assert(digits_val(Seq::<char>::empty()) == 0);
    assert(digits_val(seq![digit_char((w % 100) / 10)]) == (w % 100) / 10);
    assert(tail.last() == digit_char(w % 10));
    assert(digits_val(tail) == 10 * ((w % 100) / 10) + w % 10);
    assert(10 * ((w % 100) / 10) + w % 10 == w % 100);
    assert(100 * (w / 100) + w % 100 == w);
}

/// Text that may stand inside quotes: it carries no quote of its own.
pub open spec fn quote_free(s: Seq<char>) -> bool {
    forall|j: int| 0 <= j < s.len() ==> s[j] != '"'
}

/// Quoting a quote-free text and parsing it back yields the text: the
/// string rendering inverts.
pub proof fn lemma_quoted_roundtrip(s: Seq<char>)
    requires
        quote_free(s),
    ensures
        quoted_str(quoted(s)) == Some(s),
{
    reveal_strlit("\"");
    let q = quoted(s);
    assert(q.len() == s.len() + 2);
    assert(q[0] == '"');
    assert(q.last() == '"');
    assert forall|i: int| 1 <= i < q.len() - 1 implies q[i] != '"' by {
        assert(q[i] == s[i - 1]);
    }
    assert(q.subrange(1, q.len() - 1) =~= s);
}

/// Text that may stand as an array element: no quote of its own, and no
/// comma, since a comma always separates elements.
pub open spec fn element_ok(s: Seq<char>) -> bool {
    forall|j: int| 0 <= j < s.len() ==> s[j] != '"' && s[j] != ','
}

/// A non-empty rendered element run begins and ends with a quote.
proof fn lemma_arr_items_ends(items: Seq<Seq<char>>)
    requires
        items.len() >= 1,
    ensures
        arr_items_str(items).len() >= 2,
        arr_items_str(items)[0] == '"',
        arr_items_str(items).last() == '"',
    decreases items.len(),
{
    reveal_strlit("\"");
    if items.len() == 1 {
        assert(arr_items_str(items) == quoted(items[0]));
        assert(quoted(items[0])[0] == '"');
        assert(quoted(items[0]).last() == '"');
    } else {
        lemma_arr_items_ends(items.skip(1));
        let s = quoted(items[0]) + ", "@ + arr_items_str(items.skip(1));
        assert(s[0] == quoted(items[0])[0]);
        assert(quoted(items[0])[0] == '"');
        assert(s.last() == arr_items_str(items.skip(1)).last());
    }
}

/// Parsing the rendered element run, under any leading space padding,
/// yields the elements.
proof fn lemma_items_roundtrip(items: Seq<Seq<char>>, pad: Seq<char>)
    requires
        items.len() >= 1,
        forall|k: int| 0 <= k < items.len() ==> element_ok(#[trigger] items[k]),
        forall|j: int| 0 <= j < pad.len() ==> pad[j] == ' ',
    ensures
        parse_str_items(split_char(pad + arr_items_str(items), ',')) == Some(items),
    decreases items.len(),
{
    reveal_strlit("\"");
    reveal_strlit(", ");
    let q0 = quoted(items[0]);
    assert(element_ok(items[0]));
    assert forall|j: int| 0 <= j < q0.len() implies q0[j] != ',' by {
        if 1 <= j < q0.len() - 1 {
            assert(q0[j] == items[0][j - 1]);
        }
    }
    assert(q0[0] == '"');
    assert(q0.last() == '"');
    assert forall|j: int| 0 <= j < pad.len() implies crate::text::is_space_char(
        #[trigger] pad[j],
    ) by {
        assert(pad[j] == ' ');
    }
    lemma_quoted_roundtrip(items[0]);
    if items.len() == 1 {
        let s = pad + arr_items_str(items);
        assert(arr_items_str(items) == q0);
        assert forall|j: int| 0 <= j < s.len() implies s[j] != ',' by {
            if j < pad.len() {
                assert(s[j] == pad[j]);
            } else {
                assert(s[j] == q0[j - pad.len()]);
            }
        }
        lemma_split_nosep(s, ',');
        lemma_trim_of_padded(pad, q0);
        let pieces = split_char(s, ',');
        assert(pieces.len() == 1);
        assert(pieces[0] == s);
        assert(trim_spec(s) == q0);
        assert(pieces.skip(1).len() == 0);
        assert(parse_str_items(pieces.skip(1)) == Some(Seq::<Seq<char>>::empty()));
        assert(seq![items[0]] + Seq::<Seq<char>>::empty() =~= items);
    } else {
        let rest = items.skip(1);
        assert forall|k: int| 0 <= k < rest.len() implies element_ok(#[trigger] rest[k]) by {
            assert(rest[k] == items[k + 1]);
        }
        let tail = seq![' '] + arr_items_str(rest);
        let head = pad + q0;
        let s = pad + arr_items_str(items);
        assert(", "@ =~= seq![',', ' ']);
        assert(arr_items_str(items) =~= q0 + seq![','] + tail);
        assert(s =~= head + seq![','] + tail);
        assert forall|j: int| 0 <= j < head.len() implies head[j] != ',' by {
            if j < pad.len() {
                assert(head[j] == pad[j]);
            } else {
                assert(head[j] == q0[j - pad.len()]);
            }
        }
        lemma_split_concat(head, ',', tail);
        lemma_items_roundtrip(rest, seq![' ']);
        lemma_trim_of_padded(pad, q0);
        let pieces = split_char(s, ',');
        assert(pieces =~= seq![head] + split_char(tail, ','));
        assert(pieces.len() >= 1);
        assert(pieces[0] == head);
        assert(trim_spec(head) == q0);
        assert(pieces.skip(1) =~= split_char(tail, ','));
        assert(parse_str_items(pieces.skip(1)) == Some(rest));
        assert(seq![items[0]] + rest =~= items);
    }
}

/// Text without a line break.
pub open spec fn newline_free(s: Seq<char>) -> bool {
    forall|j: int| 0 <= j < s.len() ==> s[j] != '\n'
}

/// A configuration whose strings survive the file format: the mode and
/// the cli strings carry no quote and no line break, and list elements
/// additionally no comma.
pub open spec fn text_safe(c: ConfigV) -> bool {
    &&& quote_free(c.mode) && newline_free(c.mode)
    &&& forall|k: int|
        0 <= k < c.exclude_names.len() ==> element_ok(#[trigger] c.exclude_names[k])
            && newline_free(c.exclude_names[k])
    &&& forall|k: int|
        0 <= k < c.protected_units.len() ==> element_ok(#[trigger] c.protected_units[k])
            && newline_free(c.protected_units[k])
    &&& match c.cli {
        Some(u) => {
            &&& match u.color {
                Some(s) => quote_free(s) && newline_free(s),
                None => true,
            }
            &&& match u.unicode {
                Some(s) => quote_free(s) && newline_free(s),
                None => true,
            }
        },
        None => true,
    }
}

/// A rendered value: non-empty, delimited by non-spaces, and on one line.
pub open spec fn value_text_ok(v: Seq<char>) -> bool {
    &&& v.len() > 0
    &&& !is_space_char(v[0])
    &&& !is_space_char(v.last())
    &&& newline_free(v)
}

/// A rendered numeral is a value: digits only.
proof fn lemma_dec_str_text(v: int)
    requires
        v >= 0,
    ensures
        value_text_ok(dec_str(v)),
{
    lemma_dec_str_props(v);
    let s = dec_str(v);
    assert forall|j: int| 0 <= j < s.len() implies s[j] != '\n' by {
        assert(is_digit(s[j]));
    }
    assert(is_digit(s[0]));
    assert(is_digit(s.last()));
}

/// A rendered fixed-point decimal is a value: digits and one dot.
proof fn lemma_centi_str_text(v: int)
    requires
        v >= 0,
    ensures
        value_text_ok(centi_str(v)),
{
    reveal_strlit(".");
    lemma_dec_str_props(v / 100);
    lemma_digit_char_val((v % 100) / 10);
    lemma_digit_char_val(v % 10);
    let s = centi_str(v);
    let a = dec_str(v / 100);
    assert(s[0] == a[0]);
    assert(is_digit(a[0]));
    assert(s.last() == digit_char(v % 10));
    assert forall|j: int| 0 <= j < s.len() implies s[j] != '\n' by {
        if j < a.len() {
            assert(s[j] == a[j]);
            assert(is_digit(a[j]));
        } else if j == a.len() {
            assert(s[j] == '.');
        } else if j == s.len() - 2 {
            assert(s[j] == digit_char((v % 100) / 10));
        } else {
            assert(s[j] == digit_char(v % 10));
        }
    }
}

/// A rendered quoted string is a value when its content is on one line.
proof fn lemma_quoted_text(x: Seq<char>)
    requires
        newline_free(x),
    ensures
        value_text_ok(quoted(x)),
{
    reveal_strlit("\"");
    let s = quoted(x);
    assert(s[0] == '"');
    assert(s.last() == '"');
    assert forall|j: int| 0 <= j < s.len() implies s[j] != '\n' by {
        if 1 <= j < s.len() - 1 {
            assert(s[j] == x[j - 1]);
        }
    }
}

/// A rendered boolean is a value.
proof fn lemma_bool_str_text(b: bool)
    ensures
        value_text_ok(bool_str(b)),
{
    reveal_strlit("true");
    reveal_strlit("false");
    assert(value_text_ok("true"@));
    assert(value_text_ok("false"@));
}

/// A rendered element run stays on one line.
proof fn lemma_arr_items_text(items: Seq<Seq<char>>)
    requires
        items.len() >= 1,
        forall|k: int| 0 <= k < items.len() ==> newline_free(#[trigger] items[k]),
    ensures
        newline_free(arr_items_str(items)),
    decreases items.len(),
{
    reveal_strlit("\"");
    reveal_strlit(", ");
    let q0 = quoted(items[0]);
    assert forall|j: int| 0 <= j < q0.len() implies q0[j] != '\n' by {
        if 1 <= j < q0.len() - 1 {
            assert(q0[j] == items[0][j - 1]);
        }
    }
    if items.len() == 1 {
    } else {
        let rest = items.skip(1);
        assert forall|k: int| 0 <= k < rest.len() implies newline_free(#[trigger] rest[k]) by {
            assert(rest[k] == items[k + 1]);
        }
        lemma_arr_items_text(rest);
        let s = q0 + ", "@ + arr_items_str(rest);
        assert forall|j: int| 0 <= j < s.len() implies s[j] != '\n' by {
            if j < q0.len() {
                assert(s[j] == q0[j]);
            } else if j < q0.len() + 2 {
                assert(s[j] == ", "@[j - q0.len()]);
            } else {
                assert(s[j] == arr_items_str(rest)[j - q0.len() - 2]);
            }
        }
    }
}

/// A rendered array is a value when its elements stay on one line.
proof fn lemma_arr_str_text(items: Seq<Seq<char>>)
    requires
        forall|k: int| 0 <= k < items.len() ==> newline_free(#[trigger] items[k]),
    ensures
        value_text_ok(arr_str(items)),
{
    reveal_strlit("[");
    reveal_strlit("]");
    let inner = arr_items_str(items);
    let s = arr_str(items);
    assert(s[0] == '[');
    assert(s.last() == ']');
    if items.len() == 0 {
        assert(inner =~= Seq::<char>::empty());
        assert forall|j: int| 0 <= j < s.len() implies s[j] != '\n' by {}
    } else {
        lemma_arr_items_text(items);
        assert forall|j: int| 0 <= j < s.len() implies s[j] != '\n' by {
            if 1 <= j < s.len() - 1 {
                assert(s[j] == inner[j - 1]);
            }
        }
    }
}

/// A key as it may stand on a line: no space, `=`, line break, and not
/// opening as a comment or header.
pub open spec fn key_text_ok(key: Seq<char>) -> bool {
    &&& key.len() > 0
    &&& forall|j: int|
        0 <= j < key.len() ==> !is_space_char(#[trigger] key[j]) && key[j] != '='
            && key[j] != '\n'
    &&& key[0] != '#'
    &&& key[0] != '['
}

/// A rendered `key = value` line parses back into the key and the value,
/// dispatched to the current table.
#[verifier::rlimit(100)]
#[verifier::spinoff_prover]
proof fn lemma_kv_line(st: ParseStV, key: Seq<char>, val: Seq<char>)
    requires
        key_text_ok(key),
        val.len() > 0,
        !is_space_char(val[0]),
        !is_space_char(val.last()),
    ensures
        apply_config_line(st, key + " = "@ + val) == (match st.section {
            Section::Root => apply_root_kv(st, key, val),
            Section::Cli => apply_cli_kv(st, key, val),
            Section::Other => Some(st),
        }),
{
    reveal_strlit(" = ");
    let l = key + " = "@ + val;
    assert(" = "@.len() == 3);
    assert(" = "@[0] == ' ');
    assert(" = "@[1] == '=');
    assert(" = "@[2] == ' ');
    assert(l[0] == key[0]);
    assert(l.last() == val.last());
    assert(Seq::<char>::empty() + l + Seq::<char>::empty() =~= l);
    lemma_trim_extract(Seq::empty(), l, Seq::empty());
    assert(trim_spec(l) == l);
    let k = key.len() as int;
    assert forall|j: int| 0 <= j < k + 1 implies l[j] != '=' by {
        if j < k {
            assert(l[j] == key[j]);
        } else {
            assert(l[j] == ' ');
        }
    }
    assert(l[k + 1] == '=');
    lemma_first_index_at(l, '=', k + 1);
    assert(l.take(k + 1) =~= key + seq![' ']);
    assert(l.skip(k + 2) =~= seq![' '] + val);
    assert(key + seq![' '] =~= Seq::<char>::empty() + key + seq![' ']);
    lemma_trim_extract(Seq::empty(), key, seq![' ']);
    assert(trim_spec(key + seq![' ']) == key);
    assert(seq![' '] + val =~= seq![' '] + val + Seq::<char>::empty());
    lemma_trim_extract(seq![' '], val, Seq::empty());
    assert(trim_spec(seq![' '] + val) == val);
    assert(eq_split(l) == Some((key + seq![' '], seq![' '] + val)));
}

/// Peeling one full line off the text advances the parse by one step.
proof fn lemma_line_step(st: ParseStV, st2: ParseStV, l: Seq<char>, rest: Seq<char>)
    requires
        newline_free(l),
        apply_config_line(st, l) == Some(st2),
    ensures
        apply_config_lines(st, split_char(l + seq!['\n'] + rest, '\n')) == apply_config_lines(
            st2,
            split_char(rest, '\n'),
        ),
{
    lemma_split_concat(l, '\n', rest);
    let lines = seq![l] + split_char(rest, '\n');
    assert(lines[0] == l);
    assert(lines.len() >= 1);
    assert(lines.skip(1) =~= split_char(rest, '\n'));
}

/// The trailing empty line after the final newline parses to no change.
proof fn lemma_empty_tail(st: ParseStV)
    ensures
        apply_config_lines(st, split_char(Seq::empty(), '\n')) == Some(st),
{
    lemma_split_nosep(Seq::empty(), '\n');
    let lines = seq![Seq::<char>::empty()];
    assert(crate::text::leading_spaces(Seq::<char>::empty()) == 0);
    assert(trim_spec(Seq::empty()) =~= Seq::<char>::empty());
    assert(apply_config_line(st, Seq::empty()) == Some(st));
    assert(lines.skip(1) =~= Seq::<Seq<char>>::empty());
    assert(apply_config_lines(st, lines.skip(1)) == Some(st));
    assert(apply_config_lines(st, lines) == Some(st));
}

/// One rendered root-table line peeled off the text: the parse advances
/// by exactly the key's field update.
proof fn lemma_root_line_step(
    st: ParseStV,
    st2: ParseStV,
    keyeq: Seq<char>,
    key: Seq<char>,
    val: Seq<char>,
    rest: Seq<char>,
)
    requires
        st.section == Section::Root,
        keyeq == key + " = "@,
        key_text_ok(key),
        value_text_ok(val),
        apply_root_kv(st, key, val) == Some(st2),
    ensures
        apply_config_lines(st, split_char(keyeq + val + seq!['\n'] + rest, '\n'))
            == apply_config_lines(st2, split_char(rest, '\n')),
{
    reveal_strlit(" = ");
    let l = key + " = "@ + val;
    assert(keyeq + val =~= l);
    assert(" = "@.len() == 3);
    assert(" = "@[0] == ' ');
    assert(" = "@[1] == '=');
    assert(" = "@[2] == ' ');
    assert forall|j: int| 0 <= j < l.len() implies l[j] != '\n' by {
        if j < key.len() {
            assert(l[j] == key[j]);
        } else if j < key.len() + 3 {
            assert(l[j] == " = "@[j - key.len()]);
        } else {
            assert(l[j] == val[j - key.len() - 3]);
        }
    }
    lemma_kv_line(st, key, val);
    lemma_line_step(st, st2, l, rest);
    assert(keyeq + val + seq!['\n'] + rest =~= l + seq!['\n'] + rest);
}

/// The parse state after the reserve, threshold, mode and cadence lines.
pub open spec fn state_after_scalars(st0: ParseStV, c: ConfigV) -> ParseStV {
    ParseStV {
        cfg: ConfigV {
            reserve_mb: c.reserve_mb,
            soft_threshold_pct: c.soft_threshold_pct,
            hard_threshold_pct: c.hard_threshold_pct,
            mode: c.mode,
            scan_interval_sec: c.scan_interval_sec,
            ..st0.cfg
        },
        seen: SeenFields {
            reserve_mb: true,
            soft_threshold_pct: true,
            hard_threshold_pct: true,
            mode: true,
            scan_interval_sec: true,
            ..st0.seen
        },
        section: Section::Root,
    }
}

/// Parsing the rendered scalar lines sets exactly the five scalar
/// settings and marks them met.
proof fn lemma_scalar_lines_apply(st0: ParseStV, c: ConfigV, rest: Seq<char>)
    requires
        st0.section == Section::Root,
        quote_free(c.mode),
        newline_free(c.mode),
    ensures
        apply_config_lines(st0, split_char(scalar_lines(c) + rest, '\n')) == apply_config_lines(
            state_after_scalars(st0, c),
            split_char(rest, '\n'),
        ),
{
    reveal_strlit("\n");
    reveal_strlit(" = ");
    reveal_strlit("reserve_mb = ");
    reveal_strlit("reserve_mb");
    reveal_strlit("soft_threshold_pct = ");
    reveal_strlit("soft_threshold_pct");
    reveal_strlit("hard_threshold_pct = ");
    reveal_strlit("hard_threshold_pct");
    reveal_strlit("mode = ");
    reveal_strlit("mode");
    reveal_strlit("scan_interval_sec = ");
    reveal_strlit("scan_interval_sec");
    assert("reserve_mb"@.len() == 10);
    assert("soft_threshold_pct"@.len() == 18);
    assert("hard_threshold_pct"@.len() == 18);
    assert("soft_threshold_pct"@[0] == 's');
    assert("hard_threshold_pct"@[0] == 'h');
    assert("mode"@.len() == 4);
    assert("scan_interval_sec"@.len() == 17);
    assert("\n"@ =~= seq!['\n']);
    assert(key_text_ok("reserve_mb"@));
    assert(key_text_ok("soft_threshold_pct"@));
    assert(key_text_ok("hard_threshold_pct"@));
    assert(key_text_ok("mode"@));
    assert(key_text_ok("scan_interval_sec"@));
    assert("reserve_mb = "@ =~= "reserve_mb"@ + " = "@);
    assert("soft_threshold_pct = "@ =~= "soft_threshold_pct"@ + " = "@);
    assert("hard_threshold_pct = "@ =~= "hard_threshold_pct"@ + " = "@);
    assert("mode = "@ =~= "mode"@ + " = "@);
    assert("scan_interval_sec = "@ =~= "scan_interval_sec"@ + " = "@);

    let v1 = dec_str(c.reserve_mb as int);
    let v2 = dec_str(c.soft_threshold_pct as int);
    let v3 = dec_str(c.hard_threshold_pct as int);
    let v4 = quoted(c.mode);
    let v5 = dec_str(c.scan_interval_sec as int);
    lemma_dec_str_text(c.reserve_mb as int);
    lemma_dec_str_text(c.soft_threshold_pct as int);
    lemma_dec_str_text(c.hard_threshold_pct as int);
    lemma_quoted_text(c.mode);
    lemma_dec_str_text(c.scan_interval_sec as int);
    lemma_dec_str_roundtrip(c.reserve_mb);
    lemma_dec_str_roundtrip(c.soft_threshold_pct as u64);
    lemma_dec_str_roundtrip(c.hard_threshold_pct as u64);
    lemma_quoted_roundtrip(c.mode);
    lemma_dec_str_roundtrip(c.scan_interval_sec);
    crate::text::lemma_digits_val_nonneg(v2);
    crate::text::lemma_digits_val_nonneg(v3);
    assert(u8_value(v2) == Some(c.soft_threshold_pct));
    assert(u8_value(v3) == Some(c.hard_threshold_pct));

    let st1 = ParseStV {
        cfg: ConfigV { reserve_mb: c.reserve_mb, ..st0.cfg },
        seen: SeenFields { reserve_mb: true, ..st0.seen },
        ..st0
    };
    let st2 = ParseStV {
        cfg: ConfigV { soft_threshold_pct: c.soft_threshold_pct, ..st1.cfg },
        seen: SeenFields { soft_threshold_pct: true, ..st1.seen },
        ..st1
    };
    let st3 = ParseStV {
        cfg: ConfigV { hard_threshold_pct: c.hard_threshold_pct, ..st2.cfg },
        seen: SeenFields { hard_threshold_pct: true, ..st2.seen },
        ..st2
    };
    let st4 = ParseStV {
        cfg: ConfigV { mode: c.mode, ..st3.cfg },
        seen: SeenFields { mode: true, ..st3.seen },
        ..st3
    };
    let st5 = ParseStV {
        cfg: ConfigV { scan_interval_sec: c.scan_interval_sec, ..st4.cfg },
        seen: SeenFields { scan_interval_sec: true, ..st4.seen },
        ..st4
    };
    assert(apply_root_kv(st0, "reserve_mb"@, v1) == Some(st1));
    assert(apply_root_kv(st1, "soft_threshold_pct"@, v2) == Some(st2));
    assert(apply_root_kv(st2, "hard_threshold_pct"@, v3) == Some(st3));
    assert(apply_root_kv(st3, "mode"@, v4) == Some(st4));
    assert(apply_root_kv(st4, "scan_interval_sec"@, v5) == Some(st5));

    let t5 = rest;
    let t4 = "scan_interval_sec = "@ + v5 + "\n"@ + t5;
    let t3 = "mode = "@ + v4 + "\n"@ + t4;
    let t2 = "hard_threshold_pct = "@ + v3 + "\n"@ + t3;
    let t1 = "soft_threshold_pct = "@ + v2 + "\n"@ + t2;
    assert(scalar_lines(c) + rest =~= "reserve_mb = "@ + v1 + seq!['\n'] + t1);
    assert(t1 =~= "soft_threshold_pct = "@ + v2 + seq!['\n'] + t2);
    assert(t2 =~= "hard_threshold_pct = "@ + v3 + seq!['\n'] + t3);
    assert(t3 =~= "mode = "@ + v4 + seq!['\n'] + t4);
    assert(t4 =~= "scan_interval_sec = "@ + v5 + seq!['\n'] + t5);
    lemma_root_line_step(st0, st1, "reserve_mb = "@, "reserve_mb"@, v1, t1);
    lemma_root_line_step(st1, st2, "soft_threshold_pct = "@, "soft_threshold_pct"@, v2, t2);
    lemma_root_line_step(st2, st3, "hard_threshold_pct = "@, "hard_threshold_pct"@, v3, t3);
    lemma_root_line_step(st3, st4, "mode = "@, "mode"@, v4, t4);
    lemma_root_line_step(st4, st5, "scan_interval_sec = "@, "scan_interval_sec"@, v5, t5);
    assert(st5 =~= state_after_scalars(st0, c));
}

/// Printing a string array and parsing it back yields the same elements:
/// the array rendering inverts.
pub proof fn lemma_arr_roundtrip(items: Seq<Seq<char>>)
    requires
        forall|k: int| 0 <= k < items.len() ==> element_ok(#[trigger] items[k]),
    ensures
        arr_value(arr_str(items)) == Some(items),
{
    reveal_strlit("[");
    reveal_strlit("]");
    let inner = arr_items_str(items);
    let v = arr_str(items);
    assert(v =~= seq!['['] + inner + seq![']']);
    assert(v.len() >= 2);
    assert(v[0] == '[');
    assert(v.last() == ']');
    assert(v.subrange(1, v.len() - 1) =~= inner);
    if items.len() == 0 {
        assert(inner =~= Seq::<char>::empty());
        assert(crate::text::leading_spaces(inner) == 0);
        assert(trim_spec(inner) =~= Seq::<char>::empty());
    } else {
        lemma_arr_items_ends(items);
        reveal_strlit("\"");
        assert(!crate::text::is_space_char(inner[0]));
        assert(!crate::text::is_space_char(inner.last()));
        assert(Seq::<char>::empty() + inner =~= inner);
        lemma_trim_of_padded(Seq::empty(), inner);
        assert(trim_spec(inner) == inner);
        lemma_items_roundtrip(items, Seq::empty());
        assert(Seq::<char>::empty() + inner =~= inner);
    }
}


/// The parse state after the exclusion, rate-cap and pressure-stall
/// lines.
pub open spec fn state_after_policy(st0: ParseStV, c: ConfigV) -> ParseStV {
    ParseStV {
        cfg: ConfigV {
            exclude_names: c.exclude_names,
            max_actions_per_min: c.max_actions_per_min,
            psi_enabled: c.psi_enabled,
            psi_soft_centipct: c.psi_soft_centipct,
            psi_hard_centipct: c.psi_hard_centipct,
            protected_units: c.protected_units,
            ..st0.cfg
        },
        seen: SeenFields { exclude_names: true, max_actions_per_min: true, ..st0.seen },
        section: Section::Root,
    }
}

/// Parsing the rendered policy lines sets exactly the six policy
/// settings and marks the required two met.
#[verifier::rlimit(100)]
#[verifier::spinoff_prover]
proof fn lemma_policy_lines_apply(st0: ParseStV, c: ConfigV, rest: Seq<char>)
    requires
        st0.section == Section::Root,
        forall|k: int|
            0 <= k < c.exclude_names.len() ==> element_ok(#[trigger] c.exclude_names[k])
                && newline_free(c.exclude_names[k]),
        forall|k: int|
            0 <= k < c.protected_units.len() ==> element_ok(#[trigger] c.protected_units[k])
                && newline_free(c.protected_units[k]),
    ensures
        apply_config_lines(st0, split_char(policy_lines(c) + rest, '\n')) == apply_config_lines(
            state_after_policy(st0, c),
            split_char(rest, '\n'),
        ),
{
    reveal_strlit("\n");
    reveal_strlit(" = ");
    reveal_strlit("reserve_mb");
    reveal_strlit("soft_threshold_pct");
    reveal_strlit("hard_threshold_pct");
    reveal_strlit("mode");
    reveal_strlit("scan_interval_sec");
    reveal_strlit("exclude_names = ");
    reveal_strlit("exclude_names");
    reveal_strlit("max_actions_per_min = ");
    reveal_strlit("max_actions_per_min");
    reveal_strlit("psi_enabled = ");
    reveal_strlit("psi_enabled");
    reveal_strlit("psi_soft_pct = ");
    reveal_strlit("psi_soft_pct");
    reveal_strlit("psi_hard_pct = ");
    reveal_strlit("psi_hard_pct");
    reveal_strlit("protected_units = ");
    reveal_strlit("protected_units");
    reveal_strlit("true");
    reveal_strlit("false");
    assert("reserve_mb"@.len() == 10);
    assert("soft_threshold_pct"@.len() == 18);
    assert("hard_threshold_pct"@.len() == 18);
    assert("mode"@.len() == 4);
    assert("scan_interval_sec"@.len() == 17);
    assert("exclude_names"@.len() == 13);
    assert("max_actions_per_min"@.len() == 19);
    assert("psi_enabled"@.len() == 11);
    assert("psi_soft_pct"@.len() == 12);
    assert("psi_hard_pct"@.len() == 12);
    assert("psi_soft_pct"@[4] == 's');
    assert("psi_hard_pct"@[4] == 'h');
    assert("protected_units"@.len() == 15);
    assert("\n"@ =~= seq!['\n']);
    assert(key_text_ok("exclude_names"@));
    assert(key_text_ok("max_actions_per_min"@));
    assert(key_text_ok("psi_enabled"@));
    assert(key_text_ok("psi_soft_pct"@));
    assert(key_text_ok("psi_hard_pct"@));
    assert(key_text_ok("protected_units"@));
    assert("exclude_names = "@ =~= "exclude_names"@ + " = "@);
    assert("max_actions_per_min = "@ =~= "max_actions_per_min"@ + " = "@);
    assert("psi_enabled = "@ =~= "psi_enabled"@ + " = "@);
    assert("psi_soft_pct = "@ =~= "psi_soft_pct"@ + " = "@);
    assert("psi_hard_pct = "@ =~= "psi_hard_pct"@ + " = "@);
    assert("protected_units = "@ =~= "protected_units"@ + " = "@);

    let v1 = arr_str(c.exclude_names);
    let v2 = dec_str(c.max_actions_per_min as int);
    let v3 = bool_str(c.psi_enabled);
    let v4 = centi_str(c.psi_soft_centipct as int);
    let v5 = centi_str(c.psi_hard_centipct as int);
    let v6 = arr_str(c.protected_units);
    lemma_arr_str_text(c.exclude_names);
    lemma_dec_str_text(c.max_actions_per_min as int);
    lemma_bool_str_text(c.psi_enabled);
    lemma_centi_str_text(c.psi_soft_centipct as int);
    lemma_centi_str_text(c.psi_hard_centipct as int);
    lemma_arr_str_text(c.protected_units);
    lemma_arr_roundtrip(c.exclude_names);
    lemma_dec_str_roundtrip(c.max_actions_per_min as u64);
    crate::text::lemma_digits_val_nonneg(v2);
    assert(u32_value(v2) == Some(c.max_actions_per_min));
    assert(bool_value(v3) == Some(c.psi_enabled)) by {
        assert("true"@.len() == 4);
        assert("false"@.len() == 5);
    }
    lemma_centi_roundtrip(c.psi_soft_centipct);
    lemma_centi_roundtrip(c.psi_hard_centipct);
    lemma_arr_roundtrip(c.protected_units);

    let st1 = ParseStV {
        cfg: ConfigV { exclude_names: c.exclude_names, ..st0.cfg },
        seen: SeenFields { exclude_names: true, ..st0.seen },
        ..st0
    };
    let st2 = ParseStV {
        cfg: ConfigV { max_actions_per_min: c.max_actions_per_min, ..st1.cfg },
        seen: SeenFields { max_actions_per_min: true, ..st1.seen },
        ..st1
    };
    let st3 = ParseStV { cfg: ConfigV { psi_enabled: c.psi_enabled, ..st2.cfg }, ..st2 };
    let st4 = ParseStV {
        cfg: ConfigV { psi_soft_centipct: c.psi_soft_centipct, ..st3.cfg },
        ..st3
    };
    let st5 = ParseStV {
        cfg: ConfigV { psi_hard_centipct: c.psi_hard_centipct, ..st4.cfg },
        ..st4
    };
    let st6 = ParseStV {
        cfg: ConfigV { protected_units: c.protected_units, ..st5.cfg },
        ..st5
    };
    assert(apply_root_kv(st0, "exclude_names"@, v1) == Some(st1));
    assert(apply_root_kv(st1, "max_actions_per_min"@, v2) == Some(st2));
    assert(apply_root_kv(st2, "psi_enabled"@, v3) == Some(st3));
    assert(apply_root_kv(st3, "psi_soft_pct"@, v4) == Some(st4));
    assert(apply_root_kv(st4, "psi_hard_pct"@, v5) == Some(st5));
    assert(apply_root_kv(st5, "protected_units"@, v6) == Some(st6));

    let t6 = rest;
    let t5 = "protected_units = "@ + v6 + "\n"@ + t6;
    let t4 = "psi_hard_pct = "@ + v5 + "\n"@ + t5;
    let t3 = "psi_soft_pct = "@ + v4 + "\n"@ + t4;
    let t2 = "psi_enabled = "@ + v3 + "\n"@ + t3;
    let t1 = "max_actions_per_min = "@ + v2 + "\n"@ + t2;
    assert(policy_lines(c) + rest =~= "exclude_names = "@ + v1 + seq!['\n'] + t1);
    assert(t1 =~= "max_actions_per_min = "@ + v2 + seq!['\n'] + t2);
    assert(t2 =~= "psi_enabled = "@ + v3 + seq!['\n'] + t3);
    assert(t3 =~= "psi_soft_pct = "@ + v4 + seq!['\n'] + t4);
    assert(t4 =~= "psi_hard_pct = "@ + v5 + seq!['\n'] + t5);
    assert(t5 =~= "protected_units = "@ + v6 + seq!['\n'] + t6);
    lemma_root_line_step(st0, st1, "exclude_names = "@, "exclude_names"@, v1, t1);
    lemma_root_line_step(st1, st2, "max_actions_per_min = "@, "max_actions_per_min"@, v2, t2);
    lemma_root_line_step(st2, st3, "psi_enabled = "@, "psi_enabled"@, v3, t3);
    lemma_root_line_step(st3, st4, "psi_soft_pct = "@, "psi_soft_pct"@, v4, t4);
    lemma_root_line_step(st4, st5, "psi_hard_pct = "@, "psi_hard_pct"@, v5, t5);
    lemma_root_line_step(st5, st6, "protected_units = "@, "protected_units"@, v6, t6);
    assert(st6 =~= state_after_policy(st0, c));
}

/// One rendered `[cli]`-table line peeled off the text.
proof fn lemma_cli_line_step(
    st: ParseStV,
    st2: ParseStV,
    keyeq: Seq<char>,
    key: Seq<char>,
    val: Seq<char>,
    rest: Seq<char>,
)
    requires
        st.section == Section::Cli,
        keyeq == key + " = "@,
        key_text_ok(key),
        value_text_ok(val),
        apply_cli_kv(st, key, val) == Some(st2),
    ensures
        apply_config_lines(st, split_char(keyeq + val + seq!['\n'] + rest, '\n'))
            == apply_config_lines(st2, split_char(rest, '\n')),
{
    reveal_strlit(" = ");
    let l = key + " = "@ + val;
    assert(keyeq + val =~= l);
    assert(" = "@.len() == 3);
    assert(" = "@[0] == ' ');
    assert(" = "@[1] == '=');
    assert(" = "@[2] == ' ');
    assert forall|j: int| 0 <= j < l.len() implies l[j] != '\n' by {
        if j < key.len() {
            assert(l[j] == key[j]);
        } else if j < key.len() + 3 {
            assert(l[j] == " = "@[j - key.len()]);
        } else {
            assert(l[j] == val[j - key.len() - 3]);
        }
    }
    lemma_kv_line(st, key, val);
    lemma_line_step(st, st2, l, rest);
    assert(keyeq + val + seq!['\n'] + rest =~= l + seq!['\n'] + rest);
}

/// Parsing the rendered `[cli]` table rebuilds it exactly; without one
/// the state is unchanged.
#[verifier::rlimit(100)]
#[verifier::spinoff_prover]
proof fn lemma_cli_lines_apply(st0: ParseStV, cli: Option<CliUiV>)
    requires
        st0.section == Section::Root,
        st0.cfg.cli is None,
        match cli {
            Some(u) => {
                &&& match u.color {
                    Some(s) => quote_free(s) && newline_free(s),
                    None => true,
                }
                &&& match u.unicode {
                    Some(s) => quote_free(s) && newline_free(s),
                    None => true,
                }
            },
            None => true,
        },
    ensures
        apply_config_lines(st0, split_char(cli_text(cli), '\n')) == Some(
            (match cli {
                Some(u) => ParseStV {
                    cfg: ConfigV { cli: Some(u), ..st0.cfg },
                    section: Section::Cli,
                    ..st0
                },
                None => st0,
            }),
        ),
{
    reveal_strlit("\n");
    reveal_strlit(" = ");
    reveal_strlit("[cli]");
    reveal_strlit("[cli]\n");
    reveal_strlit("color = ");
    reveal_strlit("color");
    reveal_strlit("unicode = ");
    reveal_strlit("unicode");
    reveal_strlit("table_max_width = ");
    reveal_strlit("table_max_width");
    assert("\n"@ =~= seq!['\n']);
    match cli {
        None => {
            assert(cli_text(cli) =~= Seq::<char>::empty());
            lemma_empty_tail(st0);
        },
        Some(u) => {
            assert("color"@.len() == 5);
            assert("unicode"@.len() == 7);
            assert("table_max_width"@.len() == 15);
            assert(key_text_ok("color"@));
            assert(key_text_ok("unicode"@));
            assert(key_text_ok("table_max_width"@));
            assert("color = "@ =~= "color"@ + " = "@);
            assert("unicode = "@ =~= "unicode"@ + " = "@);
            assert("table_max_width = "@ =~= "table_max_width"@ + " = "@);
            // The header line.
            let header = "[cli]"@;
            assert(header.len() == 5);
            assert(header[0] == '[');
            assert(header.last() == ']');
            assert(Seq::<char>::empty() + header + Seq::<char>::empty() =~= header);
            lemma_trim_extract(Seq::empty(), header, Seq::empty());
            assert(trim_spec(header) == header);
            let st_h = ParseStV {
                cfg: ConfigV { cli: Some(empty_cli_v()), ..st0.cfg },
                section: Section::Cli,
                ..st0
            };
            assert(apply_config_line(st0, header) == Some(st_h));
            assert(newline_free(header));
            let part_c: Seq<char> = match u.color {
                Some(s) => "color = "@ + quoted(s) + "\n"@,
                None => Seq::empty(),
            };
            let part_u: Seq<char> = match u.unicode {
                Some(s) => "unicode = "@ + quoted(s) + "\n"@,
                None => Seq::empty(),
            };
            let part_w: Seq<char> = match u.table_max_width {
                Some(w) => "table_max_width = "@ + dec_str(w as int) + "\n"@,
                None => Seq::empty(),
            };
            let rest_h = part_c + part_u + part_w;
            assert(cli_text(cli) =~= header + seq!['\n'] + rest_h);
            lemma_line_step(st0, st_h, header, rest_h);
            // The color line, when present.
            let cli_c = match u.color {
                Some(s) => CliUiV { color: Some(s), ..empty_cli_v() },
                None => empty_cli_v(),
            };
            let st_c = ParseStV { cfg: ConfigV { cli: Some(cli_c), ..st_h.cfg }, ..st_h };
            let rest_c = part_u + part_w;
            match u.color {
                Some(s) => {
                    lemma_quoted_text(s);
                    lemma_quoted_roundtrip(s);
                    assert(apply_cli_kv(st_h, "color"@, quoted(s)) == Some(st_c));
                    assert(rest_h =~= "color = "@ + quoted(s) + seq!['\n'] + rest_c);
                    lemma_cli_line_step(st_h, st_c, "color = "@, "color"@, quoted(s), rest_c);
                },
                None => {
                    assert(rest_h =~= rest_c);
                    assert(st_c =~= st_h);
                },
            }
            // The unicode line, when present.
            let cli_u = match u.unicode {
                Some(s) => CliUiV { unicode: Some(s), ..cli_c },
                None => cli_c,
            };
            let st_u = ParseStV { cfg: ConfigV { cli: Some(cli_u), ..st_c.cfg }, ..st_c };
            let rest_u = part_w;
            match u.unicode {
                Some(s) => {
                    lemma_quoted_text(s);
                    lemma_quoted_roundtrip(s);
                    assert(apply_cli_kv(st_c, "unicode"@, quoted(s)) == Some(st_u));
                    assert(rest_c =~= "unicode = "@ + quoted(s) + seq!['\n'] + rest_u);
                    lemma_cli_line_step(st_c, st_u, "unicode = "@, "unicode"@, quoted(s), rest_u);
                },
                None => {
                    assert(rest_c =~= rest_u);
                    assert(st_u =~= st_c);
                },
            }
            // The width line, when present.
            let cli_w = match u.table_max_width {
                Some(w) => CliUiV { table_max_width: Some(w), ..cli_u },
                None => cli_u,
            };
            let st_w = ParseStV { cfg: ConfigV { cli: Some(cli_w), ..st_u.cfg }, ..st_u };
            match u.table_max_width {
                Some(w) => {
                    lemma_dec_str_text(w as int);
                    lemma_dec_str_props(w as int);
                    crate::text::lemma_digits_val_nonneg(dec_str(w as int));
                    assert(usize_value(dec_str(w as int)) == Some(w));
                    assert(apply_cli_kv(st_u, "table_max_width"@, dec_str(w as int)) == Some(
                        st_w,
                    ));
                    assert(rest_u =~= "table_max_width = "@ + dec_str(w as int) + seq!['\n']
                        + Seq::<char>::empty());
                    lemma_cli_line_step(
                        st_u,
                        st_w,
                        "table_max_width = "@,
                        "table_max_width"@,
                        dec_str(w as int),
                        Seq::empty(),
                    );
                },
                None => {
                    assert(rest_u =~= Seq::<char>::empty());
                    assert(st_w =~= st_u);
                },
            }
            lemma_empty_tail(st_w);
            assert(cli_w =~= u);
            assert(st_w =~= ParseStV {
                cfg: ConfigV { cli: Some(u), ..st0.cfg },
                section: Section::Cli,
                ..st0
            });
        },
    }
}

/// Printing a configuration and parsing the text back yields the same
/// configuration, whenever its strings survive the file format.
pub proof fn lemma_toml_round_trip(c: ConfigV)
    requires
        text_safe(c),
    ensures
        config_of(toml_text(c)) == Some(c),
{
    let st0 = init_state_v();
    let rest1 = policy_lines(c) + cli_text(c.cli);
    assert(toml_text(c) =~= scalar_lines(c) + rest1);
    lemma_scalar_lines_apply(st0, c, rest1);
    let st5 = state_after_scalars(st0, c);
    lemma_policy_lines_apply(st5, c, cli_text(c.cli));
    let st11 = state_after_policy(st5, c);
    assert(st11.cfg.cli is None);
    lemma_cli_lines_apply(st11, c.cli);
    let stf = match c.cli {
        Some(u) => ParseStV {
            cfg: ConfigV { cli: Some(u), ..st11.cfg },
            section: Section::Cli,
            ..st11
        },
        None => st11,
    };
    assert(apply_config_lines(st0, split_char(toml_text(c), '\n')) == Some(stf));
    assert(stf.cfg =~= c);
    assert(required_seen(stf.seen));
}

} // verus!
