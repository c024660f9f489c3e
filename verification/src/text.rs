//! Small verified text utilities shared by the counter, pressure-stall,
//! control-group and configuration parsers: line and token splitting,
//! substring search, and decimal parsing, each specified over `Seq<char>`.

use vstd::prelude::*;

verus! {

/// The whitespace the parsers recognize between tokens.
pub open spec fn is_space_char(c: char) -> bool {
    c == ' ' || c == '\t' || c == '\r'
}

/// Helper for `split_char`: splits the rest of the input, with `cur` the
/// piece collected so far.
pub open spec fn split_acc(s: Seq<char>, sep: char, cur: Seq<char>) -> Seq<Seq<char>>
    decreases s.len(),
{
    if s.len() == 0 {
        seq![cur]
    } else if s[0] == sep {
        seq![cur] + split_acc(s.skip(1), sep, Seq::empty())
    } else {
        split_acc(s.skip(1), sep, cur.push(s[0]))
    }
}

/// `s` split at every occurrence of `sep`: the pieces between separators,
/// kept in order, empty pieces included.
pub open spec fn split_char(s: Seq<char>, sep: char) -> Seq<Seq<char>> {
    split_acc(s, sep, Seq::empty())
}

/// A separator-free run `s[pos..end]` closed off by a separator or the end
/// of input is the next piece of the split.
pub proof fn lemma_split_run(s: Seq<char>, sep: char, cur: Seq<char>, pos: int, end: int)
    requires
        0 <= pos <= end <= s.len(),
        forall|j: int| pos <= j < end ==> s[j] != sep,
        end == s.len() || s[end] == sep,
    ensures
        end < s.len() ==> split_acc(s.skip(pos), sep, cur) == seq![cur + s.subrange(pos, end)]
            + split_acc(s.skip(end + 1), sep, Seq::empty()),
        end == s.len() ==> split_acc(s.skip(pos), sep, cur) == seq![cur + s.subrange(pos, end)],
    decreases end - pos,
{
    let t = s.skip(pos);
    if pos == end {
        assert(cur + s.subrange(pos, end) =~= cur);
        if end == s.len() {
            assert(t.len() == 0);
        } else {
            assert(t[0] == s[end]);
            assert(t.skip(1) =~= s.skip(end + 1));
        }
    } else {
        assert(t[0] == s[pos]);
        assert(t[0] != sep);
        assert(t.skip(1) =~= s.skip(pos + 1));
        lemma_split_run(s, sep, cur.push(s[pos]), pos + 1, end);
        assert(cur.push(s[pos]) + s.subrange(pos + 1, end) =~= cur + s.subrange(pos, end));
    }
}

/// A separator-free text splits into itself alone.
pub proof fn lemma_split_nosep(s: Seq<char>, sep: char)
    requires
        forall|j: int| 0 <= j < s.len() ==> s[j] != sep,
    ensures
        split_char(s, sep) == seq![s],
{
    lemma_split_run(s, sep, Seq::empty(), 0, s.len() as int);
    assert(s.skip(0) =~= s);
    assert(Seq::empty() + s.subrange(0, s.len() as int) =~= s);
}

/// Splitting at the first separator of `a + sep + b`, with `a`
/// separator-free, peels `a` off the front.
pub proof fn lemma_split_concat(a: Seq<char>, sep: char, b: Seq<char>)
    requires
        forall|j: int| 0 <= j < a.len() ==> a[j] != sep,
    ensures
        split_char(a + seq![sep] + b, sep) == seq![a] + split_char(b, sep),
{
    let s = a + seq![sep] + b;
    assert forall|j: int| 0 <= j < a.len() implies s[j] != sep by {
        assert(s[j] == a[j]);
    }
    assert(s[a.len() as int] == sep);
    lemma_split_run(s, sep, Seq::empty(), 0, a.len() as int);
    assert(s.skip(0) =~= s);
    assert(Seq::empty() + s.subrange(0, a.len() as int) =~= a);
    assert(s.skip(a.len() as int + 1) =~= b);
}

/// Helper for `tokens_of`: tokenizes the rest of the input, with `cur` the
/// partial token collected so far.
pub open spec fn tokens_acc(s: Seq<char>, cur: Seq<char>) -> Seq<Seq<char>>
    decreases s.len(),
{
    if s.len() == 0 {
        if cur.len() == 0 {
            Seq::empty()
        } else {
            seq![cur]
        }
    } else if is_space_char(s[0]) {
        if cur.len() == 0 {
            tokens_acc(s.skip(1), Seq::empty())
        } else {
            seq![cur] + tokens_acc(s.skip(1), Seq::empty())
        }
    } else {
        tokens_acc(s.skip(1), cur.push(s[0]))
    }
}

/// `s` cut into whitespace-separated tokens: maximal runs of non-space
/// characters, in order.
pub open spec fn tokens_of(s: Seq<char>) -> Seq<Seq<char>> {
    tokens_acc(s, Seq::empty())
}

/// Skipping one leading space keeps the tokens.
pub proof fn lemma_tokens_skip_space(s: Seq<char>, i: int)
    requires
        0 <= i < s.len(),
        is_space_char(s[i]),
    ensures
        tokens_acc(s.skip(i), Seq::empty()) == tokens_acc(s.skip(i + 1), Seq::empty()),
{
    assert(s.skip(i)[0] == s[i]);
    assert(s.skip(i).skip(1) =~= s.skip(i + 1));
}

/// A non-space run `s[pos..end]`, delimited by a space or the end of `s`,
/// closes off the next token.
pub proof fn lemma_tokens_run(s: Seq<char>, cur: Seq<char>, pos: int, end: int)
    requires
        0 <= pos <= end <= s.len(),
        cur.len() + (end - pos) > 0,
        forall|j: int| pos <= j < end ==> !is_space_char(#[trigger] s[j]),
        end == s.len() || is_space_char(s[end]),
    ensures
        tokens_acc(s.skip(pos), cur) == seq![cur + s.subrange(pos, end)] + tokens_acc(
            s.skip(end),
            Seq::empty(),
        ),
    decreases end - pos,
{
    let t = s.skip(pos);
    if pos == end {
        assert(cur + s.subrange(pos, end) =~= cur);
        if end == s.len() {
            assert(t.len() == 0);
            assert(tokens_acc(s.skip(end), Seq::empty()) =~= Seq::<Seq<char>>::empty());
            assert(seq![cur] + Seq::<Seq<char>>::empty() =~= seq![cur]);
        } else {
            assert(t[0] == s[end]);
            assert(t.skip(1) =~= s.skip(end + 1));
            assert(s.skip(end)[0] == s[end]);
            assert(s.skip(end).skip(1) =~= s.skip(end + 1));
        }
    } else {
        assert(t[0] == s[pos]);
        assert(!is_space_char(t[0]));
        assert(t.skip(1) =~= s.skip(pos + 1));
        lemma_tokens_run(s, cur.push(s[pos]), pos + 1, end);
        assert(cur.push(s[pos]) + s.subrange(pos + 1, end) =~= cur + s.subrange(pos, end));
    }
}

/// The views of a sequence of owned strings.
pub open spec fn views_of(v: Seq<String>) -> Seq<Seq<char>> {
    v.map_values(|x: String| x@)
}

/// Whether `s` begins with `prefix`.
pub open spec fn starts_with(s: Seq<char>, prefix: Seq<char>) -> bool {
    s.len() >= prefix.len() && s.take(prefix.len() as int) == prefix
}

/// Whether `s` ends with `suffix`.
pub open spec fn ends_with(s: Seq<char>, suffix: Seq<char>) -> bool {
    s.len() >= suffix.len() && s.skip(s.len() - suffix.len()) == suffix
}

/// Whether `needle` occurs contiguously anywhere in `hay`.
pub open spec fn contains_seq(hay: Seq<char>, needle: Seq<char>) -> bool {
    exists|i: int|
        0 <= i && i + needle.len() <= hay.len() && #[trigger] hay.subrange(i, i + needle.len())
            == needle
}

/// Character-wise string equality; equivalent to view equality.
pub fn str_eq(a: &str, b: &str) -> (r: bool)
    ensures
        r == (a@ == b@),
{
    let na = a.unicode_len();
    let nb = b.unicode_len();
    if na != nb {
        proof {
            assert(a@ != b@);
        }
        return false;
    }
    let mut i: usize = 0;
    while i < na
        invariant
            0 <= i <= na,
            na == a@.len(),
            na == b@.len(),
            forall|j: int| 0 <= j < i ==> a@[j] == b@[j],
        decreases na - i,
    {
        if a.get_char(i) != b.get_char(i) {
            return false;
        }
        i += 1;
    }
    proof {
        assert(a@ =~= b@);
    }
    true
}

/// Whether `s` begins with `prefix`, by characters.
pub fn str_starts_with(s: &str, prefix: &str) -> (r: bool)
    ensures
        r == starts_with(s@, prefix@),
{
    let n = s.unicode_len();
    let np = prefix.unicode_len();
    if np > n {
        return false;
    }
    let mut i: usize = 0;
    while i < np
        invariant
            0 <= i <= np,
            np <= n,
            n == s@.len(),
            np == prefix@.len(),
            forall|j: int| 0 <= j < i ==> s@[j] == prefix@[j],
        decreases np - i,
    {
        if s.get_char(i) != prefix.get_char(i) {
            proof {
                assert(s@.take(np as int)[i as int] != prefix@[i as int]);
            }
            return false;
        }
        i += 1;
    }
    proof {
        assert(s@.take(np as int) =~= prefix@);
    }
    true
}

/// Whether `s` ends with `suffix`, by characters.
pub fn str_ends_with(s: &str, suffix: &str) -> (r: bool)
    ensures
        r == ends_with(s@, suffix@),
{
    let n = s.unicode_len();
    let nf = suffix.unicode_len();
    if nf > n {
        return false;
    }
    let off = n - nf;
    let mut i: usize = 0;
    while i < nf
        invariant
            0 <= i <= nf,
            nf <= n,
            off == n - nf,
            n == s@.len(),
            nf == suffix@.len(),
            forall|j: int| 0 <= j < i ==> s@[off + j] == suffix@[j],
        decreases nf - i,
    {
        if s.get_char(off + i) != suffix.get_char(i) {
            proof {
                assert(s@.skip(off as int)[i as int] != suffix@[i as int]);
            }
            return false;
        }
        i += 1;
    }
    proof {
        assert(s@.skip(off as int) =~= suffix@);
    }
    true
}

/// Whether `needle` occurs contiguously in `hay`, by characters.
pub fn str_contains(hay: &str, needle: &str) -> (r: bool)
    ensures
        r == contains_seq(hay@, needle@),
{
    let n = hay.unicode_len();
    let m = needle.unicode_len();
    if m > n {
        return false;
    }
    if m == 0 {
        proof {
            assert(hay@.subrange(0, 0 + needle@.len() as int) =~= needle@);
        }
        return true;
    }
    let mut i: usize = 0;
    while i <= n - m
        invariant
            0 <= i <= n - m + 1,
            1 <= m <= n,
            n == hay@.len(),
            m == needle@.len(),
            forall|k: int|
                0 <= k < i ==> #[trigger] hay@.subrange(k, k + m as int) != needle@,
        decreases n - i,
    {
        let mut j: usize = 0;
        let mut matched = true;
        while j < m
            invariant
                0 <= j <= m,
                0 <= i,
                i + m <= n,
                n == hay@.len(),
                m == needle@.len(),
                matched ==> forall|t: int| 0 <= t < j ==> hay@[i + t] == needle@[t],
                !matched ==> hay@.subrange(i as int, i + m as int) != needle@,
            decreases m - j,
        {
            if hay.get_char(i + j) != needle.get_char(j) {
                proof {
                    assert(hay@.subrange(i as int, i + m as int)[j as int] != needle@[j as int]);
                }
                matched = false;
                j = m;
            } else {
                j += 1;
            }
        }
        if matched {
            proof {
                assert(hay@.subrange(i as int, i + m as int) =~= needle@);
            }
            return true;
        }
        i += 1;
    }
    proof {
        assert forall|k: int| 0 <= k && k + m as int <= n implies #[trigger] hay@.subrange(
            k,
            k + m as int,
        ) != needle@ by {
            assert(k < i);
        }
    }
    false
}

/// Split `s` at every occurrence of `sep`, keeping empty pieces.
pub fn str_split(s: &str, sep: char) -> (r: Vec<String>)
    ensures
        views_of(r@) == split_char(s@, sep),
{
    let n = s.unicode_len();
    let mut r: Vec<String> = Vec::new();
    let mut start: usize = 0;
    let mut i: usize = 0;
    proof {
        assert(views_of(r@) =~= Seq::<Seq<char>>::empty());
        assert(s@.skip(0) =~= s@);
        assert(views_of(r@) + split_char(s@, sep) =~= split_char(s@, sep));
    }
    while i < n
        invariant
            0 <= start <= i <= n,
            n == s@.len(),
            forall|j: int| start <= j < i ==> s@[j] != sep,
            split_char(s@, sep) == views_of(r@) + split_acc(s@.skip(start as int), sep, Seq::empty()),
        decreases n - i,
    {
        if s.get_char(i) == sep {
            let piece = s.substring_char(start, i).to_owned();
            proof {
                lemma_split_run(s@, sep, Seq::empty(), start as int, i as int);
                assert(Seq::empty() + s@.subrange(start as int, i as int) =~= s@.subrange(
                    start as int,
                    i as int,
                ));
                assert(views_of(r@.push(piece)) =~= views_of(r@) + seq![piece@]);
                assert(views_of(r@) + (seq![piece@] + split_acc(s@.skip(i + 1), sep, Seq::empty()))
                    =~= (views_of(r@) + seq![piece@]) + split_acc(s@.skip(i + 1), sep, Seq::empty()));
            }
            r.push(piece);
            start = i + 1;
        }
        i += 1;
    }
    let piece = s.substring_char(start, n).to_owned();
    proof {
        lemma_split_run(s@, sep, Seq::empty(), start as int, n as int);
        assert(Seq::empty() + s@.subrange(start as int, n as int) =~= s@.subrange(
            start as int,
            n as int,
        ));
        assert(views_of(r@.push(piece)) =~= views_of(r@) + seq![piece@]);
    }
    r.push(piece);
    r
}

/// Executable counterpart of `is_space_char`.
pub fn is_space_exec(c: char) -> (r: bool)
    ensures
        r == is_space_char(c),
{
    c == ' ' || c == '\t' || c == '\r'
}

/// Cut `s` into whitespace-separated tokens.
pub fn str_tokens(s: &str) -> (r: Vec<String>)
    ensures
        views_of(r@) == tokens_of(s@),
{
    let n = s.unicode_len();
    let mut r: Vec<String> = Vec::new();
    let mut i: usize = 0;
    proof {
        assert(views_of(r@) =~= Seq::<Seq<char>>::empty());
        assert(s@.skip(0) =~= s@);
        assert(views_of(r@) + tokens_of(s@) =~= tokens_of(s@));
    }
    while i < n
        invariant
            0 <= i <= n,
            n == s@.len(),
            tokens_of(s@) == views_of(r@) + tokens_acc(s@.skip(i as int), Seq::empty()),
        decreases n - i,
    {
        let c = s.get_char(i);
        if c == ' ' || c == '\t' || c == '\r' {
            proof {
                lemma_tokens_skip_space(s@, i as int);
            }
            i += 1;
        } else {
            let start = i;
            i += 1;
            while i < n && !is_space_exec(s.get_char(i))
                invariant
                    0 <= start < i <= n,
                    n == s@.len(),
                    forall|j: int| start <= j < i ==> !is_space_char(#[trigger] s@[j]),
                decreases n - i,
            {
                i += 1;
            }
            let piece = s.substring_char(start, i).to_owned();
            proof {
                lemma_tokens_run(s@, Seq::empty(), start as int, i as int);
                assert(Seq::empty() + s@.subrange(start as int, i as int) =~= s@.subrange(
                    start as int,
                    i as int,
                ));
                assert(views_of(r@.push(piece)) =~= views_of(r@) + seq![piece@]);
                assert(views_of(r@) + (seq![piece@] + tokens_acc(s@.skip(i as int), Seq::empty()))
                    =~= (views_of(r@) + seq![piece@]) + tokens_acc(s@.skip(i as int), Seq::empty()));
            }
            r.push(piece);
        }
    }
    proof {
        assert(s@.skip(n as int) =~= Seq::<char>::empty());
    }
    r
}

/// Index of the first occurrence of `c` in `s`; `s.len()` when absent.
pub open spec fn first_index_of(s: Seq<char>, c: char) -> nat
    decreases s.len(),
{
    if s.len() == 0 {
        0
    } else if s[0] == c {
        0
    } else {
        1 + first_index_of(s.skip(1), c)
    }
}

pub proof fn lemma_first_index_of(s: Seq<char>, c: char)
    ensures
        first_index_of(s, c) <= s.len(),
        first_index_of(s, c) < s.len() ==> s[first_index_of(s, c) as int] == c,
        forall|j: int| 0 <= j < first_index_of(s, c) ==> s[j] != c,
    decreases s.len(),
{
    if s.len() == 0 {
    } else if s[0] == c {
    } else {
        lemma_first_index_of(s.skip(1), c);
        assert forall|j: int| 0 <= j < first_index_of(s, c) implies s[j] != c by {
            if j > 0 {
                assert(s.skip(1)[j - 1] == s[j]);
            }
        }
        if first_index_of(s, c) < s.len() {
            assert(s.skip(1)[first_index_of(s, c) - 1] == s[first_index_of(s, c) as int]);
        }
    }
}

/// When the characters before `k` all differ from `c` and `s[k] == c`
/// (or `k` is the end), `k` is the first occurrence.
pub proof fn lemma_first_index_at(s: Seq<char>, c: char, k: int)
    requires
        0 <= k <= s.len(),
        k < s.len() ==> s[k] == c,
        forall|j: int| 0 <= j < k ==> s[j] != c,
    ensures
        first_index_of(s, c) == k,
{
    lemma_first_index_of(s, c);
    let f = first_index_of(s, c) as int;
    if f < k {
        assert(s[f] != c);
    }
    if k < f {
        assert(s[k] != c);
    }
}

/// A token split at its first `=`: the key before it and the value after
/// it; nothing when the token has no `=`.
pub open spec fn eq_split(tok: Seq<char>) -> Option<(Seq<char>, Seq<char>)> {
    let k = first_index_of(tok, '=') as int;
    if k < tok.len() {
        Some((tok.take(k), tok.skip(k + 1)))
    } else {
        None
    }
}

/// Split a token at its first `=`, by characters.
pub fn str_eq_split(tok: &str) -> (r: Option<(String, String)>)
    ensures
        match r {
            Some(kv) => eq_split(tok@) == Some((kv.0@, kv.1@)),
            None => eq_split(tok@) is None,
        },
{
    let n = tok.unicode_len();
    let mut i: usize = 0;
    while i < n
        invariant
            0 <= i <= n,
            n == tok@.len(),
            forall|j: int| 0 <= j < i ==> tok@[j] != '=',
        decreases n - i,
    {
        if tok.get_char(i) == '=' {
            proof {
                lemma_first_index_at(tok@, '=', i as int);
                assert(tok@.subrange(0, i as int) =~= tok@.take(i as int));
                assert(tok@.subrange(i + 1, n as int) =~= tok@.skip(i + 1));
            }
            let key = tok.substring_char(0, i).to_owned();
            let value = tok.substring_char(i + 1, n).to_owned();
            return Some((key, value));
        }
        i += 1;
    }
    proof {
        lemma_first_index_at(tok@, '=', n as int);
    }
    None
}

/// The length of the run of spaces at the head of `s`.
pub open spec fn leading_spaces(s: Seq<char>) -> nat
    decreases s.len(),
{
    if s.len() == 0 {
        0
    } else if is_space_char(s[0]) {
        1 + leading_spaces(s.skip(1))
    } else {
        0
    }
}

/// The length of the run of spaces at the tail of `s`.
pub open spec fn trailing_spaces(s: Seq<char>) -> nat
    decreases s.len(),
{
    if s.len() == 0 {
        0
    } else if is_space_char(s.last()) {
        1 + trailing_spaces(s.drop_last())
    } else {
        0
    }
}

/// `s` with the space runs at both ends removed.
pub open spec fn trim_spec(s: Seq<char>) -> Seq<char> {
    if leading_spaces(s) == s.len() {
        Seq::empty()
    } else {
        s.subrange(leading_spaces(s) as int, s.len() - trailing_spaces(s))
    }
}

proof fn lemma_leading_spaces(s: Seq<char>)
    ensures
        leading_spaces(s) <= s.len(),
        forall|i: int| 0 <= i < leading_spaces(s) ==> is_space_char(#[trigger] s[i]),
        leading_spaces(s) < s.len() ==> !is_space_char(s[leading_spaces(s) as int]),
    decreases s.len(),
{
    if s.len() > 0 && is_space_char(s[0]) {
        lemma_leading_spaces(s.skip(1));
        assert forall|i: int| 0 <= i < leading_spaces(s) implies is_space_char(
            #[trigger] s[i],
        ) by {
            if i > 0 {
                assert(s.skip(1)[i - 1] == s[i]);
            }
        }
        if leading_spaces(s) < s.len() {
            assert(s.skip(1)[leading_spaces(s) - 1] == s[leading_spaces(s) as int]);
        }
    }
}

proof fn lemma_trailing_spaces(s: Seq<char>)
    ensures
        trailing_spaces(s) <= s.len(),
        forall|i: int|
            s.len() - trailing_spaces(s) <= i < s.len() ==> is_space_char(#[trigger] s[i]),
        trailing_spaces(s) < s.len() ==> !is_space_char(s[s.len() - trailing_spaces(s) - 1]),
    decreases s.len(),
{
    if s.len() > 0 && is_space_char(s.last()) {
        lemma_trailing_spaces(s.drop_last());
        assert forall|i: int|
            s.len() - trailing_spaces(s) <= i < s.len() implies is_space_char(
            #[trigger] s[i],
        ) by {
            if i < s.len() - 1 {
                assert(s.drop_last()[i] == s[i]);
            }
        }
        if trailing_spaces(s) < s.len() {
            assert(s.drop_last()[s.len() - trailing_spaces(s) - 1] == s[s.len() - trailing_spaces(
                s,
            ) - 1]);
        }
    }
}

/// Trimming strips exactly a leading space run: with `pad` all spaces and
/// `x` delimited by non-spaces, `pad + x` trims to `x`.
pub proof fn lemma_trim_of_padded(pad: Seq<char>, x: Seq<char>)
    requires
        forall|j: int| 0 <= j < pad.len() ==> is_space_char(#[trigger] pad[j]),
        x.len() > 0,
        !is_space_char(x[0]),
        !is_space_char(x.last()),
    ensures
        trim_spec(pad + x) == x,
{
    let s = pad + x;
    lemma_leading_spaces(s);
    assert forall|j: int| 0 <= j < pad.len() implies is_space_char(#[trigger] s[j]) by {
        assert(s[j] == pad[j]);
    }
    assert(s[pad.len() as int] == x[0]);
    assert(leading_spaces(s) == pad.len()) by {
        if leading_spaces(s) < pad.len() {
            assert(!is_space_char(s[leading_spaces(s) as int]));
        }
        if pad.len() < leading_spaces(s) {
            assert(is_space_char(s[pad.len() as int]));
        }
    }
    lemma_trailing_spaces(s);
    assert(s.last() == x.last());
    assert(trailing_spaces(s) == 0) by {
        if trailing_spaces(s) > 0 {
            assert(is_space_char(s[s.len() - 1]));
        }
    }
    assert(s.subrange(pad.len() as int, s.len() as int) =~= x);
}

/// Trimming strips exactly the space runs at both ends: with `pad1` and
/// `pad2` all spaces and `x` delimited by non-spaces, `pad1 + x + pad2`
/// trims to `x`.
pub proof fn lemma_trim_extract(pad1: Seq<char>, x: Seq<char>, pad2: Seq<char>)
    requires
        forall|j: int| 0 <= j < pad1.len() ==> is_space_char(#[trigger] pad1[j]),
        forall|j: int| 0 <= j < pad2.len() ==> is_space_char(#[trigger] pad2[j]),
        x.len() > 0,
        !is_space_char(x[0]),
        !is_space_char(x.last()),
    ensures
        trim_spec(pad1 + x + pad2) == x,
{
    let s = pad1 + x + pad2;
    lemma_leading_spaces(s);
    assert forall|j: int| 0 <= j < pad1.len() implies is_space_char(#[trigger] s[j]) by {
        assert(s[j] == pad1[j]);
    }
    assert(s[pad1.len() as int] == x[0]);
    assert(leading_spaces(s) == pad1.len()) by {
        if leading_spaces(s) < pad1.len() {
            assert(!is_space_char(s[leading_spaces(s) as int]));
        }
        if pad1.len() < leading_spaces(s) {
            assert(is_space_char(s[pad1.len() as int]));
        }
    }
    lemma_trailing_spaces(s);
    assert forall|j: int| s.len() - pad2.len() <= j < s.len() implies is_space_char(
        #[trigger] s[j],
    ) by {
        assert(s[j] == pad2[j - (pad1.len() + x.len())]);
    }
    assert(s[s.len() - pad2.len() - 1] == x.last());
    assert(trailing_spaces(s) == pad2.len()) by {
        if trailing_spaces(s) < pad2.len() {
            assert(!is_space_char(s[s.len() - trailing_spaces(s) - 1]));
            assert(is_space_char(s[s.len() - trailing_spaces(s) - 1]));
        }
        if pad2.len() < trailing_spaces(s) {
            assert(is_space_char(s[s.len() - pad2.len() - 1]));
        }
    }
    assert(s.subrange(pad1.len() as int, s.len() - pad2.len()) =~= x);
}

/// Remove the spaces at both ends of `s`, by characters.
pub fn str_trim<'a>(s: &'a str) -> (r: &'a str)
    ensures
        r@ == trim_spec(s@),
{
    let n = s.unicode_len();
    let mut a: usize = 0;
    while a < n && is_space_exec(s.get_char(a))
        invariant
            0 <= a <= n,
            n == s@.len(),
            forall|i: int| 0 <= i < a ==> is_space_char(#[trigger] s@[i]),
        decreases n - a,
    {
        a += 1;
    }
    proof {
        lemma_leading_spaces(s@);
        assert(leading_spaces(s@) == a) by {
            if leading_spaces(s@) < a {
                assert(is_space_char(s@[leading_spaces(s@) as int]));
            }
            if a < leading_spaces(s@) {
                assert(is_space_char(s@[a as int]));
            }
        }
    }
    if a == n {
        proof {
            assert(trim_spec(s@) =~= Seq::<char>::empty());
            assert(s@.subrange(n as int, n as int) =~= Seq::<char>::empty());
        }
        return s.substring_char(n, n);
    }
    let mut b: usize = n;
    while b > a + 1 && is_space_exec(s.get_char(b - 1))
        invariant
            a < b <= n,
            n == s@.len(),
            forall|i: int| b <= i < n ==> is_space_char(#[trigger] s@[i]),
        decreases b,
    {
        b -= 1;
    }
    proof {
        lemma_trailing_spaces(s@);
        assert(!is_space_char(s@[a as int]));
        assert(trailing_spaces(s@) <= s@.len() - a - 1) by {
            if trailing_spaces(s@) > s@.len() - a - 1 {
                assert(is_space_char(s@[a as int]));
            }
        }
        assert(n - trailing_spaces(s@) == b) by {
            if n - trailing_spaces(s@) < b {
                assert(n - trailing_spaces(s@) <= b - 1 < n);
                assert(is_space_char(s@[b - 1]));
                assert(b == a + 1);
                assert(n - trailing_spaces(s@) <= a < n);
                assert(is_space_char(s@[a as int]));
                assert(false);
            }
            if b < n - trailing_spaces(s@) {
                assert(trailing_spaces(s@) < s@.len());
                assert(!is_space_char(s@[n - trailing_spaces(s@) - 1]));
                assert(b <= n - trailing_spaces(s@) - 1 < n);
                assert(is_space_char(s@[n - trailing_spaces(s@) - 1]));
                assert(false);
            }
        }
    }
    s.substring_char(a, b)
}

/// Whether `c` is a decimal digit.
pub open spec fn is_digit(c: char) -> bool {
    '0' <= c && c <= '9'
}

/// The numeric value of a digit character.
pub open spec fn digit_val(c: char) -> int {
    c as int - '0' as int
}

/// Whether every character of `s` is a decimal digit.
pub open spec fn all_digits(s: Seq<char>) -> bool {
    forall|j: int| 0 <= j < s.len() ==> is_digit(#[trigger] s[j])
}

/// The value of a digit string, most significant digit first.
pub open spec fn digits_val(s: Seq<char>) -> int
    decreases s.len(),
{
    if s.len() == 0 {
        0
    } else {
        digits_val(s.drop_last()) * 10 + digit_val(s.last())
    }
}

pub proof fn lemma_digits_val_nonneg(s: Seq<char>)
    ensures
        all_digits(s) ==> digits_val(s) >= 0,
    decreases s.len(),
{
    if s.len() > 0 {
        assert(all_digits(s) ==> all_digits(s.drop_last()));
        lemma_digits_val_nonneg(s.drop_last());
    }
}

/// A digit string's value never shrinks as digits are appended.
pub proof fn lemma_digits_val_monotone(s: Seq<char>, i: int, j: int)
    requires
        all_digits(s),
        0 <= i <= j <= s.len(),
    ensures
        digits_val(s.take(i)) <= digits_val(s.take(j)),
    decreases j - i,
{
    if i < j {
        lemma_digits_val_monotone(s, i, j - 1);
        assert(s.take(j).drop_last() =~= s.take(j - 1));
        assert(all_digits(s.take(j - 1)));
        lemma_digits_val_nonneg(s.take(j - 1));
        assert(digits_val(s.take(j)) == digits_val(s.take(j - 1)) * 10 + digit_val(s[j - 1]));
        assert(digits_val(s.take(j - 1)) * 10 >= digits_val(s.take(j - 1))) by (nonlinear_arith)
            requires
                digits_val(s.take(j - 1)) >= 0,
        ;
    }
}

/// Whether `s` is a digit string whose value fits in a `u64`.
pub open spec fn is_u64_string(s: Seq<char>) -> bool {
    s.len() > 0 && all_digits(s) && digits_val(s) <= u64::MAX
}

/// Parse an unsigned decimal. Yields the value exactly when `s` is one or
/// more digits whose value fits in a `u64`; `None` otherwise.
pub fn parse_u64(s: &str) -> (r: Option<u64>)
    ensures
        is_u64_string(s@) ==> r == Some(digits_val(s@) as u64),
        !is_u64_string(s@) ==> r == None::<u64>,
{
    let n = s.unicode_len();
    if n == 0 {
        return None;
    }
    let mut acc: u64 = 0;
    let mut i: usize = 0;
    proof {
        assert(s@.take(0) =~= Seq::<char>::empty());
    }
    while i < n
        invariant
            0 <= i <= n,
            n == s@.len(),
            all_digits(s@.take(i as int)),
            acc == digits_val(s@.take(i as int)),
        decreases n - i,
    {
        let c = s.get_char(i);
        if c < '0' || c > '9' {
            proof {
                assert(!is_digit(s@[i as int]));
            }
            return None;
        }
        let d: u64 = (c as u32 - '0' as u32) as u64;
        proof {
            assert(d == digit_val(s@[i as int]));
            assert(s@.take(i + 1).drop_last() =~= s@.take(i as int));
            assert(s@.take(i + 1).last() == s@[i as int]);
        }
        if acc > (u64::MAX - d) / 10 {
            proof {
                assert(acc * 10 + d > u64::MAX) by (nonlinear_arith)
                    requires
                        acc > (u64::MAX - d) / 10,
                        0 <= d <= 9,
                        acc >= 0,
                ;
                if is_u64_string(s@) {
                    lemma_digits_val_monotone(s@, i + 1, s@.len() as int);
                    assert(s@.take(s@.len() as int) =~= s@);
                }
            }
            return None;
        }
        proof {
            assert(acc * 10 + d <= u64::MAX) by (nonlinear_arith)
                requires
                    acc <= (u64::MAX - d) / 10,
                    0 <= d <= 9,
                    acc >= 0,
            ;
        }
        acc = acc * 10 + d;
        i += 1;
    }
    proof {
        assert(s@.take(n as int) =~= s@);
    }
    Some(acc)
}

/// Whether every character of `s` is a decimal digit, by characters.
pub fn str_all_digits(s: &str) -> (r: bool)
    ensures
        r == all_digits(s@),
{
    let n = s.unicode_len();
    let mut i: usize = 0;
    while i < n
        invariant
            0 <= i <= n,
            n == s@.len(),
            forall|j: int| 0 <= j < i ==> is_digit(#[trigger] s@[j]),
        decreases n - i,
    {
        let c = s.get_char(i);
        if c < '0' || c > '9' {
            proof {
                assert(!is_digit(s@[i as int]));
            }
            return false;
        }
        i += 1;
    }
    true
}

/// The first two fraction digits as hundredths: one digit counts as tens
/// of hundredths, further digits beyond the second are cut off.
pub open spec fn frac2_val(f: Seq<char>) -> int {
    if f.len() == 1 {
        10 * digit_val(f[0])
    } else {
        digits_val(f.take(2))
    }
}

/// The value of a non-negative decimal numeral in hundredths: `10.5` is
/// 1050. The numeral is digits, optionally followed by `.` and more
/// digits; fraction digits beyond the second are cut off. `None` when the
/// text is not of that shape or the value does not fit in a `u64`.
pub open spec fn centi_of(s: Seq<char>) -> Option<int> {
    let pieces = split_char(s, '.');
    if pieces.len() == 1 {
        if is_u64_string(pieces[0]) && 100 * digits_val(pieces[0]) <= u64::MAX {
            Some(100 * digits_val(pieces[0]))
        } else {
            None
        }
    } else if pieces.len() == 2 {
        if is_u64_string(pieces[0]) && pieces[1].len() > 0 && all_digits(pieces[1]) && 100
            * digits_val(pieces[0]) + frac2_val(pieces[1]) <= u64::MAX {
            Some(100 * digits_val(pieces[0]) + frac2_val(pieces[1]))
        } else {
            None
        }
    } else {
        None
    }
}

/// Parse a non-negative decimal numeral into hundredths.
pub fn parse_centi(s: &str) -> (r: Option<u64>)
    ensures
        match centi_of(s@) {
            Some(v) => r == Some(v as u64),
            None => r is None,
        },
{
    let pieces = str_split(s, '.');
    let ghost pviews = views_of(pieces@);
    proof {
        assert(pviews.len() == pieces@.len());
        assert(pviews == split_char(s@, '.'));
    }
    if pieces.len() == 1 {
        proof {
            assert(pviews[0] == pieces@[0]@);
        }
        match parse_u64(pieces[0].as_str()) {
            Some(v) => {
                if v <= u64::MAX / 100 {
                    proof {
                        assert(100 * (v as int) <= u64::MAX) by (nonlinear_arith)
                            requires
                                0 <= v <= u64::MAX / 100,
                        ;
                        lemma_digits_val_nonneg(pieces@[0]@);
                        assert(digits_val(pieces@[0]@) == v as int);
                        assert(centi_of(s@) == Some(100 * digits_val(pieces@[0]@)));
                    }
                    Some(v * 100)
                } else {
                    proof {
                        assert(100 * (v as int) > u64::MAX) by (nonlinear_arith)
                            requires
                                v > u64::MAX / 100,
                        ;
                        lemma_digits_val_nonneg(pieces@[0]@);
                        assert(digits_val(pieces@[0]@) == v as int);
                        assert(centi_of(s@) is None);
                    }
                    None
                }
            },
            None => {
                proof {
                    assert(centi_of(s@) is None);
                }
                None
            },
        }
    } else if pieces.len() == 2 {
        proof {
            assert(pviews[0] == pieces@[0]@);
            assert(pviews[1] == pieces@[1]@);
        }
        let ip = match parse_u64(pieces[0].as_str()) {
            Some(v) => v,
            None => {
                proof {
                    assert(centi_of(s@) is None);
                }
                return None;
            },
        };
        let frac: &String = &pieces[1];
        let fraclen = frac.as_str().unicode_len();
        if fraclen == 0 || !str_all_digits(frac.as_str()) {
            proof {
                assert(split_char(s@, '.')[1] == frac@);
                assert(!(frac@.len() > 0 && all_digits(frac@)));
                assert(centi_of(s@) is None);
            }
            return None;
        }
        let f: u64 = if fraclen == 1 {
            let d0 = frac.as_str().get_char(0) as u32 - '0' as u32;
            proof {
                assert(d0 == digit_val(frac@[0]));
            }
            (d0 * 10) as u64
        } else {
            let c0 = frac.as_str().get_char(0) as u32 - '0' as u32;
            let c1 = frac.as_str().get_char(1) as u32 - '0' as u32;
            proof {
                assert(c0 == digit_val(frac@[0]));
                assert(c1 == digit_val(frac@[1]));
                let t = frac@.take(2);
                assert(t.last() == frac@[1]);
                assert(t.drop_last() =~= frac@.take(1));
                assert(frac@.take(1).last() == frac@[0]);
                assert(frac@.take(1).drop_last() =~= Seq::<char>::empty());
                assert(digits_val(Seq::<char>::empty()) == 0);
                assert(digits_val(frac@.take(1)) == digit_val(frac@[0]));
                assert(digits_val(t) == 10 * digit_val(frac@[0]) + digit_val(frac@[1]));
            }
            (c0 * 10 + c1) as u64
        };
        proof {
            assert(f == frac2_val(frac@));
            assert(0 <= f <= 99);
        }
        if ip > (u64::MAX - f) / 100 {
            proof {
                assert(100 * (ip as int) + f > u64::MAX) by (nonlinear_arith)
                    requires
                        ip > (u64::MAX - f) / 100,
                        0 <= f <= 99,
                ;
                lemma_digits_val_nonneg(pieces@[0]@);
                assert(digits_val(pieces@[0]@) == ip as int);
                assert(centi_of(s@) is None);
            }
            return None;
        }
        proof {
            assert(100 * (ip as int) + f <= u64::MAX) by (nonlinear_arith)
                requires
                    ip <= (u64::MAX - f) / 100,
                    0 <= f <= 99,
            ;
            lemma_digits_val_nonneg(pieces@[0]@);
            assert(digits_val(pieces@[0]@) == ip as int);
            assert(centi_of(s@) == Some(100 * digits_val(pieces@[0]@) + frac2_val(pieces@[1]@)));
        }
        Some(ip * 100 + f)
    } else {
        proof {
            assert(split_char(s@, '.').len() == pieces@.len());
            assert(centi_of(s@) is None);
        }
        None
    }
}

} // verus!
