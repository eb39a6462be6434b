//! Character-level helpers shared by the parsers: conversions between
//! `str`/`String` and `Vec<char>`, Unicode whitespace, trimming, prefix
//! tests, ASCII case folding, decimal numbers and the two std text
//! functions (`str::to_lowercase`, `{:?}` on `str`) whose results are named.
use vstd::prelude::*;

verus! {

broadcast use vstd::string::group_string_axioms;

// ── Names for std results that take pages to state ───────────────────────────

/// What `str::to_lowercase` returns for a string with these characters
/// (full Unicode lowercase mapping, including the final-sigma rule).
pub uninterp spec fn unicode_lower(s: Seq<char>) -> Seq<char>;

/// What `format!("{:?}", s)` returns for a `str` with these characters
/// (a double-quoted string with `char::escape_debug` escapes).
pub uninterp spec fn debug_quoted(s: Seq<char>) -> Seq<char>;

/// What `char::is_alphanumeric` says of `c` (Unicode `Alphabetic` or
/// `Numeric`).
pub uninterp spec fn unicode_alphanumeric(c: char) -> bool;

/// An ASCII letter or digit.
pub open spec fn ascii_alphanumeric(c: char) -> bool {
    ('0' <= c && c <= '9') || ('a' <= c && c <= 'z') || ('A' <= c && c <= 'Z')
}

/// ASCII lowercase of one character; other characters are unchanged.
pub open spec fn ascii_lower_char(c: char) -> char {
    if 'A' <= c && c <= 'Z' {
        ((c as u32) + 32) as char
    } else {
        c
    }
}

/// True when every character of `s` is ASCII.
pub open spec fn all_ascii(s: Seq<char>) -> bool {
    forall|i: int| 0 <= i < s.len() ==> (s[i] as u32) < 128
}

/// `str::to_lowercase` (std). The result is named by [`unicode_lower`]; for
/// ASCII input the documentation's Unicode mapping is the ASCII one, which is
/// stated too. Nothing more is said of non-ASCII input.
#[verifier::external_body]
pub(crate) fn to_lowercase(s: &str) -> (r: String)
    ensures
        r@ == unicode_lower(s@),
        all_ascii(s@) ==> r@ == s@.map_values(|c: char| ascii_lower_char(c)),
{
    s.to_lowercase()
}

/// `format!("{:?}", s)` for a `str` (std `Debug`). The result is named by
/// [`debug_quoted`]; the escaping rules are not restated.
#[verifier::external_body]
pub(crate) fn debug_string(s: &str) -> (r: String)
    ensures
        r@ == debug_quoted(s@),
{
    format!("{:?}", s)
}

/// `char::is_alphanumeric` (std). The result is named by
/// [`unicode_alphanumeric`]; for ASCII characters the documentation's
/// Unicode properties are the ASCII letters and digits, which is stated too.
#[verifier::external_body]
pub(crate) fn is_alphanumeric(c: char) -> (r: bool)
    ensures
        r == unicode_alphanumeric(c),
        (c as u32) < 128 ==> r == ascii_alphanumeric(c),
{
    c.is_alphanumeric()
}

/// Appends one character to a `String` (wraps `String::push`).
#[verifier::external_body]
pub(crate) fn push_char(s: &mut String, c: char)
    ensures
        final(s)@ == old(s)@.push(c),
{
    s.push(c);
}

/// The lowercase of `s`, as `str::to_lowercase` gives it: the text that
/// [`unicode_lower`] names, which for ASCII text is each letter lowered and
/// every other character kept.
pub fn lowercase(s: &str) -> (r: String)
    ensures
        r@ == unicode_lower(s@),
        all_ascii(s@) ==> r@ == s@.map_values(|c: char| ascii_lower_char(c)),
{
    to_lowercase(s)
}

/// Whether `c` is alphanumeric, as `char::is_alphanumeric` says: what
/// [`unicode_alphanumeric`] names, which for an ASCII character is being a
/// letter or digit.
pub fn alphanumeric(c: char) -> (r: bool)
    ensures
        r == unicode_alphanumeric(c),
        (c as u32) < 128 ==> r == ascii_alphanumeric(c),
{
    is_alphanumeric(c)
}

// ── Conversions ──────────────────────────────────────────────────────────────

/// The characters of `s`, in order.
pub fn chars_of(s: &str) -> (r: Vec<char>)
    ensures
        r@ == s@,
{
    let mut out: Vec<char> = Vec::new();
    for c in it: s.chars()
        invariant
            out@ == it.seq().take(it.index() as int),
            it.seq() == s@,
    {
        out.push(c);
    }
    out
}

/// A `String` holding exactly the characters of `v`.
pub fn string_of(v: &[char]) -> (r: String)
    ensures
        r@ == v@,
{
    let mut out = String::new();
    let mut i: usize = 0;
    while i < v.len()
        invariant
            0 <= i <= v@.len(),
            out@ == v@.take(i as int),
        decreases v@.len() - i,
    {
        push_char(&mut out, v[i]);
        assert(v@.take(i as int).push(v@[i as int]) =~= v@.take(i + 1));
        i = i + 1;
    }
    assert(v@.take(v@.len() as int) =~= v@);
    out
}

/// Appends the characters of `t` to `s`.
pub fn append_str(s: &mut String, t: &str)
    ensures
        final(s)@ == old(s)@ + t@,
{
    let v = chars_of(t);
    append_chars(s, &v);
}

/// `a`, then `b`, then `c`, as one new `String`.
pub fn concat3(a: &str, b: &String, c: &str) -> (r: String)
    ensures
        r@ == a@ + b@ + c@,
{
    let mut out = a.to_string();
    append_str(&mut out, b.as_str());
    append_str(&mut out, c);
    out
}

/// Appends the characters of `v` to `s`.
pub fn append_chars(s: &mut String, v: &[char])
    ensures
        final(s)@ == old(s)@ + v@,
{
    let ghost start = s@;
    let mut i: usize = 0;
    while i < v.len()
        invariant
            0 <= i <= v@.len(),
            s@ == start + v@.take(i as int),
        decreases v@.len() - i,
    {
        push_char(s, v[i]);
        assert(start + v@.take(i as int) + seq![v@[i as int]] =~= start + v@.take(i + 1));
        i = i + 1;
    }
    assert(v@.take(v@.len() as int) =~= v@);
}

/// A copy of `v[from..to]`.
pub fn sub_chars(v: &[char], from: usize, to: usize) -> (r: Vec<char>)
    requires
        from <= to <= v@.len(),
    ensures
        r@ == v@.subrange(from as int, to as int),
{
    let mut out: Vec<char> = Vec::new();
    let mut i = from;
    while i < to
        invariant
            from <= i <= to <= v@.len(),
            out@ == v@.subrange(from as int, i as int),
        decreases to - i,
    {
        out.push(v[i]);
        assert(v@.subrange(from as int, i as int).push(v@[i as int]) =~= v@.subrange(
            from as int,
            i + 1,
        ));
        i = i + 1;
    }
    out
}

/// Whether `v` holds exactly the characters of `lit`.
pub fn chars_eq_str(v: &[char], lit: &str) -> (r: bool)
    ensures
        r == (v@ == lit@),
{
    let w = chars_of(lit);
    chars_eq(v, &w)
}

/// Whether two character sequences are equal.
pub fn chars_eq(a: &[char], b: &[char]) -> (r: bool)
    ensures
        r == (a@ == b@),
{
    if a.len() != b.len() {
        return false;
    }
    let mut i: usize = 0;
    while i < a.len()
        invariant
            0 <= i <= a@.len(),
            a@.len() == b@.len(),
            forall|j: int| 0 <= j < i ==> a@[j] == b@[j],
        decreases a@.len() - i,
    {
        if a[i] != b[i] {
            return false;
        }
        i = i + 1;
    }
    assert(a@ =~= b@);
    true
}

/// Whether `v` starts with the characters of `lit`.
pub fn starts_with_str(v: &[char], lit: &str) -> (r: bool)
    ensures
        r == (lit@.len() <= v@.len() && v@.take(lit@.len() as int) == lit@),
{
    let w = chars_of(lit);
    if w.len() > v.len() {
        return false;
    }
    let head = sub_chars(v, 0, w.len());
    assert(head@ == v@.take(w@.len() as int));
    chars_eq(&head, &w)
}

/// Whether `c` occurs in `v`.
pub fn contains_char(v: &[char], c: char) -> (r: bool)
    ensures
        r == v@.contains(c),
{
    let mut i: usize = 0;
    while i < v.len()
        invariant
            0 <= i <= v@.len(),
            forall|j: int| 0 <= j < i ==> v@[j] != c,
        decreases v@.len() - i,
    {
        if v[i] == c {
            assert(v@[i as int] == c);
            return true;
        }
        i = i + 1;
    }
    false
}

// ── Whitespace and trimming ──────────────────────────────────────────────────

/// `char::is_whitespace`: the Unicode `White_Space` property.
pub open spec fn is_ws(c: char) -> bool {
    let u = c as u32;
    (0x9 <= u && u <= 0xd) || u == 0x20 || u == 0x85 || u == 0xa0 || u == 0x1680 || (0x2000 <= u
        && u <= 0x200a) || u == 0x2028 || u == 0x2029 || u == 0x202f || u == 0x205f || u == 0x3000
}

/// `char::is_whitespace`.
pub fn is_whitespace(c: char) -> (r: bool)
    ensures
        r == is_ws(c),
{
    let u = c as u32;
    (0x9 <= u && u <= 0xd) || u == 0x20 || u == 0x85 || u == 0xa0 || u == 0x1680 || (0x2000 <= u
        && u <= 0x200a) || u == 0x2028 || u == 0x2029 || u == 0x202f || u == 0x205f || u == 0x3000
}

/// Length of the longest prefix of `s` whose characters satisfy `p`.
pub open spec fn lead_len(s: Seq<char>, p: spec_fn(char) -> bool) -> nat
    decreases s.len(),
{
    if s.len() > 0 && p(s[0]) {
        1 + lead_len(s.drop_first(), p)
    } else {
        0
    }
}

/// Length of the longest suffix of `s` whose characters satisfy `p`.
pub open spec fn trail_len(s: Seq<char>, p: spec_fn(char) -> bool) -> nat
    decreases s.len(),
{
    if s.len() > 0 && p(s.last()) {
        1 + trail_len(s.drop_last(), p)
    } else {
        0
    }
}

/// `s` without its leading characters that satisfy `p`.
pub open spec fn trim_start_by(s: Seq<char>, p: spec_fn(char) -> bool) -> Seq<char> {
    s.skip(lead_len(s, p) as int)
}

/// `s` without its trailing characters that satisfy `p`.
pub open spec fn trim_end_by(s: Seq<char>, p: spec_fn(char) -> bool) -> Seq<char> {
    s.take(s.len() - trail_len(s, p))
}

/// `str::trim`: no leading or trailing Unicode whitespace.
pub open spec fn trim(s: Seq<char>) -> Seq<char> {
    trim_end_by(trim_start_by(s, |c: char| is_ws(c)), |c: char| is_ws(c))
}

pub proof fn lemma_lead_len_bound(s: Seq<char>, p: spec_fn(char) -> bool)
    ensures
        lead_len(s, p) <= s.len(),
        lead_len(s, p) < s.len() ==> !p(s[lead_len(s, p) as int]),
        forall|j: int| 0 <= j < lead_len(s, p) ==> p(#[trigger] s[j]),
    decreases s.len(),
{
    if s.len() > 0 && p(s[0]) {
        lemma_lead_len_bound(s.drop_first(), p);
        assert forall|j: int| 0 <= j < lead_len(s, p) implies p(#[trigger] s[j]) by {
            if j > 0 {
                assert(s[j] == s.drop_first()[j - 1]);
            }
        }
    }
}

pub proof fn lemma_trail_len_bound(s: Seq<char>, p: spec_fn(char) -> bool)
    ensures
        trail_len(s, p) <= s.len(),
        trail_len(s, p) < s.len() ==> !p(s[s.len() - trail_len(s, p) - 1]),
        forall|j: int| s.len() - trail_len(s, p) <= j < s.len() ==> p(#[trigger] s[j]),
    decreases s.len(),
{
    if s.len() > 0 && p(s.last()) {
        lemma_trail_len_bound(s.drop_last(), p);
        assert forall|j: int| s.len() - trail_len(s, p) <= j < s.len() implies p(
            #[trigger] s[j],
        ) by {
            if j < s.len() - 1 {
                assert(s[j] == s.drop_last()[j]);
            }
        }
    }
}

/// Index of the first character of `v` at or after `from` that is
/// whitespace (`ws`) or not whitespace (`!ws`), or `v.len()`.
fn scan_from(v: &[char], from: usize, ws: bool) -> (r: usize)
    requires
        from <= v@.len(),
    ensures
        from <= r <= v@.len(),
        ws ==> r - from == lead_len(v@.skip(from as int), |c: char| is_ws(c)),
        !ws ==> r - from == lead_len(v@.skip(from as int), |c: char| !is_ws(c)),
{
    let ghost p = if ws {
        |c: char| is_ws(c)
    } else {
        |c: char| !is_ws(c)
    };
    let ghost base = v@.skip(from as int);
    let mut i: usize = from;
    assert(v@.skip(from as int).skip(0) =~= v@.skip(from as int));
    while i < v.len() && is_whitespace(v[i]) == ws
        invariant
            from <= i <= v@.len(),
            base == v@.skip(from as int),
            lead_len(base, p) == (i - from) + lead_len(v@.skip(i as int), p),
            ws ==> p == (|c: char| is_ws(c)),
            !ws ==> p == (|c: char| !is_ws(c)),
        decreases v@.len() - i,
    {
        assert(v@.skip(i as int).drop_first() =~= v@.skip(i + 1));
        assert(v@.skip(i as int)[0] == v@[i as int]);
        assert(p(v@.skip(i as int)[0]));
        i = i + 1;
    }
    assert(i < v@.len() ==> v@.skip(i as int)[0] == v@[i as int]);
    assert(lead_len(v@.skip(i as int), p) == 0);
    i
}

/// `str::split_whitespace`: the maximal runs of non-whitespace characters.
pub open spec fn split_ws(s: Seq<char>) -> Seq<Seq<char>>
    decreases s.len(),
{
    let t = trim_start_by(s, |c: char| is_ws(c));
    if t.len() == 0 {
        Seq::empty()
    } else {
        let n = lead_len(t, |c: char| !is_ws(c));
        proof {
            lemma_lead_len_bound(s, |c: char| is_ws(c));
            lemma_lead_len_bound(t, |c: char| !is_ws(c));
        }
        if n == 0 {
            Seq::empty()
        } else {
            seq![t.take(n as int)] + split_ws(t.skip(n as int))
        }
    }
}

/// The views of a vector of character vectors.
pub open spec fn words_view(v: Seq<Vec<char>>) -> Seq<Seq<char>> {
    v.map_values(|w: Vec<char>| w@)
}

/// `str::split_whitespace` on characters.
pub fn split_whitespace(v: &[char]) -> (r: Vec<Vec<char>>)
    ensures
        words_view(r@) == split_ws(v@),
{
    let mut out: Vec<Vec<char>> = Vec::new();
    let mut i: usize = 0;
    let n = v.len();
    assert(v@.skip(0) =~= v@);
    assert(words_view(out@) + split_ws(v@.skip(0)) =~= split_ws(v@));
    while i < n
        invariant
            0 <= i <= n,
            n == v@.len(),
            words_view(out@) + split_ws(v@.skip(i as int)) == split_ws(v@),
        decreases n - i,
    {
        let ghost s = v@.skip(i as int);
        let j = scan_from(v, i, true);
        proof {
            lemma_lead_len_bound(s, |c: char| is_ws(c));
            assert(trim_start_by(s, |c: char| is_ws(c)) =~= v@.skip(j as int));
        }
        if j == n {
            assert(split_ws(s) == Seq::<Seq<char>>::empty());
            assert(words_view(out@) + Seq::<Seq<char>>::empty() =~= words_view(out@));
            assert(v@.skip(n as int).len() == 0);
            i = n;
            assert(split_ws(v@.skip(i as int)) == Seq::<Seq<char>>::empty());
        } else {
            let k = scan_from(v, j, false);
            let ghost t = v@.skip(j as int);
            proof {
                lemma_lead_len_bound(t, |c: char| !is_ws(c));
                assert(t[0] == v@[j as int]);
            }
            let w = sub_chars(v, j, k);
            assert(w@ =~= t.take(k - j));
            assert(t.skip(k - j) =~= v@.skip(k as int));
            let ghost before = words_view(out@);
            out.push(w);
            assert(words_view(out@) =~= before.push(w@));
            assert(words_view(out@) + split_ws(v@.skip(k as int)) =~= before + (seq![w@]
                + split_ws(v@.skip(k as int))));
            i = k;
        }
    }
    assert(v@.skip(n as int).len() == 0);
    assert(words_view(out@) + Seq::<Seq<char>>::empty() =~= words_view(out@));
    out
}

/// `s.trim_end_matches(|c| !c.is_alphanumeric())` on characters.
pub fn trim_end_non_alphanumeric(v: &[char]) -> (r: Vec<char>)
    ensures
        r@ == trim_end_by(v@, |c: char| !unicode_alphanumeric(c)),
{
    let ghost p = |c: char| !unicode_alphanumeric(c);
    let mut i: usize = v.len();
    assert(v@.take(v@.len() as int) =~= v@);
    while i > 0 && !is_alphanumeric(v[i - 1])
        invariant
            0 <= i <= v@.len(),
            trail_len(v@, p) == (v@.len() - i) + trail_len(v@.take(i as int), p),
            p == (|c: char| !unicode_alphanumeric(c)),
        decreases i,
    {
        assert(v@.take(i as int).drop_last() =~= v@.take(i - 1));
        assert(v@.take(i as int).last() == v@[i - 1]);
        assert(p(v@.take(i as int).last()));
        i = i - 1;
    }
    assert(i > 0 ==> v@.take(i as int).last() == v@[i - 1]);
    assert(trail_len(v@.take(i as int), p) == 0);
    sub_chars(v, 0, i)
}

/// Index of the first character of `v` that is not whitespace.
fn lead_ws_end(v: &[char]) -> (r: usize)
    ensures
        r == lead_len(v@, |c: char| is_ws(c)),
{
    let ghost p = |c: char| is_ws(c);
    let mut i: usize = 0;
    assert(v@.skip(0) =~= v@);
    while i < v.len() && is_whitespace(v[i])
        invariant
            0 <= i <= v@.len(),
            lead_len(v@, p) == i + lead_len(v@.skip(i as int), p),
            p == (|c: char| is_ws(c)),
        decreases v@.len() - i,
    {
        assert(v@.skip(i as int).drop_first() =~= v@.skip(i + 1));
        assert(v@.skip(i as int)[0] == v@[i as int]);
        assert(p(v@.skip(i as int)[0]));
        i = i + 1;
    }
    assert(lead_len(v@.skip(i as int), p) == 0);
    i
}

/// Index just past the last character of `v[..end]` that is not whitespace.
fn trail_ws_start(v: &[char], end: usize) -> (r: usize)
    requires
        end <= v@.len(),
    ensures
        r == end - trail_len(v@.take(end as int), |c: char| is_ws(c)),
{
    let ghost p = |c: char| is_ws(c);
    let mut i: usize = end;
    while i > 0 && is_whitespace(v[i - 1])
        invariant
            0 <= i <= end <= v@.len(),
            trail_len(v@.take(end as int), p) == (end - i) + trail_len(v@.take(i as int), p),
            p == (|c: char| is_ws(c)),
        decreases i,
    {
        assert(v@.take(i as int).drop_last() =~= v@.take(i - 1));
        assert(v@.take(i as int).last() == v@[i - 1]);
        assert(p(v@.take(i as int).last()));
        i = i - 1;
    }
    assert(trail_len(v@.take(i as int), p) == 0);
    i
}

/// `str::trim_start` on characters.
pub fn trim_start_chars(v: &[char]) -> (r: Vec<char>)
    ensures
        r@ == trim_start_by(v@, |c: char| is_ws(c)),
{
    let a = lead_ws_end(v);
    proof {
        lemma_lead_len_bound(v@, |c: char| is_ws(c));
    }
    sub_chars(v, a, v.len())
}

/// `str::trim` on characters.
pub fn trim_chars(v: &[char]) -> (r: Vec<char>)
    ensures
        r@ == trim(v@),
{
    let a = lead_ws_end(v);
    proof {
        lemma_lead_len_bound(v@, |c: char| is_ws(c));
    }
    let rest = sub_chars(v, a, v.len());
    assert(rest@ == trim_start_by(v@, |c: char| is_ws(c)));
    let b = trail_ws_start(&rest, rest.len());
    assert(rest@.take(rest@.len() as int) =~= rest@);
    proof {
        lemma_trail_len_bound(rest@, |c: char| is_ws(c));
    }
    sub_chars(&rest, 0, b)
}

/// `s.trim_start_matches(c)` on characters.
pub fn trim_start_char(v: &[char], c: char) -> (r: Vec<char>)
    ensures
        r@ == trim_start_by(v@, |x: char| x == c),
{
    let ghost p = |x: char| x == c;
    let mut i: usize = 0;
    assert(v@.skip(0) =~= v@);
    while i < v.len() && v[i] == c
        invariant
            0 <= i <= v@.len(),
            lead_len(v@, p) == i + lead_len(v@.skip(i as int), p),
            p == (|x: char| x == c),
        decreases v@.len() - i,
    {
        assert(v@.skip(i as int).drop_first() =~= v@.skip(i + 1));
        assert(v@.skip(i as int)[0] == v@[i as int]);
        assert(p(v@.skip(i as int)[0]));
        i = i + 1;
    }
    assert(lead_len(v@.skip(i as int), p) == 0);
    sub_chars(v, i, v.len())
}

/// `s.trim_end_matches(c)` on characters.
pub fn trim_end_char(v: &[char], c: char) -> (r: Vec<char>)
    ensures
        r@ == trim_end_by(v@, |x: char| x == c),
{
    let ghost p = |x: char| x == c;
    let mut i: usize = v.len();
    assert(v@.take(v@.len() as int) =~= v@);
    while i > 0 && v[i - 1] == c
        invariant
            0 <= i <= v@.len(),
            trail_len(v@, p) == (v@.len() - i) + trail_len(v@.take(i as int), p),
            p == (|x: char| x == c),
        decreases i,
    {
        assert(v@.take(i as int).drop_last() =~= v@.take(i - 1));
        assert(v@.take(i as int).last() == v@[i - 1]);
        assert(p(v@.take(i as int).last()));
        i = i - 1;
    }
    assert(trail_len(v@.take(i as int), p) == 0);
    sub_chars(v, 0, i)
}

// ── ASCII case ───────────────────────────────────────────────────────────────

/// `str::eq_ignore_ascii_case` on characters.
pub open spec fn eq_ignore_ascii_case(a: Seq<char>, b: Seq<char>) -> bool {
    a.len() == b.len() && forall|i: int|
        0 <= i < a.len() ==> ascii_lower_char(#[trigger] a[i]) == ascii_lower_char(b[i])
}

fn ascii_lower(c: char) -> (r: char)
    ensures
        r == ascii_lower_char(c),
{
    if 'A' <= c && c <= 'Z' {
        let u = (c as u32) + 32;
        assert(0x61 <= u <= 0x7a);
        (u as u8) as char
    } else {
        c
    }
}

/// `eq_ignore_ascii_case` on character slices.
pub fn chars_eq_ignore_ascii_case(a: &[char], b: &[char]) -> (r: bool)
    ensures
        r == eq_ignore_ascii_case(a@, b@),
{
    if a.len() != b.len() {
        return false;
    }
    let mut i: usize = 0;
    while i < a.len()
        invariant
            0 <= i <= a@.len(),
            a@.len() == b@.len(),
            forall|j: int| 0 <= j < i ==> ascii_lower_char(#[trigger] a@[j]) == ascii_lower_char(
                b@[j],
            ),
        decreases a@.len() - i,
    {
        if ascii_lower(a[i]) != ascii_lower(b[i]) {
            return false;
        }
        i = i + 1;
    }
    true
}

// ── Decimal numbers ──────────────────────────────────────────────────────────

/// Whether `c` is an ASCII decimal digit.
pub open spec fn is_digit(c: char) -> bool {
    '0' <= c && c <= '9'
}

/// Value of a string of decimal digits.
pub open spec fn digits_value(s: Seq<char>) -> nat
    decreases s.len(),
{
    if s.len() == 0 {
        0
    } else {
        digits_value(s.drop_last()) * 10 + ((s.last() as u32) - 48) as nat
    }
}

/// Whether every character of `d` is an ASCII digit.
pub open spec fn all_digits(d: Seq<char>) -> bool {
    forall|i: int| 0 <= i < d.len() ==> is_digit(#[trigger] d[i])
}

/// `s` without one leading `+`, if it has one.
pub open spec fn unsigned_digits(s: Seq<char>) -> Seq<char> {
    if s.len() > 0 && s[0] == '+' {
        s.drop_first()
    } else {
        s
    }
}

/// `str::parse::<u32>` (std `FromStr for u32`): an optional `+` followed by
/// at least one ASCII digit, with a value that fits in `u32`.
pub open spec fn parse_u32_spec(s: Seq<char>) -> Option<u32> {
    let d = unsigned_digits(s);
    if d.len() > 0 && all_digits(d) && digits_value(d) <= u32::MAX {
        Some(digits_value(d) as u32)
    } else {
        None
    }
}

proof fn lemma_digits_value_monotone(s: Seq<char>, i: int)
    requires
        0 <= i <= s.len(),
        forall|k: int| 0 <= k < s.len() ==> is_digit(#[trigger] s[k]),
    ensures
        digits_value(s.take(i)) <= digits_value(s),
    decreases s.len() - i,
{
    if i < s.len() {
        lemma_digits_value_monotone(s, i + 1);
        assert(s.take(i + 1).drop_last() =~= s.take(i));
    } else {
        assert(s.take(i) =~= s);
    }
}

/// `str::parse::<u32>` on characters (behaviour of std's `FromStr for u32`).
pub fn parse_u32(v: &[char]) -> (r: Option<u32>)
    ensures
        r == parse_u32_spec(v@),
{
    let start: usize = if v.len() > 0 && v[0] == '+' {
        1
    } else {
        0
    };
    let ghost d = unsigned_digits(v@);
    assert(d =~= v@.skip(start as int));
    if start >= v.len() {
        return None;
    }
    let mut acc: u64 = 0;
    let mut i = start;
    while i < v.len()
        invariant
            start <= i <= v@.len(),
            d == v@.skip(start as int),
            d == unsigned_digits(v@),
            acc as nat == digits_value(d.take(i - start)),
            acc <= u32::MAX,
            forall|k: int| 0 <= k < i - start ==> is_digit(#[trigger] d[k]),
        decreases v@.len() - i,
    {
        let c = v[i];
        assert(d[i - start] == c);
        if !('0' <= c && c <= '9') {
            assert(!is_digit(d[i - start]));
            return None;
        }
        assert(d.take(i - start + 1).drop_last() =~= d.take(i - start));
        assert(d.take(i - start + 1).last() == c);
        let digit = (c as u32 - 48) as u64;
        acc = acc * 10 + digit;
        if acc > 0xffff_ffff {
            proof {
                assert forall|k: int| 0 <= k < i - start + 1 implies is_digit(
                    #[trigger] d.take(i - start + 1)[k],
                ) by {
                    assert(d.take(i - start + 1)[k] == d[k]);
                }
                if all_digits(d) {
                    lemma_digits_value_monotone(d, i - start + 1);
                }
            }
            return None;
        }
        i = i + 1;
    }
    assert(d.take(i - start) =~= d);
    Some(acc as u32)
}

/// Decimal representation of `n` (no sign, no leading zeros).
pub open spec fn dec(n: nat) -> Seq<char>
    decreases n,
{
    if n < 10 {
        seq![((n + 48) as u32) as char]
    } else {
        dec(n / 10).push((((n % 10) + 48) as u32) as char)
    }
}

fn digit_char(d: u64) -> (r: char)
    requires
        d < 10,
    ensures
        r == ((d + 48) as u32) as char,
{
    ((d + 48) as u8) as char
}

/// Decimal representation of `n`, as `n.to_string()` writes it.
pub fn u64_to_dec(n: u64) -> (r: Vec<char>)
    ensures
        r@ == dec(n as nat),
    decreases n,
{
    if n < 10 {
        let mut v = Vec::new();
        v.push(digit_char(n));
        assert(v@ =~= dec(n as nat));
        v
    } else {
        let mut v = u64_to_dec(n / 10);
        v.push(digit_char(n % 10));
        v
    }
}

} // verus!

verus! {

// ── Splitting ────────────────────────────────────────────────────────────────

/// `str::split(sep)`: the pieces between separators (always at least one).
pub open spec fn split_on(s: Seq<char>, sep: char) -> Seq<Seq<char>>
    decreases s.len(),
{
    if s.len() == 0 {
        seq![Seq::empty()]
    } else {
        let p = split_on(s.drop_last(), sep);
        if s.last() == sep {
            p.push(Seq::empty())
        } else {
            p.update(p.len() - 1, p.last().push(s.last()))
        }
    }
}

pub proof fn lemma_split_on_nonempty(s: Seq<char>, sep: char)
    ensures
        split_on(s, sep).len() >= 1,
    decreases s.len(),
{
    if s.len() > 0 {
        lemma_split_on_nonempty(s.drop_last(), sep);
    }
}

/// Index of the last `c` in `s`, or -1.
pub open spec fn last_index(s: Seq<char>, c: char) -> int
    decreases s.len(),
{
    if s.len() == 0 {
        -1
    } else if s.last() == c {
        s.len() - 1
    } else {
        last_index(s.drop_last(), c)
    }
}

pub proof fn lemma_last_index_bounds(s: Seq<char>, c: char)
    ensures
        -1 <= last_index(s, c) < s.len(),
        last_index(s, c) >= 0 ==> s[last_index(s, c)] == c,
        forall|j: int| last_index(s, c) < j < s.len() ==> s[j] != c,
    decreases s.len(),
{
    if s.len() > 0 && s.last() != c {
        lemma_last_index_bounds(s.drop_last(), c);
        assert forall|j: int| last_index(s, c) < j < s.len() implies s[j] != c by {
            if j < s.len() - 1 {
                assert(s[j] == s.drop_last()[j]);
            }
        }
    }
}

/// No character of `s` is `c`.
pub open spec fn free_of(s: Seq<char>, c: char) -> bool {
    forall|i: int| 0 <= i < s.len() ==> s[i] != c
}

/// Each part followed by `sep`, all joined (`a+b+` for parts `a`, `b`).
pub open spec fn each_followed_by(parts: Seq<Seq<char>>, sep: char) -> Seq<char>
    decreases parts.len(),
{
    if parts.len() == 0 {
        Seq::empty()
    } else {
        each_followed_by(parts.drop_last(), sep) + parts.last() + seq![sep]
    }
}

/// Appending text free of `c` leaves the last `c` where it was.
pub proof fn lemma_last_index_append(a: Seq<char>, b: Seq<char>, c: char)
    requires
        free_of(b, c),
    ensures
        last_index(a + b, c) == last_index(a, c),
    decreases b.len(),
{
    if b.len() == 0 {
        assert(a + b =~= a);
    } else {
        let b0 = b.drop_last();
        assert(free_of(b0, c)) by {
            assert forall|i: int| 0 <= i < b0.len() implies b0[i] != c by {
                assert(b0[i] == b[i]);
            }
        }
        lemma_last_index_append(a, b0, c);
        assert((a + b).drop_last() =~= a + b0);
        assert((a + b).last() == b[b.len() - 1]);
    }
}

/// Splitting `a + b`, where `b` holds no separator, extends the last piece
/// of `a` by `b`.
pub proof fn lemma_split_on_append_plain(a: Seq<char>, b: Seq<char>, sep: char)
    requires
        free_of(b, sep),
    ensures
        split_on(a + b, sep) == split_on(a, sep).update(
            split_on(a, sep).len() - 1,
            split_on(a, sep).last() + b,
        ),
    decreases b.len(),
{
    lemma_split_on_nonempty(a, sep);
    let q = split_on(a, sep);
    if b.len() == 0 {
        assert(a + b =~= a);
        assert(q.last() + b =~= q.last());
        assert(q.update(q.len() - 1, q.last() + b) =~= q);
    } else {
        let b0 = b.drop_last();
        assert(free_of(b0, sep)) by {
            assert forall|i: int| 0 <= i < b0.len() implies b0[i] != sep by {
                assert(b0[i] == b[i]);
            }
        }
        lemma_split_on_append_plain(a, b0, sep);
        assert((a + b).drop_last() =~= a + b0);
        assert((a + b).last() == b[b.len() - 1]);
        let p = split_on(a + b0, sep);
        assert(p.last() == q.last() + b0);
        assert((q.last() + b0).push(b.last()) =~= q.last() + b);
        assert(split_on(a + b, sep) =~= q.update(q.len() - 1, q.last() + b));
    }
}

/// Parts free of `sep`, each followed by `sep`: without the final `sep` the
/// text splits back into the parts, and that final `sep` is the last one.
pub proof fn lemma_split_each_followed_by(parts: Seq<Seq<char>>, sep: char)
    requires
        parts.len() > 0,
        forall|i: int| 0 <= i < parts.len() ==> free_of(#[trigger] parts[i], sep),
    ensures
        split_on(each_followed_by(parts, sep).drop_last(), sep) == parts,
        last_index(each_followed_by(parts, sep), sep) == each_followed_by(parts, sep).len() - 1,
    decreases parts.len(),
{
    let init = parts.drop_last();
    let pre = each_followed_by(init, sep);
    let whole = each_followed_by(parts, sep);
    assert(whole.drop_last() =~= pre + parts.last());
    assert(free_of(parts[parts.len() - 1], sep));
    lemma_split_on_append_plain(pre, parts.last(), sep);
    if init.len() == 0 {
        assert(pre =~= Seq::<char>::empty());
        assert(split_on(whole.drop_last(), sep) =~= parts);
    } else {
        assert forall|i: int| 0 <= i < init.len() implies free_of(#[trigger] init[i], sep) by {
            assert(init[i] == parts[i]);
        }
        lemma_split_each_followed_by(init, sep);
        assert(pre.drop_last().push(sep) =~= pre);
        lemma_split_on_nonempty(pre, sep);
        assert(split_on(pre, sep) =~= init.push(Seq::<char>::empty()));
        assert(Seq::<char>::empty() + parts.last() =~= parts.last());
        assert(split_on(whole.drop_last(), sep) =~= parts);
    }
}

/// Text that neither starts nor ends with whitespace is its own trim.
pub proof fn lemma_trim_unchanged(s: Seq<char>)
    requires
        s.len() > 0,
        !is_ws(s[0]),
        !is_ws(s[s.len() - 1]),
    ensures
        trim(s) == s,
{
    assert(s.skip(0) =~= s);
    assert(s.take(s.len() as int) =~= s);
}

/// Index of the last `c` in `v`, if any.
pub fn last_index_of(v: &[char], c: char) -> (r: Option<usize>)
    ensures
        match r {
            Some(i) => i as int == last_index(v@, c),
            None => last_index(v@, c) == -1,
        },
{
    let mut i: usize = v.len();
    assert(v@.take(v@.len() as int) =~= v@);
    while i > 0
        invariant
            0 <= i <= v@.len(),
            last_index(v@, c) == last_index(v@.take(i as int), c),
        decreases i,
    {
        assert(v@.take(i as int).last() == v@[i - 1]);
        if v[i - 1] == c {
            return Some(i - 1);
        }
        assert(v@.take(i as int).drop_last() =~= v@.take(i - 1));
        i = i - 1;
    }
    None
}

/// Index of the first `c` in `s`, or -1.
pub open spec fn first_index(s: Seq<char>, c: char) -> int
    decreases s.len(),
{
    if s.len() == 0 {
        -1
    } else if s[0] == c {
        0
    } else {
        let r = first_index(s.drop_first(), c);
        if r < 0 {
            -1
        } else {
            r + 1
        }
    }
}

/// Index of the first `c` in `v`, if any.
pub fn first_index_of(v: &[char], c: char) -> (r: Option<usize>)
    ensures
        match r {
            Some(i) => i as int == first_index(v@, c) && i < v@.len() && v@[i as int] == c,
            None => first_index(v@, c) == -1,
        },
{
    let mut i: usize = 0;
    assert(v@.skip(0) =~= v@);
    while i < v.len()
        invariant
            0 <= i <= v@.len(),
            first_index(v@, c) == (if first_index(v@.skip(i as int), c) < 0 {
                -1
            } else {
                first_index(v@.skip(i as int), c) + i
            }),
        decreases v@.len() - i,
    {
        assert(v@.skip(i as int)[0] == v@[i as int]);
        if v[i] == c {
            return Some(i);
        }
        assert(v@.skip(i as int).drop_first() =~= v@.skip(i + 1));
        i = i + 1;
    }
    None
}

// ── Substrings ───────────────────────────────────────────────────────────────

/// `needle` occurs in `hay` starting at index `i`.
pub open spec fn occurs_at(hay: Seq<char>, needle: Seq<char>, i: int) -> bool {
    0 <= i && i + needle.len() <= hay.len() && hay.subrange(i, i + needle.len()) == needle
}

/// `needle` occurs somewhere in `hay` (`str::contains`).
pub open spec fn contains_seq(hay: Seq<char>, needle: Seq<char>) -> bool {
    exists|i: int| occurs_at(hay, needle, i)
}

/// Whether `needle` occurs in `hay` at index `i`.
fn matches_at(hay: &[char], needle: &[char], i: usize) -> (r: bool)
    requires
        i + needle@.len() <= hay@.len(),
    ensures
        r == occurs_at(hay@, needle@, i as int),
{
    let n = hay.len();
    let mut k: usize = 0;
    while k < needle.len()
        invariant
            n == hay@.len(),
            i + needle@.len() <= hay@.len(),
            0 <= k <= needle@.len(),
            forall|q: int| 0 <= q < k ==> hay@[i + q] == needle@[q],
        decreases needle@.len() - k,
    {
        if hay[i + k] != needle[k] {
            assert(hay@.subrange(i as int, i + needle@.len())[k as int] != needle@[k as int]);
            return false;
        }
        k = k + 1;
    }
    assert(hay@.subrange(i as int, i + needle@.len()) =~= needle@);
    true
}

/// Index of the first occurrence of `needle` in `hay` (`str::find`).
pub fn find_sub(hay: &[char], needle: &[char]) -> (r: Option<usize>)
    ensures
        match r {
            Some(i) => occurs_at(hay@, needle@, i as int) && forall|j: int|
                0 <= j < i ==> !occurs_at(hay@, needle@, j),
            None => !contains_seq(hay@, needle@),
        },
{
    if needle.len() > hay.len() {
        return None;
    }
    let last = hay.len() - needle.len();
    let mut i: usize = 0;
    loop
        invariant
            last + needle@.len() == hay@.len(),
            0 <= i <= last,
            forall|j: int| 0 <= j < i ==> !occurs_at(hay@, needle@, j),
        decreases last - i,
    {
        if matches_at(hay, needle, i) {
            return Some(i);
        }
        if i == last {
            return None;
        }
        i = i + 1;
    }
}

/// Whether `needle` occurs in `hay` (`str::contains`).
pub fn contains_sub(hay: &[char], needle: &[char]) -> (r: bool)
    ensures
        r == contains_seq(hay@, needle@),
{
    match find_sub(hay, needle) {
        Some(_) => true,
        None => false,
    }
}

// ── UTF-8 width ──────────────────────────────────────────────────────────────

/// Number of bytes of `c` in UTF-8.
pub open spec fn utf8_width(c: char) -> nat {
    let u = c as u32;
    if u < 0x80 {
        1
    } else if u < 0x800 {
        2
    } else if u < 0x10000 {
        3
    } else {
        4
    }
}

/// Number of bytes of `s` in UTF-8.
pub open spec fn utf8_len(s: Seq<char>) -> nat
    decreases s.len(),
{
    if s.len() == 0 {
        0
    } else {
        utf8_len(s.drop_last()) + utf8_width(s.last())
    }
}

/// Byte offset `n` of the UTF-8 encoding of `s` is in bounds and falls
/// between two characters (so `&s[..n]` does not panic), or `s` is shorter
/// than `n` bytes.
pub open spec fn short_or_boundary_at(s: Seq<char>, n: nat) -> bool {
    utf8_len(s) < n || exists|k: int| 0 <= k <= s.len() && #[trigger] utf8_len(s.take(k)) == n
}

} // verus!
