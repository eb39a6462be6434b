//! The upload request: a random multipart boundary, the `multipart/form-data`
//! body carrying the audio, the request's URL and headers as the
//! configuration decides them, the error text of an HTTP failure, and the
//! reading of the server's JSON reply.
//!
//! Sending the request is done at the program's edge; what is built and read
//! here is computed from plain values.
use vstd::prelude::*;

use rand::Rng;
use vstd::utf8::encode_utf8;

use crate::config::{url_spec, ClientConfig};
use crate::text::{
    append_chars, append_str, chars_of, concat3, contains_seq, dec, find_sub, first_index,
    first_index_of, is_whitespace, is_ws, lead_len, occurs_at, push_char, string_of, sub_chars,
    trim, trim_chars, trim_start_by, trim_start_chars, u64_to_dec, utf8_len,
};

verus! {

broadcast use vstd::string::group_string_axioms;

// ── Boundary ─────────────────────────────────────────────────────────────────

/// Every boundary starts with this.
pub const BOUNDARY_PREFIX: &'static str = "----ghostscribe-";

/// Number of random characters after the prefix.
pub const BOUNDARY_RANDOM_LEN: usize = 16;

/// The boundary character for a value below 36: `0`–`9`, then `a`–`z`.
pub open spec fn boundary_char_spec(n: u8) -> char {
    if n < 10 {
        (48 + n) as char
    } else {
        (97 + n - 10) as char
    }
}

/// A character that a boundary's random part may hold.
pub open spec fn is_boundary_char(c: char) -> bool {
    ('0' <= c && c <= '9') || ('a' <= c && c <= 'z')
}

/// A boundary: the prefix, then the random characters.
pub open spec fn boundary_spec(digits: Seq<u8>) -> Seq<char> {
    BOUNDARY_PREFIX@ + digits.map_values(|n: u8| boundary_char_spec(n))
}

fn boundary_char(n: u8) -> (c: char)
    requires
        n < 36,
    ensures
        c == boundary_char_spec(n),
{
    if n < 10 {
        (48u8 + n) as char
    } else {
        (97u8 + (n - 10)) as char
    }
}

/// The boundary made of these random values (each below 36).
pub fn boundary_from_digits(digits: &[u8]) -> (r: String)
    requires
        forall|i: int| 0 <= i < digits@.len() ==> digits@[i] < 36,
    ensures
        r@ == boundary_spec(digits@),
{
    let mut out = BOUNDARY_PREFIX.to_string();
    let mut i: usize = 0;
    while i < digits.len()
        invariant
            0 <= i <= digits@.len(),
            forall|k: int| 0 <= k < digits@.len() ==> digits@[k] < 36,
            out@ == BOUNDARY_PREFIX@ + digits@.take(i as int).map_values(
                |n: u8| boundary_char_spec(n),
            ),
        decreases digits@.len() - i,
    {
        let c = boundary_char(digits[i]);
        push_char(&mut out, c);
        assert(digits@.take(i as int).map_values(|n: u8| boundary_char_spec(n)).push(c)
            =~= digits@.take(i + 1).map_values(|n: u8| boundary_char_spec(n)));
        i = i + 1;
    }
    assert(digits@.take(digits@.len() as int) =~= digits@);
    out
}

/// rand: `gen_range(0..bound)` on the thread-local generator. The value is
/// below `bound`; which value comes is chance, and nothing more is said.
#[verifier::external_body]
fn random_below(bound: u8) -> (r: u8)
    requires
        bound > 0,
    ensures
        r < bound,
{
    rand::thread_rng().gen_range(0..bound)
}

/// A fresh boundary: the prefix and 16 random characters from `0-9a-z`.
pub fn random_boundary() -> (r: String)
    ensures
        r@.len() == BOUNDARY_PREFIX@.len() + BOUNDARY_RANDOM_LEN,
        r@.take(BOUNDARY_PREFIX@.len() as int) == BOUNDARY_PREFIX@,
        forall|i: int|
            BOUNDARY_PREFIX@.len() <= i < r@.len() ==> is_boundary_char(#[trigger] r@[i]),
{
    let mut digits: Vec<u8> = Vec::new();
    let mut i: usize = 0;
    while i < BOUNDARY_RANDOM_LEN
        invariant
            0 <= i <= BOUNDARY_RANDOM_LEN,
            digits@.len() == i,
            forall|k: int| 0 <= k < digits@.len() ==> digits@[k] < 36,
        decreases BOUNDARY_RANDOM_LEN - i,
    {
        digits.push(random_below(36));
        i = i + 1;
    }
    let r = boundary_from_digits(&digits);
    proof {
        let tail = digits@.map_values(|n: u8| boundary_char_spec(n));
        assert(r@.take(BOUNDARY_PREFIX@.len() as int) =~= BOUNDARY_PREFIX@);
        assert forall|i: int| BOUNDARY_PREFIX@.len() <= i < r@.len() implies is_boundary_char(
            #[trigger] r@[i],
        ) by {
            let k = i - BOUNDARY_PREFIX@.len();
            assert(r@[i] == tail[k]);
            assert(digits@[k] < 36);
        }
    }
    r
}

// ── Multipart body ───────────────────────────────────────────────────────────

/// The request body: one `audio` part holding the payload under the given
/// file name and MIME type, framed by the boundary, every text line ending
/// in CRLF.
pub open spec fn multipart_body(
    boundary: Seq<char>,
    filename: Seq<char>,
    mime: Seq<char>,
    payload: Seq<u8>,
) -> Seq<u8> {
    encode_utf8("--"@ + boundary + "\r\n"@) + encode_utf8(
        "Content-Disposition: form-data; name=\"audio\"; filename=\""@ + filename + "\"\r\n"@,
    ) + encode_utf8("Content-Type: "@ + mime + "\r\n\r\n"@) + payload + encode_utf8(
        "\r\n--"@ + boundary + "--\r\n"@,
    )
}

/// Appends the UTF-8 bytes of `s`.
fn push_str_bytes(body: &mut Vec<u8>, s: &str)
    ensures
        final(body)@ == old(body)@ + encode_utf8(s@),
{
    let b = s.as_bytes();
    push_bytes(body, b);
}

/// Appends `b`.
fn push_bytes(body: &mut Vec<u8>, b: &[u8])
    ensures
        final(body)@ == old(body)@ + b@,
{
    let ghost start = body@;
    let mut i: usize = 0;
    while i < b.len()
        invariant
            0 <= i <= b@.len(),
            body@ == start + b@.take(i as int),
        decreases b@.len() - i,
    {
        body.push(b[i]);
        assert(start + b@.take(i as int) + seq![b@[i as int]] =~= start + b@.take(i + 1));
        i = i + 1;
    }
    assert(b@.take(b@.len() as int) =~= b@);
}

/// Build the `multipart/form-data` body for one audio upload.
pub fn build_multipart(boundary: &str, filename: &str, mime: &str, payload: &[u8]) -> (r: Vec<u8>)
    ensures
        r@ == multipart_body(boundary@, filename@, mime@, payload@),
{
    let mut body: Vec<u8> = Vec::new();
    let b = boundary.to_string();
    let f = filename.to_string();
    let m = mime.to_string();
    let opening = concat3("--", &b, "\r\n");
    push_str_bytes(&mut body, opening.as_str());
    let disposition = concat3(
        "Content-Disposition: form-data; name=\"audio\"; filename=\"",
        &f,
        "\"\r\n",
    );
    push_str_bytes(&mut body, disposition.as_str());
    let content_type = concat3("Content-Type: ", &m, "\r\n\r\n");
    push_str_bytes(&mut body, content_type.as_str());
    push_bytes(&mut body, payload);
    let closing = concat3("\r\n--", &b, "--\r\n");
    push_str_bytes(&mut body, closing.as_str());
    body
}

/// The `Content-Type` header of a request with this boundary.
pub fn content_type_for(boundary: &str) -> (r: String)
    ensures
        r@ == "multipart/form-data; boundary="@ + boundary@,
{
    let mut out = "multipart/form-data; boundary=".to_string();
    append_str(&mut out, boundary);
    out
}

// ── The request ──────────────────────────────────────────────────────────────

/// Everything the HTTP client needs to send one upload.
pub struct UploadRequest {
    /// `POST` target.
    pub url: String,
    /// `Content-Type` header.
    pub content_type: String,
    /// `X-Auth-Token` header, sent only when a token is configured.
    pub auth_token: Option<String>,
    /// Whole-request timeout in seconds.
    pub timeout_s: u64,
    /// The multipart body; its length is the `Content-Length` header.
    pub body: Vec<u8>,
}

/// The request that uploads `payload` (as `filename`, of type `mime`) to the
/// configured endpoint, with the given boundary.
pub fn prepare_upload(
    cfg: &ClientConfig,
    boundary: &str,
    payload: &[u8],
    filename: &str,
    mime: &str,
) -> (r: UploadRequest)
    ensures
        r.url@ == url_spec(cfg@.server_url, cfg@.endpoint),
        r.content_type@ == "multipart/form-data; boundary="@ + boundary@,
        r.auth_token matches Some(t) ==> t@ == cfg@.auth_token,
        r.auth_token is Some <==> cfg@.auth_token.len() > 0,
        r.timeout_s == cfg@.request_timeout_s,
        r.body@ == multipart_body(boundary@, filename@, mime@, payload@),
{
    let auth_token = if cfg.has_auth() {
        Some(cfg.auth_token.clone())
    } else {
        None
    };
    UploadRequest {
        url: cfg.url(),
        content_type: content_type_for(boundary),
        auth_token,
        timeout_s: cfg.request_timeout_s,
        body: build_multipart(boundary, filename, mime, payload),
    }
}

/// The error text for a reply with a failure status: `HTTP <code>: ` and
/// the reply body with surrounding whitespace trimmed.
pub fn http_error_message(code: u16, body: &str) -> (r: String)
    ensures
        r@ == "HTTP "@ + dec(code as nat) + ": "@ + trim(body@),
{
    let mut out = "HTTP ".to_string();
    let digits = u64_to_dec(code as u64);
    append_chars(&mut out, &digits);
    append_str(&mut out, ": ");
    let b = chars_of(body);
    let t = trim_chars(&b);
    append_chars(&mut out, &t);
    out
}


// ── Reading the reply ────────────────────────────────────────────────────────

/// Index of the first occurrence of `n` in `h` (meaningful when there is one).
pub open spec fn first_occurrence(h: Seq<char>, n: Seq<char>) -> int {
    choose|i: int| occurs_at(h, n, i) && forall|j: int| 0 <= j < i ==> !occurs_at(h, n, j)
}

/// `"key"` with its quotes.
pub open spec fn quoted_key(key: Seq<char>) -> Seq<char> {
    seq!['"'] + key + seq!['"']
}

/// The reply text after the first `"key"` and the next `:`, leading
/// whitespace removed; `None` when the key or the colon is missing.
pub open spec fn value_after_key(json: Seq<char>, key: Seq<char>) -> Option<Seq<char>> {
    let needle = quoted_key(key);
    if !contains_seq(json, needle) {
        None
    } else {
        let tail = json.skip(first_occurrence(json, needle) + needle.len());
        let c = first_index(tail, ':');
        if c < 0 {
            None
        } else {
            Some(trim_start_by(tail.skip(c + 1), |ch: char| is_ws(ch)))
        }
    }
}

/// A hexadecimal digit's value, or -1 for any other character.
pub open spec fn hex_digit(c: char) -> int {
    if '0' <= c && c <= '9' {
        c as int - 48
    } else if 'a' <= c && c <= 'f' {
        c as int - 87
    } else if 'A' <= c && c <= 'F' {
        c as int - 55
    } else {
        -1
    }
}

/// Every character is a hexadecimal digit.
pub open spec fn all_hex(d: Seq<char>) -> bool {
    forall|i: int| 0 <= i < d.len() ==> hex_digit(#[trigger] d[i]) >= 0
}

/// The value of a string of hexadecimal digits.
pub open spec fn hex_value(d: Seq<char>) -> nat
    decreases d.len(),
{
    if d.len() == 0 {
        0
    } else {
        hex_value(d.drop_last()) * 16 + hex_digit(d.last()) as nat
    }
}

/// `u32::from_str_radix(h, 16)` for a string of at most four characters: an
/// optional `+`, then at least one hexadecimal digit and nothing else.
pub open spec fn parse_hex(h: Seq<char>) -> Option<nat> {
    let d = if h.len() > 0 && h[0] == '+' {
        h.skip(1)
    } else {
        h
    };
    if d.len() > 0 && all_hex(d) {
        Some(hex_value(d))
    } else {
        None
    }
}

/// A Unicode scalar value: at most `0x10FFFF` and not a surrogate.
pub open spec fn valid_scalar(n: int) -> bool {
    n <= 0x10FFFF && !(0xD800 <= n && n <= 0xDFFF)
}

/// What a `\uXXXX` escape adds: the character, when the four characters
/// are a hexadecimal scalar value; nothing otherwise.
pub open spec fn unicode_escape(h: Seq<char>) -> Seq<char> {
    match parse_hex(h) {
        Some(n) => if valid_scalar(n as int) {
            seq![n as char]
        } else {
            Seq::empty()
        },
        None => Seq::empty(),
    }
}

/// The character a backslash escape stands for: `\n`, `\t`, `\r` as control
/// characters, any other character as itself.
pub open spec fn escaped_char(e: char) -> char {
    if e == 'n' {
        '\n'
    } else if e == 't' {
        '\t'
    } else if e == 'r' {
        '\r'
    } else {
        e
    }
}

/// `p` in front of a decoded string, if there is one.
pub open spec fn prepend(p: Seq<char>, o: Option<Seq<char>>) -> Option<Seq<char>> {
    match o {
        Some(t) => Some(p + t),
        None => None,
    }
}

/// The characters of a JSON string from just after its opening quote: up to
/// the closing quote (or the end), escapes decoded. A `\u` escape reads up
/// to four characters; unless they are four bytes of text the string ends
/// there. `None` when the text ends on a lone backslash.
pub open spec fn json_string_body(s: Seq<char>) -> Option<Seq<char>>
    decreases s.len(),
{
    if s.len() == 0 {
        Some(Seq::empty())
    } else if s[0] == '"' {
        Some(Seq::empty())
    } else if s[0] == '\\' {
        if s.len() < 2 {
            None
        } else if s[1] == 'u' {
            let rest = s.skip(2);
            let k = if rest.len() < 4 {
                rest.len() as int
            } else {
                4
            };
            let h = rest.take(k);
            if utf8_len(h) != 4 {
                Some(Seq::empty())
            } else {
                prepend(unicode_escape(h), json_string_body(rest.skip(k)))
            }
        } else {
            prepend(seq![escaped_char(s[1])], json_string_body(s.skip(2)))
        }
    } else {
        prepend(seq![s[0]], json_string_body(s.skip(1)))
    }
}

/// [`json_string_body`] of an empty text, or of one that starts with the
/// closing quote, is empty.
pub proof fn lemma_json_string_body_end(s: Seq<char>)
    requires
        s.len() == 0 || s[0] == '"',
    ensures
        json_string_body(s) == Some(Seq::<char>::empty()),
{
    reveal(json_string_body);
}

/// A text ending on a lone backslash has no decoding.
pub proof fn lemma_json_string_body_lone_backslash(s: Seq<char>)
    requires
        s.len() == 1,
        s[0] == '\\',
    ensures
        json_string_body(s) is None,
{
    reveal(json_string_body);
}

/// A `\u` escape reads up to four characters; unless they are four bytes
/// of text the string ends there.
pub proof fn lemma_json_string_body_unicode(s: Seq<char>, k: int)
    requires
        s.len() >= 2,
        s[0] == '\\',
        s[1] == 'u',
        k == (if s.len() - 2 < 4 {
            s.len() - 2
        } else {
            4
        }),
    ensures
        json_string_body(s) == if utf8_len(s.skip(2).take(k)) != 4 {
            Some(Seq::<char>::empty())
        } else {
            prepend(unicode_escape(s.skip(2).take(k)), json_string_body(s.skip(2).skip(k)))
        },
{
    reveal(json_string_body);
}

/// Any other escape stands for one character.
pub proof fn lemma_json_string_body_escape(s: Seq<char>)
    requires
        s.len() >= 2,
        s[0] == '\\',
        s[1] != 'u',
    ensures
        json_string_body(s) == prepend(seq![escaped_char(s[1])], json_string_body(s.skip(2))),
{
    reveal(json_string_body);
}

/// Any other character stands for itself.
pub proof fn lemma_json_string_body_plain(s: Seq<char>)
    requires
        s.len() > 0,
        s[0] != '"',
        s[0] != '\\',
    ensures
        json_string_body(s) == prepend(seq![s[0]], json_string_body(s.skip(1))),
{
    reveal(json_string_body);
}

/// Decoding `a` then `b` in front is decoding `a + b` in front.
pub proof fn lemma_prepend_prepend(a: Seq<char>, b: Seq<char>, o: Option<Seq<char>>)
    ensures
        prepend(a, prepend(b, o)) == prepend(a + b, o),
{
    match o {
        Some(t) => {
            assert(a + (b + t) =~= (a + b) + t);
        },
        None => {},
    }
}

/// The string value of `key` in a flat JSON object: `None` when the key,
/// the colon or the opening quote is missing, or the text ends on a lone
/// backslash.
pub open spec fn extract_string_spec(json: Seq<char>, key: Seq<char>) -> Option<Seq<char>> {
    match value_after_key(json, key) {
        Some(v) => if v.len() > 0 && v[0] == '"' {
            json_string_body(v.skip(1))
        } else {
            None
        },
        None => None,
    }
}

/// A character that ends a number: `,`, `}` or whitespace.
pub open spec fn ends_number(c: char) -> bool {
    c == ',' || c == '}' || is_ws(c)
}

/// The text of the number value of `key`: what follows the colon up to the
/// first `,`, `}` or whitespace.
pub open spec fn extract_number_spec(json: Seq<char>, key: Seq<char>) -> Option<Seq<char>> {
    match value_after_key(json, key) {
        Some(v) => Some(v.take(lead_len(v, |c: char| !ends_number(c)) as int)),
        None => None,
    }
}

/// `char::from_u32` (std): `Some` exactly when `n` is a Unicode scalar
/// value, holding the character with that code.
#[verifier::external_body]
fn char_from_u32(n: u32) -> (r: Option<char>)
    ensures
        r is Some <==> valid_scalar(n as int),
        r matches Some(c) ==> c == n as char,
{
    char::from_u32(n)
}

fn hex_digit_exec(c: char) -> (r: Option<u32>)
    ensures
        match r {
            Some(d) => hex_digit(c) >= 0 && d == hex_digit(c),
            None => hex_digit(c) < 0,
        },
{
    if '0' <= c && c <= '9' {
        Some(c as u32 - 48)
    } else if 'a' <= c && c <= 'f' {
        Some(c as u32 - 87)
    } else if 'A' <= c && c <= 'F' {
        Some(c as u32 - 55)
    } else {
        None
    }
}

fn parse_hex_exec(h: &[char]) -> (r: Option<u32>)
    requires
        h@.len() <= 4,
    ensures
        match parse_hex(h@) {
            Some(n) => r == Some(n as u32) && n < 0x10000,
            None => r is None,
        },
{
    let start: usize = if h.len() > 0 && h[0] == '+' {
        1
    } else {
        0
    };
    let ghost d = h@.skip(start as int);
    assert(d =~= (if h@.len() > 0 && h@[0] == '+' {
        h@.skip(1)
    } else {
        h@
    }));
    if start == h.len() {
        assert(d.len() == 0);
        return None;
    }
    let mut v: u32 = 0;
    let mut i: usize = start;
    while i < h.len()
        invariant
            start <= i <= h@.len() <= 4,
            d == h@.skip(start as int),
            d == (if h@.len() > 0 && h@[0] == '+' {
                h@.skip(1)
            } else {
                h@
            }),
            d.len() > 0,
            forall|q: int| 0 <= q < i - start ==> hex_digit(#[trigger] d[q]) >= 0,
            v == hex_value(d.take(i - start)),
            v < pow16(i - start),
        decreases h@.len() - i,
    {
        assert(d[i - start] == h@[i as int]);
        match hex_digit_exec(h[i]) {
            Some(x) => {
                assert(d.take(i - start + 1).drop_last() =~= d.take(i - start));
                assert(v * 16 + x < pow16(i - start + 1)) by (nonlinear_arith)
                    requires
                        v < pow16(i - start),
                        x < 16,
                        pow16(i - start + 1) == pow16(i - start) * 16,
                ;
                v = v * 16 + x;
                i = i + 1;
            },
            None => {
                assert(!all_hex(d));
                return None;
            },
        }
    }
    assert(d.take(d.len() as int) =~= d);
    Some(v)
}

/// `16^n` for the few digits a `\u` escape has.
pub open spec fn pow16(n: int) -> int {
    if n <= 0 {
        1
    } else if n == 1 {
        16
    } else if n == 2 {
        256
    } else if n == 3 {
        4096
    } else {
        65536
    }
}

fn utf8_len_exec(h: &[char]) -> (r: usize)
    requires
        h@.len() <= 4,
    ensures
        r == utf8_len(h@),
{
    let mut n: usize = 0;
    let mut i: usize = 0;
    while i < h.len()
        invariant
            0 <= i <= h@.len() <= 4,
            n == utf8_len(h@.take(i as int)),
            n <= 4 * i,
        decreases h@.len() - i,
    {
        assert(h@.take(i + 1).drop_last() =~= h@.take(i as int));
        let u = h[i] as u32;
        let w: usize = if u < 0x80 {
            1
        } else if u < 0x800 {
            2
        } else if u < 0x10000 {
            3
        } else {
            4
        };
        n = n + w;
        i = i + 1;
    }
    assert(h@.take(h@.len() as int) =~= h@);
    n
}

/// Decode the `\u` escape at `v[i]`, appending its character (if any) to
/// `out`. Returns where decoding goes on, or `None` when the escape is cut
/// short and the string ends there.
fn decode_unicode_escape(v: &[char], i: usize, out: &mut Vec<char>) -> (r: Option<usize>)
    requires
        i + 1 < v@.len(),
        v@[i as int] == '\\',
        v@[i + 1] == 'u',
    ensures
        match r {
            Some(j) => i + 2 <= j <= v@.len() && prepend(
                old(out)@,
                json_string_body(v@.skip(i as int)),
            ) == prepend(final(out)@, json_string_body(v@.skip(j as int))),
            None => prepend(old(out)@, json_string_body(v@.skip(i as int))) == Some(
                final(out)@,
            ),
        },
{
    let ghost s = v@.skip(i as int);
    let ghost before = out@;
    let n = v.len();
    let rs = i + 2;
    let k: usize = if n - rs < 4 {
        n - rs
    } else {
        4
    };
    proof {
        lemma_json_string_body_unicode(s, k as int);
        assert(s.skip(2) =~= v@.skip(rs as int));
    }
    let h = sub_chars(v, rs, rs + k);
    assert(h@ =~= s.skip(2).take(k as int));
    if utf8_len_exec(&h) != 4 {
        assert(before + Seq::<char>::empty() =~= before);
        return None;
    }
    let ghost add = unicode_escape(h@);
    match parse_hex_exec(&h) {
        Some(code) => {
            match char_from_u32(code) {
                Some(ch) => {
                    out.push(ch);
                },
                None => {},
            }
        },
        None => {},
    }
    assert(out@ =~= before + add);
    assert(s.skip(2).skip(k as int) =~= v@.skip(rs + k));
    proof {
        lemma_prepend_prepend(before, add, json_string_body(v@.skip(rs + k)));
    }
    Some(rs + k)
}

/// Decode the escape at `v[i]` (a backslash with a character after it),
/// appending what it stands for to `out`. Returns where decoding goes on,
/// or `None` when the string ends there (a cut-short `\u` escape).
fn decode_escape(v: &[char], i: usize, out: &mut Vec<char>) -> (r: Option<usize>)
    requires
        i + 1 < v@.len(),
        v@[i as int] == '\\',
    ensures
        match r {
            Some(j) => i + 2 <= j <= v@.len() && prepend(
                old(out)@,
                json_string_body(v@.skip(i as int)),
            ) == prepend(final(out)@, json_string_body(v@.skip(j as int))),
            None => prepend(old(out)@, json_string_body(v@.skip(i as int))) == Some(
                final(out)@,
            ),
        },
{
    let n = v.len();
    assert(i + 1 < n);
    let e = v[i + 1];
    if e == 'u' {
        return decode_unicode_escape(v, i, out);
    }
    let ghost s = v@.skip(i as int);
    let ghost before = out@;
    proof {
        assert(s[0] == v@[i as int]);
        assert(s[1] == v@[i + 1]);
        lemma_json_string_body_escape(s);
    }
    let x = if e == 'n' {
        '\n'
    } else if e == 't' {
        '\t'
    } else if e == 'r' {
        '\r'
    } else {
        e
    };
    out.push(x);
    assert(s.skip(2) =~= v@.skip(i + 2));
    assert(out@ =~= before + seq![x]);
    proof {
        lemma_prepend_prepend(before, seq![x], json_string_body(v@.skip(i + 2)));
    }
    Some(i + 2)
}

/// Decode a JSON string whose text starts at `v[start]` (just after the
/// opening quote).
fn decode_json_string(v: &[char], start: usize) -> (r: Option<Vec<char>>)
    requires
        start <= v@.len(),
    ensures
        match json_string_body(v@.skip(start as int)) {
            Some(s) => r matches Some(o) && o@ == s,
            None => r is None,
        },
{
    let mut out: Vec<char> = Vec::new();
    let mut i: usize = start;
    let n = v.len();
    proof {
        match json_string_body(v@.skip(start as int)) {
            Some(t) => assert(Seq::<char>::empty() + t =~= t),
            None => {},
        }
    }
    loop
        invariant
            start <= i <= n,
            n == v@.len(),
            json_string_body(v@.skip(start as int)) == prepend(
                out@,
                json_string_body(v@.skip(i as int)),
            ),
        decreases n - i,
    {
        let ghost s = v@.skip(i as int);
        if i == n {
            proof {
                lemma_json_string_body_end(s);
            }
            assert(out@ + Seq::<char>::empty() =~= out@);
            return Some(out);
        }
        assert(s[0] == v@[i as int]);
        let c = v[i];
        if c == '"' {
            proof {
                lemma_json_string_body_end(s);
            }
            assert(out@ + Seq::<char>::empty() =~= out@);
            return Some(out);
        }
        if c == '\\' {
            if i + 1 == n {
                proof {
                    lemma_json_string_body_lone_backslash(s);
                }
                return None;
            }
            match decode_escape(v, i, &mut out) {
                Some(j) => {
                    i = j;
                },
                None => {
                    return Some(out);
                },
            }
        } else {
            let ghost before = out@;
            proof {
                lemma_json_string_body_plain(s);
            }
            out.push(c);
            assert(s.skip(1) =~= v@.skip(i + 1));
            assert(out@ =~= before + seq![c]);
            proof {
                lemma_prepend_prepend(before, seq![c], json_string_body(v@.skip(i + 1)));
            }
            i = i + 1;
        }
    }
}

/// The text after the first `"key"` and the next `:`, leading whitespace
/// removed.
fn value_after_key_exec(json: &[char], key: &str) -> (r: Option<Vec<char>>)
    ensures
        match value_after_key(json@, key@) {
            Some(s) => r matches Some(o) && o@ == s,
            None => r is None,
        },
{
    let mut needle: Vec<char> = Vec::new();
    needle.push('"');
    let kc = chars_of(key);
    let mut i: usize = 0;
    while i < kc.len()
        invariant
            0 <= i <= kc@.len(),
            needle@ == seq!['"'] + kc@.take(i as int),
        decreases kc@.len() - i,
    {
        needle.push(kc[i]);
        assert(seq!['"'] + kc@.take(i as int) + seq![kc@[i as int]] =~= seq!['"'] + kc@.take(
            i + 1,
        ));
        i = i + 1;
    }
    needle.push('"');
    assert(kc@.take(kc@.len() as int) =~= kc@);
    assert(needle@ =~= quoted_key(key@));
    match find_sub(json, &needle) {
        None => None,
        Some(idx) => {
            proof {
                let f = first_occurrence(json@, needle@);
                assert(occurs_at(json@, needle@, f) && forall|j: int|
                    0 <= j < f ==> !occurs_at(json@, needle@, j));
                if f < idx {
                } else if idx < f {
                }
                assert(f == idx);
            }
            let jn = json.len();
            assert(idx + needle@.len() <= jn);
            let after = idx + needle.len();
            let tail = sub_chars(json, after, json.len());
            assert(tail@ =~= json@.skip(after as int));
            match first_index_of(&tail, ':') {
                None => None,
                Some(c) => {
                    let rest = sub_chars(&tail, c + 1, tail.len());
                    assert(rest@ =~= tail@.skip(c + 1));
                    Some(trim_start_chars(&rest))
                },
            }
        },
    }
}

/// The string value of `key` in the server's flat JSON reply, escapes
/// decoded.
pub fn extract_string(json: &str, key: &str) -> (r: Option<String>)
    ensures
        match extract_string_spec(json@, key@) {
            Some(s) => r matches Some(o) && o@ == s,
            None => r is None,
        },
{
    let jc = chars_of(json);
    match value_after_key_exec(&jc, key) {
        None => None,
        Some(v) => {
            if v.len() > 0 && v[0] == '"' {
                match decode_json_string(&v, 1) {
                    Some(o) => Some(string_of(&o)),
                    None => None,
                }
            } else {
                None
            }
        },
    }
}

/// The text of the number value of `key` in the server's reply (reading it
/// as a float is left to the caller).
pub fn extract_number_text(json: &str, key: &str) -> (r: Option<String>)
    ensures
        match extract_number_spec(json@, key@) {
            Some(s) => r matches Some(o) && o@ == s,
            None => r is None,
        },
{
    let jc = chars_of(json);
    match value_after_key_exec(&jc, key) {
        None => None,
        Some(v) => {
            let ghost p = |c: char| !ends_number(c);
            let mut i: usize = 0;
            assert(v@.skip(0) =~= v@);
            while i < v.len() && !(v[i] == ',' || v[i] == '}' || is_whitespace(v[i]))
                invariant
                    0 <= i <= v@.len(),
                    lead_len(v@, p) == i + lead_len(v@.skip(i as int), p),
                    p == (|c: char| !ends_number(c)),
                decreases v@.len() - i,
            {
                assert(v@.skip(i as int).drop_first() =~= v@.skip(i + 1));
                assert(v@.skip(i as int)[0] == v@[i as int]);
                assert(p(v@.skip(i as int)[0]));
                i = i + 1;
            }
            assert(i < v@.len() ==> v@.skip(i as int)[0] == v@[i as int]);
            assert(lead_len(v@.skip(i as int), p) == 0);
            let t = sub_chars(&v, 0, i);
            assert(t@ =~= v@.take(i as int));
            Some(string_of(&t))
        },
    }
}

/// What the server's reply says: the transcript, the detected language and
/// the text of the language probability.
pub struct ParsedReply {
    /// The transcript; empty when the reply has none.
    pub text: String,
    /// The language code; `?` when the reply has none.
    pub language: String,
    /// The probability's text, when the reply has the key.
    pub probability: Option<String>,
}

/// Read the server's reply: `text` (default empty), `language` (default
/// `?`) and the text of `language_probability`.
pub fn parse_response(json: &str) -> (r: ParsedReply)
    ensures
        r.text@ == (match extract_string_spec(json@, "text"@) {
            Some(s) => s,
            None => Seq::empty(),
        }),
        r.language@ == (match extract_string_spec(json@, "language"@) {
            Some(s) => s,
            None => "?"@,
        }),
        match extract_number_spec(json@, "language_probability"@) {
            Some(s) => r.probability matches Some(p) && p@ == s,
            None => r.probability is None,
        },
{
    let text = match extract_string(json, "text") {
        Some(t) => t,
        None => String::new(),
    };
    let language = match extract_string(json, "language") {
        Some(l) => l,
        None => "?".to_string(),
    };
    let probability = extract_number_text(json, "language_probability");
    ParsedReply { text, language, probability }
}


// ── Laws of the reply reader ─────────────────────────────────────────────────

/// How a JSON writer escapes one character inside a string: quote,
/// backslash, newline, tab and carriage return get a backslash escape; every
/// other character stands for itself.
pub open spec fn json_escape_char(c: char) -> Seq<char> {
    if c == '"' {
        seq!['\\', '"']
    } else if c == '\\' {
        seq!['\\', '\\']
    } else if c == '\n' {
        seq!['\\', 'n']
    } else if c == '\t' {
        seq!['\\', 't']
    } else if c == '\r' {
        seq!['\\', 'r']
    } else {
        seq![c]
    }
}

/// A string's characters as a JSON writer escapes them.
pub open spec fn json_escape(s: Seq<char>) -> Seq<char>
    decreases s.len(),
{
    if s.len() == 0 {
        Seq::empty()
    } else {
        json_escape_char(s[0]) + json_escape(s.drop_first())
    }
}

/// The one-key reply `{"key":"<value escaped>"}`.
pub open spec fn one_key_reply(key: Seq<char>, value: Seq<char>) -> Seq<char> {
    seq!['{'] + quoted_key(key) + seq![':', '"'] + json_escape(value) + seq!['"', '}']
}

/// Decoding an escaped string up to its closing quote gives the string back,
/// whatever follows the quote.
pub proof fn lemma_json_string_body_of_escaped(value: Seq<char>, rest: Seq<char>)
    ensures
        json_string_body(json_escape(value) + seq!['"'] + rest) == Some(value),
    decreases value.len(),
{
    let s = json_escape(value) + seq!['"'] + rest;
    if value.len() == 0 {
        assert(s[0] == '"');
        lemma_json_string_body_end(s);
        assert(value =~= Seq::<char>::empty());
    } else {
        let c = value[0];
        let tail = value.drop_first();
        let after = json_escape(tail) + seq!['"'] + rest;
        lemma_json_string_body_of_escaped(tail, rest);
        let e = json_escape_char(c);
        assert(s =~= e + after);
        if e.len() == 1 {
            assert(s[0] == c);
            lemma_json_string_body_plain(s);
            assert(s.skip(1) =~= after);
            assert(seq![c] + tail =~= value);
        } else {
            assert(s[0] == '\\');
            assert(s[1] == e[1]);
            lemma_json_string_body_escape(s);
            assert(s.skip(2) =~= after);
            assert(escaped_char(e[1]) == c);
            assert(seq![c] + tail =~= value);
        }
    }
}

/// What the reader gives back of what a writer wrote: in a one-key reply
/// `{"key":"…"}`, the string value is read back exactly, for every key and
/// every value.
pub proof fn lemma_extract_string_round_trip(key: Seq<char>, value: Seq<char>)
    ensures
        extract_string_spec(one_key_reply(key, value), key) == Some(value),
{
    let json = one_key_reply(key, value);
    let needle = quoted_key(key);
    let n = needle.len() as int;
    assert(json.subrange(1, 1 + n) =~= needle);
    assert(occurs_at(json, needle, 1));
    assert(!occurs_at(json, needle, 0)) by {
        if occurs_at(json, needle, 0) {
            assert(json.subrange(0, n)[0] == needle[0]);
        }
    }
    let f = first_occurrence(json, needle);
    assert(occurs_at(json, needle, f) && forall|j: int| 0 <= j < f ==> !occurs_at(json, needle, j)) by {
        assert(exists|i: int| occurs_at(json, needle, i) && forall|j: int| 0 <= j < i ==> !occurs_at(json, needle, j)) by {
            assert forall|j: int| 0 <= j < 1 implies !occurs_at(json, needle, j) by {
                assert(j == 0);
            }
        }
    }
    assert(f == 1) by {
        if f > 1 {
            assert(!occurs_at(json, needle, 1));
        }
        if f < 1 {
            assert(f == 0 || f < 0);
        }
    }
    let tail = json.skip(1 + n);
    let body = json_escape(value) + seq!['"', '}'];
    assert(tail =~= seq![':', '"'] + body);
    assert(first_index(tail, ':') == 0);
    let v = tail.skip(1);
    assert(v =~= seq!['"'] + body);
    assert(lead_len(v, |ch: char| is_ws(ch)) == 0);
    assert(trim_start_by(v, |ch: char| is_ws(ch)) =~= v);
    assert(value_after_key(json, key) == Some(v));
    assert(v.skip(1) =~= json_escape(value) + seq!['"'] + seq!['}']);
    lemma_json_string_body_of_escaped(value, seq!['}']);
}

} // verus!
