//! Cookie header parsing and the percent codec cookies use.
//!
//! `cookie_parse` splits a `Cookie:` header into name/value pairs:
//! pairs are separated by `;`, the first `=` of a pair separates name
//! from value, names keep their first assignment, values lose one pair
//! of surrounding quotes and are percent-decoded.

use vstd::prelude::*;
use crate::strutil::{push_char, str_eq};
use crate::percent::{pct_hex, utf8_bytes_of_char, push_pct_bytes};
use vstd::utf8::encode_scalar;

verus! {

/// Options for parsing cookies.  The default percent-decoding is
/// always used.
#[derive(Debug, Clone, Default)]
pub struct ParseOptions {
}

/// Cookie priority levels.
#[derive(Debug, Clone, Copy, PartialEq, Eq, Structural)]
pub enum CookiePriority {
    Low,
    Medium,
    High,
}

/// SameSite attribute values; `NoneSite` stands for `SameSite=None`.
#[derive(Debug, Clone, Copy, PartialEq, Eq, Structural)]
pub enum SameSite {
    Strict,
    Lax,
    NoneSite,
}

/// Cookie serialization errors.
#[derive(Debug, Clone)]
pub enum CookieError {
    /// The cookie name holds a character a header field cannot carry.
    InvalidName(String),
    /// The encoded value holds a character a header field cannot carry.
    InvalidValue(String),
    /// The Max-Age attribute is invalid.
    InvalidMaxAge,
    /// The Domain attribute holds an invalid character.
    InvalidDomain(String),
    /// The Path attribute holds an invalid character.
    InvalidPath(String),
    /// The Expires date is invalid.
    InvalidExpires,
    /// The Priority attribute is invalid.
    InvalidPriority,
    /// The SameSite attribute is invalid.
    InvalidSameSite,
}

/// Options for serializing cookies.  The expiry date arrives already
/// formatted (RFC 7231 style) by whoever owns a date library.
#[derive(Debug, Clone, Default)]
pub struct SerializeOptions {
    /// Max-Age in seconds.
    pub max_age: Option<i64>,
    /// Domain attribute.
    pub domain: Option<String>,
    /// Path attribute.
    pub path: Option<String>,
    /// Expires date, already formatted for the header.
    pub expires: Option<String>,
    /// HttpOnly flag.
    pub http_only: bool,
    /// Secure flag.
    pub secure: bool,
    /// Priority attribute.
    pub priority: Option<CookiePriority>,
    /// SameSite attribute.
    pub same_site: Option<SameSite>,
}

/// Which check a serialization failed.
pub ghost enum SerErrKind {
    BadName,
    BadValue,
    BadDomain,
    BadPath,
}

/// Valid header field content: horizontal tab, printable ASCII, or
/// bytes 0x80 through 0xFF.
pub open spec fn valid_field(s: Seq<char>) -> bool {
    forall|i: int|
        0 <= i < s.len() ==> ((s[i] as u32) == 0x09 || (0x20 <= (s[i] as u32) <= 0x7E) || (0x80
            <= (s[i] as u32) <= 0xFF))
}

/// The decimal digits of a non-negative number.
pub open spec fn dec_digits(n: int) -> Seq<char>
    recommends
        n >= 0,
    decreases n,
{
    if n < 10 {
        seq![(((n + 0x30) as u8) as char)]
    } else {
        dec_digits(n / 10).push((((n % 10 + 0x30) as u8) as char))
    }
}

/// The decimal text of a signed number.
pub open spec fn dec_text(n: int) -> Seq<char> {
    if n < 0 {
        seq!['-'] + dec_digits(-n)
    } else {
        dec_digits(n)
    }
}

/// The serialized cookie text, or the check it fails.
pub open spec fn spec_cookie_serialize(
    name: Seq<char>,
    val: Seq<char>,
    max_age: Option<i64>,
    domain: Option<Seq<char>>,
    path: Option<Seq<char>>,
    expires: Option<Seq<char>>,
    http_only: bool,
    secure: bool,
    priority: Option<CookiePriority>,
    same_site: Option<SameSite>,
) -> Result<Seq<char>, SerErrKind> {
    let encoded = cookie_pct_encode(val);
    if !valid_field(name) {
        Result::Err(SerErrKind::BadName)
    } else if !valid_field(encoded) {
        Result::Err(SerErrKind::BadValue)
    } else if domain matches Option::Some(d) && !valid_field(d) {
        Result::Err(SerErrKind::BadDomain)
    } else if path matches Option::Some(p) && !valid_field(p) {
        Result::Err(SerErrKind::BadPath)
    } else {
        Result::Ok(
            name + seq!['='] + encoded + attr_text(
                max_age,
                domain,
                path,
                expires,
                http_only,
                secure,
                priority,
                same_site,
            ),
        )
    }
}

/// The Max-Age attribute text.
#[verifier::opaque]
pub open spec fn age_text(max_age: Option<i64>) -> Seq<char> {
    match max_age {
        Option::Some(n) => "; Max-Age="@ + dec_text(n as int),
        Option::None => Seq::<char>::empty(),
    }
}

/// The Domain attribute text.
#[verifier::opaque]
pub open spec fn domain_text(domain: Option<Seq<char>>) -> Seq<char> {
    match domain {
        Option::Some(d) => "; Domain="@ + d,
        Option::None => Seq::<char>::empty(),
    }
}

/// The Path attribute text.
#[verifier::opaque]
pub open spec fn path_text(path: Option<Seq<char>>) -> Seq<char> {
    match path {
        Option::Some(p) => "; Path="@ + p,
        Option::None => Seq::<char>::empty(),
    }
}

/// The Expires attribute text.
#[verifier::opaque]
pub open spec fn expires_text(expires: Option<Seq<char>>) -> Seq<char> {
    match expires {
        Option::Some(e) => "; Expires="@ + e,
        Option::None => Seq::<char>::empty(),
    }
}

/// The HttpOnly and Secure flags text.
#[verifier::opaque]
pub open spec fn flags_text(http_only: bool, secure: bool) -> Seq<char> {
    (if http_only {
        "; HttpOnly"@
    } else {
        Seq::<char>::empty()
    }) + (if secure {
        "; Secure"@
    } else {
        Seq::<char>::empty()
    })
}

/// The Priority attribute text.
#[verifier::opaque]
pub open spec fn priority_text(priority: Option<CookiePriority>) -> Seq<char> {
    match priority {
        Option::Some(CookiePriority::Low) => "; Priority=Low"@,
        Option::Some(CookiePriority::Medium) => "; Priority=Medium"@,
        Option::Some(CookiePriority::High) => "; Priority=High"@,
        Option::None => Seq::<char>::empty(),
    }
}

/// The SameSite attribute text.
#[verifier::opaque]
pub open spec fn same_site_text(same_site: Option<SameSite>) -> Seq<char> {
    match same_site {
        Option::Some(SameSite::Strict) => "; SameSite=Strict"@,
        Option::Some(SameSite::Lax) => "; SameSite=Lax"@,
        Option::Some(SameSite::NoneSite) => "; SameSite=None"@,
        Option::None => Seq::<char>::empty(),
    }
}

/// The attribute suffix of a serialized cookie, in attribute order.
pub open spec fn attr_text(
    max_age: Option<i64>,
    domain: Option<Seq<char>>,
    path: Option<Seq<char>>,
    expires: Option<Seq<char>>,
    http_only: bool,
    secure: bool,
    priority: Option<CookiePriority>,
    same_site: Option<SameSite>,
) -> Seq<char> {
    age_text(max_age) + domain_text(domain) + path_text(path) + expires_text(expires)
        + flags_text(http_only, secure) + priority_text(priority) + same_site_text(same_site)
}

/// First index of `c` at or after `from`, or `-1`.
pub open spec fn find_from(s: Seq<char>, c: char, from: int) -> int
    recommends
        0 <= from,
    decreases s.len() - from,
{
    if from < 0 || from >= s.len() {
        -1
    } else if s[from] == c {
        from
    } else {
        find_from(s, c, from + 1)
    }
}

/// Last index of `c` strictly before `end`, or `-1`.
pub open spec fn rfind_before(s: Seq<char>, c: char, end: int) -> int
    recommends
        end <= s.len(),
    decreases end,
{
    if end <= 0 || end > s.len() {
        -1
    } else if s[end - 1] == c {
        end - 1
    } else {
        rfind_before(s, c, end - 1)
    }
}

/// `find_from` names the first occurrence at or after `from`.
pub proof fn lemma_find_from(s: Seq<char>, c: char, from: int)
    requires
        0 <= from,
    ensures
        find_from(s, c, from) == -1 ==> forall|j: int| from <= j < s.len() ==> s[j] != c,
        find_from(s, c, from) != -1 ==> from <= find_from(s, c, from) < s.len() && s[find_from(
            s,
            c,
            from,
        )] == c && forall|j: int| from <= j < find_from(s, c, from) ==> s[j] != c,
    decreases s.len() - from,
{
    if from >= s.len() {
    } else if s[from] == c {
    } else {
        lemma_find_from(s, c, from + 1);
    }
}

/// `rfind_before` names the last occurrence before `end`.
pub proof fn lemma_rfind_before(s: Seq<char>, c: char, end: int)
    requires
        end <= s.len(),
    ensures
        rfind_before(s, c, end) == -1 ==> forall|j: int| 0 <= j < end ==> s[j] != c,
        rfind_before(s, c, end) != -1 ==> 0 <= rfind_before(s, c, end) < end && s[rfind_before(
            s,
            c,
            end,
        )] == c && forall|j: int| rfind_before(s, c, end) < j < end ==> s[j] != c,
    decreases end,
{
    if end <= 0 {
    } else if s[end - 1] == c {
    } else {
        lemma_rfind_before(s, c, end - 1);
    }
}

/// Whitespace as cookie names and values are trimmed by.
pub open spec fn is_ws_char(c: char) -> bool {
    c == ' ' || c == '\t' || c == '\n' || c == '\r' || c == '\x0c'
}

/// Characters with leading whitespace removed.
pub open spec fn trim_front_chars(s: Seq<char>) -> Seq<char>
    decreases s.len(),
{
    if s.len() > 0 && is_ws_char(s[0]) {
        trim_front_chars(s.skip(1))
    } else {
        s
    }
}

/// Characters with trailing whitespace removed.
pub open spec fn trim_back_chars(s: Seq<char>) -> Seq<char>
    decreases s.len(),
{
    if s.len() > 0 && is_ws_char(s[s.len() - 1]) {
        trim_back_chars(s.take(s.len() - 1))
    } else {
        s
    }
}

/// Characters trimmed on both ends.
pub open spec fn trim_chars(s: Seq<char>) -> Seq<char> {
    trim_back_chars(trim_front_chars(s))
}

/// Hexadecimal digit test.
pub open spec fn is_hex_digit(c: char) -> bool {
    ('0' <= c && c <= '9') || ('a' <= c && c <= 'f') || ('A' <= c && c <= 'F')
}

/// The value of one hexadecimal digit.
pub open spec fn hex_val(c: char) -> int
    recommends
        is_hex_digit(c),
{
    if '0' <= c && c <= '9' {
        (c as u32) - 0x30
    } else if 'a' <= c && c <= 'f' {
        (c as u32) - 0x61 + 10
    } else {
        (c as u32) - 0x41 + 10
    }
}

/// Whether the two characters after a `%` parse as one byte: two hex
/// digits, or a leading `+` sign before a single digit.
pub open spec fn pct_pair_ok(a: char, b: char) -> bool {
    (is_hex_digit(a) && is_hex_digit(b)) || (a == '+' && is_hex_digit(b))
}

/// The byte value of the pair after a `%`.
pub open spec fn pct_pair_val(a: char, b: char) -> int
    recommends
        pct_pair_ok(a, b),
{
    if a == '+' {
        hex_val(b)
    } else {
        hex_val(a) * 16 + hex_val(b)
    }
}

/// Percent-decoding, one byte per valid `%XX`; invalid escapes are kept
/// verbatim.  A decoded byte becomes the character of its code.
pub open spec fn pct_decode_chars(s: Seq<char>) -> Seq<char>
    decreases s.len(),
{
    if s.len() == 0 {
        Seq::empty()
    } else if s[0] == '%' {
        if s.len() >= 3 {
            if pct_pair_ok(s[1], s[2]) {
                seq![((pct_pair_val(s[1], s[2]) as u8) as char)] + pct_decode_chars(s.skip(3))
            } else {
                seq!['%', s[1], s[2]] + pct_decode_chars(s.skip(3))
            }
        } else if s.len() == 2 {
            seq!['%', s[1]]
        } else {
            seq!['%']
        }
    } else {
        seq![s[0]] + pct_decode_chars(s.skip(1))
    }
}

/// Whether the text holds a `%` at all.
pub open spec fn has_pct(s: Seq<char>) -> bool {
    exists|i: int| 0 <= i < s.len() && s[i] == '%'
}

/// The default cookie-value decoding: percent-decode only when a `%`
/// occurs.
pub open spec fn cookie_decode(s: Seq<char>) -> Seq<char> {
    if has_pct(s) {
        pct_decode_chars(s)
    } else {
        s
    }
}

/// One pair extracted: the trimmed name, and the value trimmed,
/// unquoted and decoded.
pub open spec fn cookie_value_of(s: Seq<char>, eq: int, end: int) -> Seq<char>
    recommends
        0 <= eq < end <= s.len(),
{
    let val0 = trim_chars(s.subrange(eq + 1, end));
    let val1 = if val0.len() >= 2 && val0[0] == '"' && val0[val0.len() - 1] == '"' {
        val0.subrange(1, val0.len() - 1)
    } else {
        val0
    };
    cookie_decode(val1)
}

/// Whether the pair list already holds a name.
pub open spec fn assoc_has(acc: Seq<(Seq<char>, Seq<char>)>, k: Seq<char>) -> bool {
    exists|i: int| 0 <= i < acc.len() && acc[i].0 == k
}

/// The parse loop: scan from `index`, extracting one pair per step.
pub open spec fn spec_parse_loop(
    s: Seq<char>,
    index: int,
    acc: Seq<(Seq<char>, Seq<char>)>,
) -> Seq<(Seq<char>, Seq<char>)>
    recommends
        0 <= index,
    decreases s.len() - index,
    via spec_parse_loop_dec
{
    if index < 0 || index >= s.len() {
        acc
    } else {
        let eq = find_from(s, '=', index);
        if eq < 0 {
            acc
        } else {
            let semi = find_from(s, ';', index);
            if 0 <= semi && semi < eq {
                let back = rfind_before(s, ';', eq);
                spec_parse_loop(s, back + 1, acc)
            } else {
                let end = if semi < 0 {
                    s.len() as int
                } else {
                    semi
                };
                let keyt = trim_chars(s.subrange(index, eq));
                let acc2 = if keyt.len() > 0 && !assoc_has(acc, keyt) {
                    acc.push((keyt, cookie_value_of(s, eq, end)))
                } else {
                    acc
                };
                spec_parse_loop(s, if end + 1 > s.len() {
                    s.len() as int
                } else {
                    end + 1
                }, acc2)
            }
        }
    }
}

#[via_fn]
proof fn spec_parse_loop_dec(s: Seq<char>, index: int, acc: Seq<(Seq<char>, Seq<char>)>) {
    if 0 <= index < s.len() {
        lemma_find_from(s, '=', index);
        let eq = find_from(s, '=', index);
        if eq >= 0 {
            lemma_find_from(s, ';', index);
            let semi = find_from(s, ';', index);
            if 0 <= semi && semi < eq {
                lemma_rfind_before(s, ';', eq);
                let back = rfind_before(s, ';', eq);
                if back < semi {
                    assert(s[semi] == ';');
                }
                assert(back >= semi);
            } else {
                assert(eq >= index);
                if 0 <= semi {
                    assert(semi >= index);
                }
            }
        }
    }
}

/// The pairs a cookie header parses to, in order of first assignment.
pub open spec fn spec_cookie_parse(s: Seq<char>) -> Seq<(Seq<char>, Seq<char>)> {
    if s.len() == 0 {
        Seq::empty()
    } else {
        spec_parse_loop(s, 0, Seq::empty())
    }
}

/// Characters a cookie value may keep unescaped when serialized.
pub open spec fn cookie_safe(c: char) -> bool {
    ||| crate::percent::is_unreserved(c)
    ||| c == '!' || c == '#' || c == '$' || c == '&' || c == '\'' || c == '(' || c == ')'
    ||| c == '*' || c == '+' || c == '/' || c == ':' || c == '<' || c == '=' || c == '>'
    ||| c == '?' || c == '@' || c == '[' || c == ']' || c == '^' || c == '`' || c == '{'
    ||| c == '|' || c == '}'
}

/// Percent-encoding with the cookie-safe character set.
pub open spec fn cookie_pct_encode(s: Seq<char>) -> Seq<char>
    decreases s.len(),
{
    if s.len() == 0 {
        Seq::empty()
    } else {
        (if cookie_safe(s[0]) {
            seq![s[0]]
        } else {
            pct_hex(encode_scalar(s[0] as u32))
        }) + cookie_pct_encode(s.skip(1))
    }
}

/// Extending the input extends the encoding by the last character's code.
pub proof fn lemma_cookie_pct_encode_push(s: Seq<char>, c: char)
    ensures
        cookie_pct_encode(s.push(c)) == cookie_pct_encode(s) + (if cookie_safe(c) {
            seq![c]
        } else {
            pct_hex(encode_scalar(c as u32))
        }),
    decreases s.len(),
{
    if s.len() == 0 {
        assert(s.push(c).skip(1) =~= Seq::<char>::empty());
        assert(cookie_pct_encode(s.push(c).skip(1)) =~= Seq::<char>::empty());
        assert(cookie_pct_encode(s.push(c)) =~= cookie_pct_encode(s) + (if cookie_safe(c) {
            seq![c]
        } else {
            pct_hex(encode_scalar(c as u32))
        }));
    } else {
        assert(s.push(c).skip(1) =~= s.skip(1).push(c));
        lemma_cookie_pct_encode_push(s.skip(1), c);
        assert(cookie_pct_encode(s.push(c)) =~= cookie_pct_encode(s) + (if cookie_safe(c) {
            seq![c]
        } else {
            pct_hex(encode_scalar(c as u32))
        }));
    }
}

/// A hexadecimal digit emitted by the encoder reads back as itself.
proof fn lemma_hex_char_props(n: u8)
    requires
        n < 16,
    ensures
        is_hex_digit(crate::percent::hex_char(n)),
        hex_val(crate::percent::hex_char(n)) == n,
        crate::percent::hex_char(n) != '+',
        crate::percent::hex_char(n) != '%',
{
    if n < 10 {
        assert(crate::percent::hex_char(n) as u32 == n + 0x30);
    } else {
        assert(crate::percent::hex_char(n) as u32 == n + 0x37);
    }
}

/// Decoding an encoded cookie value restores it, for values made of
/// ASCII characters.  (A character above 0x7F encodes to several
/// escape blocks, which decode back byte by byte, not as one
/// character: the law holds of the ASCII range only.)
pub proof fn lemma_cookie_codec_roundtrip(s: Seq<char>)
    requires
        forall|i: int| 0 <= i < s.len() ==> (s[i] as u32) < 0x80,
    ensures
        pct_decode_chars(cookie_pct_encode(s)) == s,
    decreases s.len(),
{
    if s.len() == 0 {
        assert(pct_decode_chars(cookie_pct_encode(s)) =~= s);
    } else {
        let c = s[0];
        let rest = cookie_pct_encode(s.skip(1));
        assert(forall|i: int| 0 <= i < s.skip(1).len() ==> (s.skip(1)[i] as u32) < 0x80);
        lemma_cookie_codec_roundtrip(s.skip(1));
        if cookie_safe(c) {
            let t = seq![c] + rest;
            assert(cookie_pct_encode(s) == t);
            assert(t[0] == c && c != '%');
            assert(t.skip(1) =~= rest);
            assert(pct_decode_chars(t) =~= seq![c] + pct_decode_chars(rest));
            assert(pct_decode_chars(cookie_pct_encode(s)) =~= s) by {
                assert(forall|i: int|
                    0 <= i < s.skip(1).len() ==> s.skip(1)[i] == s[i + 1]);
            }
        } else {
            let u = c as u32;
            vstd::utf8::char_is_scalar(c);
            assert((u & 0x7F) == u) by (bit_vector)
                requires
                    u < 0x80,
            ;
            let b = (u & 0x7F) as u8;
            assert(encode_scalar(u) == seq![b]);
            assert(seq![b].skip(1) =~= Seq::<u8>::empty());
            assert(pct_hex(seq![b].skip(1)) =~= Seq::<char>::empty());
            let block = crate::percent::pct_block(b);
            assert(pct_hex(seq![b]) =~= block);
            let t = block + rest;
            assert(cookie_pct_encode(s) == t);
            assert(t[0] == '%');
            let hi = crate::percent::hex_char(b / 16);
            let lo = crate::percent::hex_char(b % 16);
            assert(t[1] == hi && t[2] == lo);
            lemma_hex_char_props(b / 16);
            lemma_hex_char_props(b % 16);
            assert(pct_pair_ok(hi, lo));
            assert(pct_pair_val(hi, lo) == b);
            assert(t.len() >= 3);
            assert(t.skip(3) =~= rest);
            let d = ((pct_pair_val(t[1], t[2]) as u8) as char);
            assert(pct_decode_chars(t) =~= seq![d] + pct_decode_chars(rest));
            assert(d as u32 == b);
            crate::percent::lemma_encode_utf8_single(c);
            crate::percent::lemma_encode_utf8_single(d);
            assert(encode_scalar(d as u32) == encode_scalar(c as u32));
            vstd::utf8::encode_utf8_decode_utf8(seq![c]);
            vstd::utf8::encode_utf8_decode_utf8(seq![d]);
            assert(seq![c] == seq![d]);
            assert(d == seq![d][0]);
            assert(pct_decode_chars(cookie_pct_encode(s)) =~= s) by {
                assert(forall|i: int|
                    0 <= i < s.skip(1).len() ==> s.skip(1)[i] == s[i + 1]);
            }
        }
    }
}

fn cookie_safe_exec(c: char) -> (r: bool)
    ensures
        r == cookie_safe(c),
{
    ('a' <= c && c <= 'z') || ('A' <= c && c <= 'Z') || ('0' <= c && c <= '9') || c == '-' || c
        == '_' || c == '.' || c == '~' || c == '!' || c == '#' || c == '$' || c == '&' || c == '\''
        || c == '(' || c == ')' || c == '*' || c == '+' || c == '/' || c == ':' || c == '<' || c
        == '=' || c == '>' || c == '?' || c == '@' || c == '[' || c == ']' || c == '^' || c == '`'
        || c == '{' || c == '|' || c == '}'
}

/// Percent-encodes a cookie value: cookie-safe characters stay, every
/// other character becomes the `%XX` escapes of its UTF-8 bytes.
#[verifier::loop_isolation(false)]
pub fn percent_encode(input: &str) -> (r: String)
    ensures
        r@ == cookie_pct_encode(input@),
{
    let n = input.unicode_len();
    let mut out = String::new();
    let mut i: usize = 0;
    proof {
        assert(cookie_pct_encode(input@.subrange(0, 0)) =~= Seq::<char>::empty());
        assert(out@ + Seq::<char>::empty() =~= out@);
    }
    while i < n
        invariant
            i <= n,
            n == input@.len(),
            out@ == cookie_pct_encode(input@.subrange(0, i as int)),
        decreases n - i,
    {
        let c = input.get_char(i);
        let ghost pre = out@;
        if cookie_safe_exec(c) {
            push_char(&mut out, c);
            proof {
                assert(out@ =~= pre + seq![c]);
            }
        } else {
            let bs = utf8_bytes_of_char(c);
            push_pct_bytes(&mut out, &bs);
        }
        proof {
            assert(input@.subrange(0, i + 1) =~= input@.subrange(0, i as int).push(
                input@[i as int],
            ));
            lemma_cookie_pct_encode_push(input@.subrange(0, i as int), input@[i as int]);
        }
        i += 1;
    }
    proof {
        assert(input@.subrange(0, n as int) =~= input@);
    }
    out
}

fn is_hex_digit_exec(c: char) -> (r: bool)
    ensures
        r == is_hex_digit(c),
{
    ('0' <= c && c <= '9') || ('a' <= c && c <= 'f') || ('A' <= c && c <= 'F')
}

fn hex_val_exec(c: char) -> (r: u32)
    requires
        is_hex_digit(c),
    ensures
        r == hex_val(c),
{
    let u = c as u32;
    if '0' <= c && c <= '9' {
        u - 0x30
    } else if 'a' <= c && c <= 'f' {
        u - 0x61 + 10
    } else {
        u - 0x41 + 10
    }
}

/// Percent-decodes: each valid `%XX` escape becomes the character of
/// its byte value; invalid escapes are kept verbatim.
#[verifier::loop_isolation(false)]
pub fn percent_decode(input: &str) -> (r: String)
    ensures
        r@ == pct_decode_chars(input@),
{
    let n = input.unicode_len();
    let mut out = String::new();
    let mut i: usize = 0;
    proof {
        assert(input@.skip(0) =~= input@);
        assert(out@ + pct_decode_chars(input@) =~= pct_decode_chars(input@));
    }
    while i < n
        invariant
            i <= n,
            n == input@.len(),
            pct_decode_chars(input@) == out@ + pct_decode_chars(input@.skip(i as int)),
        decreases n - i,
    {
        let ghost rest = input@.skip(i as int);
        let c = input.get_char(i);
        proof {
            assert(rest[0] == c);
            assert(rest.len() == n - i);
        }
        if c == '%' {
            if n - i > 2 {
                let a = input.get_char(i + 1);
                let b = input.get_char(i + 2);
                proof {
                    assert(rest[1] == a && rest[2] == b);
                    assert(rest.skip(3) =~= input@.skip(i + 3));
                }
                let pair_ok = (is_hex_digit_exec(a) && is_hex_digit_exec(b)) || (a == '+'
                    && is_hex_digit_exec(b));
                if pair_ok {
                    let v = if a == '+' {
                        hex_val_exec(b)
                    } else {
                        hex_val_exec(a) * 16 + hex_val_exec(b)
                    };
                    push_char(&mut out, (v as u8) as char);
                } else {
                    push_char(&mut out, '%');
                    push_char(&mut out, a);
                    push_char(&mut out, b);
                }
                i += 3;
            } else if n - i == 2 {
                let a = input.get_char(i + 1);
                proof {
                    assert(rest[1] == a);
                    assert(rest.len() == 2);
                }
                push_char(&mut out, '%');
                push_char(&mut out, a);
                i += 2;
            } else {
                proof {
                    assert(rest.len() == 1);
                }
                push_char(&mut out, '%');
                i += 1;
            }
        } else {
            push_char(&mut out, c);
            proof {
                assert(rest.skip(1) =~= input@.skip(i + 1));
            }
            i += 1;
        }
        proof {
            assert(pct_decode_chars(input@) =~= out@ + pct_decode_chars(input@.skip(i as int)));
        }
    }
    proof {
        assert(input@.skip(n as int).len() == 0);
        assert(pct_decode_chars(input@.skip(n as int)) =~= Seq::<char>::empty());
        assert(out@ + Seq::<char>::empty() =~= out@);
    }
    out
}

fn is_ws_char_exec(c: char) -> (r: bool)
    ensures
        r == is_ws_char(c),
{
    c == ' ' || c == '\t' || c == '\n' || c == '\r' || c == '\x0c'
}

/// Copy of a character range of a string.
#[verifier::loop_isolation(false)]
pub(crate) fn str_range(s: &str, a: usize, b: usize) -> (r: String)
    requires
        a <= b <= s@.len(),
    ensures
        r@ == s@.subrange(a as int, b as int),
{
    let mut r = String::new();
    let mut i: usize = a;
    proof {
        assert(r@ =~= s@.subrange(a as int, a as int));
    }
    while i < b
        invariant
            a <= i <= b,
            b <= s@.len(),
            r@ == s@.subrange(a as int, i as int),
        decreases b - i,
    {
        push_char(&mut r, s.get_char(i));
        proof {
            assert(r@ =~= s@.subrange(a as int, i + 1));
        }
        i += 1;
    }
    r
}

/// The characters trimmed on both ends, as a new string.
#[verifier::loop_isolation(false)]
pub(crate) fn trim_str(s: &str) -> (r: String)
    ensures
        r@ == trim_chars(s@),
{
    let n = s.unicode_len();
    let mut f: usize = 0;
    proof {
        assert(s@.skip(0) =~= s@);
    }
    while f < n && is_ws_char_exec(s.get_char(f))
        invariant
            f <= n,
            n == s@.len(),
            trim_front_chars(s@) == trim_front_chars(s@.skip(f as int)),
        decreases n - f,
    {
        proof {
            assert(s@.skip(f as int).skip(1) =~= s@.skip(f + 1));
        }
        f += 1;
    }
    proof {
        assert(trim_front_chars(s@.skip(f as int)) == s@.skip(f as int));
    }
    let ghost x = s@.skip(f as int);
    let mut b: usize = n;
    proof {
        assert(s@.subrange(f as int, n as int) =~= x);
    }
    while b > f && is_ws_char_exec(s.get_char(b - 1))
        invariant
            f <= b <= n,
            n == s@.len(),
            x == s@.skip(f as int),
            trim_front_chars(s@) == x,
            trim_back_chars(x) == trim_back_chars(s@.subrange(f as int, b as int)),
        decreases b,
    {
        proof {
            let y = s@.subrange(f as int, b as int);
            assert(y.len() > 0 && is_ws_char(y[y.len() - 1]));
            assert(y.take(y.len() - 1) =~= s@.subrange(f as int, b - 1));
        }
        b -= 1;
    }
    proof {
        let y = s@.subrange(f as int, b as int);
        if b == f {
            assert(y.len() == 0);
        } else {
            assert(!is_ws_char(y[y.len() - 1]));
        }
        assert(trim_back_chars(y) == y);
    }
    str_range(s, f, b)
}

/// First index of `c` at or after `from`, executable.
#[verifier::loop_isolation(false)]
pub(crate) fn find_from_exec(s: &str, c: char, from: usize) -> (r: Option<usize>)
    requires
        from <= s@.len(),
    ensures
        match r {
            Option::Some(k) => find_from(s@, c, from as int) == k as int,
            Option::None => find_from(s@, c, from as int) == -1,
        },
{
    proof {
        lemma_find_from(s@, c, from as int);
    }
    let n = s.unicode_len();
    let mut i: usize = from;
    while i < n
        invariant
            from <= i <= n,
            n == s@.len(),
            forall|j: int| from <= j < i ==> s@[j] != c,
        decreases n - i,
    {
        if s.get_char(i) == c {
            proof {
                let r = find_from(s@, c, from as int);
                if r == -1 {
                    assert(s@[i as int] != c);
                }
                if r < i as int {
                    assert(s@[r] != c);
                }
                if r > i as int {
                    assert(s@[i as int] != c);
                }
            }
            return Option::Some(i);
        }
        i += 1;
    }
    proof {
        let r = find_from(s@, c, from as int);
        if r != -1 {
            assert(s@[r] != c);
        }
    }
    Option::None
}

/// Last index of `c` strictly before `end`, executable.
#[verifier::loop_isolation(false)]
pub(crate) fn rfind_before_exec(s: &str, c: char, end: usize) -> (r: Option<usize>)
    requires
        end <= s@.len(),
    ensures
        match r {
            Option::Some(k) => rfind_before(s@, c, end as int) == k as int,
            Option::None => rfind_before(s@, c, end as int) == -1,
        },
{
    proof {
        lemma_rfind_before(s@, c, end as int);
    }
    let mut i: usize = end;
    while i > 0
        invariant
            i <= end,
            end <= s@.len(),
            forall|j: int| i <= j < end ==> s@[j] != c,
        decreases i,
    {
        if s.get_char(i - 1) == c {
            proof {
                let r = rfind_before(s@, c, end as int);
                if r == -1 {
                    assert(s@[i - 1] != c);
                }
                if r < i - 1 {
                    assert(s@[r as int] != c || true);
                    assert(s@[i - 1] != c);
                }
                if r > i - 1 {
                    assert(s@[r] != c);
                }
            }
            return Option::Some(i - 1);
        }
        i -= 1;
    }
    proof {
        let r = rfind_before(s@, c, end as int);
        if r != -1 {
            assert(s@[r] != c);
        }
    }
    Option::None
}

/// Whether the parsed pairs already hold this name.
#[verifier::loop_isolation(false)]
fn assoc_has_exec(acc: &Vec<(String, String)>, k: &str) -> (r: bool)
    ensures
        r == assoc_has(acc@.map_values(|p: (String, String)| (p.0@, p.1@)), k@),
{
    let ghost m = acc@.map_values(|p: (String, String)| (p.0@, p.1@));
    let mut i: usize = 0;
    let n = acc.len();
    while i < n
        invariant
            i <= n,
            n == acc@.len(),
            forall|j: int| 0 <= j < i ==> m[j].0 != k@,
        decreases n - i,
    {
        if str_eq(acc[i].0.as_str(), k) {
            proof {
                assert(m[i as int].0 == k@);
            }
            return true;
        }
        i += 1;
    }
    proof {
        if assoc_has(m, k@) {
            let j = choose|j: int| 0 <= j < m.len() && m[j].0 == k@;
            assert(m[j].0 == k@);
        }
    }
    false
}

/// The default cookie-value decoding, executable.
#[verifier::loop_isolation(false)]
fn cookie_decode_exec(val: &str) -> (r: String)
    ensures
        r@ == cookie_decode(val@),
{
    let n = val.unicode_len();
    let mut i: usize = 0;
    let mut found = false;
    while i < n
        invariant
            i <= n,
            n == val@.len(),
            !found ==> forall|j: int| 0 <= j < i ==> val@[j] != '%',
            found ==> has_pct(val@),
        decreases n - i,
    {
        if val.get_char(i) == '%' {
            found = true;
            proof {
                assert(val@[i as int] == '%');
            }
        }
        i += 1;
    }
    if found {
        percent_decode(val)
    } else {
        proof {
            if has_pct(val@) {
                let j = choose|j: int| 0 <= j < val@.len() && val@[j] == '%';
                assert(val@[j] == '%');
            }
        }
        val.to_owned()
    }
}

/// Parses a `Cookie:` header into name/value pairs, in order of first
/// assignment; repeated names keep their first value.
pub fn cookie_parse(header: &str, _options: Option<ParseOptions>) -> (r: Vec<(String, String)>)
    ensures
        r@.map_values(|p: (String, String)| (p.0@, p.1@)) == spec_cookie_parse(header@),
{
    let mut acc: Vec<(String, String)> = Vec::new();
    let n = header.unicode_len();
    if n == 0 {
        proof {
            assert(acc@.map_values(|p: (String, String)| (p.0@, p.1@)) =~= spec_cookie_parse(
                header@,
            ));
        }
        return acc;
    }
    let mut index: usize = 0;
    proof {
        assert(acc@.map_values(|p: (String, String)| (p.0@, p.1@)) =~= Seq::<
            (Seq<char>, Seq<char>),
        >::empty());
    }
    loop
        invariant_except_break
            spec_parse_loop(header@, 0, Seq::empty()) == spec_parse_loop(
                header@,
                index as int,
                acc@.map_values(|p: (String, String)| (p.0@, p.1@)),
            ),
        invariant
            index <= n,
            n == header@.len(),
            n > 0,
        ensures
            acc@.map_values(|p: (String, String)| (p.0@, p.1@)) == spec_parse_loop(
                header@,
                0,
                Seq::empty(),
            ),
        decreases n - index,
    {
        let ghost m = acc@.map_values(|p: (String, String)| (p.0@, p.1@));
        if index >= n {
            break ;
        }
        proof {
            lemma_find_from(header@, '=', index as int);
            lemma_find_from(header@, ';', index as int);
        }
        let eq = match find_from_exec(header, '=', index) {
            Option::None => {
                break ;
            },
            Option::Some(e) => e,
        };
        let semi_opt = find_from_exec(header, ';', index);
        match semi_opt {
            Option::Some(semi) if semi < eq => {
                proof {
                    lemma_rfind_before(header@, ';', eq as int);
                    assert(header@[semi as int] == ';');
                }
                let back = match rfind_before_exec(header, ';', eq) {
                    Option::None => {
                        proof {
                            assert(false);
                        }
                        0
                    },
                    Option::Some(bk) => bk,
                };
                proof {
                    if (back as int) < semi as int {
                        assert(header@[semi as int] != ';');
                    }
                }
                index = back + 1;
            },
            _ => {
                let end = match semi_opt {
                    Option::None => n,
                    Option::Some(semi) => semi,
                };
                let key_raw = str_range(header, index, eq);
                let keyt = trim_str(key_raw.as_str());
                if keyt.as_str().unicode_len() > 0 && !assoc_has_exec(&acc, keyt.as_str()) {
                    let val_raw = str_range(header, eq + 1, end);
                    let val0 = trim_str(val_raw.as_str());
                    let vlen = val0.as_str().unicode_len();
                    let unquoted = if vlen >= 2 && val0.as_str().get_char(0) == '"'
                        && val0.as_str().get_char(vlen - 1) == '"' {
                        str_range(val0.as_str(), 1, vlen - 1)
                    } else {
                        val0
                    };
                    let decoded = cookie_decode_exec(unquoted.as_str());
                    acc.push((keyt, decoded));
                    proof {
                        assert(acc@.map_values(|p: (String, String)| (p.0@, p.1@)) =~= m.push(
                            (trim_chars(header@.subrange(index as int, eq as int)), cookie_value_of(
                                header@,
                                eq as int,
                                end as int,
                            )),
                        ));
                    }
                }
                if end >= n {
                    proof {
                        let m2 = acc@.map_values(|p: (String, String)| (p.0@, p.1@));
                        assert(spec_parse_loop(header@, n as int, m2) == m2);
                    }
                    break ;
                }
                index = end + 1;
            },
        }
    }
    acc
}

/// Checks a string for valid header field content (RFC 7230 § 3.2).
#[verifier::loop_isolation(false)]
pub fn is_valid_field_content(s: &str) -> (r: bool)
    ensures
        r == valid_field(s@),
{
    let n = s.unicode_len();
    let mut i: usize = 0;
    while i < n
        invariant
            i <= n,
            n == s@.len(),
            forall|j: int|
                0 <= j < i ==> ((s@[j] as u32) == 0x09 || (0x20 <= (s@[j] as u32) <= 0x7E) || (
                0x80 <= (s@[j] as u32) <= 0xFF)),
        decreases n - i,
    {
        let code = s.get_char(i) as u32;
        if !(code == 0x09 || (0x20 <= code && code <= 0x7E) || (0x80 <= code && code <= 0xFF)) {
            return false;
        }
        i += 1;
    }
    true
}

/// Appends the decimal digits of a non-negative number.
fn push_dec_u64(out: &mut String, n: u64)
    ensures
        final(out)@ == old(out)@ + dec_digits(n as int),
    decreases n,
{
    if n < 10 {
        push_char(out, ((n as u8) + 0x30) as char);
        proof {
            assert(final(out)@ =~= old(out)@ + dec_digits(n as int));
        }
    } else {
        push_dec_u64(out, n / 10);
        push_char(out, (((n % 10) as u8) + 0x30) as char);
        proof {
            assert(final(out)@ =~= old(out)@ + dec_digits(n as int));
        }
    }
}

/// Appends the decimal text of a signed number.
fn push_dec_i64(out: &mut String, n: i64)
    ensures
        final(out)@ == old(out)@ + dec_text(n as int),
{
    if n < 0 {
        push_char(out, '-');
        let mag: u64 = (-(n as i128)) as u64;
        proof {
            assert(mag as int == -(n as int));
        }
        push_dec_u64(out, mag);
        proof {
            assert(final(out)@ =~= old(out)@ + dec_text(n as int));
        }
    } else {
        push_dec_u64(out, n as u64);
    }
}

/// Serializes a name/value pair into a `Set-Cookie` header value: the
/// percent-encoded value and each attribute the options carry, after
/// checking that name, domain and path can live in a header field.
#[verifier::rlimit(100)]
#[verifier::spinoff_prover]
pub fn cookie_serialize(name: &str, val: &str, options: Option<SerializeOptions>) -> (r: Result<
    String,
    CookieError,
>)
    ensures
        ({
            let o = match options {
                Option::Some(o) => o,
                Option::None => SerializeOptions {
                    max_age: Option::None,
                    domain: Option::None,
                    path: Option::None,
                    expires: Option::None,
                    http_only: false,
                    secure: false,
                    priority: Option::None,
                    same_site: Option::None,
                },
            };
            let spec_r = spec_cookie_serialize(
                name@,
                val@,
                o.max_age,
                match o.domain {
                    Option::Some(d) => Option::Some(d@),
                    Option::None => Option::None,
                },
                match o.path {
                    Option::Some(p) => Option::Some(p@),
                    Option::None => Option::None,
                },
                match o.expires {
                    Option::Some(e) => Option::Some(e@),
                    Option::None => Option::None,
                },
                o.http_only,
                o.secure,
                o.priority,
                o.same_site,
            );
            match (r, spec_r) {
                (Result::Ok(s), Result::Ok(t)) => s@ == t,
                (Result::Err(CookieError::InvalidName(s)), Result::Err(
                    SerErrKind::BadName,
                )) => s@ == name@,
                (Result::Err(CookieError::InvalidValue(s)), Result::Err(
                    SerErrKind::BadValue,
                )) => s@ == val@,
                (Result::Err(CookieError::InvalidDomain(s)), Result::Err(
                    SerErrKind::BadDomain,
                )) => o.domain matches Option::Some(d) && s@ == d@,
                (Result::Err(CookieError::InvalidPath(s)), Result::Err(
                    SerErrKind::BadPath,
                )) => o.path matches Option::Some(p) && s@ == p@,
                _ => false,
            }
        }),
{
    let opts = match options {
        Option::Some(o) => o,
        Option::None => SerializeOptions {
            max_age: Option::None,
            domain: Option::None,
            path: Option::None,
            expires: Option::None,
            http_only: false,
            secure: false,
            priority: Option::None,
            same_site: Option::None,
        },
    };
    if !is_valid_field_content(name) {
        return Result::Err(CookieError::InvalidName(name.to_owned()));
    }
    let encoded = percent_encode(val);
    if !is_valid_field_content(encoded.as_str()) {
        return Result::Err(CookieError::InvalidValue(val.to_owned()));
    }
    if let Option::Some(ref d) = opts.domain {
        if !is_valid_field_content(d.as_str()) {
            return Result::Err(CookieError::InvalidDomain(d.clone()));
        }
    }
    if let Option::Some(ref p) = opts.path {
        if !is_valid_field_content(p.as_str()) {
            return Result::Err(CookieError::InvalidPath(p.clone()));
        }
    }
    let mut out = name.to_owned();
    push_char(&mut out, '=');
    out.append(encoded.as_str());
    push_attributes(&mut out, &opts);
    proof {
        assert(out@ =~= name@ + seq!['='] + cookie_pct_encode(val@) + attr_text(
            opts.max_age,
            match opts.domain {
                Option::Some(d) => Option::Some(d@),
                Option::None => Option::None,
            },
            match opts.path {
                Option::Some(p) => Option::Some(p@),
                Option::None => Option::None,
            },
            match opts.expires {
                Option::Some(e) => Option::Some(e@),
                Option::None => Option::None,
            },
            opts.http_only,
            opts.secure,
            opts.priority,
            opts.same_site,
        ));
    }
    Result::Ok(out)
}

/// Appends the Max-Age attribute, when present.
fn push_age(out: &mut String, max_age: &Option<i64>)
    ensures
        final(out)@ == old(out)@ + age_text(*max_age),
{
    proof {
        reveal(age_text);
    }
    if let Option::Some(n) = max_age {
        out.append("; Max-Age=");
        push_dec_i64(out, *n);
        proof {
            assert(final(out)@ =~= old(out)@ + age_text(*max_age));
        }
    } else {
        proof {
            assert(final(out)@ =~= old(out)@ + age_text(*max_age));
        }
    }
}

/// Appends one string-valued attribute (`; Name=value`), when present.
fn push_str_attr(out: &mut String, label: &str, value: &Option<String>)
    ensures
        final(out)@ == old(out)@ + (match value {
            Option::Some(v) => label@ + v@,
            Option::None => Seq::<char>::empty(),
        }),
{
    if let Option::Some(ref v) = value {
        out.append(label);
        out.append(v.as_str());
    } else {
        proof {
            assert(old(out)@ + Seq::<char>::empty() =~= old(out)@);
        }
    }
}

/// Appends the HttpOnly and Secure flags.
fn push_flags(out: &mut String, http_only: bool, secure: bool)
    ensures
        final(out)@ == old(out)@ + flags_text(http_only, secure),
{
    proof {
        reveal(flags_text);
    }
    if http_only {
        out.append("; HttpOnly");
    }
    if secure {
        out.append("; Secure");
    }
    proof {
        assert(final(out)@ =~= old(out)@ + flags_text(http_only, secure));
    }
}

/// Appends the Priority attribute, when present.
fn push_priority(out: &mut String, priority: &Option<CookiePriority>)
    ensures
        final(out)@ == old(out)@ + priority_text(*priority),
{
    proof {
        reveal(priority_text);
    }
    match priority {
        Option::Some(CookiePriority::Low) => out.append("; Priority=Low"),
        Option::Some(CookiePriority::Medium) => out.append("; Priority=Medium"),
        Option::Some(CookiePriority::High) => out.append("; Priority=High"),
        Option::None => (),
    }
    proof {
        assert(final(out)@ =~= old(out)@ + priority_text(*priority));
    }
}

/// Appends the SameSite attribute, when present.
fn push_same_site(out: &mut String, same_site: &Option<SameSite>)
    ensures
        final(out)@ == old(out)@ + same_site_text(*same_site),
{
    proof {
        reveal(same_site_text);
    }
    match same_site {
        Option::Some(SameSite::Strict) => out.append("; SameSite=Strict"),
        Option::Some(SameSite::Lax) => out.append("; SameSite=Lax"),
        Option::Some(SameSite::NoneSite) => out.append("; SameSite=None"),
        Option::None => (),
    }
    proof {
        assert(final(out)@ =~= old(out)@ + same_site_text(*same_site));
    }
}

/// Appends the attribute suffix the options ask for.
#[verifier::rlimit(100)]
#[verifier::spinoff_prover]
fn push_attributes(out: &mut String, opts: &SerializeOptions)
    ensures
        final(out)@ == old(out)@ + attr_text(
            opts.max_age,
            match opts.domain {
                Option::Some(d) => Option::Some(d@),
                Option::None => Option::None,
            },
            match opts.path {
                Option::Some(p) => Option::Some(p@),
                Option::None => Option::None,
            },
            match opts.expires {
                Option::Some(e) => Option::Some(e@),
                Option::None => Option::None,
            },
            opts.http_only,
            opts.secure,
            opts.priority,
            opts.same_site,
        ),
{
    let ghost start = out@;
    push_age(out, &opts.max_age);
    push_str_attr(out, "; Domain=", &opts.domain);
    proof {
        reveal(domain_text);
        assert((match opts.domain {
            Option::Some(d) => "; Domain="@ + d@,
            Option::None => Seq::<char>::empty(),
        }) == domain_text(
            match opts.domain {
                Option::Some(d) => Option::Some(d@),
                Option::None => Option::None,
            },
        ));
    }
    push_str_attr(out, "; Path=", &opts.path);
    proof {
        reveal(path_text);
        assert((match opts.path {
            Option::Some(p) => "; Path="@ + p@,
            Option::None => Seq::<char>::empty(),
        }) == path_text(
            match opts.path {
                Option::Some(p) => Option::Some(p@),
                Option::None => Option::None,
            },
        ));
    }
    push_str_attr(out, "; Expires=", &opts.expires);
    proof {
        reveal(expires_text);
        assert((match opts.expires {
            Option::Some(e) => "; Expires="@ + e@,
            Option::None => Seq::<char>::empty(),
        }) == expires_text(
            match opts.expires {
                Option::Some(e) => Option::Some(e@),
                Option::None => Option::None,
            },
        ));
    }
    push_flags(out, opts.http_only, opts.secure);
    push_priority(out, &opts.priority);
    push_same_site(out, &opts.same_site);
    proof {
        assert(out@ =~= start + attr_text(
            opts.max_age,
            match opts.domain {
                Option::Some(d) => Option::Some(d@),
                Option::None => Option::None,
            },
            match opts.path {
                Option::Some(p) => Option::Some(p@),
                Option::None => Option::None,
            },
            match opts.expires {
                Option::Some(e) => Option::Some(e@),
                Option::None => Option::None,
            },
            opts.http_only,
            opts.secure,
            opts.priority,
            opts.same_site,
        ));
    }
}

/// Looks a cookie up by name in parsed pairs.
#[verifier::loop_isolation(false)]
pub fn cookie_get<'a>(pairs: &'a Vec<(String, String)>, name: &str) -> (r: Option<&'a String>)
    ensures
        match r {
            Option::Some(v) => exists|i: int|
                0 <= i < pairs@.len() && pairs@[i].0@ == name@ && pairs@[i].1 == v,
            Option::None => forall|i: int| 0 <= i < pairs@.len() ==> pairs@[i].0@ != name@,
        },
{
    let mut i: usize = 0;
    let n = pairs.len();
    while i < n
        invariant
            i <= n,
            n == pairs@.len(),
            forall|j: int| 0 <= j < i ==> pairs@[j].0@ != name@,
        decreases n - i,
    {
        if str_eq(pairs[i].0.as_str(), name) {
            return Option::Some(&pairs[i].1);
        }
        i += 1;
    }
    Option::None
}

} // verus!
