//! Topic keys: a subscription's registry key is the topic name plus an
//! optional canonical, percent-escaped JSON encoding of its options.
//!
//! Two subscriptions to one topic with the same options share a key;
//! different options give different keys.  The options are held as
//! sorted (name, value) string pairs; the driver that accepts caller
//! options canonicalizes them into this shape.

use vstd::prelude::*;
use crate::percent::{pct_encode, encode};
use crate::registry::has_qmark;
use crate::strutil::push_char;

verus! {

/// Per-subscription options: query parameters and headers, each a list
/// of (name, value) pairs.
#[derive(Clone)]
pub struct RealtimeOptions {
    /// Query parameters, values already rendered as text.
    pub query: Vec<(String, String)>,
    /// Headers sent with the subscription.
    pub headers: Vec<(String, String)>,
}

impl View for RealtimeOptions {
    type V = (Seq<(Seq<char>, Seq<char>)>, Seq<(Seq<char>, Seq<char>)>);

    open spec fn view(&self) -> Self::V {
        (
            self.query@.map_values(|p: (String, String)| (p.0@, p.1@)),
            self.headers@.map_values(|p: (String, String)| (p.0@, p.1@)),
        )
    }
}

/// The uppercase hexadecimal digit for a nibble, as a JSON escape uses it.
pub open spec fn esc_hex(n: u32) -> char
    recommends
        n < 16,
{
    if n < 10 {
        (((n + 0x30) as u8) as char)
    } else {
        (((n + 0x37) as u8) as char)
    }
}

/// The characters one character contributes to a JSON string literal.
pub open spec fn json_escape_code(c: char) -> Seq<char> {
    if c == '"' {
        seq!['\\', '"']
    } else if c == '\\' {
        seq!['\\', '\\']
    } else if c == '\n' {
        seq!['\\', 'n']
    } else if c == '\r' {
        seq!['\\', 'r']
    } else if c == '\t' {
        seq!['\\', 't']
    } else if (c as u32) < 0x20 {
        seq!['\\', 'u', '0', '0', esc_hex((c as u32) / 16), esc_hex((c as u32) % 16)]
    } else {
        seq![c]
    }
}

/// The body of a JSON string literal for a character sequence.
pub open spec fn json_escape(s: Seq<char>) -> Seq<char>
    decreases s.len(),
{
    if s.len() == 0 {
        Seq::empty()
    } else {
        json_escape_code(s[0]) + json_escape(s.skip(1))
    }
}

/// A whole JSON string literal, quotes included.
pub open spec fn json_quote(s: Seq<char>) -> Seq<char> {
    seq!['"'] + json_escape(s) + seq!['"']
}

/// The members of a JSON object for a pair list: `"k":"v"` joined by commas.
pub open spec fn pairs_json(ps: Seq<(Seq<char>, Seq<char>)>) -> Seq<char>
    decreases ps.len(),
{
    if ps.len() == 0 {
        Seq::empty()
    } else if ps.len() == 1 {
        json_quote(ps[0].0) + seq![':'] + json_quote(ps[0].1)
    } else {
        json_quote(ps[0].0) + seq![':'] + json_quote(ps[0].1) + seq![','] + pairs_json(ps.skip(1))
    }
}

/// The canonical JSON text for an option set.
pub open spec fn options_json(
    q: Seq<(Seq<char>, Seq<char>)>,
    h: Seq<(Seq<char>, Seq<char>)>,
) -> Seq<char> {
    "{\"query\":{"@ + pairs_json(q) + "},\"headers\":{"@ + pairs_json(h) + "}}"@
}

/// The registry key for a topic and its options: without options the
/// topic itself; with options the topic, a `?` (or `&` when the topic
/// already has a `?`), and `options=` followed by the percent-escaped
/// canonical JSON of the options.
pub open spec fn spec_key_of(
    topic: Seq<char>,
    opts: Option<(Seq<(Seq<char>, Seq<char>)>, Seq<(Seq<char>, Seq<char>)>)>,
) -> Seq<char> {
    match opts {
        Option::None => topic,
        Option::Some(o) => topic + (if has_qmark(topic) {
            seq!['&']
        } else {
            seq!['?']
        }) + "options="@ + pct_encode(options_json(o.0, o.1)),
    }
}

/// Extending the escaped text by one character appends its code.
pub proof fn lemma_json_escape_push(s: Seq<char>, c: char)
    ensures
        json_escape(s.push(c)) == json_escape(s) + json_escape_code(c),
    decreases s.len(),
{
    if s.len() == 0 {
        assert(s.push(c).skip(1) =~= Seq::<char>::empty());
        assert(json_escape(s.push(c).skip(1)) =~= Seq::<char>::empty());
        assert(json_escape(s.push(c)) =~= json_escape(s) + json_escape_code(c));
    } else {
        assert(s.push(c).skip(1) =~= s.skip(1).push(c));
        lemma_json_escape_push(s.skip(1), c);
        assert(json_escape(s.push(c)) =~= json_escape(s) + json_escape_code(c));
    }
}

/// The escape hexadecimal digit determines the nibble.
proof fn lemma_esc_hex_inj(a: u32, b: u32)
    requires
        a < 16,
        b < 16,
        esc_hex(a) == esc_hex(b),
    ensures
        a == b,
{
    if a < 10 {
        assert(esc_hex(a) as u32 == a + 0x30);
    } else {
        assert(esc_hex(a) as u32 == a + 0x37);
    }
    if b < 10 {
        assert(esc_hex(b) as u32 == b + 0x30);
    } else {
        assert(esc_hex(b) as u32 == b + 0x37);
    }
}

/// Shape of one escape code: single plain character, or a backslash
/// escape whose second character names its kind.
proof fn lemma_esc_code_facts(c: char)
    ensures
        json_escape_code(c).len() >= 1,
        json_escape_code(c).len() == 1 ==> json_escape_code(c)[0] == c && c != '"' && c != '\\',
        json_escape_code(c).len() > 1 ==> json_escape_code(c)[0] == '\\',
        json_escape_code(c).len() > 1 ==> json_escape_code(c)[1] == (if c == '"' {
            '"'
        } else if c == '\\' {
            '\\'
        } else if c == '\n' {
            'n'
        } else if c == '\r' {
            'r'
        } else if c == '\t' {
            't'
        } else {
            'u'
        }),
        json_escape_code(c)[1] == 'u' && json_escape_code(c).len() > 1 ==> json_escape_code(
            c,
        ).len() == 6 && (c as u32) < 0x20,
{
}

/// Two escape codes followed by arbitrary text never blur: the first
/// character of the input is recoverable.
proof fn lemma_esc_code_step(c1: char, c2: char, r1: Seq<char>, r2: Seq<char>)
    requires
        json_escape_code(c1) + r1 == json_escape_code(c2) + r2,
    ensures
        c1 == c2,
        r1 == r2,
{
    let k1 = json_escape_code(c1);
    let k2 = json_escape_code(c2);
    lemma_esc_code_facts(c1);
    lemma_esc_code_facts(c2);
    let t = k1 + r1;
    assert(t[0] == k1[0] && t[0] == k2[0]);
    if k1.len() == 1 && k2.len() == 1 {
        assert(c1 == c2);
    } else if k1.len() == 1 {
        assert(k1[0] == c1 && c1 != '\\' && k2[0] == '\\');
        assert(false);
    } else if k2.len() == 1 {
        assert(k2[0] == c2 && c2 != '\\' && k1[0] == '\\');
        assert(false);
    } else {
        assert(t[1] == k1[1] && t[1] == k2[1]);
        if k1[1] == 'u' {
            assert(k2[1] == 'u');
            assert(k1.len() == 6 && k2.len() == 6);
            let u1 = c1 as u32;
            let u2 = c2 as u32;
            assert(t[4] == k1[4] && t[4] == k2[4]);
            assert(t[5] == k1[5] && t[5] == k2[5]);
            assert(k1[4] == esc_hex(u1 / 16) && k1[5] == esc_hex(u1 % 16));
            assert(k2[4] == esc_hex(u2 / 16) && k2[5] == esc_hex(u2 % 16));
            lemma_esc_hex_inj(u1 / 16, u2 / 16);
            lemma_esc_hex_inj(u1 % 16, u2 % 16);
            assert(u1 == u2);
            crate::percent::lemma_encode_utf8_single(c1);
            crate::percent::lemma_encode_utf8_single(c2);
            vstd::utf8::encode_utf8_decode_utf8(seq![c1]);
            vstd::utf8::encode_utf8_decode_utf8(seq![c2]);
            assert(seq![c1] == seq![c2]);
            assert(c1 == seq![c1][0]);
        } else {
            assert(c1 == c2);
        }
    }
    assert(k1.len() == k2.len());
    crate::percent::lemma_cancel_prefix(k1, k2, r1, r2);
}

/// A JSON string literal body followed by its closing quote parses
/// unambiguously: equal text means equal content and equal rest.
proof fn lemma_json_escape_unambig(a: Seq<char>, b: Seq<char>, x: Seq<char>, y: Seq<char>)
    requires
        json_escape(a) + seq!['"'] + x == json_escape(b) + seq!['"'] + y,
    ensures
        a == b,
        x == y,
    decreases a.len(),
{
    let ea = json_escape(a);
    let eb = json_escape(b);
    if a.len() == 0 && b.len() == 0 {
        assert(ea =~= Seq::<char>::empty());
        assert(eb =~= Seq::<char>::empty());
        crate::percent::lemma_cancel_prefix(ea + seq!['"'], eb + seq!['"'], x, y);
        assert(a =~= b);
    } else if a.len() == 0 {
        lemma_esc_code_facts(b[0]);
        let t = ea + seq!['"'] + x;
        assert(t[0] == '"') by {
            assert(ea.len() == 0);
            assert((ea + seq!['"'])[0] == '"');
        }
        assert((eb + seq!['"'] + y)[0] == json_escape_code(b[0])[0]) by {
            assert(eb[0] == json_escape_code(b[0])[0]);
        }
        assert(json_escape_code(b[0])[0] != '"');
        assert(false);
    } else if b.len() == 0 {
        lemma_esc_code_facts(a[0]);
        let t = eb + seq!['"'] + y;
        assert(t[0] == '"') by {
            assert(eb.len() == 0);
            assert((eb + seq!['"'])[0] == '"');
        }
        assert((ea + seq!['"'] + x)[0] == json_escape_code(a[0])[0]) by {
            assert(ea[0] == json_escape_code(a[0])[0]);
        }
        assert(json_escape_code(a[0])[0] != '"');
        assert(false);
    } else {
        let k1 = json_escape_code(a[0]);
        let k2 = json_escape_code(b[0]);
        assert(ea + seq!['"'] + x =~= k1 + (json_escape(a.skip(1)) + seq!['"'] + x));
        assert(eb + seq!['"'] + y =~= k2 + (json_escape(b.skip(1)) + seq!['"'] + y));
        lemma_esc_code_step(
            a[0],
            b[0],
            json_escape(a.skip(1)) + seq!['"'] + x,
            json_escape(b.skip(1)) + seq!['"'] + y,
        );
        lemma_json_escape_unambig(a.skip(1), b.skip(1), x, y);
        assert forall|i: int| 0 <= i < a.len() implies a[i] == b[i] by {
            if i > 0 {
                assert(a.skip(1)[i - 1] == a[i]);
                assert(b.skip(1)[i - 1] == b[i]);
            }
        }
        assert(a =~= b);
    }
}

/// Object members followed by a closing brace parse unambiguously.
#[verifier::rlimit(100)]
#[verifier::spinoff_prover]
proof fn lemma_pairs_unambig(
    ps1: Seq<(Seq<char>, Seq<char>)>,
    ps2: Seq<(Seq<char>, Seq<char>)>,
    r1: Seq<char>,
    r2: Seq<char>,
)
    requires
        pairs_json(ps1) + r1 == pairs_json(ps2) + r2,
        r1.len() > 0,
        r2.len() > 0,
        r1[0] == '}',
        r2[0] == '}',
    ensures
        ps1 == ps2,
        r1 == r2,
    decreases ps1.len(),
{
    if ps1.len() == 0 && ps2.len() == 0 {
        assert(pairs_json(ps1) =~= Seq::<char>::empty());
        assert(pairs_json(ps2) =~= Seq::<char>::empty());
        assert(r1 =~= pairs_json(ps1) + r1);
        assert(r2 =~= pairs_json(ps2) + r2);
        assert(ps1 =~= ps2);
    } else if ps1.len() == 0 {
        assert(pairs_json(ps1) =~= Seq::<char>::empty());
        assert((pairs_json(ps1) + r1)[0] == '}');
        assert((pairs_json(ps2) + r2)[0] == pairs_json(ps2)[0]) by {
            lemma_pairs_head(ps2);
        }
        lemma_pairs_head(ps2);
        assert(false);
    } else if ps2.len() == 0 {
        assert(pairs_json(ps2) =~= Seq::<char>::empty());
        assert((pairs_json(ps2) + r2)[0] == '}');
        assert((pairs_json(ps1) + r1)[0] == pairs_json(ps1)[0]) by {
            lemma_pairs_head(ps1);
        }
        lemma_pairs_head(ps1);
        assert(false);
    } else {
        let k1 = ps1[0].0;
        let v1 = ps1[0].1;
        let k2 = ps2[0].0;
        let v2 = ps2[0].1;
        let tail1 = if ps1.len() == 1 {
            r1
        } else {
            seq![','] + pairs_json(ps1.skip(1)) + r1
        };
        let tail2 = if ps2.len() == 1 {
            r2
        } else {
            seq![','] + pairs_json(ps2.skip(1)) + r2
        };
        assert(pairs_json(ps1) + r1 =~= seq!['"'] + (json_escape(k1) + seq!['"'] + (seq![':']
            + (seq!['"'] + (json_escape(v1) + seq!['"'] + tail1)))));
        assert(pairs_json(ps2) + r2 =~= seq!['"'] + (json_escape(k2) + seq!['"'] + (seq![':']
            + (seq!['"'] + (json_escape(v2) + seq!['"'] + tail2)))));
        crate::percent::lemma_cancel_prefix(
            seq!['"'],
            seq!['"'],
            json_escape(k1) + seq!['"'] + (seq![':'] + (seq!['"'] + (json_escape(v1) + seq!['"']
                + tail1))),
            json_escape(k2) + seq!['"'] + (seq![':'] + (seq!['"'] + (json_escape(v2) + seq!['"']
                + tail2))),
        );
        lemma_json_escape_unambig(
            k1,
            k2,
            seq![':'] + (seq!['"'] + (json_escape(v1) + seq!['"'] + tail1)),
            seq![':'] + (seq!['"'] + (json_escape(v2) + seq!['"'] + tail2)),
        );
        crate::percent::lemma_cancel_prefix(
            seq![':'],
            seq![':'],
            seq!['"'] + (json_escape(v1) + seq!['"'] + tail1),
            seq!['"'] + (json_escape(v2) + seq!['"'] + tail2),
        );
        crate::percent::lemma_cancel_prefix(
            seq!['"'],
            seq!['"'],
            json_escape(v1) + seq!['"'] + tail1,
            json_escape(v2) + seq!['"'] + tail2,
        );
        lemma_json_escape_unambig(v1, v2, tail1, tail2);
        if ps1.len() == 1 && ps2.len() == 1 {
            assert(r1 == r2);
            assert(ps1 =~= ps2);
        } else if ps1.len() == 1 {
            assert(tail1[0] == '}');
            assert(tail2[0] == ',') by {
                assert((seq![','] + pairs_json(ps2.skip(1)) + r2)[0] == ',');
            }
            assert(false);
        } else if ps2.len() == 1 {
            assert(tail2[0] == '}');
            assert(tail1[0] == ',') by {
                assert((seq![','] + pairs_json(ps1.skip(1)) + r1)[0] == ',');
            }
            assert(false);
        } else {
            assert(tail1 =~= seq![','] + (pairs_json(ps1.skip(1)) + r1));
            assert(tail2 =~= seq![','] + (pairs_json(ps2.skip(1)) + r2));
            crate::percent::lemma_cancel_prefix(
                seq![','],
                seq![','],
                pairs_json(ps1.skip(1)) + r1,
                pairs_json(ps2.skip(1)) + r2,
            );
            lemma_pairs_unambig(ps1.skip(1), ps2.skip(1), r1, r2);
            assert forall|i: int| 0 <= i < ps1.len() implies ps1[i] == ps2[i] by {
                if i > 0 {
                    assert(ps1.skip(1)[i - 1] == ps1[i]);
                    assert(ps2.skip(1)[i - 1] == ps2[i]);
                }
            }
            assert(ps1 =~= ps2);
        }
    }
}

/// Non-empty member text starts with the key's opening quote.
proof fn lemma_pairs_head(ps: Seq<(Seq<char>, Seq<char>)>)
    requires
        ps.len() > 0,
    ensures
        pairs_json(ps).len() > 0,
        pairs_json(ps)[0] == '"',
{
    assert((json_quote(ps[0].0) + seq![':'] + json_quote(ps[0].1))[0] == json_quote(ps[0].0)[0]);
    assert(json_quote(ps[0].0)[0] == '"');
    if ps.len() > 1 {
        assert((json_quote(ps[0].0) + seq![':'] + json_quote(ps[0].1) + seq![','] + pairs_json(
            ps.skip(1),
        ))[0] == json_quote(ps[0].0)[0]);
    }
}

/// The canonical options JSON is injective: equal text means equal
/// query and header lists.
pub proof fn lemma_options_json_inj(
    q1: Seq<(Seq<char>, Seq<char>)>,
    h1: Seq<(Seq<char>, Seq<char>)>,
    q2: Seq<(Seq<char>, Seq<char>)>,
    h2: Seq<(Seq<char>, Seq<char>)>,
)
    requires
        options_json(q1, h1) == options_json(q2, h2),
    ensures
        q1 == q2,
        h1 == h2,
{
    let open = "{\"query\":{"@;
    let mid = "},\"headers\":{"@;
    let close = "}}"@;
    reveal_strlit("{\"query\":{");
    reveal_strlit("},\"headers\":{");
    reveal_strlit("}}");
    assert(open.len() == 10 && mid.len() == 13 && close.len() == 2);
    assert(mid[0] == '}' && close[0] == '}');
    assert(options_json(q1, h1) =~= open + (pairs_json(q1) + (mid + (pairs_json(h1) + close))));
    assert(options_json(q2, h2) =~= open + (pairs_json(q2) + (mid + (pairs_json(h2) + close))));
    crate::percent::lemma_cancel_prefix(
        open,
        open,
        pairs_json(q1) + (mid + (pairs_json(h1) + close)),
        pairs_json(q2) + (mid + (pairs_json(h2) + close)),
    );
    assert((mid + (pairs_json(h1) + close))[0] == '}');
    assert((mid + (pairs_json(h2) + close))[0] == '}');
    lemma_pairs_unambig(q1, q2, mid + (pairs_json(h1) + close), mid + (pairs_json(h2) + close));
    crate::percent::lemma_cancel_prefix(mid, mid, pairs_json(h1) + close, pairs_json(h2) + close);
    assert(close[0] == '}');
    lemma_pairs_unambig(h1, h2, close, close);
}

/// Key derivation separates option sets: for one topic, equal option
/// sets give equal keys, and different option sets (including present
/// versus absent) give different keys.
pub proof fn lemma_topic_key_injective(
    t: Seq<char>,
    o1: Option<(Seq<(Seq<char>, Seq<char>)>, Seq<(Seq<char>, Seq<char>)>)>,
    o2: Option<(Seq<(Seq<char>, Seq<char>)>, Seq<(Seq<char>, Seq<char>)>)>,
)
    ensures
        o1 == o2 ==> spec_key_of(t, o1) == spec_key_of(t, o2),
        spec_key_of(t, o1) == spec_key_of(t, o2) ==> o1 == o2,
{
    reveal_strlit("options=");
    assert("options="@.len() == 8);
    if spec_key_of(t, o1) == spec_key_of(t, o2) {
        match (o1, o2) {
            (Option::None, Option::None) => {},
            (Option::None, Option::Some(b)) => {
                assert(spec_key_of(t, o2).len() >= t.len() + 9);
                assert(false);
            },
            (Option::Some(a), Option::None) => {
                assert(spec_key_of(t, o1).len() >= t.len() + 9);
                assert(false);
            },
            (Option::Some(a), Option::Some(b)) => {
                let sep = if has_qmark(t) {
                    seq!['&']
                } else {
                    seq!['?']
                };
                let p = t + sep + "options="@;
                assert(spec_key_of(t, o1) =~= p + pct_encode(options_json(a.0, a.1)));
                assert(spec_key_of(t, o2) =~= p + pct_encode(options_json(b.0, b.1)));
                crate::percent::lemma_cancel_prefix(
                    p,
                    p,
                    pct_encode(options_json(a.0, a.1)),
                    pct_encode(options_json(b.0, b.1)),
                );
                crate::percent::lemma_pct_encode_injective(
                    options_json(a.0, a.1),
                    options_json(b.0, b.1),
                );
                lemma_options_json_inj(a.0, a.1, b.0, b.1);
            },
        }
    }
}

fn esc_hex_exec(n: u32) -> (c: char)
    requires
        n < 16,
    ensures
        c == esc_hex(n),
{
    if n < 10 {
        ((n + 0x30) as u8) as char
    } else {
        ((n + 0x37) as u8) as char
    }
}

/// Appends the body of a JSON string literal for `s`.
#[verifier::loop_isolation(false)]
fn push_json_escaped(out: &mut String, s: &str)
    ensures
        final(out)@ == old(out)@ + json_escape(s@),
{
    let n = s.unicode_len();
    let mut i: usize = 0;
    proof {
        assert(s@.subrange(0, 0) =~= Seq::<char>::empty());
        assert(out@ + json_escape(s@.subrange(0, 0)) =~= out@);
    }
    while i < n
        invariant
            i <= n,
            n == s@.len(),
            out@ == old(out)@ + json_escape(s@.subrange(0, i as int)),
        decreases n - i,
    {
        let c = s.get_char(i);
        let ghost pre = out@;
        if c == '"' {
            push_char(out, '\\');
            push_char(out, '"');
        } else if c == '\\' {
            push_char(out, '\\');
            push_char(out, '\\');
        } else if c == '\n' {
            push_char(out, '\\');
            push_char(out, 'n');
        } else if c == '\r' {
            push_char(out, '\\');
            push_char(out, 'r');
        } else if c == '\t' {
            push_char(out, '\\');
            push_char(out, 't');
        } else if (c as u32) < 0x20 {
            let u = c as u32;
            push_char(out, '\\');
            push_char(out, 'u');
            push_char(out, '0');
            push_char(out, '0');
            push_char(out, esc_hex_exec(u / 16));
            push_char(out, esc_hex_exec(u % 16));
        } else {
            push_char(out, c);
        }
        proof {
            assert(out@ =~= pre + json_escape_code(c));
            assert(s@.subrange(0, i + 1) =~= s@.subrange(0, i as int).push(c));
            lemma_json_escape_push(s@.subrange(0, i as int), c);
            assert(out@ =~= old(out)@ + json_escape(s@.subrange(0, i + 1)));
        }
        i += 1;
    }
    proof {
        assert(s@.subrange(0, n as int) =~= s@);
    }
}

/// Appends a whole JSON string literal for `s`.
fn push_json_quoted(out: &mut String, s: &str)
    ensures
        final(out)@ == old(out)@ + json_quote(s@),
{
    push_char(out, '"');
    push_json_escaped(out, s);
    push_char(out, '"');
    proof {
        assert(final(out)@ =~= old(out)@ + json_quote(s@));
    }
}

/// Appends the comma-joined `"k":"v"` members for a pair list.
#[verifier::loop_isolation(false)]
fn push_pairs(out: &mut String, ps: &Vec<(String, String)>)
    ensures
        final(out)@ == old(out)@ + pairs_json(
            ps@.map_values(|p: (String, String)| (p.0@, p.1@)),
        ),
{
    let ghost m = ps@.map_values(|p: (String, String)| (p.0@, p.1@));
    let n = ps.len();
    let mut i: usize = 0;
    proof {
        assert(pairs_json(m.take(0)) =~= Seq::<char>::empty());
        assert(out@ + Seq::<char>::empty() =~= out@);
    }
    while i < n
        invariant
            i <= n,
            n == ps@.len(),
            m == ps@.map_values(|p: (String, String)| (p.0@, p.1@)),
            out@ == old(out)@ + pairs_json(m.take(i as int)),
        decreases n - i,
    {
        if i > 0 {
            push_char(out, ',');
        }
        push_json_quoted(out, ps[i].0.as_str());
        push_char(out, ':');
        push_json_quoted(out, ps[i].1.as_str());
        proof {
            lemma_pairs_json_take(m, i as int);
        }
        i += 1;
    }
    proof {
        assert(m.take(n as int) =~= m);
    }
}

/// Taking one more pair extends the members by a comma (except first)
/// and the pair's `"k":"v"` text.
pub proof fn lemma_pairs_json_take(ps: Seq<(Seq<char>, Seq<char>)>, i: int)
    requires
        0 <= i < ps.len(),
    ensures
        pairs_json(ps.take(i + 1)) == pairs_json(ps.take(i)) + (if i == 0 {
            Seq::<char>::empty()
        } else {
            seq![',']
        }) + json_quote(ps[i].0) + seq![':'] + json_quote(ps[i].1),
    decreases ps.len(),
{
    if i == 0 {
        assert(ps.take(1).len() == 1);
        assert(ps.take(1)[0] == ps[0]);
        assert(pairs_json(ps.take(0)) =~= Seq::<char>::empty());
        assert(pairs_json(ps.take(1)) =~= pairs_json(ps.take(0)) + Seq::<char>::empty()
            + json_quote(ps[0].0) + seq![':'] + json_quote(ps[0].1));
    } else {
        lemma_pairs_json_take(ps.skip(1), i - 1);
        assert(ps.take(i + 1).skip(1) =~= ps.skip(1).take(i));
        assert(ps.take(i).skip(1) =~= ps.skip(1).take(i - 1));
        assert(ps.take(i + 1)[0] == ps[0]);
        assert(ps.take(i)[0] == ps[0]);
        assert(ps.skip(1)[i - 1] == ps[i]);
        assert(ps.take(i + 1).len() == i + 1);
        assert(ps.take(i).len() == i);
        assert(pairs_json(ps.take(i + 1)) =~= pairs_json(ps.take(i)) + seq![','] + json_quote(
            ps[i].0,
        ) + seq![':'] + json_quote(ps[i].1));
    }
}

/// The canonical JSON text of an option set.
pub fn options_json_exec(opts: &RealtimeOptions) -> (r: String)
    ensures
        r@ == options_json(opts@.0, opts@.1),
{
    let mut out = String::new();
    out.append("{\"query\":{");
    push_pairs(&mut out, &opts.query);
    out.append("},\"headers\":{");
    push_pairs(&mut out, &opts.headers);
    out.append("}}");
    proof {
        assert(out@ =~= options_json(opts@.0, opts@.1));
    }
    out
}

/// The registry key for a topic and optional options (see [`spec_key_of`]).
pub fn key_of(topic: &str, options: Option<&RealtimeOptions>) -> (r: String)
    ensures
        r@ == spec_key_of(topic@, match options {
            Option::Some(o) => Option::Some(o@),
            Option::None => Option::<
                (Seq<(Seq<char>, Seq<char>)>, Seq<(Seq<char>, Seq<char>)>),
            >::None,
        }),
{
    match options {
        Option::None => topic.to_owned(),
        Option::Some(o) => {
            let json = options_json_exec(o);
            let encoded = encode(json.as_str());
            let mut r = topic.to_owned();
            if crate::registry::contains_qmark(topic) {
                push_char(&mut r, '&');
            } else {
                push_char(&mut r, '?');
            }
            r.append("options=");
            r.append(encoded.as_str());
            proof {
                assert(r@ =~= spec_key_of(topic@, Option::Some(o@)));
            }
            r
        },
    }
}

} // verus!
