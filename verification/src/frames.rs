//! Incremental parser for the server-push event framing.
//!
//! The wire format is line oriented: lines end with `\n` (an optional
//! preceding `\r` is stripped), `event:`, `data:` and `id:` lines fill
//! the event under construction, any other non-empty line is ignored,
//! and an empty line completes the event when its type or data is
//! non-empty.  Bytes may arrive split at arbitrary chunk boundaries;
//! what is not yet a complete line stays buffered.  Field values are
//! trimmed of ASCII whitespace — the wire format puts at most a single
//! space there.

use vstd::prelude::*;

verus! {

/// Index of the first newline byte, or `-1` when there is none.
pub open spec fn find_nl(b: Seq<u8>) -> int
    decreases b.len(),
{
    if b.len() == 0 {
        -1
    } else if b[0] == 10u8 {
        0
    } else {
        let r = find_nl(b.skip(1));
        if r < 0 {
            -1
        } else {
            r + 1
        }
    }
}

/// `find_nl` returns `-1` exactly when no newline occurs, and otherwise
/// the first newline's index.
pub proof fn lemma_find_nl(b: Seq<u8>)
    ensures
        find_nl(b) == -1 ==> forall|j: int| 0 <= j < b.len() ==> b[j] != 10u8,
        find_nl(b) != -1 ==> 0 <= find_nl(b) < b.len() && b[find_nl(b)] == 10u8 && forall|j: int|
            0 <= j < find_nl(b) ==> b[j] != 10u8,
    decreases b.len(),
{
    if b.len() == 0 {
    } else if b[0] == 10u8 {
    } else {
        lemma_find_nl(b.skip(1));
        let r = find_nl(b.skip(1));
        if r < 0 {
            assert forall|j: int| 0 <= j < b.len() implies b[j] != 10u8 by {
                if j > 0 {
                    assert(b.skip(1)[j - 1] == b[j]);
                }
            }
        } else {
            assert(b.skip(1)[r] == b[r + 1]);
            assert forall|j: int| 0 <= j < find_nl(b) implies b[j] != 10u8 by {
                if j > 0 {
                    assert(b.skip(1)[j - 1] == b[j]);
                }
            }
        }
    }
}

/// The first newline of a longer buffer is the first newline of its
/// prefix, when the prefix has one.
pub proof fn lemma_find_nl_extend(a: Seq<u8>, c: Seq<u8>)
    ensures
        find_nl(a) >= 0 ==> find_nl(a + c) == find_nl(a),
    decreases a.len(),
{
    if a.len() == 0 {
    } else if a[0] == 10u8 {
        assert((a + c)[0] == 10u8);
    } else {
        lemma_find_nl_extend(a.skip(1), c);
        assert((a + c).skip(1) =~= a.skip(1) + c);
        assert((a + c)[0] == a[0]);
        if find_nl(a) >= 0 {
            lemma_find_nl(a);
            lemma_find_nl(a.skip(1));
        }
    }
}

/// The line with every trailing carriage return removed.
pub open spec fn strip_crs(line: Seq<u8>) -> Seq<u8>
    decreases line.len(),
{
    if line.len() > 0 && line[line.len() - 1] == 13u8 {
        strip_crs(line.take(line.len() - 1))
    } else {
        line
    }
}

/// ASCII whitespace, as the line values are trimmed by.
pub open spec fn is_ws(b: u8) -> bool {
    b == 32 || b == 9 || b == 10 || b == 12 || b == 13
}

/// The bytes with leading whitespace removed.
pub open spec fn trim_front(s: Seq<u8>) -> Seq<u8>
    decreases s.len(),
{
    if s.len() > 0 && is_ws(s[0]) {
        trim_front(s.skip(1))
    } else {
        s
    }
}

/// The bytes with trailing whitespace removed.
pub open spec fn trim_back(s: Seq<u8>) -> Seq<u8>
    decreases s.len(),
{
    if s.len() > 0 && is_ws(s[s.len() - 1]) {
        trim_back(s.take(s.len() - 1))
    } else {
        s
    }
}

/// The bytes with whitespace removed on both ends.
pub open spec fn trim(s: Seq<u8>) -> Seq<u8> {
    trim_back(trim_front(s))
}

/// Whether `s` begins with `p`.
pub open spec fn bstarts(s: Seq<u8>, p: Seq<u8>) -> bool {
    s.len() >= p.len() && s.subrange(0, p.len() as int) == p
}

/// The bytes of `event:`.
pub open spec fn event_prefix() -> Seq<u8> {
    seq![101u8, 118u8, 101u8, 110u8, 116u8, 58u8]
}

/// The bytes of `data:`.
pub open spec fn data_prefix() -> Seq<u8> {
    seq![100u8, 97u8, 116u8, 97u8, 58u8]
}

/// The bytes of `id:`.
pub open spec fn id_prefix() -> Seq<u8> {
    seq![105u8, 100u8, 58u8]
}

/// One completed event: type, data and id.
pub struct ServerEvent {
    /// The `event:` field value.
    pub event_type: Vec<u8>,
    /// The accumulated `data:` payload.
    pub data: Vec<u8>,
    /// The `id:` field value.
    pub id: Vec<u8>,
}

impl View for ServerEvent {
    type V = (Seq<u8>, Seq<u8>, Seq<u8>);

    open spec fn view(&self) -> (Seq<u8>, Seq<u8>, Seq<u8>) {
        (self.event_type@, self.data@, self.id@)
    }
}

/// Effect of one complete line on the (type, data, id) fields under
/// construction; an empty line completes an event when type or data is
/// non-empty, and always clears the fields.
pub open spec fn apply_line(fs: (Seq<u8>, Seq<u8>, Seq<u8>), line: Seq<u8>) -> (
    (Seq<u8>, Seq<u8>, Seq<u8>),
    Option<(Seq<u8>, Seq<u8>, Seq<u8>)>,
) {
    if line.len() == 0 {
        let cleared = (Seq::<u8>::empty(), Seq::<u8>::empty(), Seq::<u8>::empty());
        if fs.0.len() > 0 || fs.1.len() > 0 {
            (cleared, Option::Some(fs))
        } else {
            (cleared, Option::None)
        }
    } else if bstarts(line, event_prefix()) {
        ((trim(line.skip(6)), fs.1, fs.2), Option::None)
    } else if bstarts(line, data_prefix()) {
        let value = trim(line.skip(5));
        let joined = if fs.1.len() > 0 {
            fs.1 + seq![10u8] + value
        } else {
            value
        };
        ((fs.0, joined, fs.2), Option::None)
    } else if bstarts(line, id_prefix()) {
        ((fs.0, fs.1, trim(line.skip(3))), Option::None)
    } else {
        (fs, Option::None)
    }
}

/// Runs the parser over the buffered bytes: consumes complete lines,
/// returning the final state and the events completed, in order.
pub open spec fn process(st: (Seq<u8>, Seq<u8>, Seq<u8>, Seq<u8>)) -> (
    (Seq<u8>, Seq<u8>, Seq<u8>, Seq<u8>),
    Seq<(Seq<u8>, Seq<u8>, Seq<u8>)>,
)
    decreases st.0.len(),
    via process_dec
{
    let nl = find_nl(st.0);
    if nl < 0 {
        (st, Seq::empty())
    } else {
        let line = strip_crs(st.0.take(nl));
        let rest = st.0.skip(nl + 1);
        let stepped = apply_line((st.1, st.2, st.3), line);
        let fs2 = stepped.0;
        let recursed = process((rest, fs2.0, fs2.1, fs2.2));
        (
            recursed.0,
            match stepped.1 {
                Option::Some(e) => seq![e] + recursed.1,
                Option::None => recursed.1,
            },
        )
    }
}

#[via_fn]
proof fn process_dec(st: (Seq<u8>, Seq<u8>, Seq<u8>, Seq<u8>)) {
    lemma_find_nl(st.0);
}

/// The parser state and completed events after one chunk arrives.
pub open spec fn feed_spec(st: (Seq<u8>, Seq<u8>, Seq<u8>, Seq<u8>), chunk: Seq<u8>) -> (
    (Seq<u8>, Seq<u8>, Seq<u8>, Seq<u8>),
    Seq<(Seq<u8>, Seq<u8>, Seq<u8>)>,
) {
    process((st.0 + chunk, st.1, st.2, st.3))
}

/// Processing a buffer extended on the right equals processing the
/// buffer and then the extension: nothing already consumed changes.
pub proof fn lemma_process_extend(st: (Seq<u8>, Seq<u8>, Seq<u8>, Seq<u8>), extra: Seq<u8>)
    ensures
        ({
            let once = process((st.0 + extra, st.1, st.2, st.3));
            let first = process(st);
            let second = process((first.0.0 + extra, first.0.1, first.0.2, first.0.3));
            once.0 == second.0 && once.1 == first.1 + second.1
        }),
    decreases st.0.len(),
{
    let nl = find_nl(st.0);
    lemma_find_nl(st.0);
    if nl < 0 {
        let once = process((st.0 + extra, st.1, st.2, st.3));
        let second = process((st.0 + extra, st.1, st.2, st.3));
        assert(process(st) == (st, Seq::<(Seq<u8>, Seq<u8>, Seq<u8>)>::empty()));
        assert(Seq::<(Seq<u8>, Seq<u8>, Seq<u8>)>::empty() + second.1 =~= second.1);
    } else {
        lemma_find_nl_extend(st.0, extra);
        assert(find_nl(st.0 + extra) == nl);
        assert((st.0 + extra).take(nl) =~= st.0.take(nl));
        assert((st.0 + extra).skip(nl + 1) =~= st.0.skip(nl + 1) + extra);
        let line = strip_crs(st.0.take(nl));
        let stepped = apply_line((st.1, st.2, st.3), line);
        let fs2 = stepped.0;
        let sub = (st.0.skip(nl + 1), fs2.0, fs2.1, fs2.2);
        lemma_process_extend(sub, extra);
        let once = process((st.0 + extra, st.1, st.2, st.3));
        let first = process(st);
        let second = process((first.0.0 + extra, first.0.1, first.0.2, first.0.3));
        match stepped.1 {
            Option::Some(e) => {
                assert(seq![e] + (process(sub).1 + second.1) =~= (seq![e] + process(sub).1)
                    + second.1);
            },
            Option::None => {},
        }
    }
}

/// Feeding one concatenated chunk equals feeding its two halves in
/// order: the parser state ends the same and the events concatenate.
pub proof fn lemma_feed_concat(st: (Seq<u8>, Seq<u8>, Seq<u8>, Seq<u8>), c1: Seq<u8>, c2: Seq<u8>)
    ensures
        ({
            let whole = feed_spec(st, c1 + c2);
            let first = feed_spec(st, c1);
            let second = feed_spec(first.0, c2);
            whole.0 == second.0 && whole.1 == first.1 + second.1
        }),
{
    assert(st.0 + (c1 + c2) =~= (st.0 + c1) + c2);
    lemma_process_extend((st.0 + c1, st.1, st.2, st.3), c2);
}

/// The incremental event-frame parser.
pub struct EventFrameParser {
    buffer: Vec<u8>,
    etype: Vec<u8>,
    data: Vec<u8>,
    id: Vec<u8>,
}

impl EventFrameParser {
    /// The abstract state: buffered bytes and the three fields of the
    /// event under construction.
    pub closed spec fn model(&self) -> (Seq<u8>, Seq<u8>, Seq<u8>, Seq<u8>) {
        (self.buffer@, self.etype@, self.data@, self.id@)
    }

    /// A parser with nothing buffered and empty fields.
    pub fn new() -> (r: Self)
        ensures
            r.model() == (
                Seq::<u8>::empty(),
                Seq::<u8>::empty(),
                Seq::<u8>::empty(),
                Seq::<u8>::empty(),
            ),
    {
        let r = EventFrameParser {
            buffer: Vec::new(),
            etype: Vec::new(),
            data: Vec::new(),
            id: Vec::new(),
        };
        proof {
            assert(r.model() =~= (
                Seq::<u8>::empty(),
                Seq::<u8>::empty(),
                Seq::<u8>::empty(),
                Seq::<u8>::empty(),
            ));
        }
        r
    }

    /// Consumes one chunk of the stream and returns the events it
    /// completes, in arrival order.
    pub fn feed(&mut self, chunk: &[u8]) -> (events: Vec<ServerEvent>)
        ensures
            final(self).model() == feed_spec(old(self).model(), chunk@).0,
            events@.map_values(|e: ServerEvent| e@) == feed_spec(old(self).model(), chunk@).1,
    {
        append_slice(&mut self.buffer, chunk);
        let ghost m1 = self.model();
        proof {
            assert(m1 == (old(self).model().0 + chunk@, old(self).model().1, old(
                self,
            ).model().2, old(self).model().3));
        }
        let mut events: Vec<ServerEvent> = Vec::new();
        loop
            invariant
                process(m1).0 == process(self.model()).0,
                process(m1).1 == events@.map_values(|e: ServerEvent| e@) + process(
                    self.model(),
                ).1,
            ensures
                self.model() == process(m1).0,
                events@.map_values(|e: ServerEvent| e@) == process(m1).1,
            decreases self.model().0.len(),
        {
            let ghost cur = self.model();
            proof {
                lemma_find_nl(cur.0);
            }
            let nl_opt = find_newline(&self.buffer);
            match nl_opt {
                Option::None => {
                    proof {
                        assert(process(cur) == (cur, Seq::<(Seq<u8>, Seq<u8>, Seq<u8>)>::empty()));
                        assert(events@.map_values(|e: ServerEvent| e@) + Seq::<
                            (Seq<u8>, Seq<u8>, Seq<u8>),
                        >::empty() =~= events@.map_values(|e: ServerEvent| e@));
                    }
                    break ;
                },
                Option::Some(k) => {
                    proof {
                        assert(0 <= find_nl(cur.0) < cur.0.len());
                    }
                    let blen = self.buffer.len();
                    let mut line = bytes_range(&self.buffer, 0, k);
                    let rest = bytes_range(&self.buffer, k + 1, blen);
                    self.buffer = rest;
                    proof {
                        assert(line@ =~= cur.0.take(k as int));
                    }
                    // strip trailing carriage returns
                    while line.len() > 0 && line[line.len() - 1] == 13u8
                        invariant
                            strip_crs(line@) == strip_crs(cur.0.take(k as int)),
                        decreases line@.len(),
                    {
                        let ghost pl = line@;
                        line.pop();
                        proof {
                            assert(line@ =~= pl.take(pl.len() - 1));
                        }
                    }
                    proof {
                        assert(strip_crs(line@) == line@);
                    }
                    let ghost evs_pre = events@.map_values(|e: ServerEvent| e@);
                    let ev = self.handle_line(&line);
                    let ghost stepped = apply_line(
                        (cur.1, cur.2, cur.3),
                        strip_crs(cur.0.take(k as int)),
                    );
                    if let Option::Some(e) = ev {
                        let ghost eview = e@;
                        events.push(e);
                        proof {
                            assert(events@.map_values(|e: ServerEvent| e@) =~= evs_pre.push(
                                eview,
                            ));
                        }
                    }
                    proof {
                        assert(self.model().0 =~= cur.0.skip(k + 1));
                        assert(self.model() == (
                            cur.0.skip(k + 1),
                            stepped.0.0,
                            stepped.0.1,
                            stepped.0.2,
                        ));
                        match stepped.1 {
                            Option::Some(e) => {
                                assert(evs_pre.push(e) + process(self.model()).1 =~= evs_pre + (
                                seq![e] + process(self.model()).1));
                            },
                            Option::None => {},
                        }
                    }
                },
            }
        }
        events
    }

    /// Applies one complete (already CR-stripped) line to the fields.
    fn handle_line(&mut self, line: &Vec<u8>) -> (ev: Option<ServerEvent>)
        ensures
            ({
                let stepped = apply_line(
                    (old(self).model().1, old(self).model().2, old(self).model().3),
                    line@,
                );
                &&& final(self).model().0 == old(self).model().0
                &&& final(self).model().1 == stepped.0.0
                &&& final(self).model().2 == stepped.0.1
                &&& final(self).model().3 == stepped.0.2
                &&& (match (ev, stepped.1) {
                    (Option::Some(e), Option::Some(s)) => e@ == s,
                    (Option::None, Option::None) => true,
                    _ => false,
                })
            }),
    {
        let evp: Vec<u8> = vec![101u8, 118u8, 101u8, 110u8, 116u8, 58u8];
        let dap: Vec<u8> = vec![100u8, 97u8, 116u8, 97u8, 58u8];
        let idp: Vec<u8> = vec![105u8, 100u8, 58u8];
        proof {
            assert(evp@ =~= event_prefix());
            assert(dap@ =~= data_prefix());
            assert(idp@ =~= id_prefix());
        }
        if line.len() == 0 {
            let emit = self.etype.len() > 0 || self.data.len() > 0;
            let mut et: Vec<u8> = Vec::new();
            let mut da: Vec<u8> = Vec::new();
            let mut idv: Vec<u8> = Vec::new();
            core::mem::swap(&mut et, &mut self.etype);
            core::mem::swap(&mut da, &mut self.data);
            core::mem::swap(&mut idv, &mut self.id);
            proof {
                assert(self.etype@ =~= Seq::<u8>::empty());
                assert(self.data@ =~= Seq::<u8>::empty());
                assert(self.id@ =~= Seq::<u8>::empty());
            }
            if emit {
                Option::Some(ServerEvent { event_type: et, data: da, id: idv })
            } else {
                Option::None
            }
        } else if starts_with_bytes(line, &evp) {
            proof {
                assert(line@.subrange(6, line@.len() as int) =~= line@.skip(6));
            }
            let value = trim_bytes(&bytes_range(line, 6, line.len()));
            self.etype = value;
            Option::None
        } else if starts_with_bytes(line, &dap) {
            proof {
                assert(line@.subrange(5, line@.len() as int) =~= line@.skip(5));
            }
            let value = trim_bytes(&bytes_range(line, 5, line.len()));
            if self.data.len() > 0 {
                self.data.push(10u8);
                append_vec(&mut self.data, &value);
                proof {
                    let fs1 = old(self).model().2;
                    assert(self.data@ =~= fs1 + seq![10u8] + value@);
                }
            } else {
                self.data = value;
            }
            Option::None
        } else if starts_with_bytes(line, &idp) {
            proof {
                assert(line@.subrange(3, line@.len() as int) =~= line@.skip(3));
            }
            let value = trim_bytes(&bytes_range(line, 3, line.len()));
            self.id = value;
            Option::None
        } else {
            Option::None
        }
    }
}

/// First newline position in a byte vector.
#[verifier::loop_isolation(false)]
fn find_newline(v: &Vec<u8>) -> (r: Option<usize>)
    ensures
        match r {
            Option::Some(k) => find_nl(v@) == k as int,
            Option::None => find_nl(v@) == -1,
        },
{
    proof {
        lemma_find_nl(v@);
    }
    let mut i: usize = 0;
    let n = v.len();
    while i < n
        invariant
            i <= n,
            n == v@.len(),
            forall|j: int| 0 <= j < i ==> v@[j] != 10u8,
        decreases n - i,
    {
        if v[i] == 10u8 {
            proof {
                if find_nl(v@) == -1 {
                    assert(v@[i as int] != 10u8);
                }
                if find_nl(v@) < i as int {
                    assert(v@[find_nl(v@)] != 10u8);
                }
                if find_nl(v@) > i as int {
                    assert(v@[i as int] != 10u8);
                }
            }
            return Option::Some(i);
        }
        i += 1;
    }
    proof {
        if find_nl(v@) != -1 {
            assert(v@[find_nl(v@)] != 10u8);
        }
    }
    Option::None
}

/// Copy of the byte range `[a, b)` of a vector.
#[verifier::loop_isolation(false)]
fn bytes_range(v: &Vec<u8>, a: usize, b: usize) -> (r: Vec<u8>)
    requires
        a <= b <= v@.len(),
    ensures
        r@ == v@.subrange(a as int, b as int),
{
    let mut r: Vec<u8> = Vec::new();
    let mut i: usize = a;
    while i < b
        invariant
            a <= i <= b,
            r@ =~= v@.subrange(a as int, i as int),
        decreases b - i,
    {
        r.push(v[i]);
        proof {
            assert(r@ =~= v@.subrange(a as int, i + 1));
        }
        i += 1;
    }
    r
}

/// Appends a byte slice to a vector.
#[verifier::loop_isolation(false)]
fn append_slice(dst: &mut Vec<u8>, src: &[u8])
    ensures
        final(dst)@ == old(dst)@ + src@,
{
    let mut i: usize = 0;
    let n = src.len();
    while i < n
        invariant
            i <= n,
            n == src@.len(),
            dst@ =~= old(dst)@ + src@.subrange(0, i as int),
        decreases n - i,
    {
        dst.push(src[i]);
        proof {
            assert(dst@ =~= old(dst)@ + src@.subrange(0, i + 1));
        }
        i += 1;
    }
    proof {
        assert(src@.subrange(0, n as int) =~= src@);
    }
}

/// Appends one byte vector to another.
#[verifier::loop_isolation(false)]
fn append_vec(dst: &mut Vec<u8>, src: &Vec<u8>)
    ensures
        final(dst)@ == old(dst)@ + src@,
{
    let mut i: usize = 0;
    let n = src.len();
    while i < n
        invariant
            i <= n,
            n == src@.len(),
            dst@ =~= old(dst)@ + src@.subrange(0, i as int),
        decreases n - i,
    {
        dst.push(src[i]);
        proof {
            assert(dst@ =~= old(dst)@ + src@.subrange(0, i + 1));
        }
        i += 1;
    }
    proof {
        assert(src@.subrange(0, n as int) =~= src@);
    }
}

/// Whether the vector begins with the given prefix.
#[verifier::loop_isolation(false)]
fn starts_with_bytes(v: &Vec<u8>, p: &Vec<u8>) -> (r: bool)
    ensures
        r == bstarts(v@, p@),
{
    if v.len() < p.len() {
        return false;
    }
    let mut i: usize = 0;
    let n = p.len();
    while i < n
        invariant
            i <= n,
            n == p@.len(),
            v@.len() >= p@.len(),
            forall|j: int| 0 <= j < i ==> v@[j] == p@[j],
        decreases n - i,
    {
        if v[i] != p[i] {
            proof {
                if bstarts(v@, p@) {
                    assert(v@.subrange(0, p@.len() as int)[i as int] == p@[i as int]);
                }
            }
            return false;
        }
        i += 1;
    }
    proof {
        assert(v@.subrange(0, p@.len() as int) =~= p@);
    }
    true
}

/// ASCII-whitespace check for one byte.
fn is_ws_exec(b: u8) -> (r: bool)
    ensures
        r == is_ws(b),
{
    b == 32 || b == 9 || b == 10 || b == 12 || b == 13
}

/// Copy of the bytes with ASCII whitespace removed on both ends.
#[verifier::loop_isolation(false)]
fn trim_bytes(v: &Vec<u8>) -> (r: Vec<u8>)
    ensures
        r@ == trim(v@),
{
    let n = v.len();
    let mut f: usize = 0;
    proof {
        assert(v@.skip(0) =~= v@);
    }
    while f < n && is_ws_exec(v[f])
        invariant
            f <= n,
            n == v@.len(),
            trim_front(v@) == trim_front(v@.skip(f as int)),
        decreases n - f,
    {
        proof {
            assert(v@.skip(f as int).skip(1) =~= v@.skip(f + 1));
        }
        f += 1;
    }
    proof {
        assert(trim_front(v@.skip(f as int)) == v@.skip(f as int));
    }
    let ghost x = v@.skip(f as int);
    let mut b: usize = n;
    while b > f && is_ws_exec(v[b - 1])
        invariant
            f <= b <= n,
            n == v@.len(),
            trim_front(v@) == x,
            x == v@.skip(f as int),
            trim_back(x) == trim_back(v@.subrange(f as int, b as int)),
        decreases b,
    {
        proof {
            let y = v@.subrange(f as int, b as int);
            assert(y.len() > 0 && is_ws(y[y.len() - 1]));
            assert(y.take(y.len() - 1) =~= v@.subrange(f as int, b - 1));
        }
        b -= 1;
    }
    proof {
        let y = v@.subrange(f as int, b as int);
        if b == f {
            assert(y.len() == 0);
            assert(trim_back(y) == y);
        } else {
            assert(!is_ws(y[y.len() - 1]));
            assert(trim_back(y) == y);
        }
        assert(x.take(x.len() as int) =~= x);
    }
    bytes_range(v, f, b)
}

} // verus!
