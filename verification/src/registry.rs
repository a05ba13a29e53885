//! Subscription registry: maps normalized topic keys to the listener
//! ids registered under them.
//!
//! A bucket exists exactly while it has at least one listener; ids are
//! handed out from a monotonically increasing counter and are unique
//! for the registry's lifetime.  Removal by id matches every key equal
//! to the given topic or carrying an options suffix after it.

use vstd::prelude::*;
use vstd::utf8::encode_utf8;
use crate::strutil::{starts_with, str_eq, str_starts_with, push_char, bytes_eq};

verus! {

/// Whether the topic text contains a `?`.
pub open spec fn has_qmark(t: Seq<char>) -> bool {
    exists|i: int| 0 <= i < t.len() && t[i] == '?'
}

/// The prefix a topic matches keys by: the topic itself when it already
/// carries options, otherwise the topic followed by `?`.
pub open spec fn topic_prefix(t: Seq<char>) -> Seq<char> {
    if has_qmark(t) {
        t
    } else {
        t.push('?')
    }
}

/// Whether a registry key belongs to a topic: either the exact key, or
/// any key whose options suffix follows the topic name.
pub open spec fn key_matches(k: Seq<char>, t: Seq<char>) -> bool {
    k == t || starts_with(k.push('?'), topic_prefix(t))
}

/// Whether a registry key falls under a raw key prefix.
pub open spec fn prefix_matches(k: Seq<char>, p: Seq<char>) -> bool {
    starts_with(k.push('?'), p)
}

/// Whether some bucket has exactly this key.
pub open spec fn has_key(m: Seq<(Seq<char>, Seq<u64>)>, k: Seq<char>) -> bool {
    exists|i: int| 0 <= i < m.len() && m[i].0 == k
}

/// The index of the bucket with this key.
pub open spec fn key_index(m: Seq<(Seq<char>, Seq<u64>)>, k: Seq<char>) -> int {
    choose|i: int| 0 <= i < m.len() && m[i].0 == k
}

/// Whether some bucket key encodes to these UTF-8 bytes.
pub open spec fn has_key_utf8(m: Seq<(Seq<char>, Seq<u64>)>, bts: Seq<u8>) -> bool {
    exists|i: int| 0 <= i < m.len() && encode_utf8(m[i].0) == bts
}

/// The index of the bucket whose key encodes to these UTF-8 bytes.
pub open spec fn key_index_utf8(m: Seq<(Seq<char>, Seq<u64>)>, bts: Seq<u8>) -> int {
    choose|i: int| 0 <= i < m.len() && encode_utf8(m[i].0) == bts
}

/// No two buckets share a key.
pub open spec fn keys_distinct(m: Seq<(Seq<char>, Seq<u64>)>) -> bool {
    forall|i: int, j: int| 0 <= i < j < m.len() ==> m[i].0 != m[j].0
}

/// Every bucket holds at least one listener.
pub open spec fn buckets_nonempty(m: Seq<(Seq<char>, Seq<u64>)>) -> bool {
    forall|i: int| 0 <= i < m.len() ==> m[i].1.len() > 0
}

/// Well-formedness of the registry contents.
pub open spec fn registry_inv(m: Seq<(Seq<char>, Seq<u64>)>) -> bool {
    keys_distinct(m) && buckets_nonempty(m)
}

/// Registering a listener: appends to the topic's bucket, creating the
/// bucket at the end if the key is new.
pub open spec fn spec_add(m: Seq<(Seq<char>, Seq<u64>)>, k: Seq<char>, id: u64) -> Seq<
    (Seq<char>, Seq<u64>),
> {
    if has_key(m, k) {
        let i = key_index(m, k);
        m.update(i, (k, m[i].1.push(id)))
    } else {
        m.push((k, seq![id]))
    }
}

/// The listener ids with the given id removed, order kept.
pub open spec fn remove_all(ids: Seq<u64>, id: u64) -> Seq<u64>
    decreases ids.len(),
{
    if ids.len() == 0 {
        Seq::empty()
    } else if ids[0] == id {
        remove_all(ids.skip(1), id)
    } else {
        seq![ids[0]] + remove_all(ids.skip(1), id)
    }
}

/// Rewrites each bucket through `f`, dropping the buckets `f` deletes.
pub open spec fn map_drop(
    m: Seq<(Seq<char>, Seq<u64>)>,
    f: spec_fn((Seq<char>, Seq<u64>)) -> Option<(Seq<char>, Seq<u64>)>,
) -> Seq<(Seq<char>, Seq<u64>)>
    decreases m.len(),
{
    if m.len() == 0 {
        Seq::empty()
    } else {
        let rest = map_drop(m.skip(1), f);
        match f(m[0]) {
            Option::Some(b2) => seq![b2] + rest,
            Option::None => rest,
        }
    }
}

/// One bucket after removing a listener id under a topic: untouched
/// when the key does not belong to the topic, gone when the removal
/// empties it.
pub open spec fn bucket_after_remove(b: (Seq<char>, Seq<u64>), t: Seq<char>, id: u64) -> Option<
    (Seq<char>, Seq<u64>),
> {
    if key_matches(b.0, t) {
        let nids = remove_all(b.1, id);
        if nids.len() == 0 {
            Option::None
        } else {
            Option::Some((b.0, nids))
        }
    } else {
        Option::Some(b)
    }
}

/// The registry after removing one listener id under a topic.
pub open spec fn spec_remove_by_id(m: Seq<(Seq<char>, Seq<u64>)>, t: Seq<char>, id: u64) -> Seq<
    (Seq<char>, Seq<u64>),
> {
    map_drop(m, |b: (Seq<char>, Seq<u64>)| bucket_after_remove(b, t, id))
}

/// The registry after removing every bucket belonging to a topic.
pub open spec fn spec_remove_topic(m: Seq<(Seq<char>, Seq<u64>)>, t: Seq<char>) -> Seq<
    (Seq<char>, Seq<u64>),
> {
    map_drop(
        m,
        |b: (Seq<char>, Seq<u64>)|
            if key_matches(b.0, t) {
                Option::None
            } else {
                Option::Some(b)
            },
    )
}

/// The registry after removing every bucket under a raw key prefix.
pub open spec fn spec_remove_prefix(m: Seq<(Seq<char>, Seq<u64>)>, p: Seq<char>) -> Seq<
    (Seq<char>, Seq<u64>),
> {
    map_drop(
        m,
        |b: (Seq<char>, Seq<u64>)|
            if prefix_matches(b.0, p) {
                Option::None
            } else {
                Option::Some(b)
            },
    )
}

/// Whether a listener with this id is registered under the topic.
pub open spec fn any_id_match(m: Seq<(Seq<char>, Seq<u64>)>, t: Seq<char>, id: u64) -> bool {
    exists|i: int, j: int|
        0 <= i < m.len() && 0 <= j < m[i].1.len() && key_matches(m[i].0, t) && m[i].1[j] == id
}

/// Whether any bucket belongs to the topic.
pub open spec fn any_key_match(m: Seq<(Seq<char>, Seq<u64>)>, t: Seq<char>) -> bool {
    exists|i: int| 0 <= i < m.len() && key_matches(m[i].0, t)
}

/// Whether any bucket falls under the raw key prefix.
pub open spec fn any_prefix_match(m: Seq<(Seq<char>, Seq<u64>)>, p: Seq<char>) -> bool {
    exists|i: int| 0 <= i < m.len() && prefix_matches(m[i].0, p)
}

/// The keys of the buckets, in insertion order.
pub open spec fn keys_of(m: Seq<(Seq<char>, Seq<u64>)>) -> Seq<Seq<char>> {
    m.map_values(|b: (Seq<char>, Seq<u64>)| b.0)
}

/// Rewriting a registry extended by one bucket rewrites the bucket last.
pub proof fn lemma_map_drop_push(
    m: Seq<(Seq<char>, Seq<u64>)>,
    f: spec_fn((Seq<char>, Seq<u64>)) -> Option<(Seq<char>, Seq<u64>)>,
    b: (Seq<char>, Seq<u64>),
)
    ensures
        map_drop(m.push(b), f) == map_drop(m, f) + (match f(b) {
            Option::Some(b2) => seq![b2],
            Option::None => Seq::<(Seq<char>, Seq<u64>)>::empty(),
        }),
    decreases m.len(),
{
    if m.len() == 0 {
        assert(m.push(b).skip(1) =~= Seq::<(Seq<char>, Seq<u64>)>::empty());
        assert(map_drop(m.push(b).skip(1), f) =~= Seq::<(Seq<char>, Seq<u64>)>::empty());
        match f(b) {
            Option::Some(b2) => {
                assert(map_drop(m.push(b), f) =~= map_drop(m, f) + seq![b2]);
            },
            Option::None => {
                assert(map_drop(m.push(b), f) =~= map_drop(m, f));
                assert(map_drop(m, f) =~= map_drop(m, f) + Seq::<(Seq<char>, Seq<u64>)>::empty());
            },
        }
    } else {
        assert(m.push(b).skip(1) =~= m.skip(1).push(b));
        lemma_map_drop_push(m.skip(1), f, b);
        match f(b) {
            Option::Some(b2) => {
                assert(map_drop(m.push(b), f) =~= map_drop(m, f) + seq![b2]);
            },
            Option::None => {
                assert(map_drop(m.push(b), f) =~= map_drop(m, f));
                assert(map_drop(m, f) =~= map_drop(m, f) + Seq::<(Seq<char>, Seq<u64>)>::empty());
            },
        }
    }
}

/// Bucket rewriting keeps keys, so it keeps key-distinctness and never
/// invents keys; when the rewrite keeps buckets nonempty, the result is
/// well formed.
pub proof fn lemma_map_drop_inv(
    m: Seq<(Seq<char>, Seq<u64>)>,
    f: spec_fn((Seq<char>, Seq<u64>)) -> Option<(Seq<char>, Seq<u64>)>,
)
    requires
        forall|b: (Seq<char>, Seq<u64>)|
            ((#[trigger] f(b)) matches Option::Some(b2) ==> b2.0 == b.0),
        forall|b: (Seq<char>, Seq<u64>)|
            b.1.len() > 0 ==> ((#[trigger] f(b)) matches Option::Some(b2) ==> b2.1.len() > 0),
        registry_inv(m),
    ensures
        forall|k: Seq<char>| #[trigger] has_key(map_drop(m, f), k) ==> has_key(m, k),
        registry_inv(map_drop(m, f)),
    decreases m.len(),
{
    if m.len() == 0 {
    } else {
        assert(registry_inv(m.skip(1))) by {
            assert(forall|i: int|
                0 <= i < m.skip(1).len() ==> m.skip(1)[i] == m[i + 1]);
        }
        lemma_map_drop_inv(m.skip(1), f);
        let rest = map_drop(m.skip(1), f);
        assert(m[0].1.len() > 0);
        match f(m[0]) {
            Option::Some(b2) => {
                let res = seq![b2] + rest;
                assert(map_drop(m, f) == res);
                assert forall|k: Seq<char>| #[trigger] has_key(res, k) implies has_key(m, k) by {
                    let i = choose|i: int| 0 <= i < res.len() && res[i].0 == k;
                    if i == 0 {
                        assert(m[0].0 == k);
                    } else {
                        assert(rest[i - 1].0 == k);
                        assert(has_key(rest, k));
                        assert(has_key(m.skip(1), k));
                        let j = choose|j: int| 0 <= j < m.skip(1).len() && m.skip(1)[j].0 == k;
                        assert(m[j + 1].0 == k);
                    }
                }
                assert(keys_distinct(res)) by {
                    assert forall|i: int, j: int| 0 <= i < j < res.len() implies res[i].0
                        != res[j].0 by {
                        if i == 0 {
                            if res[0].0 == res[j].0 {
                                assert(rest[j - 1].0 == b2.0);
                                assert(has_key(rest, b2.0));
                                assert(has_key(m.skip(1), b2.0));
                                let x = choose|x: int|
                                    0 <= x < m.skip(1).len() && m.skip(1)[x].0 == b2.0;
                                assert(m[x + 1].0 == m[0].0);
                            }
                        }
                    }
                }
                assert(buckets_nonempty(res)) by {
                    assert forall|i: int| 0 <= i < res.len() implies res[i].1.len() > 0 by {
                        if i > 0 {
                            assert(rest[i - 1].1.len() > 0);
                        }
                    }
                }
            },
            Option::None => {
                assert(map_drop(m, f) == rest);
                assert forall|k: Seq<char>| #[trigger] has_key(rest, k) implies has_key(m, k) by {
                    assert(has_key(m.skip(1), k));
                    let j = choose|j: int| 0 <= j < m.skip(1).len() && m.skip(1)[j].0 == k;
                    assert(m[j + 1].0 == k);
                }
            },
        }
    }
}

/// Removing an id keeps every other id, in order, and removes the given one.
pub proof fn lemma_remove_all_push(ids: Seq<u64>, x: u64, id: u64)
    ensures
        remove_all(ids.push(x), id) == remove_all(ids, id) + (if x == id {
            Seq::<u64>::empty()
        } else {
            seq![x]
        }),
    decreases ids.len(),
{
    if ids.len() == 0 {
        assert(ids.push(x).skip(1) =~= Seq::<u64>::empty());
        assert(remove_all(ids.push(x).skip(1), id) =~= Seq::<u64>::empty());
        if x == id {
            assert(remove_all(ids.push(x), id) =~= remove_all(ids, id) + Seq::<u64>::empty());
        } else {
            assert(remove_all(ids.push(x), id) =~= remove_all(ids, id) + seq![x]);
        }
    } else {
        assert(ids.push(x).skip(1) =~= ids.skip(1).push(x));
        lemma_remove_all_push(ids.skip(1), x, id);
        if x == id {
            assert(remove_all(ids.push(x), id) =~= remove_all(ids, id) + Seq::<u64>::empty());
        } else {
            assert(remove_all(ids.push(x), id) =~= remove_all(ids, id) + seq![x]);
        }
    }
}

/// Removing an id that no listener has keeps the list unchanged.
pub proof fn lemma_remove_all_absent(ids: Seq<u64>, id: u64)
    requires
        !ids.contains(id),
    ensures
        remove_all(ids, id) == ids,
    decreases ids.len(),
{
    if ids.len() == 0 {
        assert(remove_all(ids, id) =~= ids);
    } else {
        assert(ids[0] != id);
        assert(!ids.skip(1).contains(id)) by {
            if ids.skip(1).contains(id) {
                let j = choose|j: int| 0 <= j < ids.skip(1).len() && ids.skip(1)[j] == id;
                assert(ids[j + 1] == id);
            }
        }
        lemma_remove_all_absent(ids.skip(1), id);
        assert(remove_all(ids, id) =~= ids);
    }
}

/// A removal by id that matches no registered listener leaves the
/// registry unchanged.
pub proof fn lemma_remove_by_id_noop(m: Seq<(Seq<char>, Seq<u64>)>, t: Seq<char>, id: u64)
    requires
        registry_inv(m),
        !any_id_match(m, t, id),
    ensures
        spec_remove_by_id(m, t, id) == m,
    decreases m.len(),
{
    let f = |b: (Seq<char>, Seq<u64>)| bucket_after_remove(b, t, id);
    if m.len() == 0 {
        assert(spec_remove_by_id(m, t, id) =~= m);
    } else {
        assert(registry_inv(m.skip(1))) by {
            assert(forall|i: int| 0 <= i < m.skip(1).len() ==> m.skip(1)[i] == m[i + 1]);
        }
        assert(!any_id_match(m.skip(1), t, id)) by {
            if any_id_match(m.skip(1), t, id) {
                let (i, j) = choose|i: int, j: int|
                    0 <= i < m.skip(1).len() && 0 <= j < m.skip(1)[i].1.len() && key_matches(
                        m.skip(1)[i].0,
                        t,
                    ) && m.skip(1)[i].1[j] == id;
                assert(m.skip(1)[i] == m[i + 1]);
                assert(any_id_match(m, t, id));
            }
        }
        lemma_remove_by_id_noop(m.skip(1), t, id);
        if key_matches(m[0].0, t) {
            assert(!m[0].1.contains(id)) by {
                if m[0].1.contains(id) {
                    let j = choose|j: int| 0 <= j < m[0].1.len() && m[0].1[j] == id;
                    assert(any_id_match(m, t, id));
                }
            }
            lemma_remove_all_absent(m[0].1, id);
            assert(f(m[0]) == Option::Some(m[0]));
        } else {
            assert(f(m[0]) == Option::Some(m[0]));
        }
        assert(spec_remove_by_id(m, t, id) =~= m);
    }
}

/// A removal by topic that matches no bucket leaves the registry
/// unchanged.
pub proof fn lemma_remove_topic_noop(m: Seq<(Seq<char>, Seq<u64>)>, t: Seq<char>)
    requires
        !any_key_match(m, t),
    ensures
        spec_remove_topic(m, t) == m,
    decreases m.len(),
{
    if m.len() == 0 {
        assert(spec_remove_topic(m, t) =~= m);
    } else {
        assert(!any_key_match(m.skip(1), t)) by {
            if any_key_match(m.skip(1), t) {
                let i = choose|i: int| 0 <= i < m.skip(1).len() && key_matches(m.skip(1)[i].0, t);
                assert(m.skip(1)[i] == m[i + 1]);
                assert(any_key_match(m, t));
            }
        }
        lemma_remove_topic_noop(m.skip(1), t);
        assert(!key_matches(m[0].0, t));
        assert(spec_remove_topic(m, t) =~= m);
    }
}

/// A removal by prefix that matches no bucket leaves the registry
/// unchanged.
pub proof fn lemma_remove_prefix_noop(m: Seq<(Seq<char>, Seq<u64>)>, p: Seq<char>)
    requires
        !any_prefix_match(m, p),
    ensures
        spec_remove_prefix(m, p) == m,
    decreases m.len(),
{
    if m.len() == 0 {
        assert(spec_remove_prefix(m, p) =~= m);
    } else {
        assert(!any_prefix_match(m.skip(1), p)) by {
            if any_prefix_match(m.skip(1), p) {
                let i = choose|i: int|
                    0 <= i < m.skip(1).len() && prefix_matches(m.skip(1)[i].0, p);
                assert(m.skip(1)[i] == m[i + 1]);
                assert(any_prefix_match(m, p));
            }
        }
        lemma_remove_prefix_noop(m.skip(1), p);
        assert(!prefix_matches(m[0].0, p));
        assert(spec_remove_prefix(m, p) =~= m);
    }
}

/// Removal keeps exactly the other ids: an id is in the filtered list
/// iff it was there and is not the removed one.
pub proof fn lemma_remove_all_contains(ids: Seq<u64>, id: u64, x: u64)
    ensures
        remove_all(ids, id).contains(x) <==> (ids.contains(x) && x != id),
    decreases ids.len(),
{
    if ids.len() == 0 {
    } else {
        lemma_remove_all_contains(ids.skip(1), id, x);
        assert(ids.skip(1).contains(x) <==> exists|j: int| 1 <= j < ids.len() && ids[j] == x) by {
            if ids.skip(1).contains(x) {
                let j = choose|j: int| 0 <= j < ids.skip(1).len() && ids.skip(1)[j] == x;
                assert(ids[j + 1] == x);
            }
            if exists|j: int| 1 <= j < ids.len() && ids[j] == x {
                let j = choose|j: int| 1 <= j < ids.len() && ids[j] == x;
                assert(ids.skip(1)[j - 1] == x);
            }
        }
        if ids[0] == id {
            assert(remove_all(ids, id) == remove_all(ids.skip(1), id));
            assert(ids.contains(x) && x != id <==> ids.skip(1).contains(x) && x != id);
        } else {
            let rest = remove_all(ids.skip(1), id);
            assert(remove_all(ids, id) == seq![ids[0]] + rest);
            assert(remove_all(ids, id).contains(x) <==> (x == ids[0] || rest.contains(x))) by {
                let r = seq![ids[0]] + rest;
                if r.contains(x) {
                    let j = choose|j: int| 0 <= j < r.len() && r[j] == x;
                    if j > 0 {
                        assert(rest[j - 1] == x);
                    }
                }
                if rest.contains(x) {
                    let j = choose|j: int| 0 <= j < rest.len() && rest[j] == x;
                    assert(r[j + 1] == x);
                }
                assert(r[0] == ids[0]);
            }
            if x == ids[0] {
                assert(ids.contains(x));
            }
        }
    }
}

/// Adding a listener creates or extends exactly the bucket of its key.
pub proof fn lemma_spec_add(m: Seq<(Seq<char>, Seq<u64>)>, k: Seq<char>, id: u64)
    requires
        registry_inv(m),
    ensures
        registry_inv(spec_add(m, k, id)),
        has_key(spec_add(m, k, id), k),
        spec_add(m, k, id)[key_index(spec_add(m, k, id), k)].1 == (if has_key(m, k) {
            m[key_index(m, k)].1.push(id)
        } else {
            seq![id]
        }),
{
    let r = spec_add(m, k, id);
    if has_key(m, k) {
        let ki = key_index(m, k);
        assert(0 <= ki < m.len() && m[ki].0 == k);
        assert(r == m.update(ki, (k, m[ki].1.push(id))));
        assert(r[ki].0 == k);
        assert(has_key(r, k));
        assert(registry_inv(r)) by {
            assert(forall|i: int| 0 <= i < r.len() ==> r[i].0 == m[i].0);
            assert(forall|i: int| 0 <= i < r.len() && i != ki ==> r[i].1 == m[i].1);
        }
        let ki2 = key_index(r, k);
        assert(0 <= ki2 < r.len() && r[ki2].0 == k);
        assert(ki2 == ki) by {
            if ki2 != ki {
                assert(r[ki2].0 == m[ki2].0);
            }
        }
    } else {
        assert(r == m.push((k, seq![id])));
        assert(r[m.len() as int].0 == k);
        assert(has_key(r, k));
        assert(registry_inv(r)) by {
            assert(forall|i: int| 0 <= i < m.len() ==> r[i] == m[i]);
            assert forall|i: int, j: int| 0 <= i < j < r.len() implies r[i].0 != r[j].0 by {
                if j == m.len() as int {
                    if r[i].0 == k {
                        assert(has_key(m, k));
                    }
                }
            }
        }
        let ki2 = key_index(r, k);
        assert(0 <= ki2 < r.len() && r[ki2].0 == k);
        assert(ki2 == m.len() as int) by {
            if ki2 < m.len() as int {
                assert(m[ki2].0 == k);
                assert(has_key(m, k));
            }
        }
    }
}

/// Rewriting buckets through a key-preserving `f` leaves the bucket of
/// a key exactly where `f` put it.
pub proof fn lemma_map_drop_at_key(
    m: Seq<(Seq<char>, Seq<u64>)>,
    f: spec_fn((Seq<char>, Seq<u64>)) -> Option<(Seq<char>, Seq<u64>)>,
    k: Seq<char>,
    b2: (Seq<char>, Seq<u64>),
)
    requires
        forall|b: (Seq<char>, Seq<u64>)|
            ((#[trigger] f(b)) matches Option::Some(bb) ==> bb.0 == b.0),
        forall|b: (Seq<char>, Seq<u64>)|
            b.1.len() > 0 ==> ((#[trigger] f(b)) matches Option::Some(bb) ==> bb.1.len() > 0),
        registry_inv(m),
        has_key(m, k),
        f(m[key_index(m, k)]) == Option::Some(b2),
    ensures
        has_key(map_drop(m, f), k),
        map_drop(m, f)[key_index(map_drop(m, f), k)] == b2,
    decreases m.len(),
{
    let ki = key_index(m, k);
    assert(0 <= ki < m.len() && m[ki].0 == k);
    let res = map_drop(m, f);
    assert(registry_inv(m.skip(1))) by {
        assert(forall|i: int| 0 <= i < m.skip(1).len() ==> m.skip(1)[i] == m[i + 1]);
    }
    if ki == 0 {
        assert(b2.0 == k);
        match f(m[0]) {
            Option::Some(bb) => {
                assert(bb == b2);
                let rest = map_drop(m.skip(1), f);
                assert(res == seq![b2] + rest);
                assert(res[0] == b2);
                assert(has_key(res, k));
                let j = key_index(res, k);
                assert(0 <= j < res.len() && res[j].0 == k);
                if j != 0 {
                    assert(rest[j - 1].0 == k);
                    assert(has_key(rest, k));
                    assert forall|kk: Seq<char>| #[trigger]
                        has_key(rest, kk) implies has_key(m.skip(1), kk) by {
                        lemma_map_drop_inv(m.skip(1), f);
                    }
                    assert(has_key(m.skip(1), k));
                    let x = choose|x: int| 0 <= x < m.skip(1).len() && m.skip(1)[x].0 == k;
                    assert(m[x + 1].0 == k && m[0].0 == k);
                }
                assert(res[key_index(res, k)] == b2);
            },
            Option::None => {
                assert(false);
            },
        }
    } else {
        assert(m[0].0 != k);
        assert(has_key(m.skip(1), k)) by {
            assert(m.skip(1)[ki - 1] == m[ki]);
        }
        let ki_rest = key_index(m.skip(1), k);
        assert(0 <= ki_rest < m.skip(1).len() && m.skip(1)[ki_rest].0 == k);
        assert(ki_rest == ki - 1) by {
            if ki_rest != ki - 1 {
                assert(m[ki_rest + 1].0 == k && m[ki].0 == k);
            }
        }
        assert(f(m.skip(1)[ki_rest]) == Option::Some(b2));
        lemma_map_drop_at_key(m.skip(1), f, k, b2);
        let rest = map_drop(m.skip(1), f);
        let jr = key_index(rest, k);
        assert(0 <= jr < rest.len() && rest[jr] == b2 && rest[jr].0 == k);
        match f(m[0]) {
            Option::Some(bb) => {
                assert(bb.0 == m[0].0);
                assert(bb.0 != k);
                assert(res == seq![bb] + rest);
                assert(res[jr + 1] == b2);
                assert(res[jr + 1].0 == k);
                assert(has_key(res, k));
                let j = key_index(res, k);
                assert(0 <= j < res.len() && res[j].0 == k);
                assert(j == jr + 1) by {
                    if j == 0 {
                        assert(res[0].0 != k);
                    } else if j != jr + 1 {
                        assert(rest[j - 1].0 == k && rest[jr].0 == k);
                        lemma_map_drop_inv(m.skip(1), f);
                        assert(keys_distinct(rest));
                    }
                }
            },
            Option::None => {
                assert(res == rest);
            },
        }
    }
}

/// Two subscriptions to one topic key get distinct ids sharing one
/// bucket; removing one of them by its id leaves the other still
/// receiving dispatches under that key.
pub proof fn lemma_duplicate_subscription(
    m: Seq<(Seq<char>, Seq<u64>)>,
    k: Seq<char>,
    id1: u64,
    id2: u64,
)
    requires
        registry_inv(m),
        id1 != id2,
        forall|i: int| 0 <= i < m.len() ==> !(#[trigger] m[i].1).contains(id1),
    ensures
        ({
            let m2 = spec_add(spec_add(m, k, id1), k, id2);
            let m3 = spec_remove_by_id(m2, k, id1);
            &&& has_key(m2, k)
            &&& m2[key_index(m2, k)].1.contains(id1)
            &&& m2[key_index(m2, k)].1.contains(id2)
            &&& has_key(m3, k)
            &&& m3[key_index(m3, k)].1.contains(id2)
            &&& !m3[key_index(m3, k)].1.contains(id1)
        }),
{
    let m1 = spec_add(m, k, id1);
    lemma_spec_add(m, k, id1);
    let ids1 = m1[key_index(m1, k)].1;
    let m2 = spec_add(m1, k, id2);
    lemma_spec_add(m1, k, id2);
    let ids2 = m2[key_index(m2, k)].1;
    assert(ids2 == ids1.push(id2));
    assert(ids1.contains(id1)) by {
        if has_key(m, k) {
            assert(ids1 == m[key_index(m, k)].1.push(id1));
            assert(ids1[ids1.len() - 1] == id1);
        } else {
            assert(ids1 == seq![id1]);
            assert(ids1[0] == id1);
        }
    }
    assert(ids2.contains(id1)) by {
        let j = choose|j: int| 0 <= j < ids1.len() && ids1[j] == id1;
        assert(ids2[j] == id1);
    }
    assert(ids2.contains(id2)) by {
        assert(ids2[ids2.len() - 1] == id2);
    }
    // the removal
    let f = |b: (Seq<char>, Seq<u64>)| bucket_after_remove(b, k, id1);
    let nids = remove_all(ids2, id1);
    lemma_remove_all_contains(ids2, id1, id2);
    assert(nids.contains(id2));
    lemma_remove_all_contains(ids2, id1, id1);
    assert(!nids.contains(id1));
    assert(nids.len() > 0) by {
        let j = choose|j: int| 0 <= j < nids.len() && nids[j] == id2;
    }
    assert(key_matches(k, k));
    assert(f(m2[key_index(m2, k)]) == Option::Some((k, nids))) by {
        assert(m2[key_index(m2, k)].0 == k);
        assert(m2[key_index(m2, k)].1 == ids2);
    }
    assert(forall|b: (Seq<char>, Seq<u64>)|
        b.1.len() > 0 ==> ((#[trigger] f(b)) matches Option::Some(bb) ==> bb.1.len() > 0));
    lemma_map_drop_at_key(m2, f, k, (k, nids));
    let m3 = spec_remove_by_id(m2, k, id1);
    assert(m3[key_index(m3, k)] == (k, nids));
}

/// One topic bucket: the key and the listener ids under it.
pub struct Bucket {
    key: String,
    ids: Vec<u64>,
}

/// The registry of active subscriptions.
pub struct SubscriptionRegistry {
    buckets: Vec<Bucket>,
    next_id: u64,
}

impl SubscriptionRegistry {
    /// The abstract contents: one (key, listener ids) pair per bucket,
    /// in insertion order.
    pub closed spec fn model(&self) -> Seq<(Seq<char>, Seq<u64>)> {
        self.buckets@.map_values(|b: Bucket| (b.key@, b.ids@))
    }

    /// The id the next registration will receive.
    pub closed spec fn next(&self) -> u64 {
        self.next_id
    }

    /// Contents well-formed: distinct keys, no empty bucket.
    pub open spec fn wf(&self) -> bool {
        registry_inv(self.model())
    }

    /// An empty registry whose first listener id will be 1.
    pub fn new() -> (r: Self)
        ensures
            r.model() =~= Seq::<(Seq<char>, Seq<u64>)>::empty(),
            r.next() == 1u64,
            r.wf(),
    {
        SubscriptionRegistry { buckets: Vec::new(), next_id: 1 }
    }

    /// Registers a listener under the exact key and returns its fresh id.
    #[verifier::loop_isolation(false)]
    pub fn add(&mut self, key: &str) -> (id: u64)
        requires
            old(self).wf(),
            old(self).next() < u64::MAX,
        ensures
            final(self).wf(),
            id == old(self).next(),
            final(self).next() == old(self).next() + 1,
            final(self).model() == spec_add(old(self).model(), key@, id),
    {
        let ghost m = self.model();
        let id = self.next_id;
        self.next_id = self.next_id + 1;
        let mut i: usize = 0;
        let n = self.buckets.len();
        while i < n
            invariant
                n == self.buckets@.len(),
                i <= n,
                self.model() == m,
                self.next_id == id + 1,
                forall|j: int| 0 <= j < i ==> m[j].0 != key@,
            decreases n - i,
        {
            if str_eq(self.buckets[i].key.as_str(), key) {
                proof {
                    assert(m[i as int].0 == key@);
                    assert(has_key(m, key@));
                    let ki = key_index(m, key@);
                    assert(registry_inv(m));
                    assert(ki == i as int) by {
                        if ki != i as int {
                            assert(m[ki].0 == key@ && m[i as int].0 == key@);
                        }
                    }
                }
                let bucket = &mut self.buckets[i];
                bucket.ids.push(id);
                proof {
                    assert(self.model() =~= spec_add(m, key@, id));
                    assert(registry_inv(self.model())) by {
                        assert(forall|j: int|
                            0 <= j < self.model().len() ==> self.model()[j].0 == m[j].0);
                        assert(forall|j: int|
                            0 <= j < self.model().len() && j != i as int ==> self.model()[j].1
                                == m[j].1);
                    }
                }
                return id;
            }
            i += 1;
        }
        proof {
            assert(!has_key(m, key@));
        }
        let mut ids: Vec<u64> = Vec::new();
        ids.push(id);
        self.buckets.push(Bucket { key: key.to_owned(), ids });
        proof {
            assert(self.model() =~= m.push((key@, seq![id])));
            assert(self.model() == spec_add(m, key@, id));
            assert(registry_inv(self.model())) by {
                assert(forall|j: int| 0 <= j < m.len() ==> self.model()[j] == m[j]);
            }
        }
        id
    }

    /// The id the next registration will receive, as a value.
    pub fn peek_next(&self) -> (r: u64)
        ensures
            r == self.next(),
    {
        self.next_id
    }

    /// Whether a bucket exists under the exact key.
    #[verifier::loop_isolation(false)]
    pub fn contains_key(&self, key: &str) -> (r: bool)
        ensures
            r == has_key(self.model(), key@),
    {
        let ghost m = self.model();
        let mut i: usize = 0;
        let n = self.buckets.len();
        while i < n
            invariant
                n == self.buckets@.len(),
                i <= n,
                forall|j: int| 0 <= j < i ==> m[j].0 != key@,
            decreases n - i,
        {
            if str_eq(self.buckets[i].key.as_str(), key) {
                proof {
                    assert(m[i as int].0 == key@);
                }
                return true;
            }
            i += 1;
        }
        proof {
            if has_key(m, key@) {
                let j = key_index(m, key@);
                assert(m[j].0 == key@);
            }
        }
        false
    }

    /// Whether no listener is registered at all.
    pub fn is_empty(&self) -> (r: bool)
        ensures
            r == (self.model().len() == 0),
    {
        self.buckets.len() == 0
    }

    /// A snapshot of the listener ids under the exact key, in
    /// registration order; empty when the key has no bucket.
    #[verifier::loop_isolation(false)]
    pub fn dispatch_snapshot(&self, key: &str) -> (r: Vec<u64>)
        requires
            self.wf(),
        ensures
            has_key(self.model(), key@) ==> r@ == self.model()[key_index(self.model(), key@)].1,
            !has_key(self.model(), key@) ==> r@ == Seq::<u64>::empty(),
    {
        let ghost m = self.model();
        let mut i: usize = 0;
        let n = self.buckets.len();
        while i < n
            invariant
                n == self.buckets@.len(),
                i <= n,
                m == self.model(),
                self.wf(),
                forall|j: int| 0 <= j < i ==> m[j].0 != key@,
            decreases n - i,
        {
            if str_eq(self.buckets[i].key.as_str(), key) {
                proof {
                    assert(m[i as int].0 == key@);
                    assert(has_key(m, key@));
                    let ki = key_index(m, key@);
                    assert(ki == i as int) by {
                        if ki != i as int {
                            assert(m[ki].0 == key@ && m[i as int].0 == key@);
                        }
                    }
                }
                return copy_ids(&self.buckets[i].ids);
            }
            i += 1;
        }
        proof {
            assert(!has_key(m, key@));
        }
        Vec::new()
    }

    /// A snapshot of the listener ids under the key whose UTF-8 bytes
    /// equal `bts`; empty when no key encodes to them.
    #[verifier::loop_isolation(false)]
    pub fn dispatch_by_event(&self, bts: &[u8]) -> (r: Vec<u64>)
        requires
            self.wf(),
        ensures
            has_key_utf8(self.model(), bts@) ==> r@ == self.model()[key_index_utf8(
                self.model(),
                bts@,
            )].1,
            !has_key_utf8(self.model(), bts@) ==> r@ == Seq::<u64>::empty(),
    {
        let ghost m = self.model();
        let mut i: usize = 0;
        let n = self.buckets.len();
        while i < n
            invariant
                n == self.buckets@.len(),
                i <= n,
                m == self.model(),
                self.wf(),
                forall|j: int| 0 <= j < i ==> encode_utf8(m[j].0) != bts@,
            decreases n - i,
        {
            if bytes_eq(self.buckets[i].key.as_str().as_bytes(), bts) {
                proof {
                    assert(encode_utf8(m[i as int].0) == bts@);
                    assert(has_key_utf8(m, bts@));
                    let ki = key_index_utf8(m, bts@);
                    assert(ki == i as int) by {
                        if ki != i as int {
                            assert(encode_utf8(m[ki].0) == bts@ && encode_utf8(m[i as int].0)
                                == bts@);
                            vstd::utf8::encode_utf8_decode_utf8(m[ki].0);
                            vstd::utf8::encode_utf8_decode_utf8(m[i as int].0);
                            assert(m[ki].0 == m[i as int].0);
                        }
                    }
                }
                return copy_ids(&self.buckets[i].ids);
            }
            i += 1;
        }
        proof {
            assert(!has_key_utf8(m, bts@));
        }
        Vec::new()
    }

    /// The topic keys that currently carry listeners, in insertion order.
    #[verifier::loop_isolation(false)]
    pub fn active_keys(&self) -> (r: Vec<String>)
        ensures
            r@.map_values(|s: String| s@) == keys_of(self.model()),
    {
        let mut r: Vec<String> = Vec::new();
        let mut i: usize = 0;
        let n = self.buckets.len();
        while i < n
            invariant
                n == self.buckets@.len(),
                i <= n,
                r@.len() == i,
                forall|j: int| 0 <= j < i ==> r@[j]@ == self.model()[j].0,
            decreases n - i,
        {
            r.push(self.buckets[i].key.clone());
            i += 1;
        }
        proof {
            assert(r@.map_values(|s: String| s@) =~= keys_of(self.model()));
        }
        r
    }

    /// Removes the listener with this id from every bucket belonging to
    /// the topic, dropping buckets left empty.  Returns whether any
    /// listener was removed.
    #[verifier::loop_isolation(false)]
    pub fn remove_by_id(&mut self, topic: &str, id: u64) -> (removed: bool)
        requires
            old(self).wf(),
        ensures
            final(self).wf(),
            final(self).model() == spec_remove_by_id(old(self).model(), topic@, id),
            removed == any_id_match(old(self).model(), topic@, id),
            final(self).next() == old(self).next(),
    {
        let ghost m = self.model();
        let ghost f = |b: (Seq<char>, Seq<u64>)| bucket_after_remove(b, topic@, id);
        let mut out: Vec<Bucket> = Vec::new();
        let mut removed = false;
        let mut i: usize = 0;
        let n = self.buckets.len();
        while i < n
            invariant
                n == self.buckets@.len(),
                i <= n,
                m == self.model(),
                out@.map_values(|b: Bucket| (b.key@, b.ids@)) =~= map_drop(
                    m.subrange(0, i as int),
                    f,
                ),
                removed == exists|x: int, y: int|
                    0 <= x < i && 0 <= y < m[x].1.len() && key_matches(m[x].0, topic@)
                        && m[x].1[y] == id,
            decreases n - i,
        {
            let ghost pre = out@.map_values(|b: Bucket| (b.key@, b.ids@));
            let matches_topic = key_matches_exec(&self.buckets[i].key, topic);
            if matches_topic {
                let (nids, hit) = ids_remove(&self.buckets[i].ids, id);
                if hit {
                    removed = true;
                    proof {
                        let y = choose|y: int|
                            0 <= y < m[i as int].1.len() && m[i as int].1[y] == id;
                        assert(0 <= i < m.len() && 0 <= y < m[i as int].1.len() && key_matches(
                            m[i as int].0,
                            topic@,
                        ) && m[i as int].1[y] == id);
                    }
                }
                if nids.len() > 0 {
                    out.push(Bucket { key: self.buckets[i].key.clone(), ids: nids });
                }
            } else {
                out.push(
                    Bucket {
                        key: self.buckets[i].key.clone(),
                        ids: copy_ids(&self.buckets[i].ids),
                    },
                );
            }
            proof {
                assert(m.subrange(0, i + 1) =~= m.subrange(0, i as int).push(m[i as int]));
                lemma_map_drop_push(m.subrange(0, i as int), f, m[i as int]);
                assert(out@.map_values(|b: Bucket| (b.key@, b.ids@)) =~= map_drop(
                    m.subrange(0, i + 1),
                    f,
                ));
            }
            i += 1;
        }
        self.buckets = out;
        proof {
            assert(m.subrange(0, n as int) =~= m);
            lemma_map_drop_inv(m, f);
        }
        removed
    }

    /// Removes every bucket belonging to the topic; with no topic,
    /// clears the registry.  Returns whether any bucket was removed.
    #[verifier::loop_isolation(false)]
    pub fn remove_by_topic(&mut self, topic: Option<&str>) -> (removed: bool)
        requires
            old(self).wf(),
        ensures
            final(self).wf(),
            final(self).next() == old(self).next(),
            match topic {
                Option::Some(t) => final(self).model() == spec_remove_topic(
                    old(self).model(),
                    t@,
                ) && removed == any_key_match(old(self).model(), t@),
                Option::None => final(self).model() == Seq::<(Seq<char>, Seq<u64>)>::empty()
                    && removed == (old(self).model().len() > 0),
            },
    {
        match topic {
            Option::None => {
                let removed = self.buckets.len() > 0;
                self.buckets = Vec::new();
                proof {
                    assert(self.model() =~= Seq::<(Seq<char>, Seq<u64>)>::empty());
                }
                removed
            },
            Option::Some(t) => {
                let ghost m = self.model();
                let ghost f = |b: (Seq<char>, Seq<u64>)|
                    if key_matches(b.0, t@) {
                        Option::<(Seq<char>, Seq<u64>)>::None
                    } else {
                        Option::Some(b)
                    };
                let mut out: Vec<Bucket> = Vec::new();
                let mut removed = false;
                let mut i: usize = 0;
                let n = self.buckets.len();
                while i < n
                    invariant
                        n == self.buckets@.len(),
                        i <= n,
                        m == self.model(),
                        out@.map_values(|b: Bucket| (b.key@, b.ids@)) =~= map_drop(
                            m.subrange(0, i as int),
                            f,
                        ),
                        removed == exists|x: int|
                            0 <= x < i && key_matches(m[x].0, t@),
                    decreases n - i,
                {
                    let matches_topic = key_matches_exec(&self.buckets[i].key, t);
                    if matches_topic {
                        removed = true;
                        proof {
                            assert(0 <= i < m.len() && key_matches(m[i as int].0, t@));
                        }
                    } else {
                        out.push(
                            Bucket {
                                key: self.buckets[i].key.clone(),
                                ids: copy_ids(&self.buckets[i].ids),
                            },
                        );
                    }
                    proof {
                        assert(m.subrange(0, i + 1) =~= m.subrange(0, i as int).push(
                            m[i as int],
                        ));
                        lemma_map_drop_push(m.subrange(0, i as int), f, m[i as int]);
                        assert(out@.map_values(|b: Bucket| (b.key@, b.ids@)) =~= map_drop(
                            m.subrange(0, i + 1),
                            f,
                        ));
                    }
                    i += 1;
                }
                self.buckets = out;
                proof {
                    assert(m.subrange(0, n as int) =~= m);
                    lemma_map_drop_inv(m, f);
                }
                removed
            },
        }
    }

    /// Removes every bucket whose key, with a trailing `?` appended,
    /// starts with the given prefix.  Returns whether any was removed.
    #[verifier::loop_isolation(false)]
    pub fn remove_by_prefix(&mut self, prefix: &str) -> (removed: bool)
        requires
            old(self).wf(),
        ensures
            final(self).wf(),
            final(self).next() == old(self).next(),
            final(self).model() == spec_remove_prefix(old(self).model(), prefix@),
            removed == any_prefix_match(old(self).model(), prefix@),
    {
        let ghost m = self.model();
        let ghost f = |b: (Seq<char>, Seq<u64>)|
            if prefix_matches(b.0, prefix@) {
                Option::<(Seq<char>, Seq<u64>)>::None
            } else {
                Option::Some(b)
            };
        let mut out: Vec<Bucket> = Vec::new();
        let mut removed = false;
        let mut i: usize = 0;
        let n = self.buckets.len();
        while i < n
            invariant
                n == self.buckets@.len(),
                i <= n,
                m == self.model(),
                out@.map_values(|b: Bucket| (b.key@, b.ids@)) =~= map_drop(
                    m.subrange(0, i as int),
                    f,
                ),
                removed == exists|x: int| 0 <= x < i && prefix_matches(m[x].0, prefix@),
            decreases n - i,
        {
            let kq = append_qmark(self.buckets[i].key.as_str());
            if str_starts_with(kq.as_str(), prefix) {
                removed = true;
                proof {
                    assert(0 <= i < m.len() && prefix_matches(m[i as int].0, prefix@));
                }
            } else {
                out.push(
                    Bucket {
                        key: self.buckets[i].key.clone(),
                        ids: copy_ids(&self.buckets[i].ids),
                    },
                );
            }
            proof {
                assert(m.subrange(0, i + 1) =~= m.subrange(0, i as int).push(m[i as int]));
                lemma_map_drop_push(m.subrange(0, i as int), f, m[i as int]);
                assert(out@.map_values(|b: Bucket| (b.key@, b.ids@)) =~= map_drop(
                    m.subrange(0, i + 1),
                    f,
                ));
            }
            i += 1;
        }
        self.buckets = out;
        proof {
            assert(m.subrange(0, n as int) =~= m);
            lemma_map_drop_inv(m, f);
        }
        removed
    }
}

/// Copies a listener-id vector.
#[verifier::loop_isolation(false)]
fn copy_ids(v: &Vec<u64>) -> (r: Vec<u64>)
    ensures
        r@ == v@,
{
    let mut r: Vec<u64> = Vec::new();
    let mut i: usize = 0;
    while i < v.len()
        invariant
            i <= v@.len(),
            r@ =~= v@.subrange(0, i as int),
        decreases v@.len() - i,
    {
        r.push(v[i]);
        proof {
            assert(r@ =~= v@.subrange(0, i + 1));
        }
        i += 1;
    }
    proof {
        assert(v@.subrange(0, v@.len() as int) =~= v@);
    }
    r
}

/// The string followed by a `?`.
fn append_qmark(s: &str) -> (r: String)
    ensures
        r@ == s@.push('?'),
{
    let mut r = s.to_owned();
    push_char(&mut r, '?');
    r
}

/// Whether the string contains a `?`.
#[verifier::loop_isolation(false)]
pub fn contains_qmark(s: &str) -> (r: bool)
    ensures
        r == has_qmark(s@),
{
    let n = s.unicode_len();
    let mut i: usize = 0;
    while i < n
        invariant
            i <= n,
            n == s@.len(),
            forall|j: int| 0 <= j < i ==> s@[j] != '?',
        decreases n - i,
    {
        if s.get_char(i) == '?' {
            return true;
        }
        i += 1;
    }
    false
}

/// Whether a registry key belongs to a topic (see [`key_matches`]).
pub fn key_matches_exec(k: &String, t: &str) -> (r: bool)
    ensures
        r == key_matches(k@, t@),
{
    if str_eq(k.as_str(), t) {
        return true;
    }
    let kq = append_qmark(k.as_str());
    if contains_qmark(t) {
        str_starts_with(kq.as_str(), t)
    } else {
        let tq = append_qmark(t);
        str_starts_with(kq.as_str(), tq.as_str())
    }
}

/// Removes one id from a listener list; returns the remaining ids in
/// order and whether the id occurred.
#[verifier::loop_isolation(false)]
fn ids_remove(ids: &Vec<u64>, id: u64) -> (r: (Vec<u64>, bool))
    ensures
        r.0@ == remove_all(ids@, id),
        r.1 == ids@.contains(id),
{
    let mut out: Vec<u64> = Vec::new();
    let mut hit = false;
    let mut i: usize = 0;
    let n = ids.len();
    while i < n
        invariant
            n == ids@.len(),
            i <= n,
            out@ =~= remove_all(ids@.subrange(0, i as int), id),
            hit == exists|j: int| 0 <= j < i && ids@[j] == id,
        decreases n - i,
    {
        let x = ids[i];
        if x == id {
            hit = true;
        } else {
            out.push(x);
        }
        proof {
            assert(ids@.subrange(0, i + 1) =~= ids@.subrange(0, i as int).push(x));
            lemma_remove_all_push(ids@.subrange(0, i as int), x, id);
            assert(out@ =~= remove_all(ids@.subrange(0, i + 1), id));
        }
        i += 1;
    }
    proof {
        assert(ids@.subrange(0, n as int) =~= ids@);
        if hit {
            assert(ids@.contains(id));
        }
        if ids@.contains(id) {
            let j = choose|j: int| 0 <= j < ids@.len() && ids@[j] == id;
            assert(0 <= j < n && ids@[j] == id);
        }
    }
    (out, hit)
}

} // verus!
