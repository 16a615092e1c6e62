//! First-wins deduplication of remote-procedure registrations.
//!
//! The registry may enumerate the same (method, path) pair more than once.
//! The deduplicator walks the descriptors in enumeration order, keeps the
//! first descriptor for each key, drops the rest, and converts what it keeps
//! into route entries.

use vstd::prelude::*;

use crate::route::{entries_view, entry_key, HandlerRef, HandlerRefV, Method, RouteEntry, RouteEntryV, distinct_keys};

verus! {

/// A remote-procedure registration as the registry enumerates it: the HTTP
/// method and path it is exposed under, and an identifier for its handler.
pub struct ServerFnDescriptor {
    pub method: Method,
    pub path: String,
    pub handler_id: u64,
}

/// The mathematical image of a `ServerFnDescriptor`.
#[verifier::ext_equal]
pub struct ServerFnDescriptorV {
    pub method: Method,
    pub path: Seq<char>,
    pub handler_id: u64,
}

impl View for ServerFnDescriptor {
    type V = ServerFnDescriptorV;

    open spec fn view(&self) -> ServerFnDescriptorV {
        ServerFnDescriptorV { method: self.method, path: self.path@, handler_id: self.handler_id }
    }
}

/// The images of a sequence of descriptors.
pub open spec fn descriptors_view(s: Seq<ServerFnDescriptor>) -> Seq<ServerFnDescriptorV> {
    s.map_values(|d: ServerFnDescriptor| d@)
}

/// The identity of a descriptor: its method and path.
pub open spec fn descriptor_key(d: ServerFnDescriptorV) -> (Method, Seq<char>) {
    (d.method, d.path)
}

/// The route entry a kept descriptor becomes: bound to its remote procedure,
/// with no cache policy of its own.
pub open spec fn fn_route_of(d: ServerFnDescriptorV) -> RouteEntryV {
    RouteEntryV {
        method: d.method,
        path_pattern: d.path,
        handler: HandlerRefV::RemoteProcedure { handler_id: d.handler_id },
        cache_policy: None,
    }
}

/// Whether some descriptor in `s` has identity `key`.
pub open spec fn key_seen(s: Seq<ServerFnDescriptorV>, key: (Method, Seq<char>)) -> bool {
    exists|i: int| 0 <= i < s.len() && #[trigger] descriptor_key(s[i]) == key
}

/// Whether some entry of `rs` has identity `key`.
pub open spec fn entry_key_seen(rs: Seq<RouteEntryV>, key: (Method, Seq<char>)) -> bool {
    exists|i: int| 0 <= i < rs.len() && #[trigger] entry_key(rs[i]) == key
}

/// First-wins deduplication: the route entries of the descriptors whose
/// identity no earlier descriptor carries, in enumeration order.
pub open spec fn spec_dedupe(s: Seq<ServerFnDescriptorV>) -> Seq<RouteEntryV>
    decreases s.len(),
{
    if s.len() == 0 {
        Seq::empty()
    } else {
        spec_dedupe(s.drop_last()) + if key_seen(s.drop_last(), descriptor_key(s.last())) {
            Seq::empty()
        } else {
            seq![fn_route_of(s.last())]
        }
    }
}

/// The distinct identities among `s`, as a finite set.
pub open spec fn key_set(s: Seq<ServerFnDescriptorV>) -> Set<(Method, Seq<char>)>
    decreases s.len(),
{
    if s.len() == 0 {
        Set::empty()
    } else {
        key_set(s.drop_last()).insert(descriptor_key(s.last()))
    }
}

/// A key is seen in a non-empty sequence exactly when it is seen before the
/// last element or carried by the last element.
pub proof fn lemma_key_seen_drop(s: Seq<ServerFnDescriptorV>, key: (Method, Seq<char>))
    requires
        s.len() > 0,
    ensures
        key_seen(s, key) == (key_seen(s.drop_last(), key) || descriptor_key(s.last()) == key),
{
    if key_seen(s, key) {
        let i = choose|i: int| 0 <= i < s.len() && #[trigger] descriptor_key(s[i]) == key;
        if i < s.len() - 1 {
            assert(descriptor_key(s.drop_last()[i]) == key);
        }
    }
    if key_seen(s.drop_last(), key) {
        let i = choose|i: int|
            0 <= i < s.drop_last().len() && #[trigger] descriptor_key(s.drop_last()[i]) == key;
        assert(descriptor_key(s[i]) == key);
    }
    if descriptor_key(s.last()) == key {
        assert(descriptor_key(s[s.len() - 1]) == key);
    }
}

/// An identity is seen in a concatenation exactly when either part carries
/// it.
pub proof fn lemma_entry_key_seen_concat(
    a: Seq<RouteEntryV>,
    b: Seq<RouteEntryV>,
    key: (Method, Seq<char>),
)
    ensures
        entry_key_seen(a + b, key) == (entry_key_seen(a, key) || entry_key_seen(b, key)),
{
    if entry_key_seen(a + b, key) {
        let i = choose|i: int| 0 <= i < (a + b).len() && #[trigger] entry_key((a + b)[i]) == key;
        if i < a.len() {
            assert(entry_key(a[i]) == key);
        } else {
            assert(entry_key(b[i - a.len()]) == key);
        }
    }
    if entry_key_seen(a, key) {
        let i = choose|i: int| 0 <= i < a.len() && #[trigger] entry_key(a[i]) == key;
        assert(entry_key((a + b)[i]) == key);
    }
    if entry_key_seen(b, key) {
        let i = choose|i: int| 0 <= i < b.len() && #[trigger] entry_key(b[i]) == key;
        assert(entry_key((a + b)[a.len() + i]) == key);
    }
}

/// The deduplicated table carries exactly the identities of its input.
pub proof fn lemma_dedupe_keys(s: Seq<ServerFnDescriptorV>)
    ensures
        forall|key: (Method, Seq<char>)|
            #![trigger entry_key_seen(spec_dedupe(s), key)]
            #![trigger key_seen(s, key)]
            entry_key_seen(spec_dedupe(s), key) == key_seen(s, key),
    decreases s.len(),
{
    if s.len() > 0 {
        let pre = s.drop_last();
        let k = descriptor_key(s.last());
        lemma_dedupe_keys(pre);
        assert forall|key: (Method, Seq<char>)|
            entry_key_seen(spec_dedupe(s), key) == key_seen(s, key) by {
            lemma_key_seen_drop(s, key);
            if key_seen(pre, k) {
                lemma_entry_key_seen_concat(spec_dedupe(pre), Seq::empty(), key);
                assert(spec_dedupe(s) == spec_dedupe(pre) + Seq::<RouteEntryV>::empty());
            } else {
                let unit = seq![fn_route_of(s.last())];
                lemma_entry_key_seen_concat(spec_dedupe(pre), unit, key);
                assert(entry_key(unit[0]) == k);
                if entry_key_seen(unit, key) {
                    let i = choose|i: int|
                        0 <= i < unit.len() && #[trigger] entry_key(unit[i]) == key;
                    assert(i == 0);
                }
            }
        }
    }
}

/// No two entries of the deduplicated table share an identity.
pub proof fn lemma_dedupe_distinct(s: Seq<ServerFnDescriptorV>)
    ensures
        distinct_keys(spec_dedupe(s)),
    decreases s.len(),
{
    if s.len() > 0 {
        let pre = s.drop_last();
        let k = descriptor_key(s.last());
        lemma_dedupe_distinct(pre);
        lemma_dedupe_keys(pre);
        let d = spec_dedupe(pre);
        if key_seen(pre, k) {
            assert(spec_dedupe(s) =~= d);
        } else {
            let unit = seq![fn_route_of(s.last())];
            assert forall|i: int, j: int| 0 <= i < j < (d + unit).len() implies #[trigger] entry_key(
                (d + unit)[i],
            ) != #[trigger] entry_key((d + unit)[j]) by {
                if j == d.len() {
                    assert((d + unit)[j] == unit[0]);
                    if entry_key(d[i]) == k {
                        assert(entry_key_seen(d, k));
                    }
                } else {
                    assert((d + unit)[i] == d[i] && (d + unit)[j] == d[j]);
                }
            }
        }
    }
}

/// `key_set` is finite and holds exactly the identities seen in `s`.
pub proof fn lemma_key_set(s: Seq<ServerFnDescriptorV>)
    ensures
        key_set(s).finite(),
        forall|key: (Method, Seq<char>)|
            #![trigger key_set(s).contains(key)]
            #![trigger key_seen(s, key)]
            key_set(s).contains(key) == key_seen(s, key),
    decreases s.len(),
{
    broadcast use vstd::set::group_set_axioms;

    if s.len() == 0 {
        assert forall|key: (Method, Seq<char>)| !key_seen(s, key) by {
            if key_seen(s, key) {
                let i = choose|i: int| 0 <= i < s.len() && #[trigger] descriptor_key(s[i]) == key;
            }
        }
    } else {
        lemma_key_set(s.drop_last());
        assert forall|key: (Method, Seq<char>)|
            key_set(s).contains(key) == key_seen(s, key) by {
            lemma_key_seen_drop(s, key);
        }
    }
}

/// How many entries deduplication keeps: one per distinct identity of the
/// input, however many exact duplicates accompany them.
pub proof fn lemma_dedupe_len(s: Seq<ServerFnDescriptorV>)
    ensures
        spec_dedupe(s).len() == key_set(s).len(),
    decreases s.len(),
{
    broadcast use vstd::set::group_set_axioms;

    if s.len() > 0 {
        let pre = s.drop_last();
        let k = descriptor_key(s.last());
        lemma_dedupe_len(pre);
        lemma_key_set(pre);
        vstd::set::axiom_set_insert_len(key_set(pre), k);
        if key_seen(pre, k) {
            assert(key_set(pre).contains(k));
        } else {
            assert(!key_set(pre).contains(k));
        }
    }
}

/// First wins: a descriptor whose identity no earlier descriptor carries
/// contributes its own route entry to the deduplicated table.
pub proof fn lemma_dedupe_first_wins(s: Seq<ServerFnDescriptorV>, j: int)
    requires
        0 <= j < s.len(),
        forall|k: int| 0 <= k < j ==> #[trigger] descriptor_key(s[k]) != descriptor_key(s[j]),
    ensures
        spec_dedupe(s).contains(fn_route_of(s[j])),
    decreases s.len(),
{
    let pre = s.drop_last();
    if j == s.len() - 1 {
        if key_seen(pre, descriptor_key(s.last())) {
            let i = choose|i: int|
                0 <= i < pre.len() && #[trigger] descriptor_key(pre[i]) == descriptor_key(s.last());
            assert(descriptor_key(s[i]) == descriptor_key(s[j]));
        }
        let unit = seq![fn_route_of(s.last())];
        assert((spec_dedupe(pre) + unit)[spec_dedupe(pre).len() as int] == fn_route_of(s[j]));
    } else {
        assert forall|k: int| 0 <= k < j implies #[trigger] descriptor_key(pre[k])
            != descriptor_key(pre[j]) by {
            assert(pre[k] == s[k] && pre[j] == s[j]);
        }
        lemma_dedupe_first_wins(pre, j);
        let i = choose|i: int|
            0 <= i < spec_dedupe(pre).len() && spec_dedupe(pre)[i] == fn_route_of(pre[j]);
        if key_seen(pre, descriptor_key(s.last())) {
            assert(spec_dedupe(s) =~= spec_dedupe(pre));
            assert(spec_dedupe(s)[i] == fn_route_of(s[j]));
        } else {
            assert(spec_dedupe(s)[i] == fn_route_of(s[j]));
        }
    }
}

/// Deduplicates the registry's descriptors, first wins, and converts the
/// kept ones into route entries in enumeration order.
pub fn dedupe_server_fns(descriptors: &Vec<ServerFnDescriptor>) -> (r: Vec<RouteEntry>)
    ensures
        entries_view(r@) == spec_dedupe(descriptors_view(descriptors@)),
{
    let ghost dv = descriptors_view(descriptors@);
    let mut result: Vec<RouteEntry> = Vec::new();
    let n = descriptors.len();
    let mut i: usize = 0;
    while i < n
        invariant
            i <= n == descriptors@.len(),
            dv == descriptors_view(descriptors@),
            dv.len() == n,
            entries_view(result@) == spec_dedupe(dv.take(i as int)),
        decreases n - i,
    {
        let ghost prefix = dv.take(i as int);
        let ghost key = descriptor_key(dv[i as int]);
        proof {
            assert(dv[i as int] == descriptors@[i as int]@);
        }
        let mut seen = false;
        let mut j: usize = 0;
        while j < result.len() && !seen
            invariant
                j <= result.len(),
                i < n == descriptors@.len(),
                dv == descriptors_view(descriptors@),
                dv.len() == n,
                key == descriptor_key(dv[i as int]),
                dv[i as int] == descriptors@[i as int]@,
                entries_view(result@) == spec_dedupe(prefix),
                seen ==> entry_key_seen(entries_view(result@), key),
                !seen ==> forall|k: int|
                    0 <= k < j ==> #[trigger] entry_key(entries_view(result@)[k]) != key,
            decreases result.len() - j + (if seen { 0int } else { 1int }),
        {
            if result[j].method == descriptors[i].method && result[j].path_pattern
                == descriptors[i].path {
                seen = true;
                proof {
                    assert(entry_key(entries_view(result@)[j as int]) == key);
                }
            } else {
                proof {
                    assert(entry_key(entries_view(result@)[j as int]) != key);
                }
                j = j + 1;
            }
        }
        proof {
            lemma_dedupe_keys(prefix);
            assert(dv.take(i + 1) =~= prefix.push(dv[i as int]));
            assert(dv.take(i + 1).drop_last() =~= prefix);
            if !seen {
                assert(!entry_key_seen(entries_view(result@), key));
                assert(!key_seen(prefix, key));
            } else {
                assert(key_seen(prefix, key));
            }
        }
        if seen {
            proof {
                assert(spec_dedupe(dv.take(i + 1)) =~= spec_dedupe(prefix));
            }
        } else {
            let ghost before = result@;
            let path = descriptors[i].path.clone();
            let handler_id = descriptors[i].handler_id;
            let method = descriptors[i].method;
            result.push(
                RouteEntry {
                    method,
                    path_pattern: path,
                    handler: HandlerRef::RemoteProcedure { handler_id },
                    cache_policy: None,
                },
            );
            proof {
                assert(entries_view(result@) =~~= entries_view(before).push(
                    fn_route_of(dv[i as int]),
                ));
                assert(spec_dedupe(dv.take(i + 1)) =~~= spec_dedupe(prefix) + seq![
                    fn_route_of(dv[i as int]),
                ]);
                assert(entries_view(result@) =~~= spec_dedupe(dv.take(i + 1)));
            }
        }
        i = i + 1;
    }
    proof {
        assert(dv.take(n as int) =~= dv);
    }
    result
}

} // verus!
