//! Assembly of the final route table, and its dispatch model.
//!
//! The assembled table holds the deduplicated remote-procedure routes, then
//! the static asset routes, then exactly one catch-all fallback bound to the
//! wildcard pattern under the serving prefix. Precedence is enforced by
//! construction: dispatch tries entries in table order, so the wildcard,
//! standing last, matches only requests no explicit route claimed. A
//! collision between two non-fallback entries is a logic error and aborts
//! assembly.

use vstd::prelude::*;

use crate::dedupe::{
    dedupe_server_fns, descriptor_key, descriptors_view, fn_route_of, key_seen, spec_dedupe,
    ServerFnDescriptor,
    ServerFnDescriptorV,
};
use crate::route::{
    distinct_keys, entries_view, entry_key, same_identity, BuildError, CachePolicy, HandlerRef,
    HandlerRefV, Method, RouteEntry, RouteEntryV,
};
use crate::static_routes::{build_static_routes, spec_static_routes, static_route_of};
use crate::text::{str_eq, str_prefix_eq};
use crate::walk::{files_view, reserved_entry_name, AssetFile, AssetFileV};

verus! {

/// The tail of a wildcard pattern: the characters `/{*rest}`.
pub open spec fn wildcard_tail() -> Seq<char> {
    seq!['/', '{', '*', 'r', 'e', 's', 't', '}']
}

/// The catch-all fallback entry under `prefix`: the wildcard pattern, bound
/// to the server-rendering handler.
pub open spec fn fallback_route_v(prefix: Seq<char>) -> RouteEntryV {
    RouteEntryV {
        method: Method::Get,
        path_pattern: prefix + wildcard_tail(),
        handler: HandlerRefV::Fallback,
        cache_policy: None,
    }
}

/// Builds the catch-all fallback entry under `prefix`.
pub fn fallback_route(prefix: &str) -> (r: RouteEntry)
    ensures
        r@ == fallback_route_v(prefix@),
{
    let mut pattern = String::from_str(prefix);
    pattern.append("/{*rest}");
    let r = RouteEntry {
        method: Method::Get,
        path_pattern: pattern,
        handler: HandlerRef::Fallback,
        cache_policy: None,
    };
    proof {
        reveal_strlit("/{*rest}");
        assert(r.path_pattern@ =~= prefix@ + wildcard_tail());
        assert(r@ =~~= fallback_route_v(prefix@));
    }
    r
}

/// The permanent redirect from the bare root path to the entry document
/// under `prefix`.
pub open spec fn root_redirect_v(prefix: Seq<char>) -> RouteEntryV {
    RouteEntryV {
        method: Method::Get,
        path_pattern: seq!['/'],
        handler: HandlerRefV::Redirect { target: prefix + seq!['/'] + reserved_entry_name() },
        cache_policy: None,
    }
}

/// Builds the root redirect entry: a request to `/` is permanently
/// redirected to the entry document under `prefix`.
pub fn root_redirect(prefix: &str) -> (r: RouteEntry)
    ensures
        r@ == root_redirect_v(prefix@),
{
    let mut target = String::from_str(prefix);
    target.append("/index.html");
    let r = RouteEntry {
        method: Method::Get,
        path_pattern: String::from_str("/"),
        handler: HandlerRef::Redirect { target },
        cache_policy: None,
    };
    proof {
        reveal_strlit("/index.html");
        reveal_strlit("/");
        assert(r.path_pattern@ =~= seq!['/']);
        assert(r.handler@ =~~= HandlerRefV::Redirect {
            target: prefix@ + seq!['/'] + reserved_entry_name(),
        });
        assert(r@ =~~= root_redirect_v(prefix@));
    }
    r
}

/// Two entries of `all` collide on identity `key`.
pub open spec fn collides_at(all: Seq<RouteEntryV>, key: (Method, Seq<char>)) -> bool {
    exists|a: int, b: int|
        0 <= a < b < all.len() && #[trigger] entry_key(all[a]) == #[trigger] entry_key(all[b])
            && entry_key(all[a]) == key
}

/// Concatenates the function routes, the static routes and exactly one
/// fallback entry into the final table, checking defensively that no two
/// non-fallback entries share an identity. Fails exactly when such a
/// collision exists.
#[verifier::loop_isolation(false)]
pub fn assemble(static_routes: Vec<RouteEntry>, function_routes: Vec<RouteEntry>, fallback: RouteEntry) -> (r:
    Result<Vec<RouteEntry>, BuildError>)
    ensures
        match r {
            Ok(t) => {
                &&& distinct_keys(entries_view(function_routes@) + entries_view(static_routes@))
                &&& entries_view(t@) == entries_view(function_routes@) + entries_view(
                    static_routes@,
                ) + seq![fallback@]
            },
            Err(e) => {
                &&& !distinct_keys(entries_view(function_routes@) + entries_view(static_routes@))
                &&& match e {
                    BuildError::RouteCollision { method, path_pattern } => collides_at(
                        entries_view(function_routes@) + entries_view(static_routes@),
                        (method, path_pattern@),
                    ),
                    _ => false,
                }
            },
        },
{
    let ghost fnv = entries_view(function_routes@);
    let ghost sv = entries_view(static_routes@);
    let mut combined = function_routes;
    let mut tail = static_routes;
    combined.append(&mut tail);
    let ghost cv = entries_view(combined@);
    proof {
        assert(cv =~~= fnv + sv);
    }
    let n = combined.len();
    let mut i: usize = 0;
    while i < n
        invariant
            i <= n == combined@.len(),
            cv == entries_view(combined@),
            cv == fnv + sv,
            forall|a: int, b: int|
                0 <= a < b < n && a < i ==> #[trigger] entry_key(cv[a]) != #[trigger] entry_key(
                    cv[b],
                ),
        decreases n - i,
    {
        let mut j = i + 1;
        while j < n
            invariant
                i < j <= n == combined@.len(),
                cv == entries_view(combined@),
                cv == fnv + sv,
                forall|b: int| i < b < j ==> #[trigger] entry_key(cv[b]) != entry_key(cv[i as int]),
            decreases n - j,
        {
            if same_identity(&combined[i], &combined[j]) {
                proof {
                    assert(entry_key(cv[i as int]) == entry_key(cv[j as int]));
                    assert(!distinct_keys(fnv + sv));
                }
                let method = combined[i].method;
                let path_pattern = combined[i].path_pattern.clone();
                proof {
                    let all = fnv + sv;
                    assert(entry_key(all[i as int]) == entry_key(all[j as int]));
                    assert(entry_key(all[i as int]) == (method, path_pattern@));
                    assert(collides_at(all, (method, path_pattern@)));
                }
                return Err(BuildError::RouteCollision { method, path_pattern });
            }
            proof {
                assert(entry_key(cv[j as int]) != entry_key(cv[i as int]));
            }
            j = j + 1;
        }
        i = i + 1;
    }
    let ghost before = combined@;
    combined.push(fallback);
    proof {
        assert(distinct_keys(fnv + sv));
        assert(entries_view(combined@) =~~= fnv + sv + seq![fallback@]);
    }
    Ok(combined)
}

/// The whole table, mathematically: the deduplicated function routes, the
/// static routes under `prefix`, then the fallback.
pub open spec fn spec_assembled(
    prefix: Seq<char>,
    files: Seq<AssetFileV>,
    descs: Seq<ServerFnDescriptorV>,
) -> Seq<RouteEntryV> {
    spec_dedupe(descs) + spec_static_routes(prefix, files) + seq![fallback_route_v(prefix)]
}

/// Compiles the route table from the walked asset files and the registry's
/// descriptors: deduplicates the registrations, builds one static route per
/// asset, and appends the catch-all fallback. Fails with a configuration
/// error exactly when the prefix is empty, and with a collision error
/// exactly when two non-fallback entries would share an identity.
pub fn build_route_table(
    files: &Vec<AssetFile>,
    descriptors: &Vec<ServerFnDescriptor>,
    prefix: &str,
) -> (r: Result<Vec<RouteEntry>, BuildError>)
    ensures
        match r {
            Ok(t) => {
                &&& prefix@.len() > 0
                &&& distinct_keys(
                    spec_dedupe(descriptors_view(descriptors@)) + spec_static_routes(
                        prefix@,
                        files_view(files@),
                    ),
                )
                &&& entries_view(t@) == spec_assembled(
                    prefix@,
                    files_view(files@),
                    descriptors_view(descriptors@),
                )
            },
            Err(e) => match e {
                BuildError::ConfigError { .. } => prefix@.len() == 0,
                BuildError::RouteCollision { method, path_pattern } => {
                    &&& prefix@.len() > 0
                    &&& !distinct_keys(
                        spec_dedupe(descriptors_view(descriptors@)) + spec_static_routes(
                            prefix@,
                            files_view(files@),
                        ),
                    )
                    &&& collides_at(
                        spec_dedupe(descriptors_view(descriptors@)) + spec_static_routes(
                            prefix@,
                            files_view(files@),
                        ),
                        (method, path_pattern@),
                    )
                },
                BuildError::IoError { .. } => false,
            },
        },
{
    let function_routes = dedupe_server_fns(descriptors);
    let static_rs = match build_static_routes(files, prefix) {
        Ok(v) => v,
        Err(e) => {
            return Err(e);
        },
    };
    let fallback = fallback_route(prefix);
    assemble(static_rs, function_routes, fallback)
}

/// Whether a pattern is the wildcard: it ends in the wildcard tail.
pub open spec fn is_wildcard(p: Seq<char>) -> bool {
    p.len() >= 8 && p.subrange(p.len() - 8, p.len() as int) == wildcard_tail()
}

/// The fixed part of a wildcard pattern, up to and including the slash
/// before the wildcard segment.
pub open spec fn wildcard_base(p: Seq<char>) -> Seq<char> {
    p.subrange(0, p.len() - 7)
}

/// Whether a request with `method` and `path` reaches entry `e`: an exact
/// identity match for an explicit entry, a prefix match for the wildcard.
pub open spec fn entry_matches(e: RouteEntryV, method: Method, path: Seq<char>) -> bool {
    &&& e.method == method
    &&& if is_wildcard(e.path_pattern) {
        path.len() >= wildcard_base(e.path_pattern).len() && path.subrange(
            0,
            wildcard_base(e.path_pattern).len() as int,
        ) == wildcard_base(e.path_pattern)
    } else {
        path == e.path_pattern
    }
}

/// Whether `p` ends in the wildcard tail.
fn is_wildcard_pattern(p: &str) -> (b: bool)
    ensures
        b == is_wildcard(p@),
{
    let n = p.unicode_len();
    if n < 8 {
        return false;
    }
    let b = p.get_char(n - 8) == '/' && p.get_char(n - 7) == '{' && p.get_char(n - 6) == '*'
        && p.get_char(n - 5) == 'r' && p.get_char(n - 4) == 'e' && p.get_char(n - 3) == 's'
        && p.get_char(n - 2) == 't' && p.get_char(n - 1) == '}';
    proof {
        if b {
            assert(p@.subrange(p@.len() - 8, p@.len() as int) =~= wildcard_tail());
        } else {
            if p@.subrange(p@.len() - 8, p@.len() as int) == wildcard_tail() {
                assert(p@[p@.len() - 8] == wildcard_tail()[0]);
                assert(p@[p@.len() - 7] == wildcard_tail()[1]);
                assert(p@[p@.len() - 6] == wildcard_tail()[2]);
                assert(p@[p@.len() - 5] == wildcard_tail()[3]);
                assert(p@[p@.len() - 4] == wildcard_tail()[4]);
                assert(p@[p@.len() - 3] == wildcard_tail()[5]);
                assert(p@[p@.len() - 2] == wildcard_tail()[6]);
                assert(p@[p@.len() - 1] == wildcard_tail()[7]);
            }
        }
    }
    b
}

/// Dispatches a request against the table: the index of the first entry the
/// request matches, or `None` when no entry matches. Entries are tried in
/// table order, so the fallback, standing last, is reached only when no
/// explicit route matched.
pub fn match_route(table: &Vec<RouteEntry>, method: Method, path: &str) -> (r: Option<usize>)
    ensures
        match r {
            Some(i) => {
                &&& i < table@.len()
                &&& entry_matches(entries_view(table@)[i as int], method, path@)
                &&& forall|j: int|
                    0 <= j < i ==> !entry_matches(entries_view(table@)[j], method, path@)
            },
            None => forall|j: int|
                0 <= j < table@.len() ==> !entry_matches(entries_view(table@)[j], method, path@),
        },
{
    let n = table.len();
    let mut i: usize = 0;
    while i < n
        invariant
            i <= n == table@.len(),
            forall|j: int| 0 <= j < i ==> !entry_matches(entries_view(table@)[j], method, path@),
        decreases n - i,
    {
        let ghost ev = entries_view(table@)[i as int];
        proof {
            assert(ev == table@[i as int]@);
        }
        if table[i].method == method {
            let pat = table[i].path_pattern.as_str();
            if is_wildcard_pattern(pat) {
                let k = pat.unicode_len() - 7;
                if str_prefix_eq(path, pat, k) {
                    return Some(i);
                }
            } else {
                if str_eq(path, pat) {
                    return Some(i);
                }
            }
        }
        proof {
            assert(!entry_matches(ev, method, path@));
        }
        i = i + 1;
    }
    None
}

/// The boot-time initializer that mounts the compiled front-end: it answers
/// to a display name, and composes the final application router.
pub struct DioxusFrontend;

impl DioxusFrontend {
    /// The initializer's display name.
    pub fn name(&self) -> (r: String)
        ensures
            r@ == "Dioxus Frontend"@,
    {
        String::from_str("Dioxus Frontend")
    }

    /// Composes the application router: the root redirect first, so that it
    /// takes precedence, then the routes already registered, then the
    /// front-end's own table (function routes, static routes, fallback).
    pub fn after_routes(&self, router: Vec<RouteEntry>, prefix: &str, frontend: Vec<RouteEntry>) -> (r:
        Vec<RouteEntry>)
        ensures
            entries_view(r@) == seq![root_redirect_v(prefix@)] + entries_view(router@)
                + entries_view(frontend@),
    {
        let ghost rv = entries_view(router@);
        let ghost fv = entries_view(frontend@);
        let mut result: Vec<RouteEntry> = Vec::new();
        result.push(root_redirect(prefix));
        let mut rest = router;
        result.append(&mut rest);
        let mut front = frontend;
        result.append(&mut front);
        proof {
            assert(entries_view(result@) =~~= seq![root_redirect_v(prefix@)] + rv + fv);
        }
        result
    }
}

/// The observable shape of one entry: its method, its path pattern and its
/// cache policy.
pub open spec fn triple_of(e: RouteEntryV) -> (Method, Seq<char>, Option<CachePolicy>) {
    (e.method, e.path_pattern, e.cache_policy)
}

/// Whether some entry of `t` has shape `x`.
pub open spec fn has_triple(
    t: Seq<RouteEntryV>,
    x: (Method, Seq<char>, Option<CachePolicy>),
) -> bool {
    exists|i: int| 0 <= i < t.len() && #[trigger] triple_of(t[i]) == x
}

/// The set of entry shapes of a table.
pub open spec fn table_triples(t: Seq<RouteEntryV>) -> Set<
    (Method, Seq<char>, Option<CachePolicy>),
> {
    Set::new(|x: (Method, Seq<char>, Option<CachePolicy>)| has_triple(t, x))
}

/// A shape occurs in a concatenation exactly when either part carries it.
pub proof fn lemma_has_triple_concat(
    a: Seq<RouteEntryV>,
    b: Seq<RouteEntryV>,
    x: (Method, Seq<char>, Option<CachePolicy>),
)
    ensures
        has_triple(a + b, x) == (has_triple(a, x) || has_triple(b, x)),
{
    if has_triple(a + b, x) {
        let i = choose|i: int| 0 <= i < (a + b).len() && #[trigger] triple_of((a + b)[i]) == x;
        if i < a.len() {
            assert(triple_of(a[i]) == x);
        } else {
            assert(triple_of(b[i - a.len()]) == x);
        }
    }
    if has_triple(a, x) {
        let i = choose|i: int| 0 <= i < a.len() && #[trigger] triple_of(a[i]) == x;
        assert(triple_of((a + b)[i]) == x);
    }
    if has_triple(b, x) {
        let i = choose|i: int| 0 <= i < b.len() && #[trigger] triple_of(b[i]) == x;
        assert(triple_of((a + b)[a.len() + i]) == x);
    }
}

/// The shapes of the deduplicated function routes: one per identity seen in
/// the input, with no cache policy.
pub proof fn lemma_dedupe_triples(
    s: Seq<ServerFnDescriptorV>,
    x: (Method, Seq<char>, Option<CachePolicy>),
)
    ensures
        has_triple(spec_dedupe(s), x) == (x.2 is None && key_seen(s, (x.0, x.1))),
    decreases s.len(),
{
    if s.len() == 0 {
        if key_seen(s, (x.0, x.1)) {
            let i = choose|i: int|
                0 <= i < s.len() && #[trigger] descriptor_key(s[i]) == (x.0, x.1);
        }
        if has_triple(spec_dedupe(s), x) {
            let i = choose|i: int|
                0 <= i < spec_dedupe(s).len() && #[trigger] triple_of(spec_dedupe(s)[i]) == x;
        }
    } else {
        let pre = s.drop_last();
        let k = descriptor_key(s.last());
        lemma_dedupe_triples(pre, x);
        crate::dedupe::lemma_key_seen_drop(s, (x.0, x.1));
        if key_seen(pre, k) {
            assert(spec_dedupe(s) =~= spec_dedupe(pre));
            if k == (x.0, x.1) && x.2 is None {
                assert(key_seen(pre, (x.0, x.1)));
            }
        } else {
            let unit = seq![fn_route_of(s.last())];
            lemma_has_triple_concat(spec_dedupe(pre), unit, x);
            assert(triple_of(unit[0]) == (s.last().method, s.last().path, None::<CachePolicy>));
            if has_triple(unit, x) {
                let i = choose|i: int| 0 <= i < unit.len() && #[trigger] triple_of(unit[i]) == x;
                assert(i == 0);
            }
            if x.2 is None && k == (x.0, x.1) {
                assert(has_triple(unit, x));
            }
        }
    }
}

/// The shapes of the static routes come exactly from the asset files,
/// whatever their order.
pub proof fn lemma_static_triples(
    prefix: Seq<char>,
    files: Seq<AssetFileV>,
    x: (Method, Seq<char>, Option<CachePolicy>),
)
    ensures
        has_triple(spec_static_routes(prefix, files), x) == (exists|f: AssetFileV|
            #[trigger] files.contains(f) && triple_of(static_route_of(prefix, f)) == x),
{
    let t = spec_static_routes(prefix, files);
    if has_triple(t, x) {
        let i = choose|i: int| 0 <= i < t.len() && #[trigger] triple_of(t[i]) == x;
        assert(t[i] == static_route_of(prefix, files[i]));
        assert(files.contains(files[i]));
    }
    if exists|f: AssetFileV|
        #[trigger] files.contains(f) && triple_of(static_route_of(prefix, f)) == x {
        let f = choose|f: AssetFileV|
            #[trigger] files.contains(f) && triple_of(static_route_of(prefix, f)) == x;
        let j = choose|j: int| 0 <= j < files.len() && files[j] == f;
        assert(triple_of(t[j]) == x);
    }
}

/// Rebuilding the table from an unchanged directory and an unchanged
/// registry is idempotent on what the table says: two builds over the same
/// asset files and the same descriptors, each enumerated in whatever order,
/// carry the identical set of (method, path pattern, cache policy) shapes.
pub proof fn lemma_build_order_independent(
    prefix: Seq<char>,
    files1: Seq<AssetFileV>,
    files2: Seq<AssetFileV>,
    descs1: Seq<ServerFnDescriptorV>,
    descs2: Seq<ServerFnDescriptorV>,
)
    requires
        files1.to_multiset() == files2.to_multiset(),
        descs1.to_multiset() == descs2.to_multiset(),
    ensures
        table_triples(spec_assembled(prefix, files1, descs1)) == table_triples(
            spec_assembled(prefix, files2, descs2),
        ),
{
    broadcast use vstd::seq_lib::group_to_multiset_ensures;

    assert forall|f: AssetFileV| files1.contains(f) == files2.contains(f) by {
        vstd::seq_lib::to_multiset_contains(files1, f);
        vstd::seq_lib::to_multiset_contains(files2, f);
        assert(files1.to_multiset().count(f) == files2.to_multiset().count(f));
    }
    assert forall|d: ServerFnDescriptorV| descs1.contains(d) == descs2.contains(d) by {
        vstd::seq_lib::to_multiset_contains(descs1, d);
        vstd::seq_lib::to_multiset_contains(descs2, d);
        assert(descs1.to_multiset().count(d) == descs2.to_multiset().count(d));
    }
    assert forall|key: (Method, Seq<char>)| key_seen(descs1, key) == key_seen(descs2, key) by {
        if key_seen(descs1, key) {
            let i = choose|i: int|
                0 <= i < descs1.len() && #[trigger] descriptor_key(descs1[i]) == key;
            assert(descs1.contains(descs1[i]));
            let j = choose|j: int| 0 <= j < descs2.len() && descs2[j] == descs1[i];
            assert(descriptor_key(descs2[j]) == key);
        }
        if key_seen(descs2, key) {
            let i = choose|i: int|
                0 <= i < descs2.len() && #[trigger] descriptor_key(descs2[i]) == key;
            assert(descs2.contains(descs2[i]));
            let j = choose|j: int| 0 <= j < descs1.len() && descs1[j] == descs2[i];
            assert(descriptor_key(descs1[j]) == key);
        }
    }
    let a1 = spec_assembled(prefix, files1, descs1);
    let a2 = spec_assembled(prefix, files2, descs2);
    assert forall|x: (Method, Seq<char>, Option<CachePolicy>)|
        has_triple(a1, x) == has_triple(a2, x) by {
        lemma_has_triple_concat(
            spec_dedupe(descs1) + spec_static_routes(prefix, files1),
            seq![fallback_route_v(prefix)],
            x,
        );
        lemma_has_triple_concat(spec_dedupe(descs1), spec_static_routes(prefix, files1), x);
        lemma_has_triple_concat(
            spec_dedupe(descs2) + spec_static_routes(prefix, files2),
            seq![fallback_route_v(prefix)],
            x,
        );
        lemma_has_triple_concat(spec_dedupe(descs2), spec_static_routes(prefix, files2), x);
        lemma_dedupe_triples(descs1, x);
        lemma_dedupe_triples(descs2, x);
        lemma_static_triples(prefix, files1, x);
        lemma_static_triples(prefix, files2, x);
    }
    assert(table_triples(a1) =~= table_triples(a2));
}

} // verus!
