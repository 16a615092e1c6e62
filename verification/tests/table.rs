use route_table::assemble::{build_route_table, match_route, DioxusFrontend};
use route_table::dedupe::{dedupe_server_fns, ServerFnDescriptor};
use route_table::route::{cache_control_header, BuildError, CachePolicy, HandlerRef, Method, RouteEntry};
use route_table::walk::AssetFile;

fn asset(route_path: &str, fs_path: &str) -> AssetFile {
    AssetFile { route_path: route_path.to_string(), fs_path: fs_path.to_string() }
}

fn descriptor(method: Method, path: &str, handler_id: u64) -> ServerFnDescriptor {
    ServerFnDescriptor { method, path: path.to_string(), handler_id }
}

fn method_tag(m: Method) -> &'static str {
    match m {
        Method::Get => "GET",
        Method::Post => "POST",
        Method::Put => "PUT",
        Method::Delete => "DELETE",
        Method::Patch => "PATCH",
        Method::Head => "HEAD",
        Method::Options => "OPTIONS",
    }
}

fn policy_tag(p: Option<CachePolicy>) -> &'static str {
    match p {
        Some(CachePolicy::Immutable) => "immutable",
        Some(CachePolicy::Mutable) => "mutable",
        None => "none",
    }
}

fn triples(table: &[RouteEntry]) -> Vec<(String, String, String)> {
    let mut v: Vec<(String, String, String)> = table
        .iter()
        .map(|e| {
            (
                method_tag(e.method).to_string(),
                e.path_pattern.clone(),
                policy_tag(e.cache_policy).to_string(),
            )
        })
        .collect();
    v.sort();
    v
}

#[test]
fn dedupe_keeps_first_descriptor_per_key() {
    // Three unique keys, two exact duplicates.
    let descriptors = vec![
        descriptor(Method::Get, "/api/ping", 1),
        descriptor(Method::Post, "/api/submit", 2),
        descriptor(Method::Get, "/api/ping", 3),
        descriptor(Method::Get, "/api/list", 4),
        descriptor(Method::Post, "/api/submit", 5),
    ];
    let routes = dedupe_server_fns(&descriptors);
    assert_eq!(routes.len(), 3);
    assert_eq!(routes[0].path_pattern, "/api/ping");
    assert_eq!(routes[1].path_pattern, "/api/submit");
    assert_eq!(routes[2].path_pattern, "/api/list");
    let ids: Vec<u64> = routes
        .iter()
        .map(|e| match e.handler {
            HandlerRef::RemoteProcedure { handler_id } => handler_id,
            _ => panic!("a deduplicated route must be a remote procedure"),
        })
        .collect();
    assert_eq!(ids, vec![1, 2, 4]);
}

#[test]
fn dedupe_distinguishes_methods_on_one_path() {
    let descriptors = vec![
        descriptor(Method::Get, "/api/item", 1),
        descriptor(Method::Post, "/api/item", 2),
    ];
    let routes = dedupe_server_fns(&descriptors);
    assert_eq!(routes.len(), 2);
}

#[test]
fn assembled_table_has_three_entries_in_precedence_order() {
    let files = vec![asset("/app.js", "R/app.js")];
    let descriptors = vec![descriptor(Method::Get, "/api/ping", 7)];
    let table = build_route_table(&files, &descriptors, "/frontend").expect("no collision");
    assert_eq!(table.len(), 3);
    assert_eq!(table[0].path_pattern, "/api/ping");
    assert_eq!(table[0].method, Method::Get);
    assert!(matches!(table[0].handler, HandlerRef::RemoteProcedure { handler_id: 7 }));
    assert_eq!(table[1].path_pattern, "/frontend/app.js");
    assert_eq!(table[1].cache_policy, Some(CachePolicy::Mutable));
    assert!(matches!(table[1].handler, HandlerRef::StaticMutable { .. }));
    assert_eq!(table[2].path_pattern, "/frontend/{*rest}");
    assert!(matches!(table[2].handler, HandlerRef::Fallback));
    assert_eq!(table[2].cache_policy, None);
}

#[test]
fn immutable_asset_receives_cache_header_and_mutable_does_not() {
    let files = vec![asset("/app-dxh00ff.js", "R/app-dxh00ff.js"), asset("/app.js", "R/app.js")];
    let table = build_route_table(&files, &vec![], "/frontend").expect("no collision");

    let hit = match_route(&table, Method::Get, "/frontend/app-dxh00ff.js")
        .expect("the immutable asset is routed");
    assert_eq!(table[hit].path_pattern, "/frontend/app-dxh00ff.js");
    assert_eq!(
        cache_control_header(&table[hit]),
        Some("public, max-age=31536000, immutable"),
    );

    let miss = match_route(&table, Method::Get, "/frontend/app.js")
        .expect("the mutable asset is routed");
    assert_eq!(table[miss].path_pattern, "/frontend/app.js");
    assert_eq!(cache_control_header(&table[miss]), None);
}

#[test]
fn fallback_matches_only_what_no_route_claimed() {
    let files = vec![asset("/app.js", "R/app.js")];
    let descriptors = vec![descriptor(Method::Get, "/api/ping", 7)];
    let table = build_route_table(&files, &descriptors, "/frontend").expect("no collision");

    assert_eq!(match_route(&table, Method::Get, "/api/ping"), Some(0));
    assert_eq!(match_route(&table, Method::Get, "/frontend/app.js"), Some(1));
    // An unclaimed path under the prefix reaches the fallback.
    assert_eq!(match_route(&table, Method::Get, "/frontend/missing.css"), Some(2));
    // A path outside the prefix reaches nothing.
    assert_eq!(match_route(&table, Method::Get, "/elsewhere"), None);
    // The fallback does not answer for other methods.
    assert_eq!(match_route(&table, Method::Post, "/frontend/missing.css"), None);
}

#[test]
fn root_is_permanently_redirected_to_entry_document() {
    let frontend = build_route_table(&vec![], &vec![], "/frontend").expect("no collision");
    let initializer = DioxusFrontend;
    assert_eq!(initializer.name(), "Dioxus Frontend");
    let table = initializer.after_routes(vec![], "/frontend", frontend);
    let hit = match_route(&table, Method::Get, "/").expect("the root is routed");
    assert_eq!(hit, 0);
    match &table[hit].handler {
        HandlerRef::Redirect { target } => assert_eq!(target, "/frontend/index.html"),
        _ => panic!("the root route must be a redirect"),
    }
}

#[test]
fn empty_prefix_is_a_config_error() {
    let files = vec![asset("/app.js", "R/app.js")];
    let r = build_route_table(&files, &vec![], "");
    match r {
        Err(BuildError::ConfigError { .. }) => {},
        _ => panic!("an empty prefix must be rejected as configuration"),
    }
}

#[test]
fn colliding_routes_are_a_route_collision_error() {
    // A static asset and a remote procedure land on the same identity.
    let files = vec![asset("/ping", "R/ping")];
    let descriptors = vec![descriptor(Method::Get, "/api/ping", 1)];
    let r = build_route_table(&files, &descriptors, "/api");
    match r {
        Err(BuildError::RouteCollision { method, path_pattern }) => {
            assert_eq!(method, Method::Get);
            assert_eq!(path_pattern, "/api/ping");
        },
        _ => panic!("a collision must abort assembly"),
    }
}

#[test]
fn rebuilding_in_another_enumeration_order_keeps_the_same_triples() {
    let files_one = vec![
        asset("/app-dxh00ff.js", "R/app-dxh00ff.js"),
        asset("/app.js", "R/app.js"),
        asset("/b/c.css", "R/b/c.css"),
    ];
    let files_two = vec![
        asset("/b/c.css", "R/b/c.css"),
        asset("/app.js", "R/app.js"),
        asset("/app-dxh00ff.js", "R/app-dxh00ff.js"),
    ];
    let descs_one = vec![
        descriptor(Method::Get, "/api/ping", 1),
        descriptor(Method::Post, "/api/submit", 2),
        descriptor(Method::Get, "/api/ping", 3),
    ];
    let descs_two = vec![
        descriptor(Method::Get, "/api/ping", 3),
        descriptor(Method::Post, "/api/submit", 2),
        descriptor(Method::Get, "/api/ping", 1),
    ];
    let one = build_route_table(&files_one, &descs_one, "/frontend").expect("no collision");
    let two = build_route_table(&files_two, &descs_two, "/frontend").expect("no collision");
    assert_eq!(triples(&one), triples(&two));
}
