use insidious::{extract_all_routes, extract_routes_from_file, SourceFile};

#[test]
fn app_get_line_yields_one_route() {
    let routes = extract_routes_from_file("app.get('/users', handler)", "server.js");
    assert_eq!(routes.len(), 1);
    assert_eq!(routes[0].method, "GET");
    assert_eq!(routes[0].path, "/users");
    assert_eq!(routes[0].file_path, "server.js");
    assert_eq!(routes[0].line_number, 1);
}

#[test]
fn router_post_line_yields_one_route() {
    let routes = extract_routes_from_file("router.post(\"/users/:id\", handler)", "routes.js");
    assert_eq!(routes.len(), 1);
    assert_eq!(routes[0].method, "POST");
    assert_eq!(routes[0].path, "/users/:id");
}

#[test]
fn all_verbs_are_upper_cased() {
    let text = "app.get('/a')\napp.post('/b')\napp.put('/c')\napp.delete('/d')\napp.patch('/e')\napp.head('/f')";
    let routes = extract_routes_from_file(text, "f.js");
    let methods: Vec<&str> = routes.iter().map(|r| r.method.as_str()).collect();
    assert_eq!(methods, vec!["GET", "POST", "PUT", "DELETE", "PATCH"]);
    let lines: Vec<usize> = routes.iter().map(|r| r.line_number).collect();
    assert_eq!(lines, vec![1, 2, 3, 4, 5]);
}

#[test]
fn line_numbers_count_from_one() {
    let text = "const x = 1;\n\n  router.get('/x', h);\n";
    let routes = extract_routes_from_file(text, "f.js");
    assert_eq!(routes.len(), 1);
    assert_eq!(routes[0].line_number, 3);
}

#[test]
fn several_matches_on_one_line_app_first() {
    let text = "router.get('/r', h); app.get('/a1', h); app.post('/a2', h)";
    let routes = extract_routes_from_file(text, "f.js");
    let got: Vec<(&str, &str)> = routes.iter().map(|r| (r.method.as_str(), r.path.as_str())).collect();
    assert_eq!(got, vec![("GET", "/a1"), ("POST", "/a2"), ("GET", "/r")]);
}

#[test]
fn path_is_shortest_nonempty_run_before_a_quote() {
    let routes = extract_routes_from_file("app.get('/a\"b', h)", "f.js");
    assert_eq!(routes.len(), 1);
    assert_eq!(routes[0].path, "/a");
    let routes = extract_routes_from_file("app.get('', h, 'x')", "f.js");
    assert_eq!(routes.len(), 1);
    assert_eq!(routes[0].path, "', h, ");
}

#[test]
fn unmatched_shapes_yield_nothing() {
    assert!(extract_routes_from_file("", "f.js").is_empty());
    assert!(extract_routes_from_file("app.get(/users)", "f.js").is_empty());
    assert!(extract_routes_from_file("app.GET('/users')", "f.js").is_empty());
    assert!(extract_routes_from_file("app.get ('/users')", "f.js").is_empty());
    assert!(extract_routes_from_file("app.get('/users", "f.js").is_empty());
}

#[test]
fn receiver_may_end_a_longer_name() {
    let routes = extract_routes_from_file("subrouter.get('/x', h); myapp.put('/y', h)", "f.js");
    let got: Vec<(&str, &str)> = routes.iter().map(|r| (r.method.as_str(), r.path.as_str())).collect();
    assert_eq!(got, vec![("PUT", "/y"), ("GET", "/x")]);
}

#[test]
fn extraction_is_repeatable() {
    let text = "app.get('/a', h)\nrouter.delete('/b/:id', h)\napp.patch(\"/c\")";
    let first = extract_routes_from_file(text, "f.js");
    let second = extract_routes_from_file(text, "f.js");
    assert_eq!(first.len(), 3);
    assert_eq!(first.len(), second.len());
    for (a, b) in first.iter().zip(second.iter()) {
        assert_eq!(a.path, b.path);
        assert_eq!(a.method, b.method);
        assert_eq!(a.file_path, b.file_path);
        assert_eq!(a.line_number, b.line_number);
    }
}

#[test]
fn crlf_lines_are_numbered_alike() {
    let routes = extract_routes_from_file("x\r\napp.get('/a')\r\n", "f.js");
    assert_eq!(routes.len(), 1);
    assert_eq!(routes[0].line_number, 2);
    assert_eq!(routes[0].path, "/a");
}

#[test]
fn all_routes_follow_file_order() {
    let files = vec![
        SourceFile { path: "a.js".to_string(), content: "router.get('/users', h)".to_string() },
        SourceFile { path: "b.js".to_string(), content: "nothing here".to_string() },
        SourceFile { path: "c.js".to_string(), content: "app.get('/users', h2)".to_string() },
    ];
    let routes = extract_all_routes(&files);
    assert_eq!(routes.len(), 2);
    assert_eq!(routes[0].file_path, "a.js");
    assert_eq!(routes[1].file_path, "c.js");
}
