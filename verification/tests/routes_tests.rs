use rustdex::routes::{extract_routes, parse_methods};

#[test]
fn parse_methods_trims_quotes_and_uppercases() {
    let m = parse_methods(b"\"GET\", 'post' ,  ");
    assert_eq!(m, vec!["GET".to_string(), "POST".to_string()]);
}

#[test]
fn parse_methods_drops_empty_pieces() {
    assert_eq!(parse_methods(b",,"), Vec::<String>::new());
    assert_eq!(parse_methods(b""), Vec::<String>::new());
    assert_eq!(parse_methods(b"delete"), vec!["DELETE".to_string()]);
}

#[test]
fn parse_methods_decodes_invalid_bytes_lossily() {
    let m = parse_methods(b"'g\xffet'");
    assert_eq!(m, vec!["G\u{FFFD}ET".to_string()]);
}

#[test]
fn python_route_with_methods_list() {
    let src = b"@app.route(\"/users\", methods=[\"GET\", \"POST\"])\ndef users():\n    pass\n";
    let routes = extract_routes(src, "python", "demo", "app.py");
    assert_eq!(routes.len(), 2);
    assert_eq!(routes[0].method, "GET");
    assert_eq!(routes[1].method, "POST");
    for r in &routes {
        assert_eq!(r.path, "/users");
        assert_eq!(r.handler.as_deref(), Some("users"));
        assert_eq!(r.repo, "demo");
        assert_eq!(r.file, "app.py");
        assert_eq!(r.id, None);
        assert_eq!(r.start_byte, 0);
        assert_eq!(r.end_byte, 55);
    }
}

#[test]
fn python_route_without_methods_is_get() {
    let src = b"@bp.route('/health')\ndef health():\n    return 'ok'\n";
    let routes = extract_routes(src, "Python", "demo", "a.py");
    assert_eq!(routes.len(), 1);
    assert_eq!(routes[0].method, "GET");
    assert_eq!(routes[0].path, "/health");
    assert_eq!(routes[0].handler.as_deref(), Some("health"));
}

#[test]
fn python_shorthand_routes_follow_route_decorators() {
    let src = b"@app.post('/items')\nasync def create_item():\n    pass\n\n@app.route('/a')\ndef a():\n    pass\n";
    let routes = extract_routes(src, "python", "r", "f.py");
    assert_eq!(routes.len(), 2);
    assert_eq!(routes[0].method, "GET");
    assert_eq!(routes[0].path, "/a");
    assert_eq!(routes[1].method, "POST");
    assert_eq!(routes[1].path, "/items");
    assert_eq!(routes[1].handler.as_deref(), Some("create_item"));
    assert_eq!(routes[1].start_byte, 0);
}

#[test]
fn express_routes_in_javascript_and_typescript() {
    let src = b"router.get(`/users/:id`, getUser);\napp.all('/x', any)";
    let js = extract_routes(src, "javascript", "web", "r.js");
    assert_eq!(js.len(), 2);
    assert_eq!(js[0].method, "GET");
    assert_eq!(js[0].path, "/users/:id");
    assert_eq!(js[0].handler.as_deref(), Some("getUser"));
    assert_eq!(js[0].start_byte, 0);
    assert_eq!(js[0].end_byte, 32);
    assert_eq!(js[1].method, "ALL");
    let ts = extract_routes(src, "TypeScript", "web", "r.ts");
    assert_eq!(ts.len(), 2);
}

#[test]
fn other_languages_have_no_routes() {
    let src = b"@app.route('/x')\ndef x():\n    pass\n";
    assert!(extract_routes(src, "py", "r", "f").is_empty());
    assert!(extract_routes(src, "rust", "r", "f").is_empty());
}

#[test]
fn express_handlers_are_the_first_word_or_unnamed() {
    let src = b"app.get('/health', (req, res) => res.send('ok'));\napp.put('/a', async function (req, res) {});\napp.delete('/b', req => 1);\napp.patch('/c', auth, save);\napp.get('/d', ctrl.list);";
    let rs = extract_routes(src, "javascript", "web", "s.js");
    let got: Vec<(&str, &str, Option<&str>)> = rs.iter().map(|r| (r.method.as_str(), r.path.as_str(), r.handler.as_deref())).collect();
    assert_eq!(
        got,
        vec![
            ("GET", "/health", None),
            ("PUT", "/a", Some("async")),
            ("DELETE", "/b", Some("req")),
            ("PATCH", "/c", Some("auth")),
            ("GET", "/d", Some("ctrl")),
        ]
    );
}

#[test]
fn django_paths_are_routes() {
    let src = b"urlpatterns = [\n    path('users/', views.user_list),\n    re_path(r'^items/$', item_view),\n]\n";
    let rs = extract_routes(src, "python", "site", "urls.py");
    assert_eq!(rs.len(), 2);
    assert_eq!(rs[0].method, "ANY");
    assert_eq!(rs[0].path, "users/");
    assert_eq!(rs[0].handler.as_deref(), Some("views.user_list"));
    assert_eq!(rs[0].start_byte, 20);
    assert_eq!(rs[1].path, "^items/$");
    assert_eq!(rs[1].handler.as_deref(), Some("item_view"));
}

#[test]
fn method_lists_and_comma_counts() {
    assert_eq!(parse_methods(b"'GET', 'POST'").len(), 2);
    assert_eq!(parse_methods(b",,").len(), 0);
    assert_eq!(parse_methods(b"").len(), 0);
}

#[test]
fn named_express_handlers_end_the_match() {
    let rs = extract_routes(b"app.post('/login', handleLogin);", "javascript", "r", "server.js");
    assert_eq!(rs.len(), 1);
    assert_eq!(rs[0].method, "POST");
    assert_eq!(rs[0].path, "/login");
    assert_eq!(rs[0].handler.as_deref(), Some("handleLogin"));
    assert_eq!(rs[0].start_byte, 0);
    assert_eq!(rs[0].end_byte, 30);
}

#[test]
fn ascii_method_lists_give_clean_names() {
    let ms = parse_methods(b"\"get\", ' post ',put");
    assert_eq!(ms, vec!["GET".to_string(), "POST".to_string(), "PUT".to_string()]);
    assert!(ms.iter().all(|m| !m.is_empty() && !m.contains(',') && *m == m.to_uppercase()));
}
