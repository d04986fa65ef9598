use lib::server::{
    file_head, generate_build_page, generate_dev_index, generate_serve_index, html_response, js_response, mime_type,
    not_found, request_file_of, response, serve_route, ServeRoute, PLAIN_INDEX_HEAD, PLAIN_INDEX_TAIL, PLAIN_RELOAD,
};

#[test]
fn mime_types_by_extension() {
    assert_eq!(mime_type("/a/index.html"), "text/html; charset=utf-8");
    assert_eq!(mime_type("a.css"), "text/css; charset=utf-8");
    assert_eq!(mime_type("a.js"), "application/javascript; charset=utf-8");
    assert_eq!(mime_type("a.json"), "application/json");
    assert_eq!(mime_type("a.png"), "image/png");
    assert_eq!(mime_type("a.jpg"), "image/jpeg");
    assert_eq!(mime_type("a.jpeg"), "image/jpeg");
    assert_eq!(mime_type("a.svg"), "image/svg+xml");
    assert_eq!(mime_type("favicon.ico"), "image/x-icon");
    assert_eq!(mime_type("a.ts"), "application/typescript");
    assert_eq!(mime_type("Makefile"), "application/octet-stream");
    assert_eq!(mime_type(".bashrc"), "application/octet-stream");
}

#[test]
fn not_found_answer() {
    let body = "<h1>404 Not Found</h1><p>Glass House</p>";
    let expected = format!(
        "HTTP/1.1 404 Not Found\r\nContent-Type: text/html\r\nContent-Length: {}\r\nConnection: close\r\n\r\n{}",
        body.len(),
        body
    );
    assert_eq!(not_found(), expected);
}

#[test]
fn responses_count_bytes() {
    assert_eq!(
        html_response("é"),
        "HTTP/1.1 200 OK\r\nContent-Type: text/html; charset=utf-8\r\nContent-Length: 2\r\nConnection: close\r\n\r\né"
    );
    assert_eq!(
        js_response("x"),
        "HTTP/1.1 200 OK\r\nContent-Type: application/javascript; charset=utf-8\r\nContent-Length: 1\r\nConnection: close\r\n\r\nx"
    );
    assert_eq!(
        response("200 OK", "text/plain", "Cache-Control: no-cache\r\n", "ok"),
        "HTTP/1.1 200 OK\r\nContent-Type: text/plain\r\nContent-Length: 2\r\nCache-Control: no-cache\r\nConnection: close\r\n\r\nok"
    );
    assert_eq!(
        file_head("image/png", 10),
        "HTTP/1.1 200 OK\r\nContent-Type: image/png\r\nContent-Length: 10\r\nConnection: close\r\n\r\n"
    );
}

#[test]
fn request_paths_join_the_root() {
    assert_eq!(request_file_of("/srv/dist", "/app.js"), "/srv/dist/app.js");
    assert_eq!(request_file_of("/srv/dist", "///css/a.css"), "/srv/dist/css/a.css");
    assert_eq!(request_file_of("/srv/dist/", "/a"), "/srv/dist/a");
}

#[test]
fn serve_routes() {
    assert!(matches!(serve_route("GET / HTTP/1.1"), ServeRoute::Index));
    assert!(matches!(serve_route("GET /dist/index.html HTTP/1.1"), ServeRoute::Index));
    assert!(matches!(serve_route("GET"), ServeRoute::NotFound));
    assert!(matches!(serve_route(""), ServeRoute::NotFound));
    match serve_route("GET /app.js HTTP/1.1") {
        ServeRoute::File(p) => assert_eq!(p, "/app.js"),
        _ => panic!("expected a file"),
    }
}

#[test]
fn serve_index_page() {
    let p = generate_serve_index();
    assert!(p.starts_with("<!DOCTYPE html>\n<html lang=\"en\">"));
    assert!(p.contains("<script src=\"glasshouse.bundle.js\"></script>"));
    assert!(p.ends_with("</html>"));
}

#[test]
fn dev_index_lists_sorted_scripts() {
    let dirs = vec![
        Some(vec!["/p/glasshouse/b.js".to_string(), "/p/glasshouse/a.js".to_string(), "/p/glasshouse/x.css".to_string()]),
        None,
        Some(vec!["/p/src/main.js".to_string()]),
    ];
    let page = generate_dev_index("/p", &dirs);
    let expected = format!(
        "{}  <script src=\"glasshouse/a.js\"></script>\n  <script src=\"glasshouse/b.js\"></script>\n  <script src=\"src/main.js\"></script>\n{}{}",
        PLAIN_INDEX_HEAD, PLAIN_RELOAD, PLAIN_INDEX_TAIL
    );
    assert_eq!(page, expected);
}

#[test]
fn build_page_embeds_sources() {
    let dirs = vec![
        Some(vec![
            ("/p/glasshouse/b.js".to_string(), Some("var b=\"x\";\r\n".to_string())),
            ("/p/glasshouse/a.js".to_string(), Some("a\\b".to_string())),
            ("/p/glasshouse/c.js".to_string(), None),
            ("/p/glasshouse/n.txt".to_string(), Some("no".to_string())),
        ]),
        None,
        None,
    ];
    let page = generate_build_page("/p", &dirs);
    assert!(page.contains("var SOURCES={{\"glasshouse/a.js\":\"a\\\\b\",\"glasshouse/b.js\":\"var b=\\\"x\\\";\\n\"}};"));
    assert!(page.contains(
        "<title>Build</title>  <script src=\"glasshouse/a.js\"></script>\n  <script src=\"glasshouse/b.js\"></script>\n  <script src=\"glasshouse/c.js\"></script>\n</head>"
    ));
    assert!(page.ends_with("</script></body></html>"));
}

#[test]
fn build_page_without_sources() {
    let dirs: Vec<Option<Vec<(String, Option<String>)>>> = vec![None, None, None];
    let page = generate_build_page("/p", &dirs);
    assert!(page.contains("var SOURCES={{}};"));
    assert!(page.contains("<title>Build</title></head>"));
}
