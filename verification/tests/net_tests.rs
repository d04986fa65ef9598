use lib::net::{
    api_curl_command, api_fetch_script, cache_dir, curl_command, extract_script, fetch_script, get_request,
    qjs_candidates, qjs_outcome, releases_api_url, response_body, runner_file_name, split_url, unzip_command,
};

#[test]
fn url_parts() {
    assert_eq!(
        split_url("http://example.com:8080/pkg/a.js"),
        Some(("example.com".to_string(), 8080, "example.com:8080".to_string(), "/pkg/a.js".to_string()))
    );
    assert_eq!(
        split_url("https://example.com"),
        Some(("example.com".to_string(), 80, "example.com".to_string(), "/".to_string()))
    );
    assert_eq!(
        split_url("http://h:x/p"),
        Some(("h".to_string(), 80, "h:x".to_string(), "/p".to_string()))
    );
    assert_eq!(
        split_url("http://h:99999/"),
        Some(("h".to_string(), 80, "h:99999".to_string(), "/".to_string()))
    );
    assert_eq!(split_url("ftp://example.com/"), None);
}

#[test]
fn request_and_answer() {
    assert_eq!(
        get_request("/a", "h:81"),
        "GET /a HTTP/1.1\r\nHost: h:81\r\nUser-Agent: glas/1.0\r\nConnection: close\r\n\r\n"
    );
    assert_eq!(response_body("HTTP/1.1 200 OK\r\nA: b\r\n\r\nbody\r\n\r\nmore"), "body\r\n\r\nmore");
    assert_eq!(response_body("no head"), "no head");
}

#[test]
fn download_scripts() {
    assert_eq!(
        fetch_script("http://u", "/t/f"),
        "[Net.ServicePointManager]::SecurityProtocol = [Net.SecurityProtocolType]::Tls12\r\nInvoke-WebRequest -Uri 'http://u' -OutFile '/t/f'\r\n"
    );
    assert_eq!(curl_command("http://u", "/t/f"), "curl -L -o '/t/f' 'http://u'");
    assert_eq!(
        api_fetch_script("http://u", "/t/f"),
        "[Net.ServicePointManager]::SecurityProtocol = [Net.SecurityProtocolType]::Tls12\r\nInvoke-WebRequest -Uri 'http://u' -OutFile '/t/f' -Headers @{'User-Agent'='glas/2.0'}\r\n"
    );
    assert_eq!(api_curl_command("http://u", "/t/f"), "curl -L -H 'User-Agent: glas/2.0' -o '/t/f' 'http://u'");
    assert_eq!(releases_api_url("OniuUI", "GlassHouse"), "https://api.github.com/repos/OniuUI/GlassHouse/releases");
    assert_eq!(
        extract_script("/t/a.zip", "/d"),
        "Expand-Archive -Path '/t/a.zip' -DestinationPath '/d' -Force\r\n"
    );
    assert_eq!(unzip_command("/t/a.zip", "/d"), "unzip -o '/t/a.zip' -d '/d'");
}

#[test]
fn cache_location() {
    assert_eq!(cache_dir("/home/u", false), "/home/u/.glasshouse/glasshouse");
    assert_eq!(cache_dir("C:\\L", true), "C:\\L\\GlassHouse\\glasshouse");
}

#[test]
fn quickjs_outcomes() {
    assert_eq!(qjs_outcome(true, "out".to_string(), "".to_string()), Ok("out".to_string()));
    assert_eq!(
        qjs_outcome(false, "partial".to_string(), "  boom\n".to_string()),
        Err("QuickJS error: boom".to_string())
    );
    assert_eq!(
        qjs_outcome(false, "  from stdout ".to_string(), "".to_string()),
        Err("QuickJS error: from stdout".to_string())
    );
    assert_eq!(
        qjs_outcome(false, "ignored".to_string(), "  ".to_string()),
        Err("QuickJS error: ".to_string())
    );
}

#[test]
fn quickjs_lookup() {
    assert_eq!(
        qjs_candidates("/opt/glas"),
        vec![
            "/opt/glas/qjs.exe".to_string(),
            "/opt/glas/quickjs/qjs.exe".to_string(),
            "/opt/glas/qjs".to_string()
        ]
    );
    assert_eq!(runner_file_name(1700000000123), "glas_qjs_1700000000123.js");
}
