use mdv::cli::{Args, ArgsError, CliArg, Command};
use mdv::headers::apply_security_headers;
use mdv::history::{add_history, HistoryEntry};
use mdv::html::page;
use mdv::markdown::render_markdown;
use mdv::paths::image_content_type;
use mdv::url::{encode_path, path_href};

fn parse_args(arguments: &[&str]) -> Result<Command, ArgsError> {
    Args::parse_from(arguments.iter().map(|a| CliArg::Text(a.to_string())).collect())
}

#[test]
fn parses_cli_options_and_file() {
    assert_eq!(
        parse_args(&["--start", "--port=9000"]).unwrap(),
        Command::Run(Args { start: true, stop: false, port: 9000, file: None })
    );
    match parse_args(&["-p", "3000", "README.md"]).unwrap() {
        Command::Run(args) => assert_eq!(args.file, Some(b"README.md".to_vec())),
        other => panic!("unexpected {other:?}"),
    }
}

#[test]
fn rejects_invalid_cli_arguments() {
    assert!(parse_args(&["--port", "invalid"]).is_err());
    assert!(parse_args(&["--unknown"]).is_err());
    assert!(parse_args(&["one.md", "two.md"]).is_err());
}

#[test]
fn url_encodes_spaces() {
    assert_eq!(encode_path("Users/me/a b.md"), "Users/me/a%20b%2Emd");
}

#[test]
fn absolute_path_href_has_one_leading_slash() {
    assert_eq!(path_href("/Users/me/a b.md"), "/Users/me/a%20b%2Emd");
}

#[test]
fn history_is_most_recent_first_and_deduplicated() {
    let one = b"/tmp/history-test/one.md".to_vec();
    let two = b"/tmp/history-test/two.md".to_vec();
    let entries: Vec<HistoryEntry> = Vec::new();
    let entries = add_history(&entries, &one);
    let entries = add_history(&entries, &two);
    let entries = add_history(&entries, &one);
    assert_eq!(entries.len(), 2);
    assert_eq!(entries[0].path, one);
}

#[test]
fn markdown_has_heading_ids_and_toc() {
    let (body, toc) = render_markdown("# Design\n\n## 全体の流れ\n\n### Details");
    assert!(body.contains("<h1 id=\"design\">Design</h1>"));
    assert!(body.contains("<h2 id=\"全体の流れ\">全体の流れ</h2>"));
    assert!(toc.contains("href=\"#全体の流れ\""));
    assert!(toc.contains("class=\"toc-level-1\""));
    assert!(toc.contains("class=\"toc-level-2\""));
    assert!(toc.contains("class=\"toc-level-3\""));
}

#[test]
fn markdown_escapes_raw_html() {
    let (body, _) = render_markdown(
        "<script>alert('xss')</script>\n\n<span onclick=\"alert('xss')\">text</span>",
    );
    assert!(!body.contains("<script>"));
    assert!(!body.contains("<span"));
    assert!(body.contains("&lt;script&gt;"));
    assert!(body.contains("&lt;span onclick=\"alert('xss')\"&gt;"));
}

#[test]
fn recognizes_supported_image_types() {
    assert_eq!(image_content_type(b"image.PNG"), Some("image/png"));
    assert_eq!(image_content_type(b"photo.jpeg"), Some("image/jpeg"));
    assert_eq!(image_content_type(b"diagram.svg"), Some("image/svg+xml"));
    assert_eq!(image_content_type(b"animation.apng"), Some("image/apng"));
    assert_eq!(image_content_type(b"document.pdf"), None);
}

#[test]
fn page_includes_data_uri_favicon() {
    let output = page("Test", "<main>Test</main>");
    assert!(output.contains("rel=\"icon\""));
    assert!(output.contains("data:image/svg+xml"));
    assert!(output.contains("href=\"/assets/style.css\""));
    assert!(!output.contains("<style>"));
}

#[test]
fn applies_security_headers() {
    let mut headers = axum::http::HeaderMap::new();
    assert!(apply_security_headers(&mut headers));
    let policy = headers[axum::http::header::CONTENT_SECURITY_POLICY].to_str().unwrap();
    assert!(policy.contains("default-src 'none'"));
    assert!(policy.contains("style-src 'self'"));
    assert!(policy.contains("script-src 'none'"));
    assert_eq!(headers[axum::http::header::REFERRER_POLICY], "no-referrer");
    assert_eq!(headers[axum::http::header::X_CONTENT_TYPE_OPTIONS], "nosniff");
    assert_eq!(headers[axum::http::header::CACHE_CONTROL], "no-store");
}

#[test]
fn security_headers_replace_existing_values() {
    let mut headers = axum::http::HeaderMap::new();
    headers.insert(axum::http::header::CACHE_CONTROL, "max-age=60".parse().unwrap());
    headers.append(axum::http::header::CACHE_CONTROL, "public".parse().unwrap());
    headers.insert(axum::http::header::ETAG, "\"x\"".parse().unwrap());
    assert!(apply_security_headers(&mut headers));
    assert!(apply_security_headers(&mut headers));
    let values: Vec<_> = headers.get_all(axum::http::header::CACHE_CONTROL).iter().collect();
    assert_eq!(values, vec!["no-store"]);
    assert_eq!(headers[axum::http::header::ETAG], "\"x\"");
    assert_eq!(headers.keys_len(), 5);
}
