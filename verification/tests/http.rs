use web_server::http::{
    content_type_for, render, respond, route, ContentType, Page, Route, Status, SLEEP_SECONDS,
};
use web_server::text::{ends_with, push_bytes, push_decimal, push_text, same_bytes, same_text};

fn decimal_of(n: usize) -> Vec<u8> {
    let mut out = Vec::new();
    push_decimal(&mut out, n);
    out
}

fn header_end(response: &[u8]) -> usize {
    match response.windows(4).position(|w| w == b"\r\n\r\n") {
        Some(at) => at + 4,
        None => panic!("the response has no empty line"),
    }
}

#[test]
fn root_request_is_answered_with_the_greeting() {
    let answer = route("GET / HTTP/1.1");
    assert_eq!(answer, Route { status: Status::Success, page: Page::Hello, delay_seconds: 0 });
    assert_eq!(answer.status.code(), 200);
    assert_eq!(answer.page.path(), "pages/hello.html");
    assert_eq!(content_type_for(answer.page.path()), ContentType::Html);
    assert_eq!(content_type_for(answer.page.path()).name(), "text/html");
}

#[test]
fn style_sheet_request_is_answered_with_css() {
    let answer = route("GET /css/styles.css HTTP/1.1");
    assert_eq!(answer, Route { status: Status::Success, page: Page::Styles, delay_seconds: 0 });
    assert_eq!(answer.page.path(), "css/styles.css");
    assert_eq!(content_type_for(answer.page.path()).name(), "text/css");
}

#[test]
fn sleep_request_is_answered_late_with_the_greeting() {
    let answer = route("GET /sleep HTTP/1.1");
    assert_eq!(answer, Route { status: Status::Success, page: Page::Hello, delay_seconds: 5 });
    assert_eq!(SLEEP_SECONDS, 5);
    assert_eq!(answer.status.code(), 200);
    assert_eq!(answer.page.path(), "pages/hello.html");
}

#[test]
fn unknown_request_is_answered_with_not_found() {
    let not_found = Route { status: Status::NotFound, page: Page::NotFound, delay_seconds: 0 };
    for line in [
        "GET /missing HTTP/1.1",
        "",
        "GET / HTTP/1.0",
        "GET / HTTP/1.1 ",
        " GET / HTTP/1.1",
        "get / http/1.1",
        "POST / HTTP/1.1",
        "GET /sleep HTTP/1.1\r",
        "GET /css/styles.css",
        "GET /\u{e9} HTTP/1.1",
        "GET / HTTP/1.1\nGET /sleep HTTP/1.1",
    ] {
        assert_eq!(route(line), not_found);
    }
    assert_eq!(not_found.status.code(), 404);
    assert_eq!(not_found.page.path(), "pages/404.html");
    assert_eq!(content_type_for(not_found.page.path()).name(), "text/html");
}

#[test]
fn status_lines() {
    assert_eq!(Status::Success.line(), "HTTP/1.1 200 OK");
    assert_eq!(Status::NotFound.line(), "HTTP/1.1 404 NOT FOUND");
    assert_eq!(Status::Success.code(), 200);
    assert_eq!(Status::NotFound.code(), 404);
}

#[test]
fn content_type_goes_by_the_end_of_the_path() {
    assert_eq!(content_type_for("pages/hello.html"), ContentType::Html);
    assert_eq!(content_type_for(".html"), ContentType::Html);
    assert_eq!(content_type_for("a.css.html"), ContentType::Html);
    assert_eq!(content_type_for("css/styles.css"), ContentType::Css);
    assert_eq!(content_type_for(".css"), ContentType::Css);
    assert_eq!(content_type_for("a.html.css"), ContentType::Css);
    assert_eq!(content_type_for("notes.txt"), ContentType::Plain);
    assert_eq!(content_type_for(""), ContentType::Plain);
    assert_eq!(content_type_for("html"), ContentType::Plain);
    assert_eq!(content_type_for("index.HTML"), ContentType::Plain);
    assert_eq!(content_type_for("index.html "), ContentType::Plain);
    assert_eq!(content_type_for("index.htm"), ContentType::Plain);
    assert_eq!(content_type_for("css"), ContentType::Plain);
    assert_eq!(content_type_for("\u{e9}.css"), ContentType::Css);
    assert_eq!(ContentType::Plain.name(), "text/plain");
}

#[test]
fn response_layout() {
    let response = render(Status::Success, ContentType::Html, b"<h1>Hello!</h1>");
    assert_eq!(
        response,
        b"HTTP/1.1 200 OK\r\nContent-Length: 15\r\nContent-Type: text/html\r\n\r\n<h1>Hello!</h1>"
            .to_vec()
    );
}

#[test]
fn response_with_an_empty_body() {
    let response = render(Status::NotFound, ContentType::Plain, b"");
    assert_eq!(
        response,
        b"HTTP/1.1 404 NOT FOUND\r\nContent-Length: 0\r\nContent-Type: text/plain\r\n\r\n".to_vec()
    );
}

#[test]
fn response_matches_the_formatted_text() {
    let contents = "body { color: red; }\n";
    let response = respond(route("GET /css/styles.css HTTP/1.1"), Some(contents));
    let expected = format!(
        "{}\r\nContent-Length: {}\r\nContent-Type: {}\r\n\r\n{}",
        "HTTP/1.1 200 OK",
        contents.len(),
        "text/css",
        contents
    );
    assert_eq!(response, expected.into_bytes());
}

#[test]
fn content_length_counts_bytes_not_characters() {
    let contents = "h\u{e9}llo \u{4e16}\u{754c}";
    assert_eq!(contents.chars().count(), 8);
    assert_eq!(contents.len(), 13);
    let response = respond(route("GET / HTTP/1.1"), Some(contents));
    let expected = format!(
        "HTTP/1.1 200 OK\r\nContent-Length: 13\r\nContent-Type: text/html\r\n\r\n{}",
        contents
    );
    assert_eq!(response, expected.into_bytes());
    assert_eq!(&response[header_end(&response)..], contents.as_bytes());
}

#[test]
fn unread_page_is_replaced_by_a_fixed_text() {
    let response = respond(route("GET /nowhere HTTP/1.1"), None);
    assert_eq!(
        response,
        b"HTTP/1.1 404 NOT FOUND\r\nContent-Length: 14\r\nContent-Type: text/html\r\n\r\nFile not found"
            .to_vec()
    );
    let response = respond(route("GET / HTTP/1.1"), None);
    assert_eq!(
        response,
        b"HTTP/1.1 200 OK\r\nContent-Length: 14\r\nContent-Type: text/html\r\n\r\nFile not found"
            .to_vec()
    );
}

#[test]
fn not_found_page_is_sent_with_status_404() {
    let page = "<h1>Oops!</h1>\n<p>Sorry, I don't know what you're asking for.</p>\n";
    let response = respond(route("GET /what HTTP/1.1"), Some(page));
    let expected = format!(
        "HTTP/1.1 404 NOT FOUND\r\nContent-Length: {}\r\nContent-Type: text/html\r\n\r\n{}",
        page.len(),
        page
    );
    assert_eq!(response, expected.into_bytes());
}

#[test]
fn long_body_has_its_length_in_decimal() {
    let body = vec![b'x'; 12_345];
    let response = render(Status::Success, ContentType::Plain, &body);
    let head = b"HTTP/1.1 200 OK\r\nContent-Length: 12345\r\nContent-Type: text/plain\r\n\r\n";
    assert_eq!(&response[..head.len()], &head[..]);
    assert_eq!(response.len(), head.len() + 12_345);
    assert_eq!(&response[head.len()..], &body[..]);
}

#[test]
fn decimal_digits() {
    assert_eq!(decimal_of(0), b"0".to_vec());
    assert_eq!(decimal_of(7), b"7".to_vec());
    assert_eq!(decimal_of(9), b"9".to_vec());
    assert_eq!(decimal_of(10), b"10".to_vec());
    assert_eq!(decimal_of(99), b"99".to_vec());
    assert_eq!(decimal_of(100), b"100".to_vec());
    assert_eq!(decimal_of(1_020_304), b"1020304".to_vec());
    assert_eq!(decimal_of(usize::MAX), usize::MAX.to_string().into_bytes());
}

#[test]
fn decimal_is_appended_to_what_is_there() {
    let mut out = b"n=".to_vec();
    push_decimal(&mut out, 42);
    push_decimal(&mut out, 0);
    assert_eq!(out, b"n=420".to_vec());
}

#[test]
fn bytes_and_text_are_appended() {
    let mut out = Vec::new();
    push_text(&mut out, "a\u{e9}");
    push_bytes(&mut out, &[0, 255]);
    push_text(&mut out, "");
    push_bytes(&mut out, &[]);
    assert_eq!(out, vec![b'a', 0xc3, 0xa9, 0, 255]);
}

#[test]
fn same_text_compares_every_character() {
    assert!(same_text("", ""));
    assert!(same_text("GET / HTTP/1.1", "GET / HTTP/1.1"));
    assert!(same_text("h\u{e9}", "h\u{e9}"));
    assert!(!same_text("a", ""));
    assert!(!same_text("", "a"));
    assert!(!same_text("abc", "abd"));
    assert!(!same_text("abc", "ab"));
    assert!(!same_text("abc", "Abc"));
    assert!(!same_text("h\u{e9}", "h\u{e8}"));
    assert!(!same_text("e\u{301}", "\u{e9}"));
}

#[test]
fn same_bytes_compares_every_byte() {
    assert!(same_bytes(&[], &[]));
    assert!(same_bytes(&[1, 2, 3], &[1, 2, 3]));
    assert!(!same_bytes(&[1, 2, 3], &[1, 2]));
    assert!(!same_bytes(&[1, 2, 3], &[1, 2, 4]));
    assert!(!same_bytes(&[0], &[]));
}

#[test]
fn ends_with_looks_at_the_end_only() {
    assert!(ends_with("index.html", ".html"));
    assert!(ends_with("index.html", ""));
    assert!(ends_with("", ""));
    assert!(ends_with(".html", ".html"));
    assert!(ends_with("caf\u{e9}", "\u{e9}"));
    assert!(ends_with("caf\u{e9}", "f\u{e9}"));
    assert!(!ends_with("index.html", ".htm"));
    assert!(!ends_with("html", ".html"));
    assert!(!ends_with("", "a"));
    assert!(!ends_with(".html.bak", ".html"));
    assert!(!ends_with("caf\u{e9}", "e"));
    assert!(!ends_with("caf\u{e9}", "\u{e8}"));
}
