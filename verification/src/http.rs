//! The server's answers: which page a request line asks for, and the bytes of
//! the response.
//!
//! Answering takes two steps with the caller's work between them. [`route`]
//! reads the request line and says which page to send, with which status, and
//! after how long a pause. The caller pauses, reads the page, and hands what
//! it read to [`respond`], which lays out the response.
use vstd::prelude::*;
use vstd::utf8::encode_utf8;
use crate::text::{decimal, ends_with, push_bytes, push_decimal, push_text, same_text};

verus! {

/// How long, in seconds, the answer to the slow request is held back.
pub const SLEEP_SECONDS: u64 = 5;

/// The status of a response.
#[derive(Debug, Clone, Copy, PartialEq, Eq, Structural, Hash)]
pub enum Status {
    /// 200: the request line is a known one.
    Success,
    /// 404: the request line is not known.
    NotFound,
}

/// The pages that the server has.
#[derive(Debug, Clone, Copy, PartialEq, Eq, Structural, Hash)]
pub enum Page {
    /// The greeting.
    Hello,
    /// The style sheet.
    Styles,
    /// The page for requests that are not known.
    NotFound,
}

/// The kind of content, as the `Content-Type` header names it.
#[derive(Debug, Clone, Copy, PartialEq, Eq, Structural, Hash)]
pub enum ContentType {
    Html,
    Css,
    Plain,
}

/// The answer to a request line, before the page is read.
#[derive(Debug, Clone, Copy, PartialEq, Eq, Structural, Hash)]
pub struct Route {
    /// The status to answer with.
    pub status: Status,
    /// The page to send.
    pub page: Page,
    /// How many seconds to wait before the page is read and sent.
    pub delay_seconds: u64,
}

impl Status {
    /// The numeric code.
    pub open spec fn code_value(self) -> u16 {
        match self {
            Status::Success => 200,
            Status::NotFound => 404,
        }
    }

    /// The status line, as text.
    pub open spec fn line_text(self) -> Seq<char> {
        match self {
            Status::Success => "HTTP/1.1 200 OK"@,
            Status::NotFound => "HTTP/1.1 404 NOT FOUND"@,
        }
    }

    /// The numeric code: 200 or 404.
    pub fn code(&self) -> (code: u16)
        ensures
            code == self.code_value(),
    {
        match self {
            Status::Success => 200,
            Status::NotFound => 404,
        }
    }

    /// The first line of a response with this status.
    pub fn line(&self) -> (line: &'static str)
        ensures
            line@ == self.line_text(),
    {
        match self {
            Status::Success => "HTTP/1.1 200 OK",
            Status::NotFound => "HTTP/1.1 404 NOT FOUND",
        }
    }
}

impl Page {
    /// Where the page's content is kept, as text.
    pub open spec fn path_text(self) -> Seq<char> {
        match self {
            Page::Hello => "pages/hello.html"@,
            Page::Styles => "css/styles.css"@,
            Page::NotFound => "pages/404.html"@,
        }
    }

    /// Where the page's content is kept.
    pub fn path(&self) -> (path: &'static str)
        ensures
            path@ == self.path_text(),
    {
        match self {
            Page::Hello => "pages/hello.html",
            Page::Styles => "css/styles.css",
            Page::NotFound => "pages/404.html",
        }
    }
}

impl ContentType {
    /// The name of the kind, as text.
    pub open spec fn name_text(self) -> Seq<char> {
        match self {
            ContentType::Html => "text/html"@,
            ContentType::Css => "text/css"@,
            ContentType::Plain => "text/plain"@,
        }
    }

    /// The name of the kind, as the header gives it.
    pub fn name(&self) -> (name: &'static str)
        ensures
            name@ == self.name_text(),
    {
        match self {
            ContentType::Html => "text/html",
            ContentType::Css => "text/css",
            ContentType::Plain => "text/plain",
        }
    }
}

/// The answer to each request line. Three lines are known, letter for
/// letter; every other line, the empty one too, is answered with the
/// not-found page.
pub open spec fn route_of(line: Seq<char>) -> Route {
    if line == "GET / HTTP/1.1"@ {
        Route { status: Status::Success, page: Page::Hello, delay_seconds: 0 }
    } else if line == "GET /css/styles.css HTTP/1.1"@ {
        Route { status: Status::Success, page: Page::Styles, delay_seconds: 0 }
    } else if line == "GET /sleep HTTP/1.1"@ {
        Route { status: Status::Success, page: Page::Hello, delay_seconds: SLEEP_SECONDS }
    } else {
        Route { status: Status::NotFound, page: Page::NotFound, delay_seconds: 0 }
    }
}

/// The kind of content kept at `path`, by the end of the path.
pub open spec fn content_type_of(path: Seq<char>) -> ContentType {
    if ".html"@.is_suffix_of(path) {
        ContentType::Html
    } else if ".css"@.is_suffix_of(path) {
        ContentType::Css
    } else {
        ContentType::Plain
    }
}

/// The body of a response: what was read, or a fixed text where nothing
/// could be read.
pub open spec fn body_of(contents: Option<Seq<u8>>) -> Seq<u8> {
    match contents {
        Some(bytes) => bytes,
        None => encode_utf8("File not found"@),
    }
}

/// The bytes of a response: the status line, the length of the body in
/// bytes, the kind of content, an empty line, and the body.
pub open spec fn response_bytes(status: Status, content_type: ContentType, body: Seq<u8>) -> Seq<
    u8,
> {
    encode_utf8(status.line_text()) + encode_utf8("\r\nContent-Length: "@) + decimal(body.len())
        + encode_utf8("\r\nContent-Type: "@) + encode_utf8(content_type.name_text())
        + encode_utf8("\r\n\r\n"@) + body
}

/// The response to a request that was routed to `route`, given what was
/// read at the page's path.
pub open spec fn response_of(route: Route, contents: Option<Seq<u8>>) -> Seq<u8> {
    response_bytes(route.status, content_type_of(route.page.path_text()), body_of(contents))
}

/// Reads a request line: which page to send, with which status, and after
/// how long a pause.
pub fn route(request_line: &str) -> (answer: Route)
    ensures
        answer == route_of(request_line@),
{
    if same_text(request_line, "GET / HTTP/1.1") {
        Route { status: Status::Success, page: Page::Hello, delay_seconds: 0 }
    } else if same_text(request_line, "GET /css/styles.css HTTP/1.1") {
        Route { status: Status::Success, page: Page::Styles, delay_seconds: 0 }
    } else if same_text(request_line, "GET /sleep HTTP/1.1") {
        Route { status: Status::Success, page: Page::Hello, delay_seconds: SLEEP_SECONDS }
    } else {
        Route { status: Status::NotFound, page: Page::NotFound, delay_seconds: 0 }
    }
}

/// The kind of content kept at `path`: HTML where the path ends in `.html`,
/// CSS where it ends in `.css`, plain text otherwise.
pub fn content_type_for(path: &str) -> (kind: ContentType)
    ensures
        kind == content_type_of(path@),
{
    if ends_with(path, ".html") {
        ContentType::Html
    } else if ends_with(path, ".css") {
        ContentType::Css
    } else {
        ContentType::Plain
    }
}

/// Lays out a response with the given status, kind of content and body.
pub fn render(status: Status, content_type: ContentType, body: &[u8]) -> (response: Vec<u8>)
    ensures
        response@ == response_bytes(status, content_type, body@),
{
    let mut response: Vec<u8> = Vec::new();
    push_text(&mut response, status.line());
    push_text(&mut response, "\r\nContent-Length: ");
    push_decimal(&mut response, body.len());
    push_text(&mut response, "\r\nContent-Type: ");
    push_text(&mut response, content_type.name());
    push_text(&mut response, "\r\n\r\n");
    push_bytes(&mut response, body);
    assert(response@ =~= response_bytes(status, content_type, body@));
    response
}

/// The response to a request that was routed to `route`. `contents` is what
/// was read at the page's path, or `None` where it could not be read; a
/// fixed text then stands in for the page.
pub fn respond(route: Route, contents: Option<&str>) -> (response: Vec<u8>)
    ensures
        response@ == response_of(
            route,
            match contents {
                Some(text) => Some(encode_utf8(text@)),
                None => None,
            },
        ),
{
    let kind = content_type_for(route.page.path());
    match contents {
        Some(text) => render(route.status, kind, text.as_bytes()),
        None => render(route.status, kind, "File not found".as_bytes()),
    }
}

/// The known pages are sent as what they are: the greeting and the
/// not-found page as HTML, the style sheet as CSS.
pub proof fn lemma_known_pages_have_their_kind()
    ensures
        content_type_of(Page::Hello.path_text()) == ContentType::Html,
        content_type_of(Page::Styles.path_text()) == ContentType::Css,
        content_type_of(Page::NotFound.path_text()) == ContentType::Html,
{
    reveal_strlit(".html");
    reveal_strlit(".css");
    reveal_strlit("pages/hello.html");
    reveal_strlit("css/styles.css");
    reveal_strlit("pages/404.html");
    assert(".html"@ =~= "pages/hello.html"@.subrange(11, 16));
    assert(".html"@ =~= "pages/404.html"@.subrange(9, 14));
    assert(".css"@ =~= "css/styles.css"@.subrange(10, 14));
    assert(".html"@[0] != "css/styles.css"@.subrange(9, 14)[0]);
}

/// Only the three known request lines are answered with status 200, and
/// only the slow one is held back.
pub proof fn lemma_unknown_lines_are_not_found(line: Seq<char>)
    ensures
        route_of(line).status == Status::Success <==> (line == "GET / HTTP/1.1"@ || line
            == "GET /css/styles.css HTTP/1.1"@ || line == "GET /sleep HTTP/1.1"@),
        route_of(line).status == Status::NotFound ==> route_of(line).page == Page::NotFound,
        route_of(line).delay_seconds != 0 <==> line == "GET /sleep HTTP/1.1"@,
{
    reveal_strlit("GET / HTTP/1.1");
    reveal_strlit("GET /css/styles.css HTTP/1.1");
    reveal_strlit("GET /sleep HTTP/1.1");
    assert("GET / HTTP/1.1"@.len() == 14);
    assert("GET /css/styles.css HTTP/1.1"@.len() == 28);
    assert("GET /sleep HTTP/1.1"@.len() == 19);
}

} // verus!
