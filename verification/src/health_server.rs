//! Answers to requests for the health of the process.

use vstd::prelude::*;
use vstd::utf8::{decode_utf8, valid_utf8};

use crate::decimal::{dec, usize_to_string};
use crate::text::{
    concat, fields, fields_of, is_white, lines, lines_of, lossy_text, str_eq, strip_cr,
    text_from_bytes, to_chars, views,
};

use crate::text_laws::{
    is_line, is_word, law_lines_are_cut_at_line_feeds, law_words_stand_between_white_space,
};

verus! {

/// What a request asks for.
#[derive(Debug, Clone, Copy, PartialEq, Eq, Structural)]
pub enum Route {
    Live,
    Ready,
    Unknown,
}

/// An answer: the status line with the headers, and the body.
#[derive(Debug)]
pub struct Response {
    pub head: String,
    pub body: String,
}

/// An answer as a value.
pub ghost struct ResponseView {
    pub head: Seq<char>,
    pub body: Seq<char>,
}

impl View for Response {
    type V = ResponseView;

    open spec fn view(&self) -> ResponseView {
        ResponseView { head: self.head@, body: self.body@ }
    }
}

/// The path of a request: the second word of its first line, or the root where there is none.
pub open spec fn path_of(request: Seq<char>) -> Seq<char> {
    let ls = lines_of(request);
    if ls.len() == 0 {
        "/"@
    } else {
        let parts = fields_of(ls[0]);
        if parts.len() >= 2 {
            parts[1]
        } else {
            "/"@
        }
    }
}

/// What a path asks for.
pub open spec fn route_to(path: Seq<char>) -> Route {
    if path == "/live"@ {
        Route::Live
    } else if path == "/ready"@ {
        Route::Ready
    } else {
        Route::Unknown
    }
}

/// What a request asks for, from its text.
pub fn route_text(request: &str) -> (r: Route)
    ensures
        r == route_to(path_of(request@)),
{
    let ls = lines(request);
    let ghost all = lines_of(request@);
    assert(all.len() == ls@.len());
    let mut path: String = "/".to_string();
    if ls.len() > 0 {
        assert(all[0] == ls@[0]@);
        let parts = fields(ls[0].as_str());
        if parts.len() >= 2 {
            assert(views(parts@)[1] == parts@[1]@);
            path = parts[1].clone();
        }
    }
    if str_eq(path.as_str(), "/live") {
        Route::Live
    } else if str_eq(path.as_str(), "/ready") {
        Route::Ready
    } else {
        Route::Unknown
    }
}

/// What a request asks for.
pub fn route(request: &[u8]) -> (r: Route)
    ensures
        r == route_to(path_of(lossy_text(request@))),
        valid_utf8(request@) ==> r == route_to(path_of(decode_utf8(request@))),
{
    let text = text_from_bytes(request);
    route_text(text.as_str())
}

/// The status line of an answer.
pub open spec fn status_of(route: Route, ready: bool) -> Seq<char> {
    match route {
        Route::Live => "HTTP/1.1 200 OK\r\n"@,
        Route::Ready => if ready {
            "HTTP/1.1 200 OK\r\n"@
        } else {
            "HTTP/1.1 503 Service Unavailable\r\n"@
        },
        Route::Unknown => "HTTP/1.1 404 Not Found\r\n"@,
    }
}

/// The body of an answer.
pub open spec fn body_of(route: Route, ready: bool) -> Seq<char> {
    match route {
        Route::Live => "live"@,
        Route::Ready => if ready {
            "ready"@
        } else {
            "not ready"@
        },
        Route::Unknown => "not found"@,
    }
}

/// The answer to what is asked for, given whether the process is ready.
pub open spec fn response_to(route: Route, ready: bool) -> ResponseView {
    ResponseView {
        head: status_of(route, ready) + "Content-Type: text/plain\r\nContent-Length: "@ + dec(
            body_of(route, ready).len(),
        ) + "\r\nConnection: close\r\n\r\n"@,
        body: body_of(route, ready),
    }
}

/// The answer to what is asked for, given whether the process is ready.
pub fn respond(route: Route, ready: bool) -> (r: Response)
    ensures
        r@ == response_to(route, ready),
{
    let (status, body): (&str, &str) = match route {
        Route::Live => ("HTTP/1.1 200 OK\r\n", "live"),
        Route::Ready => if ready {
            ("HTTP/1.1 200 OK\r\n", "ready")
        } else {
            ("HTTP/1.1 503 Service Unavailable\r\n", "not ready")
        },
        Route::Unknown => ("HTTP/1.1 404 Not Found\r\n", "not found"),
    };
    let mut head = concat(status, "Content-Type: text/plain\r\nContent-Length: ");
    let chars = to_chars(body);
    let length = usize_to_string(chars.len());
    head.append(length.as_str());
    head.append("\r\nConnection: close\r\n\r\n");
    Response { head, body: body.to_string() }
}

/// The process answers that it is live whether or not it is ready, and readiness is refused
/// exactly where it is not ready.
pub proof fn law_readiness_decides_only_ready(route: Route)
    ensures
        route != Route::Ready ==> response_to(route, true) == response_to(route, false),
        status_of(Route::Ready, true) == status_of(Route::Live, false),
        status_of(Route::Ready, true) != status_of(Route::Ready, false),
{
    reveal_strlit("HTTP/1.1 200 OK\r\n");
    reveal_strlit("HTTP/1.1 503 Service Unavailable\r\n");
    assert("HTTP/1.1 200 OK\r\n"@[9] == '2');
    assert("HTTP/1.1 503 Service Unavailable\r\n"@[9] == '5');
}

/// The length that an answer gives is that of its body in bytes, for its bodies hold one byte per
/// character.
pub proof fn law_bodies_are_ascii(route: Route, ready: bool)
    ensures
        forall|i: int|
            0 <= i < body_of(route, ready).len() ==> (#[trigger] body_of(route, ready)[i] as u32)
                < 128,
{
    reveal_strlit("live");
    reveal_strlit("ready");
    reveal_strlit("not ready");
    reveal_strlit("not found");
}

/// The process is live, it is ready or not, and nothing else is found: each has its own status.
pub proof fn law_each_answer_has_its_status(path: Seq<char>, ready: bool)
    ensures
        ({
            let r = response_to(route_to(path), ready);
            let status = if path == "/live"@ || (path == "/ready"@ && ready) {
                "HTTP/1.1 200 OK\r\n"@
            } else if path == "/ready"@ {
                "HTTP/1.1 503 Service Unavailable\r\n"@
            } else {
                "HTTP/1.1 404 Not Found\r\n"@
            };
            &&& r.head == status + "Content-Type: text/plain\r\nContent-Length: "@ + dec(
                r.body.len(),
            ) + "\r\nConnection: close\r\n\r\n"@
            &&& path == "/live"@ ==> r.body == "live"@
            &&& path == "/ready"@ && ready ==> r.body == "ready"@
            &&& path == "/ready"@ && !ready ==> r.body == "not ready"@
            &&& path != "/live"@ && path != "/ready"@ ==> r.body == "not found"@
        }),
{
    reveal_strlit("/live");
    reveal_strlit("/ready");
    assert("/live"@.len() == 5);
    assert("/ready"@.len() == 6);
}

/// A request asks for the path that its first line names behind the method, whatever else the line
/// and the request hold.
pub proof fn law_path_stands_behind_the_method(
    method: Seq<char>,
    path: Seq<char>,
    more: Seq<char>,
    rest: Seq<char>,
)
    requires
        is_word(method),
        is_word(path),
        is_line(more),
        more.len() > 0 ==> is_white(more[0]),
    ensures
        path_of(method + seq![' '] + path + more + seq!['\n'] + rest) == path,
        path_of(Seq::empty()) == "/"@,
        path_of(method) == "/"@,
{
    let line = method + seq![' '] + path + more;
    assert(is_white(' '));
    assert(is_white('\n'));
    assert forall|i: int| 0 <= i < line.len() implies #[trigger] line[i] != '\n' by {
        if i < method.len() {
            assert(line[i] == method[i]);
        } else if method.len() < i < method.len() + 1 + path.len() {
            assert(line[i] == path[i - method.len() - 1]);
        } else if i > method.len() {
            assert(line[i] == more[i - method.len() - 1 - path.len()]);
        }
    }
    law_lines_are_cut_at_line_feeds(line, rest);
    let kept = strip_cr(line);
    let tail = if more.len() > 0 && more.last() == '\r' {
        more.drop_last()
    } else {
        more
    };
    if more.len() == 0 {
        assert(line.last() == path[path.len() - 1]);
        assert(is_white('\r'));
    } else {
        assert(line.last() == more.last());
    }
    assert(kept =~= method + seq![' '] + path + tail);
    let none = Seq::<char>::empty();
    let space = seq![' '];
    law_words_stand_between_white_space(none, method, space + path + tail);
    assert(none + method + (space + path + tail) =~= kept);
    law_words_stand_between_white_space(space, path, tail);
    assert(fields_of(kept) == seq![method] + (seq![path] + fields_of(tail)));
    assert(lines_of(line + seq!['\n'] + rest)[0] == kept);
    assert forall|i: int| 0 <= i < method.len() implies #[trigger] method[i] != '\n' by {
        assert(!is_white(method[i]));
    }
    law_lines_are_cut_at_line_feeds(method, rest);
    law_words_stand_between_white_space(none, method, none);
    assert(none + method + none =~= method);
    assert(fields_of(method) =~= seq![method]);
}

}
