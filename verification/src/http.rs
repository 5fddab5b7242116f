//! The demo server's pure logic: classifying a request line against the
//! fixed route table and assembling the fixed-format response
//! `STATUS-LINE\r\nContent-Length: <n>\r\n\r\n<body>`.
//!
//! Reading the request line from a connection, sleeping on the slow route,
//! loading a content file and writing the response back are I/O and stay in
//! the unverified driver; it calls down here for every decision about what
//! the bytes mean and what to send.

use vstd::prelude::*;
use vstd::string::StringExecFns;
use vstd::utf8::encode_utf8;

verus! {

/// The decimal digit `d` as a character.
pub open spec fn digit_char(d: nat) -> char
    recommends
        d < 10,
{
    if d == 0 {
        '0'
    } else if d == 1 {
        '1'
    } else if d == 2 {
        '2'
    } else if d == 3 {
        '3'
    } else if d == 4 {
        '4'
    } else if d == 5 {
        '5'
    } else if d == 6 {
        '6'
    } else if d == 7 {
        '7'
    } else if d == 8 {
        '8'
    } else {
        '9'
    }
}

/// The decimal rendering of `n`, most significant digit first, with no
/// leading zeroes (a single `'0'` for zero itself).
pub open spec fn dec_seq(n: nat) -> Seq<char>
    decreases n,
{
    if n < 10 {
        seq![digit_char(n)]
    } else {
        dec_seq(n / 10).push(digit_char(n % 10))
    }
}

/// A single-character string for the digit `d`.
fn digit_str(d: usize) -> (s: &'static str)
    requires
        d < 10,
    ensures
        s@ == seq![digit_char(d as nat)],
{
    proof {
        reveal_strlit("0");
        reveal_strlit("1");
        reveal_strlit("2");
        reveal_strlit("3");
        reveal_strlit("4");
        reveal_strlit("5");
        reveal_strlit("6");
        reveal_strlit("7");
        reveal_strlit("8");
        reveal_strlit("9");
    }
    let s = match d {
        0 => "0",
        1 => "1",
        2 => "2",
        3 => "3",
        4 => "4",
        5 => "5",
        6 => "6",
        7 => "7",
        8 => "8",
        _ => "9",
    };
    proof {
        assert(s@ =~= seq![digit_char(d as nat)]);
    }
    s
}

/// Renders `n` in decimal.
pub fn usize_to_dec(n: usize) -> (s: String)
    ensures
        s@ == dec_seq(n as nat),
    decreases n,
{
    if n < 10 {
        digit_str(n).to_owned()
    } else {
        let mut s = usize_to_dec(n / 10);
        s.append(digit_str(n % 10));
        proof {
            assert(s@ =~= dec_seq(n as nat));
        }
        s
    }
}

/// The full response for a status line and a body: the status line, the
/// `Content-Length` header giving the body's size in bytes, a blank line,
/// then the body.
pub open spec fn response_of(status: Seq<char>, content: Seq<char>) -> Seq<char> {
    status + "\r\nContent-Length: "@ + dec_seq(encode_utf8(content).len()) + "\r\n\r\n"@ + content
}

/// Assembles the response for `status_line` and `content`, exactly as
/// [`response_of`] describes it. The advertised length is the body's size
/// in bytes, not characters.
pub fn build_response(status_line: &str, content: String) -> (r: String)
    requires
        encode_utf8(content@).len() <= usize::MAX,
    ensures
        r@ == response_of(status_line@, content@),
{
    let content_len: usize = content.as_str().len();
    proof {
        assert(content_len as nat == encode_utf8(content@).len());
    }
    let mut r = status_line.to_owned();
    r.append("\r\nContent-Length: ");
    let len_str = usize_to_dec(content_len);
    r.append(len_str.as_str());
    r.append("\r\n\r\n");
    r.append(content.as_str());
    proof {
        assert(r@ =~= response_of(status_line@, content@));
    }
    r
}

/// The demo server's route table: the root page, the artificially slow
/// page, and everything else.
#[derive(Clone, Copy, Debug, PartialEq, Eq, Structural)]
pub enum Route {
    Root,
    Sleep,
    NotFound,
}

/// Which route a request line selects.
pub open spec fn route_of(line: Seq<char>) -> Route {
    if line == "GET / HTTP/1.1"@ {
        Route::Root
    } else if line == "GET /sleep HTTP/1.1"@ {
        Route::Sleep
    } else {
        Route::NotFound
    }
}

/// Classifies a request line against the fixed route table.
pub fn classify_request(request_line: &str) -> (r: Route)
    ensures
        r == route_of(request_line@),
{
    let line = request_line.to_owned();
    let root: String = "GET / HTTP/1.1".to_owned();
    let sleep: String = "GET /sleep HTTP/1.1".to_owned();
    if line == root {
        Route::Root
    } else if line == sleep {
        Route::Sleep
    } else {
        Route::NotFound
    }
}

/// The status line sent for a route: the slow route serves the same page as
/// the root, only later; anything unknown is a 404.
pub open spec fn status_line_of(r: Route) -> Seq<char> {
    match r {
        Route::NotFound => "HTTP/1.1 404 NOT FOUND"@,
        _ => "HTTP/1.1 200 OK"@,
    }
}

/// The status line for `r`.
pub fn status_line_for(r: &Route) -> (s: &'static str)
    ensures
        s@ == status_line_of(*r),
{
    match r {
        Route::NotFound => "HTTP/1.1 404 NOT FOUND",
        _ => "HTTP/1.1 200 OK",
    }
}

/// The name of the file whose contents become the response body.
pub open spec fn content_file_of(r: Route) -> Seq<char> {
    match r {
        Route::NotFound => "404.html"@,
        _ => "hello.html"@,
    }
}

/// The content file name for `r`.
pub fn content_file_for(r: &Route) -> (s: &'static str)
    ensures
        s@ == content_file_of(*r),
{
    match r {
        Route::NotFound => "404.html",
        _ => "hello.html",
    }
}

/// How long the handler simulates work before answering: the slow route
/// pauses eight seconds, every other route answers at once.
pub fn delay_secs_for(r: &Route) -> (d: u64)
    ensures
        d == 8u64 <==> *r is Sleep,
        *r is Sleep || d == 0u64,
{
    match r {
        Route::Sleep => 8,
        _ => 0,
    }
}

} // verus!
