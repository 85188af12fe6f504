//! What a connection job computes: matching a request line against the
//! fixed table of known requests, and formatting the response head around
//! a body. One request line is defined to delay its response, which is the
//! scenario that shows workers do not block one another.

use crate::pool::ThreadPool;
use vstd::prelude::*;
use vstd::string::StrSliceExecFns;
use vstd::string::StringExecFns;
use vstd::string::StringSliceAdditionalSpecFns;

verus! {

/// Status line a request maps to: the successful status for the two known
/// request lines, the not-found status for everything else.
pub open spec fn route_status(req: Seq<char>) -> Seq<char> {
    if req == "GET / HTTP/1.1"@ || req == "GET /sleep HTTP/1.1"@ {
        "HTTP/1.1 200 OK"@
    } else {
        "HTTP/1.1 404 NOT FOUND"@
    }
}

/// File whose contents become the response body: the greeting page for the
/// two known request lines, the fallback page for everything else.
pub open spec fn route_filename(req: Seq<char>) -> Seq<char> {
    if req == "GET / HTTP/1.1"@ || req == "GET /sleep HTTP/1.1"@ {
        "hello.html"@
    } else {
        "404.html"@
    }
}

/// Seconds the response is delayed: the slow route waits five seconds,
/// every other request is answered immediately.
pub open spec fn route_delay(req: Seq<char>) -> int {
    if req == "GET /sleep HTTP/1.1"@ {
        5
    } else {
        0
    }
}

/// The decision a connection job acts on: which status line to send, which
/// file to read the body from, and how long to wait first.
pub struct RoutePlan {
    pub status: &'static str,
    pub filename: &'static str,
    pub delay: u64,
}

/// Character-for-character string equality.
pub fn str_eq(a: &str, b: &str) -> (r: bool)
    ensures
        r == (a@ == b@),
{
    let alen = a.unicode_len();
    let blen = b.unicode_len();
    if alen != blen {
        return false;
    }
    let mut i: usize = 0;
    while i < alen
        invariant
            i <= alen,
            alen == a@.len(),
            blen == b@.len(),
            alen == blen,
            forall|j: int| 0 <= j < i ==> a@[j] == b@[j],
        decreases alen - i,
    {
        if a.get_char(i) != b.get_char(i) {
            return false;
        }
        i = i + 1;
    }
    proof {
        assert(a@ =~= b@);
    }
    true
}

/// Matches a request line verbatim against the fixed table of known
/// request lines and returns the plan for its response.
pub fn route(request_line: &str) -> (r: RoutePlan)
    ensures
        r.status@ == route_status(request_line@),
        r.filename@ == route_filename(request_line@),
        r.delay == route_delay(request_line@),
{
    proof {
        reveal_strlit("GET / HTTP/1.1");
        reveal_strlit("GET /sleep HTTP/1.1");
        assert(("GET / HTTP/1.1")@.len() != ("GET /sleep HTTP/1.1")@.len());
    }
    if str_eq(request_line, "GET / HTTP/1.1") {
        RoutePlan { status: "HTTP/1.1 200 OK", filename: "hello.html", delay: 0 }
    } else if str_eq(request_line, "GET /sleep HTTP/1.1") {
        RoutePlan { status: "HTTP/1.1 200 OK", filename: "hello.html", delay: 5 }
    } else {
        RoutePlan { status: "HTTP/1.1 404 NOT FOUND", filename: "404.html", delay: 0 }
    }
}

/// The digit character for one decimal digit.
pub open spec fn decimal_digit(d: nat) -> char {
    if d == 0 {
        '0'
    } else if d == 1 {
        '1'
    } else if d == 2 {
        '2'
    } else if d == 3 {
        '3'
    } else if d == 4 {
        '4'
    } else if d == 5 {
        '5'
    } else if d == 6 {
        '6'
    } else if d == 7 {
        '7'
    } else if d == 8 {
        '8'
    } else {
        '9'
    }
}

/// The decimal rendering of a number, most significant digit first, with
/// no leading zeros (a single zero for zero itself).
pub open spec fn decimal(n: nat) -> Seq<char>
    decreases n,
{
    if n < 10 {
        seq![decimal_digit(n)]
    } else {
        decimal(n / 10).push(decimal_digit(n % 10))
    }
}

/// The one-character string for one decimal digit.
fn digit_str(d: u64) -> (s: &'static str)
    requires
        d < 10,
    ensures
        s@ == seq![decimal_digit(d as nat)],
{
    let s: &'static str = if d == 0 {
        "0"
    } else if d == 1 {
        "1"
    } else if d == 2 {
        "2"
    } else if d == 3 {
        "3"
    } else if d == 4 {
        "4"
    } else if d == 5 {
        "5"
    } else if d == 6 {
        "6"
    } else if d == 7 {
        "7"
    } else if d == 8 {
        "8"
    } else {
        "9"
    };
    proof {
        reveal_strlit("0");
        reveal_strlit("1");
        reveal_strlit("2");
        reveal_strlit("3");
        reveal_strlit("4");
        reveal_strlit("5");
        reveal_strlit("6");
        reveal_strlit("7");
        reveal_strlit("8");
        reveal_strlit("9");
        assert(s@ =~= seq![decimal_digit(d as nat)]);
    }
    s
}

/// Renders a number in decimal.
pub fn decimal_string(n: u64) -> (s: String)
    ensures
        s@ == decimal(n as nat),
    decreases n,
{
    if n < 10 {
        let mut s = String::new();
        s.append(digit_str(n));
        proof {
            assert(s@ =~= decimal(n as nat));
        }
        s
    } else {
        let mut s = decimal_string(n / 10);
        s.append(digit_str(n % 10));
        proof {
            assert(s@ =~= decimal(n as nat));
        }
        s
    }
}

/// The full response for a status line and a body: the status line, a
/// content-length header holding the body's length in bytes, a blank
/// line, then the body.
pub open spec fn response_view(status: Seq<char>, body: Seq<char>, body_bytes: nat) -> Seq<char> {
    status + "\r\nContent-Length: "@ + decimal(body_bytes) + "\r\n\r\n"@ + body
}

/// Formats the response that a worker writes back on the connection.
pub fn build_response(status: &str, body: &str) -> (r: String)
    requires
        body.spec_bytes().len() <= usize::MAX,
    ensures
        r@ == response_view(status@, body@, body.spec_bytes().len()),
{
    let mut r = String::new();
    r.append(status);
    r.append("\r\nContent-Length: ");
    let n = body.len();
    let num = decimal_string(n as u64);
    r.append(num.as_str());
    r.append("\r\n\r\n");
    r.append(body);
    proof {
        assert(n as nat == body.spec_bytes().len());
        assert(r@ =~= response_view(status@, body@, body.spec_bytes().len()));
    }
    r
}

/// Law: a slow route does not hold up a fast one. When a pool of at least
/// two workers has executed exactly two jobs — first a connection on a
/// delayed route, then one on an immediate route — the immediate response
/// finishes strictly before the delayed one.
pub proof fn lemma_slow_route_does_not_block(p: ThreadPool, slow: Seq<char>, fast: Seq<char>)
    requires
        p.wf(),
        p.size() >= 2,
        p.executions().len() == 2,
        p.executions()[0].job.duration == route_delay(slow),
        p.executions()[1].job.duration == route_delay(fast),
        route_delay(slow) > 0,
        route_delay(fast) == 0,
    ensures
        p.executions()[1].finish < p.executions()[0].finish,
{
    crate::pool::lemma_first_jobs_concurrent(p, 0);
    crate::pool::lemma_first_jobs_concurrent(p, 1);
}

} // verus!
