//! The configuration of the HTTP transport for remote revocation: where the
//! signed revocation snapshot is fetched from, how long a fetch may take, and
//! which HTTP responses are taken as a snapshot at all.
use vstd::prelude::*;
use vstd::string::StringExecFns;

verus! {

/// Fetches the current signed revocation snapshot from `url`.
pub struct HttpSnapshotSource {
    url: String,
    timeout_secs: u64,
}

impl HttpSnapshotSource {
    /// The endpoint, as text.
    pub closed spec fn spec_url(&self) -> Seq<char> {
        self.url@
    }

    /// The request timeout in seconds.
    pub closed spec fn spec_timeout(&self) -> u64 {
        self.timeout_secs
    }

    /// A source pointed at a revocation-log endpoint. Default timeout is 10s.
    pub fn new(url: &str) -> (s: HttpSnapshotSource)
        ensures
            s.spec_url() == url@,
            s.spec_timeout() == 10,
    {
        HttpSnapshotSource { url: url.to_owned(), timeout_secs: 10 }
    }

    /// Override the request timeout (seconds).
    pub fn with_timeout(self, secs: u64) -> (s: HttpSnapshotSource)
        ensures
            s.spec_url() == self.spec_url(),
            s.spec_timeout() == secs,
    {
        let mut s = self;
        s.timeout_secs = secs;
        s
    }

    /// The endpoint URL.
    pub fn url(&self) -> (r: &str)
        ensures
            r@ == self.spec_url(),
    {
        self.url.as_str()
    }

    /// The request timeout in seconds.
    pub fn timeout_secs(&self) -> (r: u64)
        ensures
            r == self.spec_timeout(),
    {
        self.timeout_secs
    }
}

/// The text of one decimal digit `d` (0 to 9).
pub open spec fn spec_digit_text(d: nat) -> Seq<char> {
    if d == 0 {
        "0"@
    } else if d == 1 {
        "1"@
    } else if d == 2 {
        "2"@
    } else if d == 3 {
        "3"@
    } else if d == 4 {
        "4"@
    } else if d == 5 {
        "5"@
    } else if d == 6 {
        "6"@
    } else if d == 7 {
        "7"@
    } else if d == 8 {
        "8"@
    } else {
        "9"@
    }
}

/// The decimal text of `n`, most significant digit first.
pub open spec fn spec_decimal_text(n: nat) -> Seq<char>
    decreases n,
{
    if n < 10 {
        spec_digit_text(n)
    } else {
        spec_decimal_text(n / 10) + spec_digit_text(n % 10)
    }
}

/// The decimal text of a status code, with a leading `-` when negative.
pub open spec fn spec_status_text(code: i32) -> Seq<char> {
    if code < 0 {
        "-"@ + spec_decimal_text((-code) as nat)
    } else {
        spec_decimal_text(code as nat)
    }
}

/// Whether an HTTP status code is a success (2xx).
pub open spec fn spec_status_ok(code: i32) -> bool {
    200 <= code < 300
}

/// Exactly the 2xx codes count as success: every code from 200 through 299,
/// and no other (no redirect, no informational or error code).
pub proof fn lemma_status_ok_is_2xx(code: i32)
    ensures
        spec_status_ok(code) <==> 200 <= code && code < 300,
        !spec_status_ok(199) && spec_status_ok(200) && spec_status_ok(299) && !spec_status_ok(300),
{
}

fn digit_text(d: u64) -> (r: &'static str)
    requires
        d < 10,
    ensures
        r@ == spec_digit_text(d as nat),
{
    if d == 0 {
        "0"
    } else if d == 1 {
        "1"
    } else if d == 2 {
        "2"
    } else if d == 3 {
        "3"
    } else if d == 4 {
        "4"
    } else if d == 5 {
        "5"
    } else if d == 6 {
        "6"
    } else if d == 7 {
        "7"
    } else if d == 8 {
        "8"
    } else {
        "9"
    }
}

fn append_decimal(out: &mut String, n: u64)
    ensures
        final(out)@ == old(out)@ + spec_decimal_text(n as nat),
    decreases n,
{
    if n >= 10 {
        append_decimal(out, n / 10);
    }
    out.append(digit_text(n % 10));
    proof {
        if n < 10 {
            assert(n % 10 == n);
        }
    }
}

/// How the revocation log's HTTP response is taken before its body is read: a
/// 2xx status is accepted; any other status fails closed with the message
/// `revocation log returned HTTP <status>`.
pub fn check_status(status_code: i32) -> (r: Result<(), String>)
    ensures
        r is Ok <==> 200 <= status_code && status_code < 300,
        spec_status_ok(status_code) ==> r is Ok,
        !spec_status_ok(status_code) ==> (r matches Err(m) && m@ == "revocation log returned HTTP "@
            + spec_status_text(status_code)),
{
    if 200 <= status_code && status_code < 300 {
        return Ok(());
    }
    let mut m = String::new();
    m.append("revocation log returned HTTP ");
    if status_code < 0 {
        m.append("-");
        let magnitude: i64 = -(status_code as i64);
        append_decimal(&mut m, magnitude as u64);
    } else {
        append_decimal(&mut m, status_code as u64);
    }
    Err(m)
}

} // verus!
