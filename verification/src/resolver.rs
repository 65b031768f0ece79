use vstd::prelude::*;
use vstd::string::StrSliceExecFns;

verus! {

/// How long connecting may take, in milliseconds, unless chosen otherwise.
pub const DEFAULT_CONNECT_TIMEOUT_MS: u64 = 1000;

/// Why resolving or connecting failed.
#[derive(Debug)]
pub enum ResolverError {
    /// Failed to resolve the hostname.
    Resolver(String),
    /// The address is invalid.
    InvalidInput(String),
    /// Connecting took too long.
    Timeout,
    /// Connecting failed with an I/O error, described by the text.
    IoError(String),
}

/// A request to connect to a host, optionally at a port, within a time limit.
#[derive(Debug)]
pub struct Connect {
    pub name: String,
    pub port: Option<u16>,
    pub timeout_ms: u64,
}

impl Connect {
    /// A request to connect to `host` with the port it names and the default
    /// time limit.
    pub fn host(host: &str) -> (r: Connect)
        ensures
            r.name@ == host@,
            r.port is None,
            r.timeout_ms == DEFAULT_CONNECT_TIMEOUT_MS,
    {
        Connect { name: host.to_owned(), port: None, timeout_ms: DEFAULT_CONNECT_TIMEOUT_MS }
    }
}

/// The characters are all decimal digits.
pub open spec fn all_digits(s: Seq<char>) -> bool {
    forall|i: int| 0 <= i < s.len() ==> '0' <= #[trigger] s[i] <= '9'
}

/// The number that decimal digits stand for.
pub open spec fn digits_value(s: Seq<char>) -> int
    decreases s.len(),
{
    if s.len() == 0 {
        0
    } else {
        digits_value(s.drop_last()) * 10 + (s.last() as int - '0' as int)
    }
}

/// What `u16::from_str` reads: an optional `+` and at least one digit, whose
/// value fits 16 bits; anything else is an error.
pub open spec fn parse_u16_spec(s: Seq<char>) -> Option<u16> {
    let body = if s.len() > 0 && s[0] == '+' {
        s.skip(1)
    } else {
        s
    };
    if body.len() > 0 && all_digits(body) && digits_value(body) <= 0xffff {
        Some(digits_value(body) as u16)
    } else {
        None
    }
}

/// Reads a decimal port number.
///
/// Wraps `str::parse::<u16>`, whose documentation asks for an optional `+`
/// followed by digits only and reports an error for anything else, including a
/// value above `u16::MAX`.
#[verifier::external_body]
fn parse_u16(s: &str) -> (r: Option<u16>)
    ensures
        r == parse_u16_spec(s@),
{
    s.parse::<u16>().ok()
}

/// The position of the first `:` in a text, if any.
pub open spec fn first_colon(s: Seq<char>) -> Option<int> {
    if exists|i: int| 0 <= i < s.len() && s[i] == ':' {
        Some(choose|i: int| 0 <= i < s.len() && s[i] == ':' && forall|j: int| 0 <= j < i ==> s[j] != ':')
    } else {
        None
    }
}

/// Splits `host:port` at the first colon: the host is the text before it, and
/// the port is read from the text after it; without a colon, or when that text
/// is not a port number, `port` is used.
pub fn parse(addr: &str, port: u16) -> (r: (String, u16))
    ensures
        ({
            let s = addr@;
            match first_colon(s) {
                Some(i) => r.0@ == s.take(i) && r.1 == (match parse_u16_spec(s.skip(i + 1)) {
                    Some(p) => p,
                    None => port,
                }),
                None => r.0@ == s && r.1 == port,
            }
        }),
{
    let n = addr.unicode_len();
    let mut i: usize = 0;
    while i < n
        invariant
            n == addr@.len(),
            i <= n,
            forall|j: int| 0 <= j < i ==> addr@[j] != ':',
        decreases n - i,
    {
        if addr.get_char(i) == ':' {
            let host = addr.substring_char(0, i);
            let rest = addr.substring_char(i + 1, n);
            let p = match parse_u16(rest) {
                Some(p) => p,
                None => port,
            };
            proof {
                let s = addr@;
                assert(exists|k: int| 0 <= k < s.len() && s[k] == ':');
                let c = choose|k: int| 0 <= k < s.len() && s[k] == ':' && forall|j: int| 0 <= j < k ==> s[j] != ':';
                assert(c == i) by {
                    if c < i {
                        assert(s[c] != ':');
                    }
                    if c > i {
                        assert(s[i as int] != ':');
                    }
                }
                assert(rest@ =~= s.skip(i + 1));
                assert(host@ =~= s.take(i as int));
            }
            return (host.to_owned(), p);
        }
        i = i + 1;
    }
    (addr.to_owned(), port)
}

} // verus!
