use vstd::prelude::*;

use crate::error::{Error, ErrorKind};
use crate::text::{
    decimal, digit_char, find, find_first, find_last, occurs_at, push_decimal, push_str, rfind,
    slice_chars, str_chars, string_from_chars,
};

verus! {

/// An RTMP URL: `rtmp[s]://host[:port]/app/stream_name`.
///
/// [`RtmpUrl::parse`] reads the stream name from the URL; use
/// [`RtmpUrl::parse_with_stream_name`] to give it separately.
#[derive(Debug, Clone, PartialEq, Eq, Hash)]
pub struct RtmpUrl {
    /// The server's host name or IP address (an IPv6 address keeps its brackets).
    pub host: String,
    /// The server's port.
    pub port: u16,
    /// The application name.
    pub app: String,
    /// The stream name.
    pub stream_name: String,
    /// Whether TLS is used (`rtmps`).
    pub tls: bool,
}

/// The value of an RTMP URL.
pub struct RtmpUrlModel {
    pub host: Seq<char>,
    pub port: u16,
    pub app: Seq<char>,
    pub stream_name: Seq<char>,
    pub tls: bool,
}

impl View for RtmpUrl {
    type V = RtmpUrlModel;

    open spec fn view(&self) -> RtmpUrlModel {
        RtmpUrlModel {
            host: self.host@,
            port: self.port,
            app: self.app@,
            stream_name: self.stream_name@,
            tls: self.tls,
        }
    }
}

/// `c` is an ASCII digit.
pub open spec fn is_digit(c: char) -> bool {
    48 <= (c as u32) <= 57
}

/// Every character of `s` is an ASCII digit.
pub open spec fn all_digits(s: Seq<char>) -> bool {
    forall|i: int| 0 <= i < s.len() ==> is_digit(#[trigger] s[i])
}

/// The number that the decimal digits `s` write.
pub open spec fn decimal_value(s: Seq<char>) -> nat
    decreases s.len(),
{
    if s.len() == 0 {
        0
    } else {
        decimal_value(s.drop_last()) * 10 + ((s.last() as u32) - 48) as nat
    }
}

/// What reading `s` as a `u16` gives: an optional `+`, then one or more decimal digits
/// whose value fits in 16 bits.
pub open spec fn parse_u16(s: Seq<char>) -> Option<u16> {
    let digits = if s.len() > 0 && s[0] == '+' {
        s.skip(1)
    } else {
        s
    };
    if digits.len() == 0 || !all_digits(digits) || decimal_value(digits) > 65535 {
        None
    } else {
        Some(decimal_value(digits) as u16)
    }
}

/// The port used when none is given: 443 for `rtmps`, 1935 for `rtmp`.
pub open spec fn default_port(tls: bool) -> u16 {
    if tls {
        443
    } else {
        1935
    }
}

/// The host and port of `host[:port]`. A host starting with `[` is an IPv6 address that
/// ends at the first `]`; only `:port` may follow it. Otherwise the port follows the last
/// `:`, and must then be all digits.
pub open spec fn parse_host_port(hp: Seq<char>, tls: bool) -> Option<(Seq<char>, u16)> {
    if hp.len() > 0 && hp[0] == '[' {
        match find_first(hp, seq![']']) {
            None => None,
            Some(b) => {
                let host = hp.take(b + 1);
                let rem = hp.skip(b + 1);
                if rem.len() == 0 {
                    Some((host, default_port(tls)))
                } else if rem[0] == ':' {
                    match parse_u16(rem.skip(1)) {
                        Some(p) => Some((host, p)),
                        None => None,
                    }
                } else {
                    None
                }
            },
        }
    } else {
        match find_last(hp, ':') {
            Some(c) => {
                let port = hp.skip(c + 1);
                if all_digits(port) {
                    match parse_u16(port) {
                        Some(p) => Some((hp.take(c), p)),
                        None => None,
                    }
                } else {
                    None
                }
            },
            None => Some((hp, default_port(tls))),
        }
    }
}

/// The TLS flag, host, port and path of `scheme://host[:port]/path`; the scheme is `rtmp`
/// or `rtmps`, and the host is not empty.
pub open spec fn parse_scheme_host_port(s: Seq<char>) -> Option<(bool, Seq<char>, u16, Seq<char>)> {
    match find_first(s, seq![':', '/', '/']) {
        None => None,
        Some(i) => {
            let scheme = s.take(i);
            let rest = s.skip(i + 3);
            if scheme != seq!['r', 't', 'm', 'p'] && scheme != seq!['r', 't', 'm', 'p', 's'] {
                None
            } else {
                let tls = scheme == seq!['r', 't', 'm', 'p', 's'];
                match find_first(rest, seq!['/']) {
                    None => None,
                    Some(j) => match parse_host_port(rest.take(j), tls) {
                        None => None,
                        Some((host, port)) => if host.len() == 0 {
                            None
                        } else {
                            Some((tls, host, port, rest.skip(j + 1)))
                        },
                    },
                }
            }
        },
    }
}

/// The URL that `s` writes, with the path split at its last `/` into a non-empty
/// application name and a non-empty stream name.
pub open spec fn parse_url(s: Seq<char>) -> Option<RtmpUrlModel> {
    match parse_scheme_host_port(s) {
        None => None,
        Some((tls, host, port, path)) => match find_last(path, '/') {
            None => None,
            Some(k) => if k == 0 || k + 1 == path.len() {
                None
            } else {
                Some(RtmpUrlModel { host, port, app: path.take(k), stream_name: path.skip(k + 1), tls })
            },
        },
    }
}

/// The URL that `s` writes with its whole path as the application name, and the given
/// stream name; both must be non-empty.
pub open spec fn parse_url_with_stream_name(s: Seq<char>, stream_name: Seq<char>) -> Option<RtmpUrlModel> {
    match parse_scheme_host_port(s) {
        None => None,
        Some((tls, host, port, path)) => if path.len() == 0 || stream_name.len() == 0 {
            None
        } else {
            Some(RtmpUrlModel { host, port, app: path, stream_name, tls })
        },
    }
}

/// The text of a URL: `scheme://host:port/app/stream_name`.
pub open spec fn url_text(u: RtmpUrlModel) -> Seq<char> {
    (if u.tls {
        seq!['r', 't', 'm', 'p', 's']
    } else {
        seq!['r', 't', 'm', 'p']
    }) + seq![':', '/', '/'] + u.host + seq![':'] + decimal(u.port as nat) + seq!['/'] + u.app + seq!['/']
        + u.stream_name
}

/// Reads a port number: an optional `+` and decimal digits that fit in 16 bits.
fn parse_port(s: &Vec<char>) -> (r: Option<u16>)
    ensures
        r == parse_u16(s@),
{
    let start: usize = if s.len() > 0 && s[0] == '+' {
        1
    } else {
        0
    };
    let n = s.len();
    let ghost digits = s@.skip(start as int);
    assert(digits =~= (if s@.len() > 0 && s@[0] == '+' {
        s@.skip(1)
    } else {
        s@
    }));
    if start == n {
        return None;
    }
    let mut value: u32 = 0;
    let mut i: usize = start;
    while i < n
        invariant
            start <= i <= n,
            n == s@.len(),
            digits == s@.skip(start as int),
            digits == (if s@.len() > 0 && s@[0] == '+' {
                s@.skip(1)
            } else {
                s@
            }),
            all_digits(s@.subrange(start as int, i as int)),
            value == if decimal_value(s@.subrange(start as int, i as int)) > 65536 {
                65536
            } else {
                decimal_value(s@.subrange(start as int, i as int))
            },
        decreases n - i,
    {
        let c = s[i] as u32;
        if c < 48 || c > 57 {
            assert(!all_digits(digits)) by {
                assert(digits[i - start] == s@[i as int]);
            }
            return None;
        }
        let ghost prefix = s@.subrange(start as int, i as int);
        let ghost next = s@.subrange(start as int, i + 1);
        assert(next.drop_last() =~= prefix);
        assert(all_digits(next)) by {
            assert forall|k: int| 0 <= k < next.len() implies is_digit(#[trigger] next[k]) by {
                if k < prefix.len() {
                    assert(next[k] == prefix[k]);
                }
            }
        }
        let d = c - 48;
        value = if value >= 6554 {
            65536
        } else {
            let v = value * 10 + d;
            if v > 65536 {
                65536
            } else {
                v
            }
        };
        i = i + 1;
    }
    assert(s@.subrange(start as int, n as int) =~= digits);
    if value > 65535 {
        None
    } else {
        Some(value as u16)
    }
}

/// Whether every character of `s` is an ASCII digit.
fn all_digits_exec(s: &Vec<char>) -> (r: bool)
    ensures
        r == all_digits(s@),
{
    let mut i: usize = 0;
    while i < s.len()
        invariant
            i <= s@.len(),
            forall|k: int| 0 <= k < i ==> is_digit(#[trigger] s@[k]),
        decreases s@.len() - i,
    {
        let c = s[i] as u32;
        if c < 48 || c > 57 {
            assert(!is_digit(s@[i as int]));
            return false;
        }
        i = i + 1;
    }
    true
}

/// The error for a port number that does not read as a `u16`, with why, as `u16`'s
/// `FromStr` words it: an empty text, a character that is not a digit (or a sign with
/// nothing after it), or a number too large.
fn port_error(port: &Vec<char>) -> (e: Error)
    ensures
        e.kind == ErrorKind::InvalidInput,
{
    let mut t = str_chars("invalid port number '");
    t.append(&mut slice_chars(port, 0, port.len()));
    push_str(&mut t, "': ");
    let start: usize = if port.len() > 0 && port[0] == '+' {
        1
    } else {
        0
    };
    let digits = slice_chars(port, start, port.len());
    if port.len() == 0 {
        push_str(&mut t, "cannot parse integer from empty string");
    } else if digits.len() == 0 || !all_digits_exec(&digits) {
        push_str(&mut t, "invalid digit found in string");
    } else {
        push_str(&mut t, "number too large to fit in target type");
    }
    Error::with_text(ErrorKind::InvalidInput, &t)
}

/// Host and port of `host[:port]`.
fn host_port(hp: &Vec<char>, tls: bool) -> (r: Result<(Vec<char>, u16), Error>)
    ensures
        match parse_host_port(hp@, tls) {
            None => r matches Err(e) && e.kind == ErrorKind::InvalidInput,
            Some((host, port)) => r matches Ok((h, p)) && h@ == host && p == port,
        },
{
    let n = hp.len();
    if n > 0 && hp[0] == '[' {
        let mut close: Vec<char> = Vec::new();
        close.push(']');
        assert(close@ =~= seq![']']);
        let b = match find(hp, &close) {
            Some(b) => b,
            None => return Err(Error::invalid_input("invalid IPv6 address format, missing ']'")),
        };
        let host = slice_chars(hp, 0, b + 1);
        let rem = slice_chars(hp, b + 1, n);
        assert(host@ =~= hp@.take(b + 1));
        assert(rem@ =~= hp@.skip(b + 1));
        if rem.len() == 0 {
            Ok((host, if tls {
                443
            } else {
                1935
            }))
        } else if rem[0] == ':' {
            let m = rem.len();
            let port_text = slice_chars(&rem, 1, m);
            assert(port_text@ =~= rem@.skip(1));
            match parse_port(&port_text) {
                Some(p) => Ok((host, p)),
                None => Err(port_error(&port_text)),
            }
        } else {
            Err(Error::invalid_input("invalid format after IPv6 address, expected ':' before port"))
        }
    } else {
        match rfind(hp, ':') {
            Some(c) => {
                let port_text = slice_chars(hp, c + 1, n);
                assert(port_text@ =~= hp@.skip(c + 1));
                if all_digits_exec(&port_text) {
                    match parse_port(&port_text) {
                        Some(p) => {
                            let host = slice_chars(hp, 0, c);
                            assert(host@ =~= hp@.take(c as int));
                            Ok((host, p))
                        },
                        None => Err(port_error(&port_text)),
                    }
                } else {
                    Err(Error::invalid_input("invalid host:port format"))
                }
            },
            None => {
                let host = slice_chars(hp, 0, n);
                assert(host@ =~= hp@);
                Ok((host, if tls {
                    443
                } else {
                    1935
                }))
            },
        }
    }
}

/// TLS flag, host, port and path of `scheme://host[:port]/path`.
fn scheme_host_port(s: &Vec<char>) -> (r: Result<(bool, Vec<char>, u16, Vec<char>), Error>)
    ensures
        match parse_scheme_host_port(s@) {
            None => r matches Err(e) && e.kind == ErrorKind::InvalidInput,
            Some((tls, host, port, path)) => r matches Ok((t, h, p, pa)) && t == tls && h@ == host && p
                == port && pa@ == path,
        },
{
    let mut separator: Vec<char> = Vec::new();
    separator.push(':');
    separator.push('/');
    separator.push('/');
    assert(separator@ =~= seq![':', '/', '/']);
    let i = match find(s, &separator) {
        Some(i) => i,
        None => return Err(Error::invalid_input("missing '://' in RTMP URL")),
    };
    let n = s.len();
    let scheme = slice_chars(s, 0, i);
    let rest = slice_chars(s, i + 3, n);
    assert(scheme@ =~= s@.take(i as int));
    assert(rest@ =~= s@.skip(i + 3));
    let mut rtmp: Vec<char> = Vec::new();
    rtmp.push('r');
    rtmp.push('t');
    rtmp.push('m');
    rtmp.push('p');
    assert(rtmp@ =~= seq!['r', 't', 'm', 'p']);
    let mut rtmps: Vec<char> = Vec::new();
    rtmps.push('r');
    rtmps.push('t');
    rtmps.push('m');
    rtmps.push('p');
    rtmps.push('s');
    assert(rtmps@ =~= seq!['r', 't', 'm', 'p', 's']);
    let tls = if chars_eq(&scheme, &rtmp) {
        false
    } else if chars_eq(&scheme, &rtmps) {
        true
    } else {
        let mut t = str_chars("invalid scheme '");
        t.append(&mut slice_chars(&scheme, 0, scheme.len()));
        push_str(&mut t, "', expected 'rtmp' or 'rtmps'");
        return Err(Error::with_text(ErrorKind::InvalidInput, &t));
    };
    let mut slash: Vec<char> = Vec::new();
    slash.push('/');
    assert(slash@ =~= seq!['/']);
    let j = match find(&rest, &slash) {
        Some(j) => j,
        None => return Err(Error::invalid_input("missing '/' separator for app name")),
    };
    let m = rest.len();
    let hp = slice_chars(&rest, 0, j);
    let path = slice_chars(&rest, j + 1, m);
    assert(hp@ =~= rest@.take(j as int));
    assert(path@ =~= rest@.skip(j + 1));
    let (host, port) = match host_port(&hp, tls) {
        Ok(x) => x,
        Err(e) => return Err(e),
    };
    if host.len() == 0 {
        return Err(Error::invalid_input("host cannot be empty"));
    }
    Ok((tls, host, port, path))
}

/// Whether two character sequences are equal.
fn chars_eq(a: &Vec<char>, b: &Vec<char>) -> (r: bool)
    ensures
        r == (a@ == b@),
{
    if a.len() != b.len() {
        return false;
    }
    let mut i: usize = 0;
    while i < a.len()
        invariant
            i <= a@.len(),
            a@.len() == b@.len(),
            forall|k: int| 0 <= k < i ==> a@[k] == b@[k],
        decreases a@.len() - i,
    {
        if a[i] != b[i] {
            return false;
        }
        i = i + 1;
    }
    assert(a@ =~= b@);
    true
}

impl RtmpUrl {
    /// Reads `rtmp[s]://host[:port]/app/stream_name`. The path is split at its last `/`
    /// (so the application name may hold `/`); the port defaults to 1935 for `rtmp` and
    /// 443 for `rtmps`. A malformed URL is invalid input.
    pub fn parse(s: &str) -> (r: Result<Self, Error>)
        ensures
            match parse_url(s@) {
                Some(u) => r matches Ok(x) && x@ == u,
                None => r matches Err(e) && e.kind == ErrorKind::InvalidInput,
            },
    {
        let text = str_chars(s);
        let (tls, host, port, path) = match scheme_host_port(&text) {
            Ok(x) => x,
            Err(e) => return Err(e),
        };
        let k = match rfind(&path, '/') {
            Some(k) => k,
            None => return Err(Error::invalid_input("missing app and/or stream_name in path")),
        };
        let m = path.len();
        if k == 0 {
            return Err(Error::invalid_input("app name cannot be empty"));
        }
        if k + 1 == m {
            return Err(Error::invalid_input("stream name cannot be empty"));
        }
        let app = slice_chars(&path, 0, k);
        let stream_name = slice_chars(&path, k + 1, m);
        assert(app@ =~= path@.take(k as int));
        assert(stream_name@ =~= path@.skip(k + 1));
        Ok(RtmpUrl {
            host: string_from_chars(host.as_slice()),
            port,
            app: string_from_chars(app.as_slice()),
            stream_name: string_from_chars(stream_name.as_slice()),
            tls,
        })
    }

    /// Reads `rtmp[s]://host[:port]/app` with the stream name given apart. The port
    /// defaults as for [`RtmpUrl::parse`]. A malformed URL, an empty application name or
    /// an empty stream name is invalid input.
    pub fn parse_with_stream_name(s: &str, stream_name: &str) -> (r: Result<Self, Error>)
        ensures
            match parse_url_with_stream_name(s@, stream_name@) {
                Some(u) => r matches Ok(x) && x@ == u,
                None => r matches Err(e) && e.kind == ErrorKind::InvalidInput,
            },
    {
        let text = str_chars(s);
        let (tls, host, port, app) = match scheme_host_port(&text) {
            Ok(x) => x,
            Err(e) => return Err(e),
        };
        if app.len() == 0 {
            return Err(Error::invalid_input("app name cannot be empty"));
        }
        if stream_name.is_empty() {
            return Err(Error::invalid_input("stream name cannot be empty"));
        }
        Ok(RtmpUrl {
            host: string_from_chars(host.as_slice()),
            port,
            app: string_from_chars(app.as_slice()),
            stream_name: stream_name.to_owned(),
            tls,
        })
    }

    /// The URL as text: `scheme://host:port/app/stream_name`.
    pub fn to_string(&self) -> (r: String)
        ensures
            r@ == url_text(self@),
    {
        let mut out: Vec<char> = Vec::new();
        if self.tls {
            out.push('r');
            out.push('t');
            out.push('m');
            out.push('p');
            out.push('s');
        } else {
            out.push('r');
            out.push('t');
            out.push('m');
            out.push('p');
        }
        out.push(':');
        out.push('/');
        out.push('/');
        push_str(&mut out, self.host.as_str());
        out.push(':');
        push_decimal(&mut out, self.port as u64);
        out.push('/');
        push_str(&mut out, self.app.as_str());
        out.push('/');
        push_str(&mut out, self.stream_name.as_str());
        assert(out@ =~= url_text(self@));
        string_from_chars(out.as_slice())
    }
}

/// The parts of `u` can be told apart in its text: the host is not empty and holds no
/// `/` (an IPv6 host is in brackets and holds no other `]`; any other host does not start
/// with `[`), the application name is not empty, and the stream name is not empty and
/// holds no `/`.
pub open spec fn url_parts_separable(u: RtmpUrlModel) -> bool {
    &&& u.host.len() > 0
    &&& forall|i: int| 0 <= i < u.host.len() ==> u.host[i] != '/'
    &&& u.host[0] == '[' ==> u.host.last() == ']' && forall|i: int|
        0 <= i < u.host.len() - 1 ==> u.host[i] != ']'
    &&& u.app.len() > 0
    &&& u.stream_name.len() > 0
    &&& forall|i: int| 0 <= i < u.stream_name.len() ==> u.stream_name[i] != '/'
}

/// The digit for `d` is an ASCII digit of value `d`.
proof fn lemma_digit_char(d: nat)
    requires
        d < 10,
    ensures
        is_digit(digit_char(d)),
        (digit_char(d) as u32) - 48 == d,
{
}

/// The decimal digits of `n` are digits, and their value is `n`.
proof fn lemma_decimal(n: nat)
    ensures
        decimal(n).len() > 0,
        all_digits(decimal(n)),
        decimal_value(decimal(n)) == n,
    decreases n,
{
    lemma_digit_char(n % 10);
    if n < 10 {
        let s = decimal(n);
        assert(s.drop_last() =~= Seq::<char>::empty());
        assert(decimal_value(s.drop_last()) == 0);
        assert(s.last() == digit_char(n));
        assert(decimal_value(s) == n);
    } else {
        lemma_decimal(n / 10);
        let d = decimal(n / 10);
        let s = d.push(digit_char(n % 10));
        assert(s.drop_last() =~= d);
        assert(s.last() == digit_char(n % 10));
        assert((n / 10) * 10 + n % 10 == n) by (nonlinear_arith);
        assert(decimal(n) == s);
        assert(decimal_value(s) == decimal_value(d) * 10 + ((s.last() as u32) - 48) as nat);
        assert forall|i: int| 0 <= i < s.len() implies is_digit(#[trigger] s[i]) by {
            if i < d.len() {
                assert(s[i] == d[i]);
            }
        }
    }
}

/// Reading the decimal digits of a `u16` gives it back.
proof fn lemma_parse_decimal(n: u16)
    ensures
        parse_u16(decimal(n as nat)) == Some(n),
{
    lemma_decimal(n as nat);
    let s = decimal(n as nat);
    assert(is_digit(s[0]));
}

/// Reading `host:port` back, where the host is as [`url_parts_separable`] asks.
proof fn lemma_host_port_text(host: Seq<char>, port: u16, tls: bool)
    requires
        host.len() > 0,
        host[0] == '[' ==> host.last() == ']' && forall|i: int| 0 <= i < host.len() - 1 ==> host[i] != ']',
    ensures
        parse_host_port(host + seq![':'] + decimal(port as nat), tls) == Some((host, port)),
{
    let dec = decimal(port as nat);
    let hp = host + seq![':'] + dec;
    lemma_decimal(port as nat);
    lemma_parse_decimal(port);
    assert(hp[0] == host[0]);
    if host[0] == '[' {
        let b = host.len() - 1;
        assert(occurs_at(hp, seq![']'], b)) by {
            assert(hp.subrange(b, b + 1) =~= seq![']']);
        }
        assert forall|j: int| 0 <= j < b implies !occurs_at(hp, seq![']'], j) by {
            assert(hp.subrange(j, j + 1)[0] == host[j]);
        }
        crate::text::lemma_find_from_at(hp, seq![']'], 0, b);
        assert(hp.take(b + 1) =~= host);
        let rem = hp.skip(b + 1);
        assert(rem =~= seq![':'] + dec);
        assert(rem.skip(1) =~= dec);
    } else {
        let c = host.len() as int;
        assert(hp[c] == ':');
        assert forall|j: int| c < j < hp.len() implies hp[j] != ':' by {
            assert(hp[j] == dec[j - c - 1]);
            assert(is_digit(dec[j - c - 1]));
        }
        crate::text::lemma_rfind_before_at(hp, ':', hp.len() as int, c);
        assert(hp.skip(c + 1) =~= dec);
        assert(hp.take(c) =~= host);
    }
}

/// The text after `://` reads back as the host, port, application name and stream
/// name it was written from.
#[verifier::spinoff_prover]
proof fn lemma_rest_roundtrip(u: RtmpUrlModel)
    requires
        url_parts_separable(u),
    ensures
        ({
            let rest = u.host + seq![':'] + decimal(u.port as nat) + seq!['/'] + (u.app + seq!['/'] + u.stream_name);
            &&& find_first(rest, seq!['/']) == Some((u.host.len() + 1 + decimal(u.port as nat).len()) as int)
            &&& rest.take((u.host.len() + 1 + decimal(u.port as nat).len()) as int) == u.host + seq![':'] + decimal(u.port as nat)
            &&& rest.skip((u.host.len() + 2 + decimal(u.port as nat).len()) as int) == u.app + seq!['/'] + u.stream_name
        }),
{
    let dec = decimal(u.port as nat);
    let hp = u.host + seq![':'] + dec;
    let path = u.app + seq!['/'] + u.stream_name;
    let rest = hp + seq!['/'] + path;
    lemma_decimal(u.port as nat);
    let j = hp.len() as int;
    assert(occurs_at(rest, seq!['/'], j)) by {
        assert(rest.subrange(j, j + 1) =~= seq!['/']);
    }
    assert forall|k: int| 0 <= k < j implies !occurs_at(rest, seq!['/'], k) by {
        assert(rest.subrange(k, k + 1)[0] == hp[k]);
        if k < u.host.len() {
            assert(hp[k] == u.host[k]);
        } else if k > u.host.len() {
            assert(hp[k] == dec[k - u.host.len() - 1]);
            assert(is_digit(dec[k - u.host.len() - 1]));
        }
    }
    crate::text::lemma_find_from_at(rest, seq!['/'], 0, j);
    assert(rest.take(j) =~= hp);
    assert(rest.skip(j + 1) =~= path);
}

/// The path `app/stream_name` splits back at its last `/`.
proof fn lemma_path_roundtrip(app: Seq<char>, stream_name: Seq<char>)
    requires
        forall|i: int| 0 <= i < stream_name.len() ==> stream_name[i] != '/',
    ensures
        find_last(app + seq!['/'] + stream_name, '/') == Some(app.len() as int),
        (app + seq!['/'] + stream_name).take(app.len() as int) == app,
        (app + seq!['/'] + stream_name).skip(app.len() as int + 1) == stream_name,
{
    let path = app + seq!['/'] + stream_name;
    let k = app.len() as int;
    assert forall|m: int| k < m < path.len() implies path[m] != '/' by {
        assert(path[m] == stream_name[m - k - 1]);
    }
    crate::text::lemma_rfind_before_at(path, '/', path.len() as int, k);
    assert(path.take(k) =~= app);
    assert(path.skip(k + 1) =~= stream_name);
}

/// A URL written out and read back is the same URL, when its parts can be told apart in
/// the text.
#[verifier::spinoff_prover]
#[verifier::rlimit(60)]
pub proof fn lemma_url_roundtrip(u: RtmpUrlModel)
    requires
        url_parts_separable(u),
    ensures
        parse_url(url_text(u)) == Some(u),
{
    let scheme = if u.tls {
        seq!['r', 't', 'm', 'p', 's']
    } else {
        seq!['r', 't', 'm', 'p']
    };
    let dec = decimal(u.port as nat);
    let path = u.app + seq!['/'] + u.stream_name;
    let rest = u.host + seq![':'] + dec + seq!['/'] + path;
    let text = url_text(u);
    assert(text =~= scheme + seq![':', '/', '/'] + rest);
    let i = scheme.len() as int;
    assert(occurs_at(text, seq![':', '/', '/'], i)) by {
        assert(text.subrange(i, i + 3) =~= seq![':', '/', '/']);
    }
    assert forall|j: int| 0 <= j < i implies !occurs_at(text, seq![':', '/', '/'], j) by {
        assert(text.subrange(j, j + 3)[0] == scheme[j]);
    }
    crate::text::lemma_find_from_at(text, seq![':', '/', '/'], 0, i);
    assert(text.take(i) =~= scheme);
    assert(text.skip(i + 3) =~= rest);
    lemma_rest_roundtrip(u);
    lemma_host_port_text(u.host, u.port, u.tls);
    lemma_path_roundtrip(u.app, u.stream_name);
}

impl core::str::FromStr for RtmpUrl {
    type Err = Error;

    /// Reads a URL as [`RtmpUrl::parse`] does.
    fn from_str(s: &str) -> (r: Result<Self, Error>)
        ensures
            match parse_url(s@) {
                Some(u) => r matches Ok(x) && x@ == u,
                None => r matches Err(e) && e.kind == ErrorKind::InvalidInput,
            },
    {
        Self::parse(s)
    }
}

} // verus!
