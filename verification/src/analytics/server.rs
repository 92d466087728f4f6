//! The listening server: where it binds, and how its host and port are chosen.
use vstd::prelude::*;

use crate::text::push_all;

verus! {

/// The character of the decimal digit `d`.
pub open spec fn digit_char(d: nat) -> char {
    (48 + d) as char
}

/// The decimal writing of `n`, without sign or leading zeros.
pub open spec fn decimal(n: nat) -> Seq<char>
    decreases n,
{
    if n < 10 {
        seq![digit_char(n)]
    } else {
        decimal(n / 10).push(digit_char(n % 10))
    }
}

/// Whether `c` is a decimal digit.
pub open spec fn is_digit(c: char) -> bool {
    '0' <= c <= '9'
}

/// The value of a string of decimal digits.
pub open spec fn digits_value(s: Seq<char>) -> nat
    decreases s.len(),
{
    if s.len() == 0 {
        0
    } else {
        digits_value(s.drop_last()) * 10 + (s.last() as nat - 48) as nat
    }
}

/// The digits of an unsigned number as written, without its optional leading `+`.
pub open spec fn unsigned_digits(s: Seq<char>) -> Seq<char> {
    if s.len() > 0 && s[0] == '+' {
        s.drop_first()
    } else {
        s
    }
}

/// The port written in `s` as an unsigned decimal number (an optional `+`, then at least one
/// digit, and nothing else), if it fits in 16 bits.
pub open spec fn parse_port_spec(s: Seq<char>) -> Option<u16> {
    let d = unsigned_digits(s);
    if d.len() > 0 && (forall|i: int| 0 <= i < d.len() ==> is_digit(#[trigger] d[i]))
        && digits_value(d) <= 65535 {
        Some(digits_value(d) as u16)
    } else {
        None
    }
}

/// A prefix of a string of digits is worth no more than the whole.
proof fn lemma_digits_prefix(d: Seq<char>, i: int)
    requires
        0 <= i <= d.len(),
        forall|j: int| 0 <= j < d.len() ==> is_digit(#[trigger] d[j]),
    ensures
        digits_value(d.take(i)) <= digits_value(d),
    decreases d.len(),
{
    if i < d.len() {
        assert(d.drop_last().take(i) =~= d.take(i));
        lemma_digits_prefix(d.drop_last(), i);
        let a = digits_value(d.drop_last());
        assert(a <= a * 10) by (nonlinear_arith);
    } else {
        assert(d.take(i) =~= d);
    }
}

/// Reads a port written in decimal, as `str::parse::<u16>` does.
pub fn parse_port(s: &str) -> (r: Option<u16>)
    ensures
        r == parse_port_spec(s@),
{
    let chars = crate::text::chars_of(s);
    let start: usize = if chars.len() > 0 && chars[0] == '+' {
        1
    } else {
        0
    };
    let ghost d = unsigned_digits(s@);
    assert(d =~= chars@.subrange(start as int, chars@.len() as int));
    if start == chars.len() {
        return None;
    }
    let mut value: u32 = 0;
    let mut i: usize = start;
    while i < chars.len()
        invariant
            chars@ == s@,
            d == unsigned_digits(s@),
            d == chars@.subrange(start as int, chars@.len() as int),
            start <= i <= chars@.len(),
            forall|j: int| 0 <= j < i - start ==> is_digit(#[trigger] d[j]),
            value == digits_value(d.take(i - start)),
            value <= 65535,
        decreases chars@.len() - i,
    {
        let c = chars[i];
        if !('0' <= c && c <= '9') {
            assert(!is_digit(d[i - start]));
            return None;
        }
        let ghost k = (i - start) as int;
        assert(d.take(k + 1).drop_last() =~= d.take(k));
        let next = value * 10 + (c as u32 - 48);
        i = i + 1;
        if next > 65535 {
            proof {
                if forall|j: int| 0 <= j < d.len() ==> is_digit(#[trigger] d[j]) {
                    lemma_digits_prefix(d, k + 1);
                }
            }
            return None;
        }
        value = next;
    }
    assert(d.take(d.len() as int) =~= d);
    Some(value as u16)
}


/// Appends the decimal writing of `n` to `out`.
fn push_decimal(out: &mut String, n: u16)
    ensures
        final(out)@ == old(out)@ + decimal(n as nat),
    decreases n,
{
    if n < 10 {
        out.push(((48 + n) as u8) as char);
        assert(final(out)@ =~= old(out)@ + decimal(n as nat));
    } else {
        push_decimal(out, n / 10);
        out.push(((48 + n % 10) as u8) as char);
        assert(final(out)@ =~= old(out)@ + decimal(n as nat));
    }
}

/// The decimal writing of a port.
pub fn port_string(port: u16) -> (r: String)
    ensures
        r@ == decimal(port as nat),
{
    let mut r = String::new();
    push_decimal(&mut r, port);
    assert(r@ =~= decimal(port as nat));
    r
}

/// The decimal writing of a number has only digits, does not begin with `+`, and is worth
/// the number.
proof fn lemma_decimal_digits(n: nat)
    ensures
        decimal(n).len() > 0,
        decimal(n)[0] != '+',
        forall|i: int| 0 <= i < decimal(n).len() ==> is_digit(#[trigger] decimal(n)[i]),
        digits_value(decimal(n)) == n,
    decreases n,
{
    if n >= 10 {
        lemma_decimal_digits(n / 10);
        let d = decimal(n / 10);
        assert(decimal(n).drop_last() =~= d);
        assert forall|i: int| 0 <= i < decimal(n).len() implies is_digit(#[trigger] decimal(n)[i]) by {
            if i < d.len() {
                assert(decimal(n)[i] == d[i]);
            }
        }
    } else {
        assert(digits_value(decimal(n).drop_last()) == 0) by {
            assert(decimal(n).drop_last() =~= Seq::<char>::empty());
        }
    }
}

/// Reading back the writing of a port gives the port.
pub proof fn lemma_port_round_trip(port: u16)
    ensures
        parse_port_spec(decimal(port as nat)) == Some(port),
{
    lemma_decimal_digits(port as nat);
}

/// The port the server listens on unless told otherwise.
pub const DEFAULT_PORT: u16 = 9001;

/// The host the server listens on unless told otherwise.
pub open spec fn default_host() -> Seq<char> {
    "localhost"@
}

/// Why no port could be chosen.
#[derive(PartialEq, Eq, Structural, Clone, Copy, Debug)]
pub enum PortError {
    /// The `SKOPE_PORT` setting is not a port number.
    InvalidPort,
}

/// The host to listen on: the one given on the command line, else the `SKOPE_HOST` setting,
/// else `localhost`.
pub fn resolve_host(cli_host: Option<String>, env_host: Option<String>) -> (r: String)
    ensures
        r@ == match (cli_host, env_host) {
            (Some(h), _) => h@,
            (None, Some(h)) => h@,
            (None, None) => default_host(),
        },
{
    match (cli_host, env_host) {
        (Some(h), _) => h,
        (None, Some(h)) => h,
        (None, None) => {
            let mut h = String::new();
            push_all(&mut h, "localhost");
            h
        },
    }
}

/// The port to listen on: the one given on the command line, else the `SKOPE_PORT` setting,
/// which must be a port number, else 9001.
pub fn resolve_port(cli_port: Option<u16>, env_port: Option<&str>) -> (r: Result<u16, PortError>)
    ensures
        r == match (cli_port, env_port) {
            (Some(p), _) => Ok(p),
            (None, Some(s)) => match parse_port_spec(s@) {
                Some(p) => Ok(p),
                None => Err(PortError::InvalidPort),
            },
            (None, None) => Ok(DEFAULT_PORT),
        },
{
    match (cli_port, env_port) {
        (Some(p), _) => Ok(p),
        (None, Some(s)) => match parse_port(s) {
            Some(p) => Ok(p),
            None => Err(PortError::InvalidPort),
        },
        (None, None) => Ok(DEFAULT_PORT),
    }
}

/// The server: where it listens and what receives the data.
pub struct Server<T> {
    pub host: String,
    pub port: u16,
    pub data_provider: T,
}

impl<T> Server<T> {
    /// A server listening on `host` and `port`.
    pub fn new(host: String, port: u16, data_provider: T) -> (r: Server<T>)
        ensures
            r.host == host,
            r.port == port,
            r.data_provider == data_provider,
    {
        Server { host, port, data_provider }
    }

    /// The address the server binds: `host:port`.
    pub fn binding(&self) -> (r: String)
        ensures
            r@ == self.host@ + seq![':'] + decimal(self.port as nat),
    {
        let mut r = String::new();
        push_all(&mut r, self.host.as_str());
        r.push(':');
        push_all(&mut r, port_string(self.port).as_str());
        r
    }
}

impl<T: Default> Default for Server<T> {
    fn default() -> (r: Server<T>)
        ensures
            r.host@ == default_host(),
            r.port == DEFAULT_PORT,
            call_ensures(T::default, (), r.data_provider),
    {
        let mut host = String::new();
        push_all(&mut host, "localhost");
        Server { host, port: DEFAULT_PORT, data_provider: T::default() }
    }
}

} // verus!
