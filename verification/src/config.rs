//! Application configuration.
//!
//! The configuration is plain data here; reading it from the environment
//! is the embedding program's concern. [`AppConfig::addr`] renders the
//! socket address the server binds to, with a verified decimal rendering
//! of the port.

use vstd::prelude::*;

verus! {

/// Application configuration.
#[derive(Debug, Clone)]
pub struct AppConfig {
    /// Server host to bind to.
    pub host: String,
    /// Server port to bind to.
    pub port: u16,
    /// Database connection URL.
    pub database_url: String,
    /// Maximum database connections in the pool.
    pub db_max_connections: u32,
    /// Minimum database connections in the pool.
    pub db_min_connections: u32,
    /// Token signing secret.
    pub jwt_secret: String,
    /// Event bus channel capacity.
    pub event_bus_capacity: usize,
    /// Log level (e.g. "info", "debug", "trace").
    pub log_level: String,
}

/// The character for one decimal digit.
pub open spec fn dec_digit(d: int) -> char {
    if d == 0 {
        '0'
    } else if d == 1 {
        '1'
    } else if d == 2 {
        '2'
    } else if d == 3 {
        '3'
    } else if d == 4 {
        '4'
    } else if d == 5 {
        '5'
    } else if d == 6 {
        '6'
    } else if d == 7 {
        '7'
    } else if d == 8 {
        '8'
    } else {
        '9'
    }
}

/// The decimal numeral of a non-negative number, most significant digit
/// first, with no leading zeros.
pub open spec fn dec_rep(n: int) -> Seq<char>
    decreases n,
{
    if n < 10 {
        seq![dec_digit(n)]
    } else {
        dec_rep(n / 10) + seq![dec_digit(n % 10)]
    }
}

/// One decimal digit as a string slice.
fn digit_str(d: u16) -> (r: &'static str)
    requires
        d < 10,
    ensures
        r@ == seq![dec_digit(d as int)],
{
    proof {
        reveal_strlit("0");
        reveal_strlit("1");
        reveal_strlit("2");
        reveal_strlit("3");
        reveal_strlit("4");
        reveal_strlit("5");
        reveal_strlit("6");
        reveal_strlit("7");
        reveal_strlit("8");
        reveal_strlit("9");
        assert("0"@ =~= seq!['0']);
        assert("1"@ =~= seq!['1']);
        assert("2"@ =~= seq!['2']);
        assert("3"@ =~= seq!['3']);
        assert("4"@ =~= seq!['4']);
        assert("5"@ =~= seq!['5']);
        assert("6"@ =~= seq!['6']);
        assert("7"@ =~= seq!['7']);
        assert("8"@ =~= seq!['8']);
        assert("9"@ =~= seq!['9']);
    }
    if d == 0 {
        "0"
    } else if d == 1 {
        "1"
    } else if d == 2 {
        "2"
    } else if d == 3 {
        "3"
    } else if d == 4 {
        "4"
    } else if d == 5 {
        "5"
    } else if d == 6 {
        "6"
    } else if d == 7 {
        "7"
    } else if d == 8 {
        "8"
    } else {
        "9"
    }
}

/// The decimal numeral of a 16-bit number.
fn u16_dec(n: u16) -> (r: String)
    ensures
        r@ == dec_rep(n as int),
    decreases n,
{
    if n < 10 {
        String::from_str(digit_str(n))
    } else {
        let mut s = u16_dec(n / 10);
        s.append(digit_str(n % 10));
        s
    }
}

impl AppConfig {
    /// The socket address string `host:port`.
    pub fn addr(&self) -> (r: String)
        ensures
            r@ == self.host@ + seq![':'] + dec_rep(self.port as int),
    {
        let mut s = self.host.clone();
        s.append(":");
        let p = u16_dec(self.port);
        s.append(p.as_str());
        proof {
            reveal_strlit(":");
            assert(":"@ =~= seq![':']);
            assert(s@ =~= self.host@ + seq![':'] + dec_rep(self.port as int));
        }
        s
    }
}

} // verus!
