use vstd::prelude::*;

use crate::text::{chars_of, string_of, append_chars, decimal_chars, decimal, digits_value, is_digit, decimal_denotes};

verus! {

/// The text after an optional leading `+` sign.
pub open spec fn unsigned_body(s: Seq<char>) -> Seq<char> {
    if s.len() > 0 && s[0] == '+' {
        s.drop_first()
    } else {
        s
    }
}

/// What `str::parse::<u16>` gives for a text: an optional `+`, then one or
/// more ASCII digits denoting a value that fits in 16 bits; anything else is
/// refused.
pub open spec fn parsed_u16(s: Seq<char>) -> Option<u16> {
    let b = unsigned_body(s);
    if b.len() > 0 && (forall|i: int| 0 <= i < b.len() ==> is_digit(#[trigger] b[i]))
        && digits_value(b) <= 65535 {
        Some(digits_value(b) as u16)
    } else {
        None
    }
}

/// The value of the digits seen so far, capped one above the largest port.
pub open spec fn capped(v: nat) -> nat {
    if v > 65536 {
        65536
    } else {
        v
    }
}

/// Parses a port number the way `str::parse::<u16>` does.
pub fn parse_port(text: &str) -> (r: Option<u16>)
    ensures
        r == parsed_u16(text@),
{
    let v = chars_of(text);
    let start: usize = if v.len() > 0 && v[0] == '+' { 1 } else { 0 };
    let ghost b = unsigned_body(v@);
    assert(b =~= v@.skip(start as int));
    if start == v.len() {
        return None;
    }
    let mut acc: u32 = 0;
    let mut i: usize = start;
    assert(b.take(0) =~= Seq::<char>::empty());
    while i < v.len()
        invariant
            start <= i <= v.len(),
            start < v.len(),
            b == v@.skip(start as int),
            b == unsigned_body(text@),
            acc as nat == capped(digits_value(b.take(i - start))),
            forall|j: int| 0 <= j < i - start ==> is_digit(#[trigger] b[j]),
        decreases v.len() - i,
    {
        let c = v[i];
        if !('0' <= c && c <= '9') {
            assert(b[i - start] == v@[i as int]);
            assert(!is_digit(b[i - start]));
            assert(!(forall|j: int| 0 <= j < b.len() ==> is_digit(#[trigger] b[j])));
            return None;
        }
        let d: u32 = (c as u32) - 48;
        let ghost prev = digits_value(b.take(i - start));
        assert(b.take(i - start + 1).drop_last() =~= b.take(i - start));
        assert(b.take(i - start + 1).last() == c);
        assert(digits_value(b.take(i - start + 1)) == prev * 10 + d);
        if acc * 10 + d > 65536 {
            acc = 65536;
        } else {
            acc = acc * 10 + d;
        }
        i = i + 1;
    }
    assert(b.take(i - start) =~= b);
    if acc > 65535 {
        None
    } else {
        Some(acc as u16)
    }
}

/// The decimal text of a port number parses back to that port.
pub proof fn port_text_roundtrip(port: u16)
    ensures
        parsed_u16(decimal(port as nat)) == Some(port),
{
    decimal_denotes(port as nat);
    let s = decimal(port as nat);
    assert(s[0] != '+') by {
        assert(is_digit(s[0]));
    }
    assert(unsigned_body(s) == s);
}

/// The address the server listens on: `host:port`.
pub fn listen_address(host: &str, port: u16) -> (r: String)
    ensures
        r@ == host@ + seq![':'] + decimal(port as nat),
{
    let mut v = chars_of(host);
    v.push(':');
    let digits = decimal_chars(port as u64);
    append_chars(&mut v, &digits);
    string_of(&v)
}

/// Where the server takes its files from, its port and its host.
pub struct ServerConfig {
    pub serve_dir: String,
    pub port: u16,
    pub host: String,
}

/// The text of a setting: the environment's value when present, the default
/// otherwise.
pub open spec fn setting_text(env: Option<String>, default: Seq<char>) -> Seq<char> {
    match env {
        Some(v) => v@,
        None => default,
    }
}

/// A port read from text, 3000 when the text is not a valid port.
pub open spec fn port_or_default(s: Seq<char>) -> u16 {
    match parsed_u16(s) {
        Some(p) => p,
        None => 3000,
    }
}

fn port_or_default_exec(text: &str) -> (r: u16)
    ensures
        r == port_or_default(text@),
{
    match parse_port(text) {
        Some(p) => p,
        None => 3000,
    }
}

/// Settles the server's settings. Each one comes from the command line when
/// given there (`args[1]` the directory, `args[2]` the port, `args[3]` the
/// host), else from the environment value, else from its default
/// (`./public`, `3000`, `0.0.0.0`). A port text that does not parse gives
/// port 3000.
pub fn resolve_config(
    env_serve_dir: Option<String>,
    env_port: Option<String>,
    env_host: Option<String>,
    args: &Vec<String>,
) -> (c: ServerConfig)
    ensures
        c.serve_dir@ == (if args.len() > 1 {
            args@[1]@
        } else {
            setting_text(env_serve_dir, "./public"@)
        }),
        c.port == (if args.len() > 2 {
            port_or_default(args@[2]@)
        } else {
            port_or_default(setting_text(env_port, "3000"@))
        }),
        c.host@ == (if args.len() > 3 {
            args@[3]@
        } else {
            setting_text(env_host, "0.0.0.0"@)
        }),
{
    let serve_dir = if args.len() > 1 {
        args[1].clone()
    } else {
        match env_serve_dir {
            Some(d) => d,
            None => "./public".to_owned(),
        }
    };
    let port: u16 = if args.len() > 2 {
        port_or_default_exec(args[2].as_str())
    } else {
        match env_port {
            Some(p) => port_or_default_exec(p.as_str()),
            None => port_or_default_exec("3000"),
        }
    };
    let host = if args.len() > 3 {
        args[3].clone()
    } else {
        match env_host {
            Some(h) => h,
            None => "0.0.0.0".to_owned(),
        }
    };
    ServerConfig { serve_dir, port, host }
}

/// A port text that parses gives that port; only a text that does not parse
/// gives the default 3000.
pub proof fn port_text_is_used_when_it_parses(s: Seq<char>)
    ensures
        parsed_u16(s) matches Some(p) ==> port_or_default(s) == p,
        parsed_u16(s) is None ==> port_or_default(s) == 3000,
{
}

/// The decimal text of any port, given as the port setting, is that port.
pub proof fn port_setting_round_trips(port: u16)
    ensures
        port_or_default(decimal(port as nat)) == port,
{
    port_text_roundtrip(port);
}

} // verus!
