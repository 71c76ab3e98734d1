//! What the probe derives from its environment when it is loaded: the
//! address that its server listens on, and the address that it reports to.

use crate::text::{
    decimal, decimal_text, eq_ignore_ascii_case, parse_u16, parse_u16_text, same_ignoring_ascii_case,
    same_text, starts_with, text_starts_with,
};
use vstd::prelude::*;

verus! {

/// The text of an optional string slice.
pub open spec fn text_of(s: Option<&str>) -> Option<Seq<char>> {
    match s {
        Some(t) => Some(t@),
        None => None,
    }
}

/// The texts of a sequence of strings.
pub open spec fn texts_of(v: Seq<String>) -> Seq<Seq<char>> {
    Seq::new(v.len(), |i: int| v[i]@)
}

/// The first address from position `from` on that starts with `pattern`.
pub open spec fn first_match(ips: Seq<Seq<char>>, pattern: Seq<char>, from: int) -> Option<Seq<char>>
    decreases ips.len() - from,
{
    if from < 0 || from >= ips.len() {
        None
    } else if starts_with(ips[from], pattern) {
        Some(ips[from])
    } else {
        first_match(ips, pattern, from + 1)
    }
}

/// The address that the probe is reached at: the address of the pod where
/// one is given, else the first address of an interface that starts with
/// the pattern, else the first address of any interface.
pub open spec fn hostname_of(pod_ip: Option<Seq<char>>, ips: Seq<Seq<char>>, pattern: Option<Seq<char>>) -> Option<
    Seq<char>,
> {
    if pod_ip is Some && pod_ip->0.len() > 0 && pod_ip->0 != "None"@ {
        pod_ip
    } else if pattern is Some && first_match(ips, pattern->0, 0) is Some {
        first_match(ips, pattern->0, 0)
    } else if ips.len() > 0 {
        Some(ips[0])
    } else {
        None
    }
}

/// The address that the probe is reached at, or nothing where no interface
/// has an address. `pod_ip` is the value of `POD_IP`, `ips` the addresses of
/// the network interfaces, and `pattern` the value of
/// `PROBING_SERVER_ADDRPATTERN`.
pub fn get_hostname(pod_ip: Option<&str>, ips: &Vec<String>, pattern: Option<&str>) -> (r: Option<String>)
    ensures
        crate::trace::opt_text(r) == hostname_of(text_of(pod_ip), texts_of(ips@), text_of(pattern)),
{
    match pod_ip {
        Some(ip) => {
            if ip.unicode_len() > 0 && !same_text(ip, "None") {
                return Some(ip.to_owned());
            }
        },
        None => {},
    }
    match pattern {
        Some(p) => {
            let mut i: usize = 0;
            while i < ips.len()
                invariant
                    i <= ips@.len(),
                    pattern == Some(p),
                    !(text_of(pod_ip) is Some && text_of(pod_ip)->0.len() > 0 && text_of(pod_ip)->0 != "None"@),
                    first_match(texts_of(ips@), p@, 0) == first_match(texts_of(ips@), p@, i as int),
                decreases ips@.len() - i,
            {
                proof {
                    assert(texts_of(ips@)[i as int] == ips@[i as int]@);
                }
                if text_starts_with(ips[i].as_str(), p) {
                    return Some(ips[i].clone());
                }
                i += 1;
            }
        },
        None => {},
    }
    if ips.len() > 0 {
        proof {
            assert(texts_of(ips@)[0] == ips@[0]@);
        }
        Some(ips[0].clone())
    } else {
        None
    }
}

/// What the probe sets in its environment.
#[derive(Debug, PartialEq, Eq)]
pub struct ServerEnv {
    /// The value of `PROBING_SERVER_ADDR`, where it is set.
    pub server_addr: Option<String>,
    /// The value of `PROBING_SERVER_REPORT_ADDR`, where it is set.
    pub report_addr: Option<String>,
}

/// An address of host and port, in single quotes.
pub open spec fn quoted_address(host: Seq<char>, port: nat) -> Seq<char> {
    "'"@ + host + ":"@ + decimal(port) + "'"@
}

/// The port that a setting gives: its 16-bit number, unless it says
/// `RANDOM`.
pub open spec fn base_port(port: Option<Seq<char>>) -> Option<u16> {
    match port {
        Some(p) => if same_ignoring_ascii_case(p, "RANDOM"@) {
            None
        } else {
            parse_u16(p)
        },
        None => None,
    }
}

/// The rank that a setting gives, zero where it gives none.
pub open spec fn rank_of(local_rank: Option<Seq<char>>) -> u16 {
    match local_rank {
        Some(t) => match parse_u16(t) {
            Some(v) => v,
            None => 0,
        },
        None => 0,
    }
}

/// The sum of port and rank, or the greatest port where the sum is greater.
pub open spec fn serving_port(port: u16, rank: u16) -> nat {
    if port + rank > 65535 {
        65535
    } else {
        (port + rank) as nat
    }
}

/// The address that the server listens on: any port on every interface for
/// `RANDOM`; for a port number, that port plus the local rank, on every
/// interface for rank 0 and else on the host's address, or `localhost`
/// where the host has none; nothing for any other setting.
pub open spec fn server_addr_of(
    port: Option<Seq<char>>,
    local_rank: Option<Seq<char>>,
    rank: Option<Seq<char>>,
    hostname: Option<Seq<char>>,
) -> Option<Seq<char>> {
    match port {
        None => None,
        Some(p) => if same_ignoring_ascii_case(p, "RANDOM"@) {
            Some("'0.0.0.0:0'"@)
        } else {
            match parse_u16(p) {
                None => None,
                Some(n) => {
                    let host = if rank is None || rank->0 == "0"@ {
                        "0.0.0.0"@
                    } else {
                        match hostname {
                            Some(h) => h,
                            None => "localhost"@,
                        }
                    };
                    Some(quoted_address(host, serving_port(n, rank_of(local_rank))))
                },
            }
        },
    }
}

/// The address that the probe reports to: the master's, at the port that
/// the setting gives, where both are given.
pub open spec fn report_addr_of(port: Option<Seq<char>>, master_addr: Option<Seq<char>>) -> Option<Seq<char>> {
    match base_port(port) {
        Some(n) => match master_addr {
            Some(m) => if m.len() > 0 {
                Some(quoted_address(m, n as nat))
            } else {
                None
            },
            None => None,
        },
        None => None,
    }
}

fn quote_address(host: &str, port: u16) -> (r: String)
    ensures
        r@ == quoted_address(host@, port as nat),
{
    proof {
        reveal_strlit("'");
        reveal_strlit(":");
    }
    let mut r = "'".to_owned();
    r.append(host);
    r.append(":");
    r.append(decimal_text(port as u64).as_str());
    r.append("'");
    r
}

/// Whether the server's address depends on the host's address: the setting
/// gives a port number, and the rank is given and not `0`.
pub open spec fn hostname_matters(port: Option<Seq<char>>, rank: Option<Seq<char>>) -> bool {
    base_port(port) is Some && rank is Some && rank->0 != "0"@
}

/// Where the host's address does not matter, the server's address is the
/// same whatever the host's address is.
pub proof fn law_hostname_matters(
    port: Option<Seq<char>>,
    local_rank: Option<Seq<char>>,
    rank: Option<Seq<char>>,
    one: Option<Seq<char>>,
    other: Option<Seq<char>>,
)
    requires
        !hostname_matters(port, rank),
    ensures
        server_addr_of(port, local_rank, rank, one) == server_addr_of(port, local_rank, rank, other),
{
}

/// Whether the host's address is to be found out before
/// `setup_env_settings` is called: only where the server's address depends
/// on it.
pub fn wants_hostname(port: Option<&str>, rank: Option<&str>) -> (r: bool)
    ensures
        r == hostname_matters(text_of(port), text_of(rank)),
{
    let p = match port {
        Some(p) => p,
        None => {
            return false;
        },
    };
    if eq_ignore_ascii_case(p, "RANDOM") {
        return false;
    }
    if parse_u16_text(p).is_none() {
        return false;
    }
    match rank {
        Some(t) => !same_text(t, "0"),
        None => false,
    }
}

/// What the probe sets in its environment, from the values of
/// `PROBING_PORT`, `LOCAL_RANK`, `RANK` and `MASTER_ADDR` and from the
/// host's address as `get_hostname` gives it.
pub fn setup_env_settings(
    port: Option<&str>,
    local_rank: Option<&str>,
    rank: Option<&str>,
    master_addr: Option<&str>,
    hostname: Option<&str>,
) -> (r: ServerEnv)
    ensures
        crate::trace::opt_text(r.server_addr) == server_addr_of(
            text_of(port),
            text_of(local_rank),
            text_of(rank),
            text_of(hostname),
        ),
        crate::trace::opt_text(r.report_addr) == report_addr_of(text_of(port), text_of(master_addr)),
{
    let p = match port {
        Some(p) => p,
        None => {
            return ServerEnv { server_addr: None, report_addr: None };
        },
    };
    if eq_ignore_ascii_case(p, "RANDOM") {
        return ServerEnv { server_addr: Some("'0.0.0.0:0'".to_owned()), report_addr: None };
    }
    let n: u16 = match parse_u16_text(p) {
        Some(n) => n,
        None => {
            return ServerEnv { server_addr: None, report_addr: None };
        },
    };
    let lr: u16 = match local_rank {
        Some(t) => match parse_u16_text(t) {
            Some(v) => v,
            None => 0,
        },
        None => 0,
    };
    let serving: u16 = if n as u32 + lr as u32 > 65535 {
        65535
    } else {
        n + lr
    };
    let on_every_interface = match rank {
        Some(t) => same_text(t, "0"),
        None => true,
    };
    let server_addr = if on_every_interface {
        quote_address("0.0.0.0", serving)
    } else {
        match hostname {
            Some(h) => quote_address(h, serving),
            None => quote_address("localhost", serving),
        }
    };
    let report_addr = match master_addr {
        Some(m) => {
            if m.unicode_len() > 0 {
                Some(quote_address(m, n))
            } else {
                None
            }
        },
        None => None,
    };
    ServerEnv { server_addr: Some(server_addr), report_addr }
}

} // verus!
