//! Network policy: where lait operates (the public relay mesh, a named local
//! relay, or isolated). The transport that fulfils it lives with the caller.

use vstd::prelude::*;

use crate::text::{chars_of, string_of, trim, trimmed};

verus! {

/// A single relay lait supplies, named by a plain URL.
#[derive(Debug, Clone)]
pub struct LocalNet {
    /// The relay URL peers rendezvous through.
    pub relay: String,
}

/// lait's requirement for the transport environment.
#[derive(Debug, Clone)]
pub enum Network {
    /// The public relay mesh and public discovery. The default.
    Public,
    /// A single relay lait supplies.
    Local(LocalNet),
    /// No relay, no discovery: direct reach only.
    Isolated,
}

/// Why a network policy could not be resolved.
#[derive(Debug, Clone)]
pub enum NetworkError {
    /// `LAIT_NETWORK` named no known policy (the value as trimmed and
    /// lowercased).
    Unknown { value: String },
    /// `LAIT_NETWORK=local` without `LAIT_RELAY`.
    MissingRelay,
}

impl NetworkError {
    /// The sentence a person sees.
    pub fn message(&self) -> (r: String)
        ensures
            r@ == network_error_text(*self),
    {
        match self {
            NetworkError::Unknown { value } => {
                let mut s = String::from_str("unknown LAIT_NETWORK '");
                s.append(value.as_str());
                s.append("' (expected public|local|isolated)");
                s
            },
            NetworkError::MissingRelay => String::from_str("LAIT_NETWORK=local requires LAIT_RELAY"),
        }
    }
}

pub open spec fn network_error_text(e: NetworkError) -> Seq<char> {
    match e {
        NetworkError::Unknown { value } => "unknown LAIT_NETWORK '"@ + value@
            + "' (expected public|local|isolated)"@,
        NetworkError::MissingRelay => "LAIT_NETWORK=local requires LAIT_RELAY"@,
    }
}

/// `char::to_ascii_lowercase`.
pub open spec fn ascii_lower(c: char) -> char {
    if 'A' <= c && c <= 'Z' {
        ((c as u8) + 32) as char
    } else {
        c
    }
}

pub open spec fn ascii_lowercase(s: Seq<char>) -> Seq<char> {
    s.map_values(|c: char| ascii_lower(c))
}

fn ascii_lowercase_exec(s: &str) -> (r: Vec<char>)
    ensures
        r@ == ascii_lowercase(s@),
{
    let cs = chars_of(s);
    let mut out: Vec<char> = Vec::new();
    let mut i: usize = 0;
    while i < cs.len()
        invariant
            cs@ == s@,
            0 <= i <= cs@.len(),
            out@.len() == i,
            forall|j: int| 0 <= j < i ==> #[trigger] out@[j] == ascii_lower(cs@[j]),
        decreases cs@.len() - i,
    {
        let c = cs[i];
        let l = if 'A' <= c && c <= 'Z' {
            ((c as u8) + 32) as char
        } else {
            c
        };
        out.push(l);
        i = i + 1;
    }
    assert(out@ =~= ascii_lowercase(s@));
    out
}

fn is_text(v: &Vec<char>, t: &str) -> (r: bool)
    ensures
        r == (v@ == t@),
{
    let w = chars_of(t);
    if v.len() != w.len() {
        return false;
    }
    let mut i: usize = 0;
    while i < v.len()
        invariant
            w@ == t@,
            v@.len() == w@.len(),
            0 <= i <= v@.len(),
            forall|j: int| 0 <= j < i ==> v@[j] == w@[j],
        decreases v@.len() - i,
    {
        if v[i] != w[i] {
            assert(v@[i as int] != w@[i as int]);
            return false;
        }
        i = i + 1;
    }
    assert(v@ =~= w@);
    true
}

/// The policy a `LAIT_NETWORK` value names, given `LAIT_RELAY`.
pub open spec fn network_of(raw: Seq<char>, relay: Option<String>) -> Result<Network, NetworkError> {
    let v = ascii_lowercase(trimmed(raw));
    if v == ""@ || v == "public"@ {
        Ok(Network::Public)
    } else if v == "isolated"@ {
        Ok(Network::Isolated)
    } else if v == "local"@ {
        match relay {
            Some(r) => Ok(Network::Local(LocalNet { relay: r })),
            None => Err(NetworkError::MissingRelay),
        }
    } else {
        Err(NetworkError::Unknown { value: arbitrary() })
    }
}

impl Network {
    /// Resolve the requirement from the raw `LAIT_NETWORK` value (empty when
    /// unset) and `LAIT_RELAY`: `public` (the default) | `local` | `isolated`,
    /// trimmed and case-insensitive; `local` needs a relay. An unknown value
    /// is an error, never a silent default.
    pub fn parse(raw: &str, relay: Option<String>) -> (r: Result<Network, NetworkError>)
        ensures
            match (r, network_of(raw@, relay)) {
                (Ok(Network::Public), Ok(Network::Public)) => true,
                (Ok(Network::Isolated), Ok(Network::Isolated)) => true,
                (Ok(Network::Local(a)), Ok(Network::Local(b))) => a.relay@ == b.relay@,
                (Err(NetworkError::MissingRelay), Err(NetworkError::MissingRelay)) => true,
                (Err(NetworkError::Unknown { value }), Err(NetworkError::Unknown { .. })) => value@
                    == ascii_lowercase(trimmed(raw@)),
                _ => false,
            },
    {
        let t = trim(raw);
        let v = ascii_lowercase_exec(t.as_str());
        if is_text(&v, "") || is_text(&v, "public") {
            Ok(Network::Public)
        } else if is_text(&v, "isolated") {
            Ok(Network::Isolated)
        } else if is_text(&v, "local") {
            match relay {
                Some(r) => Ok(Network::Local(LocalNet { relay: r })),
                None => Err(NetworkError::MissingRelay),
            }
        } else {
            Err(NetworkError::Unknown { value: string_of(v.as_slice()) })
        }
    }

    /// Whether this policy provides a relay, so waiting on a home relay is
    /// sound. Isolated has none.
    pub fn uses_relay(&self) -> (r: bool)
        ensures
            r == !(self is Isolated),
    {
        match self {
            Network::Isolated => false,
            _ => true,
        }
    }
}

/// The endpoint preset a policy builds on.
#[derive(Debug, Clone, Copy, PartialEq, Eq, Structural)]
pub enum Preset {
    /// The public relays and discovery.
    Public,
    /// No relays and no discovery of its own.
    Minimal,
}

/// How the endpoint relays.
#[derive(Debug, Clone)]
pub enum RelayMode {
    /// The preset's relays.
    Preset,
    /// No relay at all.
    Disabled,
    /// Exactly this relay (a URL the transport parses).
    Custom(String),
}

/// How to build the endpoint that fulfils a policy: its preset, its relay
/// mode, and the relay the peer book registers `{id, relay}` addresses under
/// (none where ids resolve otherwise).
#[derive(Debug, Clone)]
pub struct EndpointPlan {
    pub preset: Preset,
    pub relay_mode: RelayMode,
    pub book_relay: Option<String>,
}

impl Network {
    /// The endpoint plan of this policy: public relays and discovery; or no
    /// relay and no discovery (direct reach only); or lait's own single relay,
    /// with every learned peer registered under it so a bare id resolves
    /// without discovery.
    pub fn endpoint_plan(&self) -> (r: EndpointPlan)
        ensures
            self is Public ==> r.preset == Preset::Public && r.relay_mode is Preset
                && r.book_relay is None,
            self is Isolated ==> r.preset == Preset::Minimal && r.relay_mode is Disabled
                && r.book_relay is None,
            self matches Network::Local(l) ==> r.preset == Preset::Minimal && (r.relay_mode matches RelayMode::Custom(u) && u@ == l.relay@) && (r.book_relay matches Some(b) && b@ == l.relay@),
    {
        match self {
            Network::Public => EndpointPlan {
                preset: Preset::Public,
                relay_mode: RelayMode::Preset,
                book_relay: None,
            },
            Network::Isolated => EndpointPlan {
                preset: Preset::Minimal,
                relay_mode: RelayMode::Disabled,
                book_relay: None,
            },
            Network::Local(l) => EndpointPlan {
                preset: Preset::Minimal,
                relay_mode: RelayMode::Custom(l.relay.clone()),
                book_relay: Some(l.relay.clone()),
            },
        }
    }
}

} // verus!
