//! The links of browser shares as the user interface gets them, and who may
//! follow them.

use vstd::prelude::*;

use crate::error::{LanBeamError, Result};
use crate::net::{dotted, IpAddr, Ipv4Addr};
use crate::share::{
    candidates_size, clamp_max_downloads, clamp_ttl, create_share, denied, denied_body,
    first_refused, freshly_made, list_shares, lists, reconfigured, share_expiry_secs,
    shown_expiry, token_failure, token_shaped, update_share, Denied, Reply, Share, ShareCandidate,
    ShareInfo, ShareRegistry,
};
use crate::text::{concat, decimal, decimal_string};
use crate::time::{Clock, Duration, Instant};

verus! {

/// A share that was started.
#[derive(Debug)]
pub struct ShareStarted {
    pub token: String,
    pub url: String,
    pub expires_at: u64,
}

/// The new expiry of a share.
#[derive(Debug)]
pub struct ShareUpdated {
    pub expires_at: u64,
}

/// A live share with its link.
#[derive(Debug, Clone)]
pub struct ShareEntry {
    pub token: String,
    pub url: String,
    pub file_count: usize,
    pub total_size: u64,
    pub expires_at: u64,
    pub downloads: u32,
    pub max_downloads: Option<u32>,
}

/// The host of the links: the given address, or this machine alone.
pub open spec fn link_host(ip: Option<Ipv4Addr>) -> Seq<char> {
    match ip {
        Some(a) => dotted(a),
        None => dotted(Ipv4Addr { bits: 0x7F00_0001 }),
    }
}

/// What the links begin with.
pub open spec fn base_url(port: u16, ip: Option<Ipv4Addr>) -> Seq<char> {
    "http://"@ + link_host(ip) + ":"@ + decimal(port as nat)
}

/// The beginning of the links, or an error while the server has no port: a
/// share that nobody can reach is not made.
pub fn share_base_url(port: u16, ip: Option<Ipv4Addr>) -> (r: Result<String>)
    ensures
        match r {
            Ok(u) => port != 0 && u@ == base_url(port, ip),
            Err(LanBeamError::Io(m)) => port == 0 && m@ == "browser share server is not available"@,
            Err(_) => false,
        },
{
    if port == 0 {
        return Err(LanBeamError::Io("browser share server is not available".to_owned()));
    }
    let host = match ip {
        Some(a) => a.to_string(),
        None => {
            let local = Ipv4Addr { bits: 0x7F00_0001 };
            local.to_string()
        },
    };
    let mut u = concat("http://", host.as_str());
    u.append(":");
    let p = decimal_string(port as u64);
    u.append(p.as_str());
    Ok(u)
}

/// The link of a token.
pub open spec fn share_url(base: Seq<char>, token: Seq<char>) -> Seq<char> {
    base + "/s/"@ + token
}

fn make_url(base: &str, token: &str) -> (r: String)
    ensures
        r@ == share_url(base@, token@),
{
    let mut u = concat(base, "/s/");
    u.append(token);
    u
}

/// The name that a file is shown under: its own, or a general one.
pub fn display_name(file_name: Option<String>) -> (r: String)
    ensures
        r@ == match file_name {
            Some(n) => n@,
            None => "download"@,
        },
{
    match file_name {
        Some(n) => n,
        None => "download".to_owned(),
    }
}

/// A requested life as it is applied.
pub open spec fn applied_ttl(secs: u64) -> Duration {
    Duration {
        nanos: Duration::of_secs(
            if secs < 60 {
                60
            } else if secs > 86_400 {
                86_400
            } else {
                secs as nat
            },
        ) as u128,
    }
}

/// A requested cap as it is applied.
pub open spec fn applied_max(max: Option<u32>) -> Option<u32> {
    match max {
        None => None,
        Some(n) => Some(
            if n < 1 {
                1u32
            } else if n > 1000 {
                1000
            } else {
                n
            },
        ),
    }
}

/// Starts a share: the life and the cap are brought into their ranges, and
/// nothing is registered while the server has no port.
pub fn do_start_share(
    registry: &mut ShareRegistry,
    files: Vec<ShareCandidate>,
    ttl_secs: u64,
    max_downloads: Option<u32>,
    share_port: u16,
    ip: Option<Ipv4Addr>,
    clock: Clock,
) -> (r: Result<ShareStarted>)
    requires
        old(registry).wf(),
        files@.len() <= u32::MAX,
        candidates_size(files@) <= u64::MAX,
    ensures
        final(registry).wf(),
        r is Err ==> final(registry)@ == old(registry)@,
        share_port == 0 ==> (r matches Err(LanBeamError::Io(m)) && m@
            == "browser share server is not available"@),
        share_port != 0 && files@.len() == 0 ==> (r matches Err(LanBeamError::UnsafePath(m)) && m@
            == "a share must contain at least one file"@),
        share_port != 0 && first_refused(files@) < files@.len() ==> (r matches Err(e)
            && files@[first_refused(files@)].refused_with(e)),
        share_port != 0 && files@.len() > 0 && first_refused(files@) == files@.len() ==> match r {
            Ok(s) => {
                &&& token_shaped(s.token@)
                &&& s.url@ == share_url(base_url(share_port, ip), s.token@)
                &&& s.expires_at == shown_expiry(clock.unix_secs, applied_ttl(ttl_secs))
                &&& final(registry)@.contains_key(s.token@)
                &&& final(registry)@ == old(registry)@.insert(
                    s.token@,
                    final(registry)@[s.token@],
                )
                &&& freshly_made(
                    final(registry)@[s.token@],
                    s.token@,
                    files@,
                    applied_ttl(ttl_secs),
                    applied_max(max_downloads),
                    clock,
                )
            },
            Err(e) => token_failure(e),
        },
{
    let ttl = clamp_ttl(ttl_secs);
    let max = clamp_max_downloads(max_downloads);
    proof {
        assert(ttl == applied_ttl(ttl_secs));
        assert(max == applied_max(max_downloads));
    }
    let base = match share_base_url(share_port, ip) {
        Ok(b) => b,
        Err(e) => {
            return Err(e);
        },
    };
    let token = match create_share(registry, files, ttl, max, clock) {
        Ok(t) => t,
        Err(e) => {
            return Err(e);
        },
    };
    let expires_at: u64 = match share_expiry_secs(registry, token.as_str()) {
        Some(s) => s,
        None => 0,
    };
    let url = make_url(base.as_str(), token.as_str());
    Ok(ShareStarted { token, url, expires_at })
}

/// Changes the life and the cap of a live share.
pub fn do_update_share(
    registry: &mut ShareRegistry,
    token: &str,
    ttl_secs: u64,
    max_downloads: Option<u32>,
    clock: Clock,
) -> (r: Option<ShareUpdated>)
    requires
        old(registry).wf(),
    ensures
        final(registry).wf(),
        ({
            let m = old(registry)@;
            let ttl = applied_ttl(ttl_secs);
            if m.contains_key(token@) && m[token@].live(clock.now) {
                &&& r matches Some(u) && u.expires_at == shown_expiry(clock.unix_secs, ttl)
                &&& final(registry)@ == m.insert(
                    token@,
                    reconfigured(m[token@], ttl, applied_max(max_downloads), clock),
                )
            } else {
                &&& r is None
                &&& final(registry)@ == m
            }
        }),
{
    let ttl = clamp_ttl(ttl_secs);
    let max = clamp_max_downloads(max_downloads);
    proof {
        assert(ttl == applied_ttl(ttl_secs));
        assert(max == applied_max(max_downloads));
    }
    match update_share(registry, token, ttl, max, clock) {
        Some(expires_at) => Some(ShareUpdated { expires_at }),
        None => None,
    }
}

/// Whether `e` shows `info` with its link; without a port there is none.
pub open spec fn shows_share(
    e: ShareEntry,
    info: ShareInfo,
    port: u16,
    ip: Option<Ipv4Addr>,
) -> bool {
    &&& e.token@ == info.token@
    &&& e.url@ == if port == 0 {
        Seq::empty()
    } else {
        share_url(base_url(port, ip), info.token@)
    }
    &&& e.file_count == info.file_count
    &&& e.total_size == info.total_size
    &&& e.expires_at == info.expires_at_secs
    &&& e.downloads == info.downloads
    &&& e.max_downloads == info.max_downloads
}

/// Whether the entries show exactly these shares in order.
pub open spec fn shows_shares(
    entries: Seq<ShareEntry>,
    infos: Seq<ShareInfo>,
    port: u16,
    ip: Option<Ipv4Addr>,
) -> bool {
    &&& entries.len() == infos.len()
    &&& forall|i: int|
        0 <= i < entries.len() ==> shows_share(#[trigger] entries[i], infos[i], port, ip)
}

/// The shares with their links.
pub fn share_entries(infos: Vec<ShareInfo>, port: u16, ip: Option<Ipv4Addr>) -> (r: Vec<ShareEntry>)
    ensures
        shows_shares(r@, infos@, port, ip),
{
    let base = share_base_url(port, ip);
    let mut r: Vec<ShareEntry> = Vec::new();
    for i in 0..infos.len()
        invariant
            match base {
                Ok(u) => port != 0 && u@ == base_url(port, ip),
                Err(_) => port == 0,
            },
            r@.len() == i,
            forall|k: int| 0 <= k < i ==> shows_share(#[trigger] r@[k], infos@[k], port, ip),
    {
        let s = &infos[i];
        let url = match &base {
            Ok(b) => make_url(b.as_str(), s.token.as_str()),
            Err(_) => {
                let none = String::new();
                proof {
                    assert(none@ =~= Seq::<char>::empty());
                }
                none
            },
        };
        r.push(
            ShareEntry {
                token: s.token.clone(),
                url,
                file_count: s.file_count,
                total_size: s.total_size,
                expires_at: s.expires_at_secs,
                downloads: s.downloads,
                max_downloads: s.max_downloads,
            },
        );
    }
    r
}

/// Whether the entries show a list of the live shares.
pub open spec fn shows_live_shares(
    entries: Seq<ShareEntry>,
    shares: Map<Seq<char>, Share>,
    now: Instant,
    port: u16,
    ip: Option<Ipv4Addr>,
) -> bool {
    exists|infos: Seq<ShareInfo>| #[trigger]
        lists(infos, shares, now) && shows_shares(entries, infos, port, ip)
}

/// The live shares with their links.
pub fn list_shares_dto(
    registry: &ShareRegistry,
    now: Instant,
    port: u16,
    ip: Option<Ipv4Addr>,
) -> (r: Vec<ShareEntry>)
    requires
        registry.wf(),
    ensures
        shows_live_shares(r@, registry@, now, port, ip),
{
    let infos = list_shares(registry, now);
    proof {
        assert(lists(infos@, registry@, now));
    }
    share_entries(infos, port, ip)
}

// ── who may ask ───────────────────────────────────────────────────────────

/// An address of a private network: of this machine, of a private range, or of
/// the local link. An IPv4 address in IPv6 form counts as that address.
pub open spec fn on_private_network(ip: IpAddr) -> bool {
    match ip {
        IpAddr::V4(a) => a.loopback() || a.private() || a.link_local(),
        IpAddr::V6(b) => {
            let top = b / 0x1_0000_0000_0000_0000_0000_0000_0000;
            ||| b == 1
            ||| 0xFC00 <= top <= 0xFDFF
            ||| 0xFE80 <= top <= 0xFEBF
            ||| b / 0x1_0000_0000 == 0xFFFF && {
                let a = Ipv4Addr { bits: (b % 0x1_0000_0000) as u32 };
                a.loopback() || a.private() || a.link_local()
            }
        },
    }
}

fn is_private_v4(a: Ipv4Addr) -> (r: bool)
    ensures
        r == (a.loopback() || a.private() || a.link_local()),
{
    a.is_loopback() || a.is_private() || a.is_link_local()
}

pub fn is_on_private_network(ip: IpAddr) -> (r: bool)
    ensures
        r == on_private_network(ip),
{
    match ip {
        IpAddr::V4(a) => is_private_v4(a),
        IpAddr::V6(b) => {
            let top: u128 = b / 0x1_0000_0000_0000_0000_0000_0000_0000;
            if b == 1 || (0xFC00 <= top && top <= 0xFDFF) || (0xFE80 <= top && top <= 0xFEBF) {
                return true;
            }
            b / 0x1_0000_0000 == 0xFFFF && is_private_v4(
                Ipv4Addr { bits: (b % 0x1_0000_0000) as u32 },
            )
        },
    }
}

/// What every request passes first: one from outside a private network gets a
/// refusal that does not depend on any share, so that it never learns whether
/// its token is real.
pub fn lan_gate(peer: IpAddr) -> (r: Option<Reply>)
    ensures
        match r {
            None => on_private_network(peer),
            Some(reply) => !on_private_network(peer) && reply.is_page(
                404,
                denied_body(Denied::NotFound),
            ),
        },
{
    if is_on_private_network(peer) {
        None
    } else {
        Some(denied(Denied::NotFound))
    }
}

} // verus!
