//! The links of shares, as texts.

use vstd::prelude::*;

use crate::error::LanBeamError;
use crate::laws::shares::{ends_at, lemma_serveable, others_stay, running, summed};
use crate::laws::texts::{digits_only, lemma_decimal_digits, worth};
use crate::net::Ipv4Addr;
use crate::share::{PathProbe, ShareCandidate, ShareInfo, ShareRegistry};
use crate::share_links::{
    display_name, do_start_share, do_update_share, list_shares_dto, share_base_url, share_entries,
    ShareEntry, ShareStarted, ShareUpdated,
};
use crate::text::decimal;
use crate::time::{Clock, Duration, Instant};

verus! {

/// `http://`, the address, a colon and the port.
pub open spec fn server(url: Seq<char>, host: Seq<char>, port: u16, digits: Seq<char>) -> bool {
    url == "http://"@ + host + ":"@ + digits && digits_only(digits) && worth(digits) == port
}

/// The address that links name: the given one, or this machine.
pub open spec fn host_of(ip: Option<Ipv4Addr>, host: Seq<char>) -> bool {
    host == crate::net::dotted(
        match ip {
            Some(a) => a,
            None => Ipv4Addr { bits: 2_130_706_433 },
        },
    )
}

/// The server is named by its address and its port; without a port there is no
/// link.
pub proof fn law_server_is_named_by_address_and_port(
    port: u16,
    ip: Option<Ipv4Addr>,
    r: Result<String, LanBeamError>,
)
    requires
        call_ensures(share_base_url, (port, ip), r),
    ensures
        r is Err <==> port == 0,
        r matches Ok(u) ==> exists|host: Seq<char>, digits: Seq<char>|
            #[trigger] server(u@, host, port, digits) && host_of(ip, host),
        r matches Err(e) ==> e is Io && e->Io_0@ == "browser share server is not available"@,
{
    lemma_decimal_digits(port as nat);
    match r {
        Ok(u) => {
            assert(server(u@, crate::share_links::link_host(ip), port, decimal(port as nat)));
        },
        Err(e) => {},
    }
}

/// What a link looks like: the server, `/s/` and the token.
pub open spec fn link_to(url: Seq<char>, port: u16, ip: Option<Ipv4Addr>, token: Seq<char>) -> bool {
    exists|base: Seq<char>, host: Seq<char>, digits: Seq<char>|
        #[trigger] server(base, host, port, digits) && host_of(ip, host) && url == base + "/s/"@
            + token
}

proof fn lemma_link(port: u16, ip: Option<Ipv4Addr>, token: Seq<char>)
    ensures
        link_to(
            crate::share_links::share_url(crate::share_links::base_url(port, ip), token),
            port,
            ip,
            token,
        ),
{
    lemma_decimal_digits(port as nat);
    let base = crate::share_links::base_url(port, ip);
    assert(server(base, crate::share_links::link_host(ip), port, decimal(port as nat)));
}

/// A life of `secs` seconds, brought between a minute and a day.
pub open spec fn life(secs: u64, ttl: Duration) -> bool {
    &&& secs < 60 ==> ttl.nanos == 60 * 1_000_000_000
    &&& secs > 86_400 ==> ttl.nanos == 86_400 * 1_000_000_000
    &&& 60 <= secs <= 86_400 ==> ttl.nanos == secs * 1_000_000_000
}

/// A cap between one and a thousand, or none.
pub open spec fn cap(asked: Option<u32>, got: Option<u32>) -> bool {
    match (asked, got) {
        (None, None) => true,
        (Some(a), Some(g)) => 1 <= g <= 1000 && (1 <= a <= 1000 ==> g == a) && (a == 0 ==> g == 1)
            && (a > 1000 ==> g == 1000),
        _ => false,
    }
}

/// A share that was started is in the registry under the token of its link,
/// serves the files in the order given, lives as long as asked within the
/// limits, and ends when it says. Without a port, without files, or with a path
/// that is no regular file nothing is started.
#[verifier::rlimit(40)]
pub proof fn law_started_share_is_behind_its_link(
    registry: &mut ShareRegistry,
    files: Vec<ShareCandidate>,
    ttl_secs: u64,
    max_downloads: Option<u32>,
    port: u16,
    ip: Option<Ipv4Addr>,
    clock: Clock,
    r: Result<ShareStarted, LanBeamError>,
)
    requires
        call_ensures(
            do_start_share,
            (registry, files, ttl_secs, max_downloads, port, ip, clock),
            r,
        ),
    ensures
        r is Err ==> final(registry)@ == old(registry)@,
        r is Ok ==> port != 0 && files@.len() > 0 && forall|i: int|
            0 <= i < files@.len() ==> (#[trigger] files@[i]).probe is Regular,
        port != 0 && files@.len() > 0 && (forall|i: int|
            0 <= i < files@.len() ==> (#[trigger] files@[i]).probe is Regular) && r is Err
            ==> r->Err_0 is Crypto,
        port == 0 ==> r is Err && r->Err_0 is Io && r->Err_0->Io_0@
            == "browser share server is not available"@,
        r matches Ok(s) ==> {
            let share = final(registry)@[s.token@];
            &&& link_to(s.url@, port, ip, s.token@)
            &&& final(registry)@.contains_key(s.token@)
            &&& others_stay(old(registry)@, final(registry)@, s.token@)
            &&& share.active && share.downloads == 0 && share.created == clock.now
            &&& life(ttl_secs, share.ttl) && cap(max_downloads, share.max_downloads)
            &&& share.expires_at_secs == s.expires_at
            &&& ends_at(clock.unix_secs, share.ttl, s.expires_at)
            &&& share.files@.len() == files@.len()
            &&& forall|i: int|
                0 <= i < files@.len() ==> (#[trigger] share.files@[i]).name@ == files@[i].name@
                    && share.files@[i].path@ == files@[i].path@ && files@[i].probe
                    == PathProbe::Regular(share.files@[i].size)
        },
{
    crate::laws::shares::lemma_first_refused(files@);
    let n = crate::share::first_refused(files@);
    if n < files@.len() {
        assert(!(files@[n].probe is Regular));
    } else {
        assert forall|i: int| 0 <= i < files@.len() implies (#[trigger] files@[i]).probe is Regular by {
            assert(crate::laws::shares::regular(files@[i]));
        }
    }
    match r {
        Ok(s) => {
            lemma_link(port, ip, s.token@);
        },
        Err(e) => {},
    }
}

/// A share that runs gets the life and the cap that are asked for, within the
/// limits, from now on; any other is left alone.
pub proof fn law_updated_share_lives_as_asked(
    registry: &mut ShareRegistry,
    token: &str,
    ttl_secs: u64,
    max_downloads: Option<u32>,
    clock: Clock,
    r: Option<ShareUpdated>,
)
    requires
        call_ensures(do_update_share, (registry, token, ttl_secs, max_downloads, clock), r),
    ensures
        ({
            let before = old(registry)@;
            let after = final(registry)@;
            let s = before[token@];
            let n = after[token@];
            &&& r is Some <==> before.contains_key(token@) && running(s, clock.now)
            &&& r is None ==> after == before
            &&& r matches Some(u) ==> {
                &&& ends_at(clock.unix_secs, n.ttl, u.expires_at) && n.expires_at_secs
                    == u.expires_at
                &&& after.contains_key(token@) && others_stay(before, after, token@)
                &&& n.created == clock.now && life(ttl_secs, n.ttl) && cap(
                    max_downloads,
                    n.max_downloads,
                )
                &&& n.token == s.token && n.files == s.files && n.downloads == s.downloads
                    && n.active
            }
        }),
{
    lemma_serveable(old(registry)@[token@], clock.now);
}

/// Every entry shows one share of the list in its place: its numbers as they
/// are, and its link, which is empty without a port.
pub proof fn law_entries_show_the_shares(
    infos: Vec<ShareInfo>,
    port: u16,
    ip: Option<Ipv4Addr>,
    r: Vec<ShareEntry>,
)
    requires
        call_ensures(share_entries, (infos, port, ip), r),
    ensures
        r@.len() == infos@.len(),
        forall|i: int|
            0 <= i < r@.len() ==> {
                let e = #[trigger] r@[i];
                let s = infos@[i];
                &&& e.token@ == s.token@ && e.file_count == s.file_count && e.total_size
                    == s.total_size
                &&& e.expires_at == s.expires_at_secs && e.downloads == s.downloads
                    && e.max_downloads == s.max_downloads
                &&& port == 0 ==> e.url@.len() == 0
                &&& port != 0 ==> link_to(e.url@, port, ip, s.token@)
            },
{
    assert forall|i: int| 0 <= i < r@.len() && port != 0 implies link_to(
        (#[trigger] r@[i]).url@,
        port,
        ip,
        infos@[i].token@,
    ) by {
        lemma_link(port, ip, infos@[i].token@);
    }
}

/// The shares that run are shown with their links, each once and no other.
#[verifier::rlimit(40)]
pub proof fn law_running_shares_are_shown_with_links(
    registry: &ShareRegistry,
    now: Instant,
    port: u16,
    ip: Option<Ipv4Addr>,
    r: Vec<ShareEntry>,
)
    requires
        registry.wf(),
        call_ensures(list_shares_dto, (registry, now, port, ip), r),
    ensures
        forall|t: Seq<char>| #[trigger]
            registry@.contains_key(t) && running(registry@[t], now) ==> exists|i: int|
                0 <= i < r@.len() && (#[trigger] r@[i]).token@ == t,
        forall|i: int|
            0 <= i < r@.len() ==> {
                let e = #[trigger] r@[i];
                let s = registry@[e.token@];
                &&& registry@.contains_key(e.token@) && running(s, now)
                &&& e.file_count == s.files@.len() && e.total_size == summed(s.files@)
                &&& e.expires_at == s.expires_at_secs && e.max_downloads == s.max_downloads
                &&& port == 0 ==> e.url@.len() == 0
                &&& port != 0 ==> link_to(e.url@, port, ip, e.token@)
            },
        forall|i: int, j: int|
            0 <= i < j < r@.len() ==> (#[trigger] r@[i]).token@ != (#[trigger] r@[j]).token@,
{
    let infos = choose|infos: Seq<ShareInfo>| #[trigger]
        crate::share::lists(infos, registry@, now) && crate::share_links::shows_shares(
            r@,
            infos,
            port,
            ip,
        );
    assert forall|t: Seq<char>| #[trigger]
        registry@.contains_key(t) && running(registry@[t], now) implies exists|i: int|
        0 <= i < r@.len() && (#[trigger] r@[i]).token@ == t by {
        lemma_serveable(registry@[t], now);
        let i = choose|i: int| 0 <= i < infos.len() && (#[trigger] infos[i]).token@ == t;
        assert(crate::share_links::shows_share(r@[i], infos[i], port, ip));
    }
    assert forall|i: int| 0 <= i < r@.len() implies ({
        let e = #[trigger] r@[i];
        let s = registry@[e.token@];
        &&& registry@.contains_key(e.token@) && running(s, now)
        &&& e.file_count == s.files@.len() && e.total_size == summed(s.files@)
        &&& e.expires_at == s.expires_at_secs && e.max_downloads == s.max_downloads
        &&& port == 0 ==> e.url@.len() == 0
        &&& port != 0 ==> link_to(e.url@, port, ip, e.token@)
    }) by {
        assert(crate::share_links::shows_share(r@[i], infos[i], port, ip));
        let s = registry@[infos[i].token@];
        lemma_serveable(s, now);
        crate::laws::shares::lemma_summed(s.files@);
        lemma_link(port, ip, infos[i].token@);
    }
    assert forall|i: int, j: int| 0 <= i < j < r@.len() implies (#[trigger] r@[i]).token@ != (
    #[trigger] r@[j]).token@ by {
        assert(crate::share_links::shows_share(r@[i], infos[i], port, ip));
        assert(crate::share_links::shows_share(r@[j], infos[j], port, ip));
    }
}

/// A file without a name of its own is shown as `download`.
pub proof fn law_shown_name(file_name: Option<String>, r: String)
    requires
        call_ensures(display_name, (file_name,), r),
    ensures
        file_name matches Some(n) ==> r@ == n@,
        file_name is None ==> r@ == "download"@,
{
}

} // verus!
