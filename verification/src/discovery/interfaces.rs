//! The IPv4 interfaces that discovery uses.

use vstd::prelude::*;

use crate::net::Ipv4Addr;

verus! {

#[derive(Debug, Clone, Copy, PartialEq, Eq, Structural)]
pub struct Iface {
    pub ip: Ipv4Addr,
    pub broadcast: Option<Ipv4Addr>,
}

/// An interface as the system lists it.
#[derive(Debug, Clone, Copy, PartialEq, Eq, Structural)]
pub enum FoundIface {
    Loopback,
    V4(Iface),
    V6,
}

/// The IPv4 interfaces among those found.
pub open spec fn usable(found: Seq<FoundIface>) -> Seq<Iface>
    decreases found.len(),
{
    if found.len() == 0 {
        Seq::empty()
    } else {
        match found.last() {
            FoundIface::V4(i) => usable(found.drop_last()).push(i),
            _ => usable(found.drop_last()),
        }
    }
}

/// The IPv4 interfaces other than the loopback; none if the system listed
/// none.
pub fn enumerate(found: Option<Vec<FoundIface>>) -> (r: Vec<Iface>)
    ensures
        r@ == match found {
            Some(v) => usable(v@),
            None => Seq::<Iface>::empty(),
        },
{
    let mut r: Vec<Iface> = Vec::new();
    match found {
        Some(v) => {
            for i in 0..v.len()
                invariant
                    r@ == usable(v@.subrange(0, i as int)),
            {
                proof {
                    assert(v@.subrange(0, i + 1).drop_last() =~= v@.subrange(0, i as int));
                    assert(v@.subrange(0, i + 1).last() == v@[i as int]);
                }
                match v[i] {
                    FoundIface::V4(x) => {
                        r.push(x);
                    },
                    FoundIface::Loopback => {},
                    FoundIface::V6 => {},
                }
            }
            proof {
                assert(v@.subrange(0, v@.len() as int) =~= v@);
            }
        },
        None => {},
    }
    r
}

/// The interfaces with the given address.
pub open spec fn matching(all: Seq<Iface>, ip: Ipv4Addr) -> Seq<Iface> {
    all.filter(|i: Iface| i.ip == ip)
}

/// The interfaces that a filter keeps, and whether it fell back to all of them
/// because it matched none.
pub open spec fn selected(all: Seq<Iface>, filter: Option<Ipv4Addr>) -> (Seq<Iface>, bool) {
    match filter {
        None => (all, false),
        Some(ip) => if matching(all, ip).len() == 0 {
            (all, true)
        } else {
            (matching(all, ip), false)
        },
    }
}

/// Narrows an enumeration to the chosen interface. A stale choice keeps every
/// interface, so that the device never vanishes from the network.
pub fn select(all: Vec<Iface>, filter: Option<Ipv4Addr>) -> (r: (Vec<Iface>, bool))
    ensures
        (r.0@, r.1) == selected(all@, filter),
{
    let ip = match filter {
        Some(ip) => ip,
        None => {
            return (all, false);
        },
    };
    let ghost p = |i: Iface| i.ip == ip;
    let mut matched: Vec<Iface> = Vec::new();
    for i in 0..all.len()
        invariant
            p == (|i: Iface| i.ip == ip),
            matched@ == all@.subrange(0, i as int).filter(p),
    {
        proof {
            reveal(Seq::filter);
            assert(all@.subrange(0, i + 1).drop_last() =~= all@.subrange(0, i as int));
            assert(all@.subrange(0, i + 1).last() == all@[i as int]);
        }
        if all[i].ip == ip {
            matched.push(all[i]);
        }
    }
    proof {
        assert(all@.subrange(0, all@.len() as int) =~= all@);
    }
    if matched.len() == 0 {
        (all, true)
    } else {
        (matched, false)
    }
}

/// A filter never leaves discovery without an interface while there is one.
pub proof fn law_filter_never_strands(all: Seq<Iface>, filter: Option<Ipv4Addr>)
    requires
        all.len() > 0,
    ensures
        selected(all, filter).0.len() > 0,
{
}

} // verus!
