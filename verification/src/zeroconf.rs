//! Which local addresses a TCP listener is announced under over mDNS.
//!
//! A listener bound to one concrete address is announced under that
//! address. One bound to the "any interface" address (`0.0.0.0` or `::`)
//! is announced under every non-loopback address the machine has (for
//! `0.0.0.0` only the IPv4 ones), and under the loopback address of its
//! family when there is none, so the service is at least discoverable
//! from the same machine. Listing the interfaces is the caller's part.

use vstd::prelude::*;

verus! {

/// An IP address, by its octets (IPv4) or 16-bit segments (IPv6).
#[derive(Debug, Clone, Copy, PartialEq, Eq, Structural)]
pub enum IpAddress {
    V4(u8, u8, u8, u8),
    V6(u16, u16, u16, u16, u16, u16, u16, u16),
}

/// One address of a local network interface.
#[derive(Debug, Clone, Copy, PartialEq, Eq, Structural)]
pub struct LocalInterface {
    pub ip: IpAddress,
    /// The interface is a loopback interface.
    pub loopback: bool,
}

pub open spec fn is_v4(a: IpAddress) -> bool {
    a is V4
}

/// `IpAddr::is_unspecified`: `0.0.0.0` or `::`.
pub open spec fn unspecified(a: IpAddress) -> bool {
    match a {
        IpAddress::V4(a0, a1, a2, a3) => a0 == 0 && a1 == 0 && a2 == 0 && a3 == 0,
        IpAddress::V6(s0, s1, s2, s3, s4, s5, s6, s7) => s0 == 0 && s1 == 0 && s2 == 0 && s3 == 0 && s4 == 0
            && s5 == 0 && s6 == 0 && s7 == 0,
    }
}

/// The loopback address of the family of `a`: `127.0.0.1` or `::1`.
pub open spec fn loopback_of(a: IpAddress) -> IpAddress {
    if is_v4(a) {
        IpAddress::V4(127, 0, 0, 1)
    } else {
        IpAddress::V6(0, 0, 0, 0, 0, 0, 0, 1)
    }
}

/// Whether an interface address is announced for a listener bound to the
/// "any" address of the family `bind_v4` says: not loopback, and IPv4
/// when the listener is.
pub open spec fn usable(bind_v4: bool, i: LocalInterface) -> bool {
    !i.loopback && (is_v4(i.ip) || !bind_v4)
}

/// The usable addresses of `ifaces`, in order.
pub open spec fn usable_addrs(bind_v4: bool, ifaces: Seq<LocalInterface>) -> Seq<IpAddress>
    decreases ifaces.len(),
{
    if ifaces.len() == 0 {
        seq![]
    } else {
        let rest = usable_addrs(bind_v4, ifaces.drop_last());
        if usable(bind_v4, ifaces.last()) {
            rest.push(ifaces.last().ip)
        } else {
            rest
        }
    }
}

/// The addresses a listener bound to `bind` is announced under.
pub open spec fn announce_candidates(bind: IpAddress, ifaces: Seq<LocalInterface>) -> Seq<IpAddress> {
    if !unspecified(bind) {
        seq![bind]
    } else {
        let found = usable_addrs(is_v4(bind), ifaces);
        if found.len() == 0 {
            seq![loopback_of(bind)]
        } else {
            found
        }
    }
}

/// `IpAddr::is_unspecified` holds of exactly two addresses: `0.0.0.0`
/// and `::`.
pub proof fn law_unspecified_is_any_address(a: IpAddress)
    ensures
        unspecified(a) <==> (a == IpAddress::V4(0, 0, 0, 0) || a == IpAddress::V6(0, 0, 0, 0, 0, 0, 0, 0)),
{
}

/// A listener bound to any address but `0.0.0.0` and `::` (a loopback
/// address such as `::1` or `127.0.0.1` included) is announced under
/// that address alone, whatever interfaces the machine has.
pub proof fn law_concrete_bind_announced_as_is(b: IpAddress, ifaces: Seq<LocalInterface>)
    requires
        b != IpAddress::V4(0, 0, 0, 0),
        b != IpAddress::V6(0, 0, 0, 0, 0, 0, 0, 0),
    ensures
        announce_candidates(b, ifaces) == seq![b],
{
}

proof fn lemma_usable_addrs_members(bind_v4: bool, ifaces: Seq<LocalInterface>)
    ensures
        forall|k: int| 0 <= k < usable_addrs(bind_v4, ifaces).len() ==> exists|j: int|
            0 <= j < ifaces.len() && !ifaces[j].loopback && (is_v4(ifaces[j].ip) || !bind_v4)
                && #[trigger] usable_addrs(bind_v4, ifaces)[k] == ifaces[j].ip,
        forall|j: int| 0 <= j < ifaces.len() && !ifaces[j].loopback && (is_v4(ifaces[j].ip) || !bind_v4)
            ==> usable_addrs(bind_v4, ifaces).contains(#[trigger] ifaces[j].ip),
    decreases ifaces.len(),
{
    if ifaces.len() > 0 {
        let init = ifaces.drop_last();
        lemma_usable_addrs_members(bind_v4, init);
        let r = usable_addrs(bind_v4, init);
        let u = usable_addrs(bind_v4, ifaces);
        assert forall|k: int| 0 <= k < u.len() implies exists|j: int|
            0 <= j < ifaces.len() && !ifaces[j].loopback && (is_v4(ifaces[j].ip) || !bind_v4)
                && #[trigger] u[k] == ifaces[j].ip by {
            if k < r.len() {
                let j = choose|j: int| 0 <= j < init.len() && !init[j].loopback && (is_v4(init[j].ip) || !bind_v4)
                    && r[k] == init[j].ip;
                assert(u[k] == r[k]);
                assert(ifaces[j] == init[j]);
            } else {
                assert(u[k] == ifaces.last().ip);
                assert(ifaces[ifaces.len() - 1] == ifaces.last());
            }
        }
        assert forall|j: int| 0 <= j < ifaces.len() && !ifaces[j].loopback && (is_v4(ifaces[j].ip) || !bind_v4)
            implies u.contains(#[trigger] ifaces[j].ip) by {
            if j < init.len() {
                assert(init[j] == ifaces[j]);
                assert(r.contains(init[j].ip));
                let k = choose|k: int| 0 <= k < r.len() && r[k] == init[j].ip;
                assert(u[k] == r[k]);
            } else {
                assert(ifaces[j] == ifaces.last());
                assert(u[u.len() - 1] == ifaces[j].ip);
            }
        }
    }
}

/// A listener bound to `0.0.0.0` or `::` is announced under every
/// non-loopback interface address (only the IPv4 ones for `0.0.0.0`),
/// and under nothing else; when there is none, under the loopback
/// address of its family alone.
pub proof fn law_any_bind_announced_on_interfaces(b: IpAddress, ifaces: Seq<LocalInterface>)
    requires
        b == IpAddress::V4(0, 0, 0, 0) || b == IpAddress::V6(0, 0, 0, 0, 0, 0, 0, 0),
    ensures
        forall|j: int| 0 <= j < ifaces.len() && !ifaces[j].loopback && (is_v4(ifaces[j].ip) || b is V6)
            ==> announce_candidates(b, ifaces).contains(#[trigger] ifaces[j].ip),
        forall|k: int| 0 <= k < announce_candidates(b, ifaces).len() ==>
            #[trigger] announce_candidates(b, ifaces)[k] == loopback_of(b) || exists|j: int|
                0 <= j < ifaces.len() && !ifaces[j].loopback && (is_v4(ifaces[j].ip) || b is V6)
                    && announce_candidates(b, ifaces)[k] == ifaces[j].ip,
        announce_candidates(b, ifaces).len() > 0,
        (forall|j: int| 0 <= j < ifaces.len() ==> ifaces[j].loopback || (b is V4 && !is_v4(ifaces[j].ip)))
            ==> announce_candidates(b, ifaces) == seq![loopback_of(b)],
        b is V4 ==> loopback_of(b) == IpAddress::V4(127, 0, 0, 1),
        b is V6 ==> loopback_of(b) == IpAddress::V6(0, 0, 0, 0, 0, 0, 0, 1),
{
    lemma_usable_addrs_members(is_v4(b), ifaces);
    let u = usable_addrs(is_v4(b), ifaces);
    if u.len() == 0 {
        assert forall|j: int| 0 <= j < ifaces.len() && !ifaces[j].loopback && (is_v4(ifaces[j].ip) || b is V6)
            implies announce_candidates(b, ifaces).contains(#[trigger] ifaces[j].ip) by {
            assert(u.contains(ifaces[j].ip));
        }
    } else {
        assert forall|k: int| 0 <= k < u.len() implies #[trigger] u[k] == loopback_of(b) || exists|j: int|
                0 <= j < ifaces.len() && !ifaces[j].loopback && (is_v4(ifaces[j].ip) || b is V6)
                    && u[k] == ifaces[j].ip by {
        }
        if forall|j: int| 0 <= j < ifaces.len() ==> ifaces[j].loopback || (b is V4 && !is_v4(ifaces[j].ip)) {
            let k = 0int;
            let j = choose|j: int| 0 <= j < ifaces.len() && !ifaces[j].loopback && (is_v4(ifaces[j].ip) || !is_v4(b))
                && u[k] == ifaces[j].ip;
            assert(ifaces[j].loopback || (b is V4 && !is_v4(ifaces[j].ip)));
        }
    }
}

fn is_unspecified(a: IpAddress) -> (b: bool)
    ensures
        b == unspecified(a),
{
    match a {
        IpAddress::V4(a0, a1, a2, a3) => a0 == 0 && a1 == 0 && a2 == 0 && a3 == 0,
        IpAddress::V6(s0, s1, s2, s3, s4, s5, s6, s7) => s0 == 0 && s1 == 0 && s2 == 0 && s3 == 0 && s4 == 0
            && s5 == 0 && s6 == 0 && s7 == 0,
    }
}

/// The addresses to announce a listener bound to `bind` under, given the
/// addresses of the machine's interfaces.
pub fn local_ip_candidates(bind: IpAddress, ifaces: &Vec<LocalInterface>) -> (r: Vec<IpAddress>)
    ensures
        r@ == announce_candidates(bind, ifaces@),
        bind != IpAddress::V4(0, 0, 0, 0) && bind != IpAddress::V6(0, 0, 0, 0, 0, 0, 0, 0) ==> r@ == seq![bind],
{
    let mut out: Vec<IpAddress> = Vec::new();
    if !is_unspecified(bind) {
        out.push(bind);
        return out;
    }
    let want_v4 = match bind {
        IpAddress::V4(..) => true,
        IpAddress::V6(..) => false,
    };
    let mut i: usize = 0;
    while i < ifaces.len()
        invariant
            i <= ifaces@.len(),
            want_v4 == is_v4(bind),
            out@ == usable_addrs(want_v4, ifaces@.subrange(0, i as int)),
        decreases ifaces@.len() - i,
    {
        let ifa = ifaces[i];
        assert(ifaces@.subrange(0, i as int + 1).drop_last() =~= ifaces@.subrange(0, i as int));
        let v4 = match ifa.ip {
            IpAddress::V4(..) => true,
            IpAddress::V6(..) => false,
        };
        if !ifa.loopback && (v4 || !want_v4) {
            out.push(ifa.ip);
        }
        i += 1;
    }
    assert(ifaces@.subrange(0, ifaces@.len() as int) =~= ifaces@);
    if out.len() == 0 {
        if want_v4 {
            out.push(IpAddress::V4(127, 0, 0, 1));
        } else {
            out.push(IpAddress::V6(0, 0, 0, 0, 0, 0, 0, 1));
        }
    }
    out
}

} // verus!
