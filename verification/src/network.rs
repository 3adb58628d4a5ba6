//! Devices on the local network: who counts as being on the same network,
//! which addresses a scan probes, and how a probed or announced peer
//! becomes a `Device`.

use vstd::prelude::*;
use crate::ip::{
    format_ipv4, ipv4_text, is_loopback, is_loopback_view, law_ipv4_text_roundtrip,
    opt_ip_view, parse_ip_addr, spec_parse_ip, IpAddress, IpView,
};
use crate::platform::{current_time, is_v4_uuid_text, new_uuid_text, Timestamp};
use crate::text::{concat_str, dec_string, dec_text, push_char, push_dec};

verus! {

/// Whether a client whose address text is `client` is on the same network
/// as the local address: loopback clients are; two IPv4 addresses are when
/// they share their /24 prefix; two IPv6 addresses when they share their
/// /64 prefix; anything else, unparsable text included, is not.
pub open spec fn same_network(client: Option<IpView>, local: IpView) -> bool {
    match client {
        None => false,
        Some(c) => if is_loopback_view(c) {
            true
        } else {
            match (c, local) {
                (IpView::V4(a), IpView::V4(b)) => a[0] == b[0] && a[1] == b[1] && a[2] == b[2],
                (IpView::V6(a), IpView::V6(b)) => a[0] == b[0] && a[1] == b[1] && a[2] == b[2]
                    && a[3] == b[3],
                _ => false,
            }
        },
    }
}

/// Checks that the client address text `client_ip` names an address on the
/// same network as `local_ip`.
pub fn is_same_network(client_ip: &str, local_ip: &IpAddress) -> (r: bool)
    ensures
        r == same_network(spec_parse_ip(client_ip@), local_ip@),
{
    let client = match parse_ip_addr(client_ip) {
        Some(c) => c,
        None => {
            return false;
        },
    };
    if is_loopback(&client) {
        return true;
    }
    match (client, local_ip) {
        (IpAddress::V4(a), IpAddress::V4(b)) => a[0] == b[0] && a[1] == b[1] && a[2] == b[2],
        (IpAddress::V6(a), IpAddress::V6(b)) => a[0] == b[0] && a[1] == b[1] && a[2] == b[2] && a[3]
            == b[3],
        _ => false,
    }
}

/// The address a request is attributed to: the `x-forwarded-for` header,
/// else the `x-real-ip` header, else the address the connection came from.
pub open spec fn spec_client_ip(
    forwarded: Option<Seq<char>>,
    real_ip: Option<Seq<char>>,
    remote: Seq<char>,
) -> Seq<char> {
    match forwarded {
        Some(f) => f,
        None => match real_ip {
            Some(r) => r,
            None => remote,
        },
    }
}

/// The view of an optional string.
pub open spec fn opt_str_view(s: Option<String>) -> Option<Seq<char>> {
    match s {
        Some(x) => Some(x@),
        None => None,
    }
}

/// The client address of a request, from its forwarding headers, or the
/// address of the connection (`remote`) when it carries neither.
pub fn client_ip_from_headers(forwarded: Option<String>, real_ip: Option<String>, remote: &str) -> (r:
    String)
    ensures
        r@ == spec_client_ip(opt_str_view(forwarded), opt_str_view(real_ip), remote@),
{
    match forwarded {
        Some(f) => f,
        None => match real_ip {
            Some(r) => r,
            None => remote.to_owned(),
        },
    }
}

/// Whether the server admits a request with these forwarding headers that
/// arrived over a connection from `remote`.
pub fn admit_request(
    forwarded: Option<String>,
    real_ip: Option<String>,
    remote: &str,
    local_ip: &IpAddress,
) -> (r: bool)
    ensures
        r == same_network(
            spec_parse_ip(spec_client_ip(opt_str_view(forwarded), opt_str_view(real_ip), remote@)),
            local_ip@,
        ),
{
    let client = client_ip_from_headers(forwarded, real_ip, remote);
    is_same_network(client.as_str(), local_ip)
}

/// A request that carries no forwarding header is judged by the address
/// its connection came from: it is admitted exactly when that address is on
/// the same network.
pub proof fn law_direct_request_judged_by_remote(remote: Seq<char>, local: IpView)
    ensures
        same_network(spec_parse_ip(spec_client_ip(None, None, remote)), local) == same_network(
            spec_parse_ip(remote),
            local,
        ),
{
}

/// A request that comes straight from a non-loopback IPv4 address outside
/// the local /24 prefix is refused.
pub proof fn law_direct_foreign_request_refused(remote: Seq<u8>, local: Seq<u8>)
    requires
        remote.len() == 4,
        local.len() == 4,
        remote[0] != 127,
        !(remote[0] == local[0] && remote[1] == local[1] && remote[2] == local[2]),
    ensures
        !same_network(spec_parse_ip(spec_client_ip(None, None, ipv4_text(remote))), IpView::V4(local)),
{
    law_foreign_prefix_is_refused(remote, local);
}

/// Every IPv4 address that shares the local address's /24 prefix, written
/// in dotted-decimal, is on the same network.
pub proof fn law_same_prefix_is_same_network(client: Seq<u8>, local: Seq<u8>)
    requires
        client.len() == 4,
        local.len() == 4,
        client[0] == local[0],
        client[1] == local[1],
        client[2] == local[2],
    ensures
        same_network(spec_parse_ip(ipv4_text(client)), IpView::V4(local)),
{
    law_ipv4_text_roundtrip(client);
}

/// A non-loopback IPv4 client outside the local address's /24 prefix is
/// not on the same network.
pub proof fn law_foreign_prefix_is_refused(client: Seq<u8>, local: Seq<u8>)
    requires
        client.len() == 4,
        local.len() == 4,
        client[0] != 127,
        !(client[0] == local[0] && client[1] == local[1] && client[2] == local[2]),
    ensures
        !same_network(spec_parse_ip(ipv4_text(client)), IpView::V4(local)),
{
    law_ipv4_text_roundtrip(client);
}

/// The same-network relation between two non-loopback addresses goes both
/// ways.
pub proof fn law_same_network_symmetric(a: IpView, b: IpView)
    requires
        !is_loopback_view(a),
        !is_loopback_view(b),
    ensures
        same_network(Some(a), b) == same_network(Some(b), a),
{
}

/// A peer seen on the network.
#[derive(Clone, Debug)]
pub struct Device {
    pub id: String,
    pub name: String,
    pub ip: String,
    pub port: u16,
    pub last_seen: Timestamp,
}

impl Device {
    /// A device with a fresh random identifier, seen now.
    pub fn new(name: String, ip: String, port: u16) -> (d: Device)
        ensures
            d.name@ == name@,
            d.ip@ == ip@,
            d.port == port,
            is_v4_uuid_text(d.id@),
            d.last_seen.nanos < 1_000_000_000,
    {
        Device { id: new_uuid_text(), name, ip, port, last_seen: current_time() }
    }

    /// A copy of this device.
    pub fn duplicate(&self) -> (d: Device)
        ensures
            d == *self,
    {
        Device {
            id: self.id.clone(),
            name: self.name.clone(),
            ip: self.ip.clone(),
            port: self.port,
            last_seen: self.last_seen,
        }
    }
}

/// Copies of a list of devices.
pub fn duplicate_devices(v: &Vec<Device>) -> (r: Vec<Device>)
    ensures
        r@ == v@,
{
    let mut r: Vec<Device> = Vec::new();
    let mut i: usize = 0;
    while i < v.len()
        invariant
            i <= v@.len(),
            r@ == v@.take(i as int),
        decreases v@.len() - i,
    {
        r.push(v[i].duplicate());
        i += 1;
        assert(r@ =~= v@.take(i as int));
    }
    assert(v@.take(v@.len() as int) =~= v@);
    r
}

/// The ports a network scan probes, in order.
pub open spec fn scan_port(p: int) -> u16 {
    if p == 0 {
        8080
    } else if p == 1 {
        8081
    } else if p == 2 {
        8082
    } else if p == 3 {
        3000
    } else {
        5000
    }
}

/// The number of ports a scan probes.
pub const SCAN_PORT_COUNT: usize = 5;

/// One address and port that a scan probes.
#[derive(Clone, Copy, Debug, PartialEq, Eq)]
pub struct ScanTarget {
    pub octets: [u8; 4],
    pub port: u16,
}

/// The position of the probe of host index `h` on port index `p`.
pub open spec fn scan_index(p: int, h: int) -> int {
    p * 254 + h
}

/// The scan of the local network: when the local address is IPv4
/// `a.b.c.d`, every port in turn (8080, 8081, 8082, 3000, 5000), and for
/// each port the hosts `a.b.c.1` to `a.b.c.254` in order; nothing when the
/// local address is IPv6.
pub open spec fn is_scan_plan(local: IpView, ts: Seq<ScanTarget>) -> bool {
    match local {
        IpView::V4(l) => {
            &&& ts.len() == 5 * 254
            &&& forall|p: int, h: int|
                0 <= p < 5 && 0 <= h < 254 ==> {
                    let t = #[trigger] ts[scan_index(p, h)];
                    &&& t.octets@ == seq![l[0], l[1], l[2], (h + 1) as u8]
                    &&& t.port == scan_port(p)
                }
        },
        IpView::V6(_) => ts.len() == 0,
    }
}

/// A scan probes every host `a.b.c.1` to `a.b.c.254` once on each of the
/// ports 8080, 8081, 8082, 3000 and 5000, in that order of ports.
pub proof fn law_scan_ports_in_order(local: Seq<u8>, ts: Seq<ScanTarget>, h: int)
    requires
        local.len() == 4,
        is_scan_plan(IpView::V4(local), ts),
        0 <= h < 254,
    ensures
        ts.len() == 1270,
        ts[h].port == 8080,
        ts[254 + h].port == 8081,
        ts[508 + h].port == 8082,
        ts[762 + h].port == 3000,
        ts[1016 + h].port == 5000,
        ts[h].octets@ == seq![local[0], local[1], local[2], (h + 1) as u8],
        ts[254 + h].octets@ == ts[h].octets@,
        ts[508 + h].octets@ == ts[h].octets@,
        ts[762 + h].octets@ == ts[h].octets@,
        ts[1016 + h].octets@ == ts[h].octets@,
{
    assert(scan_index(0, h) == h);
    assert(scan_index(1, h) == 254 + h);
    assert(scan_index(2, h) == 508 + h);
    assert(scan_index(3, h) == 762 + h);
    assert(scan_index(4, h) == 1016 + h);
}

/// Every address a scan probes is one the server counts as being on the
/// same network as the scanning device.
pub proof fn law_scan_stays_on_local_network(local: Seq<u8>, ts: Seq<ScanTarget>, k: int)
    requires
        local.len() == 4,
        is_scan_plan(IpView::V4(local), ts),
        0 <= k < ts.len(),
    ensures
        same_network(spec_parse_ip(ipv4_text(ts[k].octets@)), IpView::V4(local)),
{
    let p = k / 254;
    let h = k % 254;
    assert(k == scan_index(p, h));
    let t = ts[scan_index(p, h)];
    assert(t.octets@ == seq![local[0], local[1], local[2], (h + 1) as u8]);
    law_same_prefix_is_same_network(t.octets@, local);
}

/// The port of a port index.
fn scan_port_at(p: usize) -> (r: u16)
    requires
        p < 5,
    ensures
        r == scan_port(p as int),
{
    if p == 0 {
        8080
    } else if p == 1 {
        8081
    } else if p == 2 {
        8082
    } else if p == 3 {
        3000
    } else {
        5000
    }
}

/// The addresses and ports to probe for peers, built as the dotted-decimal
/// texts `a.b.c.h` and read back as addresses.
pub fn scan_targets(local_ip: &IpAddress) -> (r: Vec<ScanTarget>)
    ensures
        is_scan_plan(local_ip@, r@),
{
    let mut out: Vec<ScanTarget> = Vec::new();
    let l = match local_ip {
        IpAddress::V4(l) => *l,
        IpAddress::V6(_) => {
            return out;
        },
    };
    let mut base = String::new();
    push_dec(&mut base, l[0] as u64);
    push_char(&mut base, '.');
    push_dec(&mut base, l[1] as u64);
    push_char(&mut base, '.');
    push_dec(&mut base, l[2] as u64);
    push_char(&mut base, '.');
    let mut p: usize = 0;
    while p < SCAN_PORT_COUNT
        invariant
            p <= 5,
            out@.len() == p * 254,
            base@ == dec_text(l[0] as nat) + seq!['.'] + dec_text(l[1] as nat) + seq!['.']
                + dec_text(l[2] as nat) + seq!['.'],
            local_ip@ == IpView::V4(l@),
            forall|q: int, h: int|
                0 <= q < p && 0 <= h < 254 ==> {
                    let t = #[trigger] out@[scan_index(q, h)];
                    &&& t.octets@ == seq![l[0], l[1], l[2], (h + 1) as u8]
                    &&& t.port == scan_port(q)
                },
        decreases 5 - p,
    {
        let port = scan_port_at(p);
        let mut h: usize = 1;
        while h < 255
            invariant
                1 <= h <= 255,
                p < 5,
                port == scan_port(p as int),
                out@.len() == p * 254 + (h - 1),
                base@ == dec_text(l[0] as nat) + seq!['.'] + dec_text(l[1] as nat) + seq!['.']
                    + dec_text(l[2] as nat) + seq!['.'],
                forall|q: int, k: int|
                    0 <= q < p && 0 <= k < 254 ==> {
                        let t = #[trigger] out@[scan_index(q, k)];
                        &&& t.octets@ == seq![l[0], l[1], l[2], (k + 1) as u8]
                        &&& t.port == scan_port(q)
                    },
                forall|k: int|
                    0 <= k < h - 1 ==> {
                        let t = #[trigger] out@[scan_index(p as int, k)];
                        &&& t.octets@ == seq![l[0], l[1], l[2], (k + 1) as u8]
                        &&& t.port == scan_port(p as int)
                    },
            decreases 255 - h,
        {
            let target = concat_str(base.as_str(), dec_string(h as u64).as_str());
            proof {
                let o = seq![l[0], l[1], l[2], h as u8];
                assert(target@ =~= ipv4_text(o));
                law_ipv4_text_roundtrip(o);
            }
            if let Some(IpAddress::V4(o)) = parse_ip_addr(target.as_str()) {
                let ghost before = out@;
                out.push(ScanTarget { octets: o, port });
                proof {
                    assert(scan_index(p as int, h - 1) == before.len());
                    assert forall|q: int, k: int|
                        0 <= q < p && 0 <= k < 254 implies {
                        let t = #[trigger] out@[scan_index(q, k)];
                        &&& t.octets@ == seq![l[0], l[1], l[2], (k + 1) as u8]
                        &&& t.port == scan_port(q)
                    } by {
                        assert(scan_index(q, k) < before.len());
                        assert(out@[scan_index(q, k)] == before[scan_index(q, k)]);
                    }
                    assert forall|k: int| 0 <= k < h implies {
                        let t = #[trigger] out@[scan_index(p as int, k)];
                        &&& t.octets@ == seq![l[0], l[1], l[2], (k + 1) as u8]
                        &&& t.port == scan_port(p as int)
                    } by {
                        if k < h - 1 {
                            assert(out@[scan_index(p as int, k)] == before[scan_index(
                                p as int,
                                k,
                            )]);
                        }
                    }
                }
            }
            h += 1;
        }
        p += 1;
    }
    out
}

/// The URL at which a peer's server reports its status.
pub fn status_url(target: &ScanTarget) -> (r: String)
    ensures
        r@ == "http://"@ + ipv4_text(target.octets@) + ":"@ + dec_text(target.port as nat)
            + "/api/status"@,
{
    let mut r = "http://".to_owned();
    r.append(format_ipv4(&target.octets).as_str());
    r.append(":");
    r.append(dec_string(target.port as u64).as_str());
    r.append("/api/status");
    r
}

/// Whether an HTTP status code means success (200 to 299).
pub fn status_is_success(code: u16) -> (r: bool)
    ensures
        r == (200 <= code && code <= 299),
{
    200 <= code && code <= 299
}

/// What a peer's status reply tells about it: the `name` member, when the
/// reply is a JSON object whose `name` is a string.
#[derive(Clone, Debug)]
pub struct StatusProbe {
    pub name: Option<String>,
}

/// The name a peer goes by: the one it reported, else "Unknown Device".
pub open spec fn spec_reported_name(probe: Option<Seq<char>>) -> Seq<char> {
    match probe {
        Some(n) => n,
        None => "Unknown Device"@,
    }
}

/// The device found by probing `target`, given the decoded status reply
/// (`None` when the reply was not JSON).
pub fn device_from_probe(target: &ScanTarget, probe: Option<StatusProbe>) -> (r: Option<Device>)
    ensures
        match probe {
            None => r is None,
            Some(p) => r matches Some(d) && d.name@ == spec_reported_name(opt_str_view(p.name))
                && d.ip@ == ipv4_text(target.octets@) && d.port == target.port && is_v4_uuid_text(
                d.id@,
            ),
        },
{
    match probe {
        None => None,
        Some(p) => {
            let name = match p.name {
                Some(n) => n,
                None => "Unknown Device".to_owned(),
            };
            Some(Device::new(name, format_ipv4(&target.octets), target.port))
        },
    }
}

/// The device that an mDNS service announcement stands for: named as the
/// service, at its first IPv4 address; none when it lists no IPv4 address.
pub fn device_from_service(name: String, ipv4_addresses: &Vec<[u8; 4]>, port: u16) -> (r: Option<
    Device,
>)
    ensures
        ipv4_addresses@.len() == 0 ==> r is None,
        ipv4_addresses@.len() > 0 ==> (r matches Some(d) && d.name@ == name@ && d.ip@ == ipv4_text(
            ipv4_addresses@[0]@,
        ) && d.port == port && is_v4_uuid_text(d.id@)),
{
    if ipv4_addresses.len() == 0 {
        return None;
    }
    let ip = format_ipv4(&ipv4_addresses[0]);
    Some(Device::new(name, ip, port))
}

} // verus!
