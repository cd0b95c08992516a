use vstd::prelude::*;

use crate::strutil::{dec_rep, push_char, u64_to_string};
use crate::Ipv4;

verus! {

/// The dotted-decimal rendering of an address.
pub open spec fn spec_ip_str(ip: Ipv4) -> Seq<char> {
    dec_rep(ip.a as nat) + seq!['.'] + dec_rep(ip.b as nat) + seq!['.'] + dec_rep(ip.c as nat)
        + seq!['.'] + dec_rep(ip.d as nat)
}

/// Renders an address as `a.b.c.d`.
pub fn ip_to_string(ip: &Ipv4) -> (r: String)
    ensures
        r@ == spec_ip_str(*ip),
{
    let mut s = u64_to_string(ip.a as u64);
    push_char(&mut s, '.');
    let b = u64_to_string(ip.b as u64);
    s.append(b.as_str());
    push_char(&mut s, '.');
    let c = u64_to_string(ip.c as u64);
    s.append(c.as_str());
    push_char(&mut s, '.');
    let d = u64_to_string(ip.d as u64);
    s.append(d.as_str());
    proof {
        assert(s@ =~= spec_ip_str(*ip));
    }
    s
}

/// Every candidate a scan may probe: the addresses of the local /24
/// with host octet 1 through 254, in order. A scan probes these and no
/// others; in particular never the network address (host 0) nor the
/// broadcast address (host 255), and never an address outside the
/// subnet of `local`.
pub fn subnet_candidates(local: &Ipv4) -> (r: Vec<Ipv4>)
    ensures
        r@.len() == 254,
        forall|i: int|
            0 <= i < 254 ==> r@[i] == (Ipv4 { a: local.a, b: local.b, c: local.c, d: (i + 1) as u8 }),
        forall|i: int| 0 <= i < r@.len() ==> #[trigger] r@[i].same_subnet(*local),
        forall|i: int| 0 <= i < r@.len() ==> 1 <= #[trigger] r@[i].d <= 254,
{
    let mut r: Vec<Ipv4> = Vec::new();
    let mut host: u8 = 1;
    loop
        invariant
            1 <= host <= 255,
            r@.len() == host - 1,
            forall|i: int|
                0 <= i < r@.len() ==> r@[i] == (Ipv4 {
                    a: local.a,
                    b: local.b,
                    c: local.c,
                    d: (i + 1) as u8,
                }),
        ensures
            host == 255,
            r@.len() == 254,
            forall|i: int|
                0 <= i < r@.len() ==> r@[i] == (Ipv4 {
                    a: local.a,
                    b: local.b,
                    c: local.c,
                    d: (i + 1) as u8,
                }),
        decreases 255 - host,
    {
        if host == 255 {
            break;
        }
        r.push(Ipv4 { a: local.a, b: local.b, c: local.c, d: host });
        host += 1;
    }
    proof {
        assert forall|i: int| 0 <= i < r@.len() implies #[trigger] r@[i].same_subnet(*local) by {
            assert(r@[i].a == local.a);
        }
    }
    r
}

/// The address a node calls its own: the first interface address whose
/// leading octet is 192, the private range this system serves.
pub fn select_local_ip(candidates: &Vec<Ipv4>) -> (r: Option<Ipv4>)
    ensures
        match r {
            Some(ip) => exists|i: int|
                0 <= i < candidates@.len() && candidates@[i] == ip && ip.a == 192 && (forall|j: int|
                    0 <= j < i ==> candidates@[j].a != 192),
            None => forall|i: int| 0 <= i < candidates@.len() ==> candidates@[i].a != 192,
        },
{
    let mut i: usize = 0;
    while i < candidates.len()
        invariant
            i <= candidates@.len(),
            forall|j: int| 0 <= j < i ==> candidates@[j].a != 192,
        decreases candidates@.len() - i,
    {
        if candidates[i].a == 192 {
            return Some(candidates[i]);
        }
        i += 1;
    }
    None
}

} // verus!
