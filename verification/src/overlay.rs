//! What the `/etc` overlay is made of: the synthesized resolver
//! configuration and the mount options; mounting itself is the caller's
//! business.

use vstd::prelude::*;
use crate::text::{append_bytes, fmt_ipv4, spec_ipv4_text};

verus! {

/// The overlaid `/etc/resolv.conf`: exactly `nameserver <gateway>` and a
/// newline.
pub open spec fn spec_resolv_conf(gw: u32) -> Seq<u8> {
    seq![110u8, 97u8, 109u8, 101u8, 115u8, 101u8, 114u8, 118u8, 101u8, 114u8, 32u8]
        + spec_ipv4_text(gw) + seq![10u8]
}

/// Writes the overlaid resolver configuration for the gateway.
pub fn resolv_conf_contents(gw: u32) -> (r: Vec<u8>)
    ensures
        r@ == spec_resolv_conf(gw),
{
    let mut v: Vec<u8> = Vec::new();
    v.push(110);
    v.push(97);
    v.push(109);
    v.push(101);
    v.push(115);
    v.push(101);
    v.push(114);
    v.push(118);
    v.push(101);
    v.push(114);
    v.push(32);
    let a = fmt_ipv4(gw);
    append_bytes(&mut v, a.as_slice());
    v.push(10);
    proof {
        assert(v@ =~= spec_resolv_conf(gw));
    }
    v
}

/// The option string of the overlay mount on `/etc`:
/// `lowerdir=/etc,upperdir=<upper>,workdir=<work>`.
pub open spec fn spec_overlay_opts(upper: Seq<u8>, work: Seq<u8>) -> Seq<u8> {
    seq![
        108u8, 111u8, 119u8, 101u8, 114u8, 100u8, 105u8, 114u8, 61u8, 47u8, 101u8, 116u8, 99u8,
        44u8, 117u8, 112u8, 112u8, 101u8, 114u8, 100u8, 105u8, 114u8, 61u8,
    ] + upper + seq![44u8, 119u8, 111u8, 114u8, 107u8, 100u8, 105u8, 114u8, 61u8] + work
}

/// Writes the overlay mount options for the given upper and work
/// directories.
pub fn overlay_opts(upper: &[u8], work: &[u8]) -> (r: Vec<u8>)
    ensures
        r@ == spec_overlay_opts(upper@, work@),
{
    let mut v: Vec<u8> = Vec::new();
    v.push(108);
    v.push(111);
    v.push(119);
    v.push(101);
    v.push(114);
    v.push(100);
    v.push(105);
    v.push(114);
    v.push(61);
    v.push(47);
    v.push(101);
    v.push(116);
    v.push(99);
    v.push(44);
    v.push(117);
    v.push(112);
    v.push(112);
    v.push(101);
    v.push(114);
    v.push(100);
    v.push(105);
    v.push(114);
    v.push(61);
    append_bytes(&mut v, upper);
    v.push(44);
    v.push(119);
    v.push(111);
    v.push(114);
    v.push(107);
    v.push(100);
    v.push(105);
    v.push(114);
    v.push(61);
    append_bytes(&mut v, work);
    proof {
        assert(v@ =~= spec_overlay_opts(upper@, work@));
    }
    v
}

} // verus!
