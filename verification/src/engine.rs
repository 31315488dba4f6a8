//! Facade over the WireGuard Noise engine. Each operation consumes one
//! input buffer and reports at most one output, copied out of the caller's
//! scratch buffer.

use vstd::prelude::*;
use crate::keys::Key;

verus! {

#[verifier::external_type_specification]
#[verifier::external_body]
pub struct ExTunn(boringtun::noise::Tunn);

/// One engine step's outcome, with the produced bytes copied out of the
/// caller's scratch buffer.
pub enum Action {
    /// A wire datagram to send to the remote endpoint.
    Network(Vec<u8>),
    /// A decrypted IPv4 packet, with its source address.
    TunnelV4(Vec<u8>, u32),
    /// A decrypted IPv6 packet, with its source address.
    TunnelV6(Vec<u8>, u128),
    /// Input consumed, nothing to emit. On encapsulation this means the
    /// handshake is still pending and the packet was queued.
    Done,
    /// The engine rejected the input.
    Failed,
}

/// A zero-filled scratch buffer of length `n`.
pub fn zero_vec(n: usize) -> (r: Vec<u8>)
    ensures
        r@.len() == n,
        forall|i: int| 0 <= i < n ==> r@[i] == 0u8,
{
    let mut v: Vec<u8> = Vec::new();
    let mut i: usize = 0;
    while i < n
        invariant
            i <= n,
            v@.len() == i,
            forall|j: int| 0 <= j < i ==> v@[j] == 0u8,
        decreases n - i,
    {
        v.push(0);
        i = i + 1;
    }
    v
}

/// Relies on boringtun's `Tunn::new`: builds a Noise-IK session from the
/// local static private key and the remote static public key; no I/O.
#[verifier::external_body]
pub(crate) fn tunn_new(private: &Key, peer_public: &Key) -> (t: boringtun::noise::Tunn)
    requires
        private.wf(),
        peer_public.wf(),
{
    let mut priv_b = [0u8; 32];
    priv_b.copy_from_slice(&private.raw);
    let mut pub_b = [0u8; 32];
    pub_b.copy_from_slice(&peer_public.raw);
    boringtun::noise::Tunn::new(priv_b.into(), pub_b.into(), None, None, 0, None)
}

/// Relies on boringtun's `Tunn::encapsulate`: with an established session
/// it frames `src` as one wire datagram inside `dst`; with no session it
/// queues `src` and either emits a handshake initiation or reports `Done`
/// when one is already in flight. It panics on a buffer shorter than
/// `src.len() + 32` or 148 bytes, whichever is larger, and never produces
/// a tunnel-bound packet.
#[verifier::external_body]
pub(crate) fn tunn_encapsulate(
    t: &mut boringtun::noise::Tunn,
    src: &[u8],
    dst: &mut Vec<u8>,
) -> (r: Action)
    requires
        old(dst)@.len() >= src@.len() + 32,
        old(dst)@.len() >= 148,
    ensures
        final(dst)@.len() == old(dst)@.len(),
        match r {
            Action::Network(d) => d@.len() <= old(dst)@.len(),
            Action::TunnelV4(_, _) => false,
            Action::TunnelV6(_, _) => false,
            Action::Done => true,
            Action::Failed => true,
        },
{
    match t.encapsulate(src, dst.as_mut_slice()) {
        boringtun::noise::TunnResult::WriteToNetwork(d) => Action::Network(d.to_vec()),
        boringtun::noise::TunnResult::WriteToTunnelV4(d, a) => {
            Action::TunnelV4(d.to_vec(), u32::from(a))
        },
        boringtun::noise::TunnResult::WriteToTunnelV6(d, a) => {
            Action::TunnelV6(d.to_vec(), u128::from(a))
        },
        boringtun::noise::TunnResult::Done => Action::Done,
        boringtun::noise::TunnResult::Err(_) => Action::Failed,
    }
}

/// Relies on boringtun's `Tunn::decapsulate` on a non-empty datagram: a
/// transport datagram decrypts to one IP packet shorter than the datagram;
/// a handshake or cookie message produces a reply datagram to send back to
/// the source. It panics on a short `dst`, so the buffer must hold
/// `datagram.len() + 148` bytes.
#[verifier::external_body]
pub(crate) fn tunn_decapsulate(
    t: &mut boringtun::noise::Tunn,
    datagram: &[u8],
    dst: &mut Vec<u8>,
) -> (r: Action)
    requires
        datagram@.len() >= 1,
        old(dst)@.len() >= datagram@.len() + 148,
    ensures
        final(dst)@.len() == old(dst)@.len(),
        match r {
            Action::Network(d) => d@.len() <= old(dst)@.len(),
            Action::TunnelV4(d, _) => d@.len() <= old(dst)@.len(),
            Action::TunnelV6(d, _) => d@.len() <= old(dst)@.len(),
            Action::Done => true,
            Action::Failed => true,
        },
{
    match t.decapsulate(None, datagram, dst.as_mut_slice()) {
        boringtun::noise::TunnResult::WriteToNetwork(d) => Action::Network(d.to_vec()),
        boringtun::noise::TunnResult::WriteToTunnelV4(d, a) => {
            Action::TunnelV4(d.to_vec(), u32::from(a))
        },
        boringtun::noise::TunnResult::WriteToTunnelV6(d, a) => {
            Action::TunnelV6(d.to_vec(), u128::from(a))
        },
        boringtun::noise::TunnResult::Done => Action::Done,
        boringtun::noise::TunnResult::Err(_) => Action::Failed,
    }
}

/// Relies on boringtun's `Tunn::update_timers`: drives handshake retries
/// and keepalives; it may emit one wire datagram, never a tunnel-bound
/// packet. It writes handshake frames into `dst`, so the buffer must hold
/// 148 bytes.
#[verifier::external_body]
pub(crate) fn tunn_update_timers(t: &mut boringtun::noise::Tunn, dst: &mut Vec<u8>) -> (r: Action)
    requires
        old(dst)@.len() >= 148,
    ensures
        final(dst)@.len() == old(dst)@.len(),
        match r {
            Action::Network(d) => d@.len() <= old(dst)@.len(),
            Action::TunnelV4(_, _) => false,
            Action::TunnelV6(_, _) => false,
            Action::Done => true,
            Action::Failed => true,
        },
{
    match t.update_timers(dst.as_mut_slice()) {
        boringtun::noise::TunnResult::WriteToNetwork(d) => Action::Network(d.to_vec()),
        boringtun::noise::TunnResult::WriteToTunnelV4(d, a) => {
            Action::TunnelV4(d.to_vec(), u32::from(a))
        },
        boringtun::noise::TunnResult::WriteToTunnelV6(d, a) => {
            Action::TunnelV6(d.to_vec(), u128::from(a))
        },
        boringtun::noise::TunnResult::Done => Action::Done,
        boringtun::noise::TunnResult::Err(_) => Action::Failed,
    }
}

} // verus!
