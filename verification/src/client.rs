//! The client side of the tunnel: one Noise session with a fixed remote
//! endpoint. Each operation turns one buffer into the datagrams the caller
//! must put on the wire, or the plaintext it must hand to the TUN device;
//! the caller does the I/O.

use vstd::prelude::*;
use crate::engine::{Action, tunn_decapsulate, tunn_encapsulate, tunn_new, tunn_update_timers, zero_vec};
use crate::ip::Endpoint;
use crate::keys::{Key, key_text_ok, load_key};
use crate::text::{parse_endpoint, spec_parse_endpoint};

verus! {

/// Framing overhead reserved beyond the payload: a handshake initiation is
/// 148 bytes, and a data frame adds less than that.
pub const FRAME_OVERHEAD: usize = 148;

/// How many times a sender retries an encapsulation that reported a
/// pending handshake before it drops the packet.
pub const MAX_HANDSHAKE_RETRIES: u32 = 20;

/// What to do with one outbound plaintext packet.
pub enum SendOutcome {
    /// Send this datagram to the remote endpoint.
    Transmit(Vec<u8>),
    /// The handshake is still pending; the engine queued the packet.
    HandshakePending,
    /// The engine rejected the packet; drop it.
    Discard,
}

/// What to do with one inbound wire datagram.
pub enum RecvOutcome {
    /// Hand this decrypted IP packet to the TUN device.
    Plain(Vec<u8>),
    /// Send this protocol reply back to the remote endpoint.
    Reply(Vec<u8>),
    /// Consumed with nothing to emit.
    Nothing,
    /// The engine rejected the datagram; drop it.
    Rejected,
}

/// Maps an engine action on the outbound path to the sender's duty.
pub fn classify_encap(r: Action) -> (s: SendOutcome)
    ensures
        match r {
            Action::Network(d) => s == SendOutcome::Transmit(d),
            Action::Done => s == SendOutcome::HandshakePending,
            Action::TunnelV4(_, _) => s == SendOutcome::Discard,
            Action::TunnelV6(_, _) => s == SendOutcome::Discard,
            Action::Failed => s == SendOutcome::Discard,
        },
{
    match r {
        Action::Network(d) => SendOutcome::Transmit(d),
        Action::Done => SendOutcome::HandshakePending,
        Action::TunnelV4(_, _) => SendOutcome::Discard,
        Action::TunnelV6(_, _) => SendOutcome::Discard,
        Action::Failed => SendOutcome::Discard,
    }
}

/// Maps an engine action on the inbound path to the receiver's duty.
pub fn classify_decap(r: Action) -> (s: RecvOutcome)
    ensures
        match r {
            Action::Network(d) => s == RecvOutcome::Reply(d),
            Action::TunnelV4(d, _) => s == RecvOutcome::Plain(d),
            Action::TunnelV6(d, _) => s == RecvOutcome::Plain(d),
            Action::Done => s == RecvOutcome::Nothing,
            Action::Failed => s == RecvOutcome::Rejected,
        },
{
    match r {
        Action::Network(d) => RecvOutcome::Reply(d),
        Action::TunnelV4(d, _) => RecvOutcome::Plain(d),
        Action::TunnelV6(d, _) => RecvOutcome::Plain(d),
        Action::Done => RecvOutcome::Nothing,
        Action::Failed => RecvOutcome::Rejected,
    }
}

/// Whether a sender that has seen `attempts` pending-handshake reports may
/// try the same packet once more.
pub fn handshake_retry_allowed(attempts: u32) -> (r: bool)
    ensures
        r == (attempts < MAX_HANDSHAKE_RETRIES),
{
    attempts < MAX_HANDSHAKE_RETRIES
}

#[derive(Clone, Copy, PartialEq, Eq, Structural, Debug)]
pub enum ClientSetupError {
    /// The private key file is not base64, or not 32 bytes.
    BadPrivateKey,
    /// The peer public key is not base64, or not 32 bytes.
    BadPublicKey,
    /// The remote endpoint is not `address:port`.
    BadEndpoint,
}

/// Builds the client's tunnel from its raw configuration: the private key
/// file's text, the peer public key's text, and the remote endpoint's
/// text. The first bad input, in that order, is reported.
pub fn client_from_config(private_file: &[u8], public_key_text: &[u8], endpoint_text: &[u8]) -> (r:
    Result<ClientTunnel, ClientSetupError>)
    ensures
        r is Ok <==> key_text_ok(private_file@) && key_text_ok(public_key_text@)
            && spec_parse_endpoint(endpoint_text@) is Some,
        match r {
            Ok(t) => match spec_parse_endpoint(endpoint_text@) {
                Some(e) => t.spec_endpoint() == e,
                None => false,
            },
            Err(ClientSetupError::BadPrivateKey) => !key_text_ok(private_file@),
            Err(ClientSetupError::BadPublicKey) => key_text_ok(private_file@) && !key_text_ok(
                public_key_text@,
            ),
            Err(ClientSetupError::BadEndpoint) => key_text_ok(private_file@) && key_text_ok(
                public_key_text@,
            ) && spec_parse_endpoint(endpoint_text@) is None,
        },
{
    let private = match load_key(private_file) {
        Ok(k) => k,
        Err(_) => {
            return Err(ClientSetupError::BadPrivateKey);
        },
    };
    let public = match load_key(public_key_text) {
        Ok(k) => k,
        Err(_) => {
            return Err(ClientSetupError::BadPublicKey);
        },
    };
    let endpoint = match parse_endpoint(endpoint_text) {
        Some(e) => e,
        None => {
            return Err(ClientSetupError::BadEndpoint);
        },
    };
    Ok(ClientTunnel::new(&private, &public, endpoint))
}

/// One Noise session bound to a fixed remote endpoint.
pub struct ClientTunnel {
    tunn: boringtun::noise::Tunn,
    endpoint: Endpoint,
}

impl ClientTunnel {
    /// The remote endpoint every produced datagram is addressed to.
    pub closed spec fn spec_endpoint(self) -> Endpoint {
        self.endpoint
    }

    pub fn new(private: &Key, peer_public: &Key, endpoint: Endpoint) -> (t: Self)
        requires
            private.wf(),
            peer_public.wf(),
        ensures
            t.spec_endpoint() == endpoint,
    {
        ClientTunnel { tunn: tunn_new(private, peer_public), endpoint }
    }

    pub fn endpoint(&self) -> (e: Endpoint)
        ensures
            e == self.spec_endpoint(),
    {
        self.endpoint
    }

    /// Encapsulates one plaintext packet. A produced datagram carries at
    /// most `FRAME_OVERHEAD` bytes beyond the payload and goes to the
    /// fixed endpoint, which never changes.
    pub fn prepare_send(&mut self, packet: &[u8]) -> (r: SendOutcome)
        requires
            packet@.len() + FRAME_OVERHEAD <= usize::MAX,
        ensures
            final(self).spec_endpoint() == old(self).spec_endpoint(),
            match r {
                SendOutcome::Transmit(d) => d@.len() <= packet@.len() + FRAME_OVERHEAD,
                SendOutcome::HandshakePending => true,
                SendOutcome::Discard => true,
            },
    {
        let mut buf = zero_vec(packet.len() + FRAME_OVERHEAD);
        let action = tunn_encapsulate(&mut self.tunn, packet, &mut buf);
        classify_encap(action)
    }

    /// Decapsulates one wire datagram. A protocol reply goes back to the
    /// fixed endpoint; decrypted plaintext goes to the TUN device.
    pub fn process_recv(&mut self, datagram: &[u8]) -> (r: RecvOutcome)
        requires
            datagram@.len() >= 1,
            datagram@.len() + FRAME_OVERHEAD <= usize::MAX,
        ensures
            final(self).spec_endpoint() == old(self).spec_endpoint(),
            match r {
                RecvOutcome::Plain(d) => d@.len() <= datagram@.len() + FRAME_OVERHEAD,
                RecvOutcome::Reply(d) => d@.len() <= datagram@.len() + FRAME_OVERHEAD,
                RecvOutcome::Nothing => true,
                RecvOutcome::Rejected => true,
            },
    {
        let mut buf = zero_vec(datagram.len() + FRAME_OVERHEAD);
        let action = tunn_decapsulate(&mut self.tunn, datagram, &mut buf);
        classify_decap(action)
    }

    /// Drives the engine's timers; to be called every 250 ms. An emitted
    /// handshake or keepalive datagram is at most `FRAME_OVERHEAD` bytes
    /// and goes to the fixed endpoint.
    pub fn tick(&mut self) -> (r: Option<Vec<u8>>)
        ensures
            final(self).spec_endpoint() == old(self).spec_endpoint(),
            match r {
                Some(d) => d@.len() <= FRAME_OVERHEAD,
                None => true,
            },
    {
        let mut buf = zero_vec(FRAME_OVERHEAD);
        match tunn_update_timers(&mut self.tunn, &mut buf) {
            Action::Network(d) => Some(d),
            Action::TunnelV4(_, _) => None,
            Action::TunnelV6(_, _) => None,
            Action::Done => None,
            Action::Failed => None,
        }
    }
}

} // verus!
