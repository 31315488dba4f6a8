//! The two command lines, as plain data, and the rules that govern them:
//! which flags are required, what the command defaults to, how a peer flag
//! and a user argument are read.

use vstd::prelude::*;
use vstd::utf8::encode_utf8;
use vstd::string::StrSliceExecFns;
use crate::text::{all_digits, dec_val, parse_dec_u32};

verus! {

/// The client's command line.
pub struct Args {
    /// Name of the TUN device.
    pub tun: String,
    /// The address block the caged process sees (informational).
    pub subnet: String,
    /// The gateway the overlaid resolver configuration points at.
    pub gateway: String,
    pub uid: u32,
    pub gid: u32,
    /// Run the command as this user: a name or a decimal id.
    pub user: Option<String>,
    pub no_overlay: bool,
    pub log_level: String,
    pub wg_public_key: String,
    pub wg_private_key_file: String,
    pub wg_endpoint: String,
    pub wg_address: String,
    /// The command to run; empty means the default shell.
    pub command: Vec<String>,
}

#[derive(Clone, Copy, PartialEq, Eq, Structural, Debug)]
pub enum ConfigError {
    MissingEndpoint,
    MissingPublicKey,
    MissingPrivateKeyFile,
}

impl Args {
    /// The three tunnel flags are required; the first missing one, in the
    /// order endpoint, public key, private key file, is reported.
    pub fn validate(&self) -> (r: Result<(), ConfigError>)
        ensures
            r == Ok::<(), ConfigError>(()) <==> self.wg_endpoint@.len() > 0
                && self.wg_public_key@.len() > 0 && self.wg_private_key_file@.len() > 0,
            r == Err::<(), ConfigError>(ConfigError::MissingEndpoint) <==> self.wg_endpoint@.len()
                == 0,
            r == Err::<(), ConfigError>(ConfigError::MissingPublicKey) <==> self.wg_endpoint@.len()
                > 0 && self.wg_public_key@.len() == 0,
            r == Err::<(), ConfigError>(ConfigError::MissingPrivateKeyFile)
                <==> self.wg_endpoint@.len() > 0 && self.wg_public_key@.len() > 0
                && self.wg_private_key_file@.len() == 0,
    {
        if self.wg_endpoint.as_str().is_empty() {
            Err(ConfigError::MissingEndpoint)
        } else if self.wg_public_key.as_str().is_empty() {
            Err(ConfigError::MissingPublicKey)
        } else if self.wg_private_key_file.as_str().is_empty() {
            Err(ConfigError::MissingPrivateKeyFile)
        } else {
            Ok(())
        }
    }

    /// The command to run: what was given, or the default shell.
    pub fn get_command(&self) -> (r: Vec<String>)
        ensures
            self.command@.len() == 0 ==> r@.len() == 1 && r@[0]@ == "/bin/sh"@,
            self.command@.len() > 0 ==> r@.len() == self.command@.len() && forall|i: int|
                0 <= i < r@.len() ==> (#[trigger] r@[i])@ == self.command@[i]@,
    {
        if self.command.len() == 0 {
            let mut v: Vec<String> = Vec::new();
            v.push("/bin/sh".to_owned());
            v
        } else {
            let mut v: Vec<String> = Vec::new();
            let mut i: usize = 0;
            while i < self.command.len()
                invariant
                    i <= self.command@.len(),
                    v@.len() == i,
                    forall|j: int| 0 <= j < i ==> (#[trigger] v@[j])@ == self.command@[j]@,
                decreases self.command@.len() - i,
            {
                v.push(self.command[i].clone());
                i = i + 1;
            }
            v
        }
    }
}

/// How the `--user` argument is to be resolved.
pub enum UserSpec {
    /// No argument: keep the invoking user.
    Current,
    /// A decimal id: look the user up by id.
    ById(u32),
    /// Anything else: look the user up by name.
    ByName(String),
}

/// Classifies the `--user` argument: absent keeps the current user, an
/// all-digit value is an id, anything else is a name.
pub fn classify_user(user: &Option<String>) -> (r: UserSpec)
    ensures
        match user {
            None => r is Current,
            Some(s) => {
                let b = encode_utf8(s@);
                if b.len() > 0 && all_digits(b) && dec_val(b) <= u32::MAX {
                    r == UserSpec::ById(dec_val(b) as u32)
                } else {
                    match r {
                        UserSpec::ByName(t) => t@ == s@,
                        _ => false,
                    }
                }
            },
        },
{
    match user {
        None => UserSpec::Current,
        Some(s) => {
            match parse_dec_u32(s.as_str().as_bytes()) {
                Some(v) => UserSpec::ById(v),
                None => UserSpec::ByName(s.clone()),
            }
        },
    }
}

/// The server's command line.
pub struct ServerArgs {
    pub private_key_file: String,
    pub listen_addr: String,
    /// The server's own tunnel address.
    pub subnet: String,
    /// The full tunnel subnet, in CIDR notation.
    pub subnet_cidr: String,
    pub tun_name: String,
    pub outbound_interface: Option<String>,
    pub peers: Vec<PeerConfig>,
}

/// One `--peer` flag: a public key and its allowed blocks, still as text.
#[derive(Clone, Debug)]
pub struct PeerConfig {
    pub public_key: String,
    pub allowed_ips: Vec<String>,
}

/// How many times `c` occurs in `s`.
pub open spec fn count_char(s: Seq<char>, c: char) -> nat
    decreases s.len(),
{
    if s.len() == 0 {
        0
    } else {
        (count_char(s.drop_last(), c) + (if s.last() == c {
            1nat
        } else {
            0nat
        })) as nat
    }
}

/// Reads one `--peer` value: the public key and one allowed block,
/// separated by exactly one comma.
pub fn parse_peer(s: &str) -> (r: Result<PeerConfig, String>)
    ensures
        match r {
            Ok(pc) => count_char(s@, ',') == 1 && exists|i: int|
                0 <= i < s@.len() && s@[i] == ',' && pc.public_key@ == s@.take(i)
                    && pc.allowed_ips@.len() == 1 && (#[trigger] pc.allowed_ips@[0])@ == s@.skip(
                    i + 1,
                ),
            Err(_) => count_char(s@, ',') != 1,
        },
{
    let n = s.unicode_len();
    let mut commas: usize = 0;
    let mut pos: usize = 0;
    let mut i: usize = 0;
    proof {
        assert(s@.take(0) =~= Seq::<char>::empty());
    }
    while i < n
        invariant
            i <= n == s@.len(),
            commas == count_char(s@.take(i as int), ','),
            commas <= i,
            commas > 0 ==> pos < i && s@[pos as int] == ',' && commas == count_char(
                s@.take((pos + 1) as int),
                ',',
            ),
        decreases n - i,
    {
        proof {
            assert(s@.take((i + 1) as int).drop_last() =~= s@.take(i as int));
            assert(s@.take((i + 1) as int).last() == s@[i as int]);
        }
        if s.get_char(i) == ',' {
            commas = commas + 1;
            pos = i;
        }
        i = i + 1;
    }
    proof {
        assert(s@.take(n as int) =~= s@);
    }
    if commas != 1 {
        return Err("peer must be given as pubkey,cidr".to_owned());
    }
    let pk = s.substring_char(0, pos).to_owned();
    let ip = s.substring_char(pos + 1, n).to_owned();
    proof {
        assert(s@.subrange(0, pos as int) =~= s@.take(pos as int));
        assert(s@.subrange((pos + 1) as int, n as int) =~= s@.skip((pos + 1) as int));
    }
    let mut ips: Vec<String> = Vec::new();
    ips.push(ip);
    Ok(PeerConfig { public_key: pk, allowed_ips: ips })
}

} // verus!
