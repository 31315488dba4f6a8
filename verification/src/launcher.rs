//! The two-stage launch machinery, as decisions and file contents: which
//! stage a process is in, what goes into the id-map files of the child,
//! and how the child's fate becomes this process's exit code.

use vstd::prelude::*;
use vstd::string::StrSliceExecFns;
use crate::text::{append_bytes, fmt_u32_dec, spec_dec_digits};

verus! {

/// Which stage of the launch this process is in.
#[derive(Clone, Copy, PartialEq, Eq, Structural, Debug)]
pub enum Stage {
    /// The invoking process: it clones the user namespace.
    One,
    /// The re-executed child inside the user namespace.
    Two,
}

impl Stage {
    /// Reads the stage marker: only the value `2` means stage two.
    pub fn from_marker(marker: Option<&str>) -> (r: Stage)
        ensures
            match marker {
                Some(s) => (r is Two <==> s@ == seq!['2']),
                None => r is One,
            },
    {
        match marker {
            Some(s) => {
                if s.unicode_len() == 1 && s.get_char(0) == '2' {
                    proof {
                        assert(s@ =~= seq!['2']);
                    }
                    Stage::Two
                } else {
                    proof {
                        if s@ == seq!['2'] {
                            assert(s@.len() == 1 && s@[0] == '2');
                        }
                    }
                    Stage::One
                }
            },
            None => Stage::One,
        }
    }
}

/// How a child process ended.
#[derive(Clone, Copy, PartialEq, Eq, Structural, Debug)]
pub enum WaitOutcome {
    /// Normal exit with this code.
    Exited(i32),
    /// Killed by this signal.
    Signaled(i32),
    /// Anything else the kernel may report.
    Other,
}

/// The exit code this process propagates: the child's own code, 128 plus
/// the signal number for a killed child, and 1 for anything else.
pub fn exit_code_for(w: WaitOutcome) -> (r: i32)
    requires
        match w {
            WaitOutcome::Signaled(sig) => 0 <= sig <= 64,
            _ => true,
        },
    ensures
        match w {
            WaitOutcome::Exited(code) => r == code,
            WaitOutcome::Signaled(sig) => r == 128 + sig,
            WaitOutcome::Other => r == 1,
        },
{
    match w {
        WaitOutcome::Exited(code) => code,
        WaitOutcome::Signaled(sig) => 128 + sig,
        WaitOutcome::Other => 1,
    }
}

/// The one line of a uid or gid map that maps root inside the namespace
/// to `id` outside: `0 <id> 1`.
pub open spec fn spec_id_map_line(id: nat) -> Seq<u8> {
    seq![48u8, 32u8] + spec_dec_digits(id) + seq![32u8, 49u8]
}

/// Writes the id-map line for `id`.
pub fn id_map_line(id: u32) -> (r: Vec<u8>)
    ensures
        r@ == spec_id_map_line(id as nat),
{
    let mut v: Vec<u8> = Vec::new();
    v.push(48);
    v.push(32);
    let d = fmt_u32_dec(id);
    append_bytes(&mut v, d.as_slice());
    v.push(32);
    v.push(49);
    proof {
        assert(v@ =~= spec_id_map_line(id as nat));
    }
    v
}

/// What is written to the child's `setgroups` file before the gid map.
pub fn setgroups_content() -> (r: Vec<u8>)
    ensures
        r@ == seq![100u8, 101u8, 110u8, 121u8],
{
    let mut v: Vec<u8> = Vec::new();
    v.push(100);
    v.push(101);
    v.push(110);
    v.push(121);
    proof {
        assert(v@ =~= seq![100u8, 101u8, 110u8, 121u8]);
    }
    v
}

/// The path of a proc id-map or setgroups file for process `pid`:
/// `/proc/<pid>/<leaf>`.
pub open spec fn spec_proc_path(pid: nat, leaf: Seq<u8>) -> Seq<u8> {
    seq![47u8, 112u8, 114u8, 111u8, 99u8, 47u8] + spec_dec_digits(pid) + seq![47u8] + leaf
}

/// Writes `/proc/<pid>/<leaf>`.
pub fn proc_path(pid: u32, leaf: &[u8]) -> (r: Vec<u8>)
    ensures
        r@ == spec_proc_path(pid as nat, leaf@),
{
    let mut v: Vec<u8> = Vec::new();
    v.push(47);
    v.push(112);
    v.push(114);
    v.push(111);
    v.push(99);
    v.push(47);
    let d = fmt_u32_dec(pid);
    append_bytes(&mut v, d.as_slice());
    v.push(47);
    append_bytes(&mut v, leaf);
    proof {
        assert(v@ =~= spec_proc_path(pid as nat, leaf@));
    }
    v
}

} // verus!
