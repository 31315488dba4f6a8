//! CIDR blocks and ownership of addresses: a block owns an address when the
//! leading `prefix` bits of the address equal those of the network.

use vstd::prelude::*;
use crate::ip::{Addr, v4_in_prefix, v4_prefix_eq, v6_in_prefix, v6_prefix_eq};

verus! {

/// A CIDR block `network/prefix`.
#[derive(Clone, Copy, PartialEq, Eq, Structural, Debug)]
pub struct Cidr {
    pub net: Addr,
    pub prefix: u8,
}

impl Cidr {
    /// The prefix length fits the address family.
    pub open spec fn wf(self) -> bool {
        match self.net {
            Addr::V4(_) => self.prefix <= 32,
            Addr::V6(_) => self.prefix <= 128,
        }
    }

    /// `a` lies inside this block: same family, and the first `prefix`
    /// bits of `a` equal those of the network.
    pub open spec fn spec_contains(self, a: Addr) -> bool {
        match (self.net, a) {
            (Addr::V4(n), Addr::V4(x)) => v4_prefix_eq(x, n, self.prefix as u32),
            (Addr::V6(n), Addr::V6(x)) => v6_prefix_eq(x, n, self.prefix as u32),
            _ => false,
        }
    }

    /// Decides membership of `a` in this block.
    pub fn contains(&self, a: Addr) -> (r: bool)
        requires
            self.wf(),
        ensures
            r == self.spec_contains(a),
    {
        match (self.net, a) {
            (Addr::V4(n), Addr::V4(x)) => v4_in_prefix(x, n, self.prefix as u32),
            (Addr::V6(n), Addr::V6(x)) => v6_in_prefix(x, n, self.prefix as u32),
            _ => false,
        }
    }
}

/// Ownership is nothing but bit equality: a block contains an address
/// exactly when they are of one family and the first `prefix` bits of the
/// address equal those of the network.
pub proof fn lemma_contains_is_prefix_bit_equality(c: Cidr, a: Addr)
    ensures
        c.spec_contains(a) <==> match (c.net, a) {
            (Addr::V4(n), Addr::V4(x)) => v4_prefix_eq(x, n, c.prefix as u32),
            (Addr::V6(n), Addr::V6(x)) => v6_prefix_eq(x, n, c.prefix as u32),
            _ => false,
        },
{
}

/// Every block in the list is well formed.
pub open spec fn all_wf(list: Seq<Cidr>) -> bool {
    forall|j: int| 0 <= j < list.len() ==> (#[trigger] list[j]).wf()
}

/// Some block in the list contains `a`.
pub open spec fn spec_owned(list: Seq<Cidr>, a: Addr) -> bool {
    exists|j: int| 0 <= j < list.len() && (#[trigger] list[j]).spec_contains(a)
}

/// Decides whether any block in the list contains `a`.
pub fn owns_ip(list: &Vec<Cidr>, a: Addr) -> (r: bool)
    requires
        all_wf(list@),
    ensures
        r == spec_owned(list@, a),
{
    let mut i: usize = 0;
    while i < list.len()
        invariant
            i <= list@.len(),
            all_wf(list@),
            forall|j: int| 0 <= j < i ==> !(#[trigger] list@[j]).spec_contains(a),
        decreases list@.len() - i,
    {
        if list[i].contains(a) {
            return true;
        }
        i = i + 1;
    }
    false
}

/// The longest prefix among the blocks of the list that contain `a`, or
/// `-1` when no block does.
pub open spec fn spec_best(list: Seq<Cidr>, a: Addr) -> int
    decreases list.len(),
{
    if list.len() == 0 {
        -1
    } else {
        let rest = spec_best(list.drop_last(), a);
        if list.last().spec_contains(a) && list.last().prefix > rest {
            list.last().prefix as int
        } else {
            rest
        }
    }
}

/// The best prefix is nonnegative exactly when some block contains `a`;
/// it is then the prefix of a containing block, and no containing block
/// has a longer one.
pub proof fn lemma_spec_best(list: Seq<Cidr>, a: Addr)
    ensures
        spec_best(list, a) >= 0 <==> spec_owned(list, a),
        spec_best(list, a) >= 0 ==> exists|j: int|
            0 <= j < list.len() && (#[trigger] list[j]).spec_contains(a) && list[j].prefix
                == spec_best(list, a),
        forall|j: int|
            0 <= j < list.len() && (#[trigger] list[j]).spec_contains(a) ==> list[j].prefix
                <= spec_best(list, a),
    decreases list.len(),
{
    if list.len() > 0 {
        lemma_spec_best(list.drop_last(), a);
        assert forall|j: int|
            0 <= j < list.len() && (#[trigger] list[j]).spec_contains(a) implies list[j].prefix
            <= spec_best(list, a) by {
            if j < list.len() - 1 {
                assert(list.drop_last()[j] == list[j]);
            }
        }
        if spec_best(list, a) >= 0 {
            if list.last().spec_contains(a) && list.last().prefix > spec_best(
                list.drop_last(),
                a,
            ) {
                assert(list[list.len() - 1].spec_contains(a));
            } else {
                let j = choose|j: int|
                    0 <= j < list.drop_last().len() && (#[trigger] list.drop_last()[j]).spec_contains(
                        a,
                    ) && list.drop_last()[j].prefix == spec_best(list.drop_last(), a);
                assert(list[j].spec_contains(a) && list[j].prefix == spec_best(list, a));
            }
        }
        if spec_owned(list, a) {
            let j = choose|j: int| 0 <= j < list.len() && (#[trigger] list[j]).spec_contains(a);
            if j < list.len() - 1 {
                assert(list.drop_last()[j].spec_contains(a));
            }
        }
    }
}

/// The length of the longest prefix among the blocks of the list that
/// contain `a`, or `None` when no block does.
pub fn best_prefix(list: &Vec<Cidr>, a: Addr) -> (r: Option<u8>)
    requires
        all_wf(list@),
    ensures
        match r {
            Some(p) => spec_best(list@, a) == p,
            None => spec_best(list@, a) == -1,
        },
{
    let mut best: Option<u8> = None;
    let mut i: usize = 0;
    proof {
        assert(list@.take(0) =~= Seq::<Cidr>::empty());
    }
    while i < list.len()
        invariant
            i <= list@.len(),
            all_wf(list@),
            match best {
                Some(p) => spec_best(list@.take(i as int), a) == p,
                None => spec_best(list@.take(i as int), a) == -1,
            },
        decreases list@.len() - i,
    {
        proof {
            assert(list@.take((i + 1) as int).drop_last() =~= list@.take(i as int));
            assert(list@.take((i + 1) as int).last() == list@[i as int]);
        }
        if list[i].contains(a) {
            let p = list[i].prefix;
            match best {
                Some(q) => {
                    if p > q {
                        best = Some(p);
                    }
                },
                None => {
                    best = Some(p);
                },
            }
        }
        i = i + 1;
    }
    proof {
        assert(list@.take(list@.len() as int) =~= list@);
    }
    best
}

} // verus!
