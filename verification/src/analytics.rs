//! Pseudo-random numbers for perturbation runs, and file conventions of
//! the analytics tools.

use vstd::prelude::*;
use vstd::string::{StrSliceExecFns, StringExecFns};

verus! {

/// Which tail of a distribution.
#[derive(Clone, Copy, Debug, PartialEq, Eq, Structural)]
pub enum Side {
    Left,
    Right,
}

/// One xorshift step of the state: shifts by 12 right, 25 left, 27 right.
pub open spec fn xorshift(x: u64) -> u64 {
    let a = x ^ (x >> 12u64);
    let b = a ^ (a << 25u64);
    b ^ (b >> 27u64)
}

/// A generator never reaches the zero state, which it could not leave:
/// the xorshift step maps every non-zero state to a non-zero state.
pub proof fn lemma_xorshift_keeps_nonzero(x: u64)
    requires
        x != 0,
    ensures
        xorshift(x) != 0,
{
    let a = x ^ (x >> 12u64);
    let b = a ^ (a << 25u64);
    assert(x != 0 ==> x ^ (x >> 12u64) != 0) by (bit_vector);
    assert(a != 0 ==> a ^ (a << 25u64) != 0) by (bit_vector);
    assert(b != 0 ==> b ^ (b >> 27u64) != 0) by (bit_vector);
}

/// The output drawn from a state: the state times the xorshift64* constant,
/// modulo 2^64.
pub open spec fn scrambled(x: u64) -> u64 {
    ((x as nat * 0x2545_F491_4F6C_DD1Du64 as nat) % 0x1_0000_0000_0000_0000nat) as u64
}

/// A xorshift64* generator: deterministic from its seed.
pub struct Rng {
    state: u64,
}

impl Rng {
    /// The generator's state.
    pub closed spec fn spec_state(&self) -> u64 {
        self.state
    }

    /// A generator seeded with `seed` (a zero seed, which would stay zero
    /// forever, is taken as 1).
    pub fn new(seed: u64) -> (r: Rng)
        ensures
            r.spec_state() == if seed == 0 {
                1u64
            } else {
                seed
            },
    {
        Rng { state: if seed == 0 {
            1
        } else {
            seed
        } }
    }

    /// Advance the state one xorshift step and return the scrambled new
    /// state.
    pub fn next_u64(&mut self) -> (r: u64)
        ensures
            final(self).spec_state() == xorshift(old(self).spec_state()),
            r == scrambled(xorshift(old(self).spec_state())),
    {
        let mut x = self.state;
        x = x ^ (x >> 12u64);
        x = x ^ (x << 25u64);
        x = x ^ (x >> 27u64);
        self.state = x;
        x.wrapping_mul(0x2545_F491_4F6C_DD1D)
    }
}

/// The text of `path` after its last `/` (all of it when there is none).
pub open spec fn last_component(path: Seq<char>) -> Seq<char>
    decreases path.len(),
{
    if path.len() == 0 {
        path
    } else if path.last() == '/' {
        Seq::empty()
    } else {
        last_component(path.drop_last()).push(path.last())
    }
}

/// The risk-tier vols file conventionally paired with a market file: for
/// a `/`-separated path whose last component is `market.json`, the same
/// path ending in `vols.json`; `None` for any other path.
pub fn sibling_vols_path(path: &str) -> (r: Option<String>)
    ensures
        r is Some <==> last_component(path@) == "market.json"@,
        r matches Some(p) ==> p@ == path@.subrange(0, path@.len() - 11) + "vols.json"@,
{
    proof {
        reveal_strlit("market.json");
        reveal_strlit("vols.json");
    }
    let n = path.unicode_len();
    // Walk back to the last separator.
    let mut start: usize = n;
    proof {
        assert(path@.subrange(n as int, n as int) =~= Seq::<char>::empty());
        assert(path@.subrange(0, n as int) =~= path@);
    }
    while start > 0 && path.get_char(start - 1) != '/'
        invariant
            start <= n,
            n == path@.len(),
            last_component(path@) == last_component(path@.subrange(0, start as int)) + path@.subrange(
                start as int,
                n as int,
            ),
            start < n ==> path@[start as int] != '/',
        decreases start,
    {
        proof {
            let pre = path@.subrange(0, start as int);
            assert(pre.drop_last() =~= path@.subrange(0, start - 1));
            assert(pre.last() == path@[start - 1]);
            assert(path@.subrange(start - 1, n as int) =~= seq![path@[start - 1]] + path@.subrange(
                start as int,
                n as int,
            ));
            assert(last_component(pre) =~= last_component(path@.subrange(0, start - 1)).push(
                path@[start - 1],
            ));
        }
        start = start - 1;
    }
    proof {
        let pre = path@.subrange(0, start as int);
        if start > 0 {
            assert(pre.last() == path@[start - 1]);
            assert(last_component(pre) =~= Seq::<char>::empty());
        } else {
            assert(pre =~= Seq::<char>::empty());
        }
        assert(last_component(path@) =~= path@.subrange(start as int, n as int));
    }
    if n - start != 11 {
        return None;
    }
    let mut i: usize = 0;
    let name = "market.json";
    while i < 11
        invariant
            i <= 11,
            n - start == 11,
            n == path@.len(),
            name@ == "market.json"@,
            name@.len() == 11,
            last_component(path@) == path@.subrange(start as int, n as int),
            forall|k: int| 0 <= k < i ==> path@[start + k] == name@[k],
        decreases 11 - i,
    {
        if path.get_char(start + i) != name.get_char(i) {
            proof {
                assert(path@.subrange(start as int, n as int)[i as int] != name@[i as int]);
            }
            return None;
        }
        i = i + 1;
    }
    proof {
        assert(path@.subrange(start as int, n as int) =~= "market.json"@);
    }
    let mut out = String::new();
    let prefix = path.substring_char(0, start);
    out.append(prefix);
    out.append("vols.json");
    Some(out)
}

} // verus!
