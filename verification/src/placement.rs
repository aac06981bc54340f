//! Which shard a key belongs to.

use crate::model::Key;
use std::hash::RandomState;
use vstd::arithmetic::div_mod::*;
use vstd::arithmetic::power2::*;
use vstd::bits::*;
use vstd::prelude::*;

verus! {

/// The number of hashes.
pub open spec fn hash_range() -> int {
    usize::MAX + 1
}

/// Whether `n` is a power of two.
pub open spec fn is_power_of_two(n: int) -> bool {
    exists|k: nat| n == #[trigger] pow2(k)
}

/// The shard, among `num_shards`, that a key with the given hash belongs to.
///
/// The seven topmost bits of the hash are left out. What remains, moved to the top, is scaled down
/// from the range of the hashes to that of the shards.
pub open spec fn shard_index(hash: usize, num_shards: int) -> int {
    ((hash * 128) % hash_range()) * num_shards / hash_range()
}

/// Returns `k` if `n` is two to the power of `k`.
pub fn exponent_of_two(n: usize) -> (exponent: Option<u32>)
    ensures
        match exponent {
            Some(k) => k < usize::BITS && n == pow2(k as nat),
            None => !is_power_of_two(n as int),
        },
        exponent is Some <==> exists|k: nat| n == #[trigger] pow2(k),
{
    if n == 0 {
        proof {
            assert forall|k: nat| 0 != #[trigger] pow2(k) by {
                lemma_pow2_pos(k);
            }
        }
        return None;
    }
    let mut rest: usize = n;
    let mut k: u32 = 0;
    proof {
        lemma2_to64();
    }
    while rest % 2 == 0
        invariant
            rest > 0,
            n == rest * pow2(k as nat),
            k < usize::BITS,
        decreases rest,
    {
        proof {
            lemma_pow2_adds(k as nat, 1);
            lemma2_to64();
            let half: int = rest as int / 2;
            let p: int = pow2(k as nat) as int;
            assert((2 * half) * p == half * (p * 2)) by (nonlinear_arith);
            lemma_pow2_fits((k + 1) as nat, n, half);
        }
        rest = rest / 2;
        k += 1;
    }
    proof {
        assert forall|j: nat| n == #[trigger] pow2(j) implies rest == 1 by {
            lemma_odd_part(rest as int, k as nat, j);
        }
    }
    if rest == 1 {
        Some(k)
    } else {
        None
    }
}

/// A power of two that divides a machine word fits in one.
proof fn lemma_pow2_fits(k: nat, n: usize, factor: int)
    requires
        factor > 0,
        n == factor * pow2(k),
    ensures
        k < usize::BITS,
{
    lemma2_to64();
    lemma2_to64_rest();
    let p = pow2(k) as int;
    assert(p <= factor * p) by (nonlinear_arith)
        requires
            factor >= 1,
            p >= 0,
    ;
    if k > usize::BITS {
        lemma_pow2_strictly_increases(usize::BITS as nat, k);
    }
}

/// The odd part of a power of two is one.
proof fn lemma_odd_part(odd: int, k: nat, j: nat)
    requires
        odd > 0,
        odd % 2 == 1,
        odd * pow2(k) == pow2(j),
    ensures
        odd == 1,
{
    let p = pow2(k) as int;
    lemma_pow2_pos(k);
    assert(p <= odd * p) by (nonlinear_arith)
        requires
            odd >= 1,
            p >= 0,
    ;
    if j < k {
        lemma_pow2_strictly_increases(j, k);
    } else {
        let q = pow2((j - k) as nat) as int;
        lemma_pow2_adds(k, (j - k) as nat);
        assert(odd == q) by (nonlinear_arith)
            requires
                odd * p == p * q,
                p > 0,
        ;
        if j > k {
            lemma_pow2_adds(1, (j - k - 1) as nat);
            lemma2_to64();
        } else {
            lemma2_to64();
        }
    }
}

/// The number of topmost bits of a hash that play no part in the choice of a shard. A hash table
/// uses them to tell the entries of one bucket apart.
const METADATA_BITS: u32 = 7;

/// The least power of two that is not less than `n`, if it fits in a machine word.
pub fn next_power_of_two(n: usize) -> (power: Option<usize>)
    ensures
        match power {
            Some(p) => {
                &&& is_power_of_two(p as int)
                &&& n <= p
                &&& forall|k: nat| n <= #[trigger] pow2(k) ==> p <= pow2(k)
            },
            None => forall|k: nat| n <= #[trigger] pow2(k) ==> pow2(k) > usize::MAX,
        },
        power is Some ==> exists|k: nat| power->0 == #[trigger] pow2(k),
{
    let mut power: usize = 1;
    let ghost mut k: nat = 0;
    proof {
        lemma2_to64();
        assert forall|j: nat| n <= #[trigger] pow2(j) implies 1 <= pow2(j) by {
            lemma_pow2_pos(j);
        }
    }
    while power < n
        invariant
            power == pow2(k),
            forall|j: nat| n <= #[trigger] pow2(j) ==> power <= pow2(j),
        decreases usize::MAX - power,
    {
        proof {
            lemma_pow2_pos(k);
            lemma_pow2_adds(k, 1);
            lemma2_to64();
            assert forall|j: nat| n <= #[trigger] pow2(j) implies 2 * power <= pow2(j) by {
                if j <= k {
                    if j < k {
                        lemma_pow2_strictly_increases(j, k);
                    }
                } else if j > k + 1 {
                    lemma_pow2_strictly_increases(k + 1, j);
                }
            }
        }
        if power > usize::MAX / 2 {
            return None;
        }
        power = 2 * power;
        proof {
            k = k + 1;
        }
    }
    Some(power)
}

/// The number of shards for a machine with `cpus` cores: four for each core, rounded up to a power
/// of two. There is none if that does not fit in a machine word.
pub fn default_num_shards(cpus: usize) -> (num_shards: Option<usize>)
    ensures
        is_default_num_shards(cpus, num_shards),
        num_shards matches Some(n) ==> {
            &&& exists|k: nat| n == #[trigger] pow2(k)
            &&& 4 * cpus <= n
            &&& forall|k: nat| 4 * cpus <= #[trigger] pow2(k) ==> n <= pow2(k)
        },
        num_shards is None ==> forall|k: nat|
            4 * cpus <= #[trigger] pow2(k) ==> pow2(k) > usize::MAX,
{
    match cpus.checked_mul(4) {
        Some(n) => next_power_of_two(n),
        None => None,
    }
}

/// Whether `num_shards` is the least power of two that is at least four times `cpus`, and absent
/// if that does not fit in a machine word.
pub open spec fn is_default_num_shards(cpus: usize, num_shards: Option<usize>) -> bool {
    match num_shards {
        Some(n) => {
            &&& is_power_of_two(n as int)
            &&& 4 * cpus <= n
            &&& forall|k: nat| 4 * cpus <= #[trigger] pow2(k) ==> n <= pow2(k)
        },
        None => forall|k: nat| 4 * cpus <= #[trigger] pow2(k) ==> pow2(k) > usize::MAX,
    }
}

/// The hash of a key under a given state of the hasher of the standard library.
pub uninterp spec fn key_hash(state: RandomState, key: Seq<char>) -> u64;

/// Hashes a key with `BuildHasher::hash_one` of [`RandomState`].
///
/// One state builds the same hasher every time, and equal keys hash equally: the hash is a
/// function of the state, which holds the random seed, and of the characters of the key.
#[verifier::external_body]
fn hash_key(state: &RandomState, key: &Key) -> (hash: u64)
    ensures
        hash == key_hash(*state, key@),
    opens_invariants none
{
    std::hash::BuildHasher::hash_one(state, key)
}

/// A randomly seeded hasher state, made by [`RandomState::new`].
#[verifier::external_body]
fn random_state() -> RandomState {
    RandomState::new()
}

/// The distribution of keys among a power of two of shards.
pub struct Placement {
    num_shards: usize,
    shift: u32,
    state: RandomState,
}

impl Placement {
    /// The shift leaves as many bits of a hash as it takes to number the shards.
    #[verifier::type_invariant]
    pub closed spec fn wf(&self) -> bool {
        &&& self.shift <= usize::BITS
        &&& self.num_shards == pow2((usize::BITS - self.shift) as nat)
    }

    /// The number of bits that a hash is shifted by.
    pub closed spec fn shift(&self) -> u32 {
        self.shift
    }

    /// The number of shards.
    pub closed spec fn num_shards(&self) -> usize {
        self.num_shards
    }

    /// The state of the hasher.
    pub closed spec fn state(&self) -> RandomState {
        self.state
    }

    /// The hash of a key.
    pub closed spec fn hash(&self, key: Seq<char>) -> usize {
        key_hash(self.state, key) as usize
    }

    /// The shard that a key belongs to.
    pub open spec fn shard_of(&self, key: Seq<char>) -> int {
        shard_index(self.hash(key), self.num_shards() as int)
    }

    /// A distribution among the given number of shards, which must be a power of two.
    pub fn new(num_shards: usize) -> (placement: Option<Placement>)
        ensures
            match placement {
                Some(placement) => {
                    &&& is_power_of_two(num_shards as int)
                    &&& placement.wf()
                    &&& placement.num_shards() == num_shards
                },
                None => !is_power_of_two(num_shards as int),
            },
            placement is Some <==> exists|k: nat| num_shards == #[trigger] pow2(k),
    {
        match exponent_of_two(num_shards) {
            // The shift is used to distribute key hashes among the different shards. Shifting this
            // amount to the right will make the number fit within the index range of the shards.
            Some(k) => Some(
                Placement { num_shards, shift: usize::BITS - k, state: random_state() },
            ),
            None => None,
        }
    }

    /// A distribution among a single shard.
    pub(crate) fn of_one() -> (placement: Placement)
        ensures
            placement.wf(),
            placement.num_shards() == 1,
    {
        proof {
            lemma2_to64();
        }
        Placement { num_shards: 1, shift: usize::BITS, state: random_state() }
    }

    /// Hash the key as an usize to be used in shard indexing
    pub fn hash_usize(&self, key: &Key) -> (hash: usize)
        ensures
            hash == self.hash(key@),
            hash == key_hash(self.state(), key@) as usize,
        opens_invariants none
    {
        #[verifier::truncate]
        let hash = hash_key(&self.state, key) as usize;
        hash
    }

    /// Determines the shard of a given key hash
    pub fn determine_shard(&self, hash: usize) -> (index: usize)
        ensures
            index == shard_index(hash, self.num_shards() as int),
            index * (usize::MAX + 1) <= ((hash * 128) % (usize::MAX + 1)) * self.num_shards() < (
            index + 1) * (usize::MAX + 1),
        opens_invariants none
    {
        proof {
            use_type_invariant(self);
        }
        // The left shift leaves out the metadata bits. Each hash is then (right) shifted the
        // calculated shift amount to make sure that it always fits within the index range of the
        // shards.
        let moved: usize = hash << METADATA_BITS;
        let index: usize = if self.shift < usize::BITS {
            moved >> self.shift
        } else {
            0
        };
        proof {
            assert(hash << 7u32 == (hash * 128) % (!0usize + 1)) by (bit_vector);
            let top: usize = usize::MAX;
            assert(top <= !0usize) by (bit_vector);
            lemma_scale(moved, self.shift, self.num_shards as int);
            if self.shift < usize::BITS {
                lemma_usize_shr_is_div(moved, self.shift as usize);
            } else {
                lemma_basic_div(moved as int, hash_range());
            }
            lemma_shard_index_scales(hash, self.num_shards as int);
        }
        index
    }

    /// Determines the shard that a key belongs to
    pub fn shard_for(&self, key: &Key) -> (index: usize)
        ensures
            index == self.shard_of(key@),
            index < self.num_shards(),
        opens_invariants none
    {
        let hash = self.hash_usize(key);
        proof {
            use_type_invariant(self);
            lemma_pow2_pos((usize::BITS - self.shift) as nat);
            lemma_shard_index_in_range(hash, self.num_shards as int);
        }
        self.determine_shard(hash)
    }
}

/// The number of shards is two to the power of the bits that the shift leaves.
pub proof fn lemma_shift(placement: Placement)
    requires
        placement.wf(),
    ensures
        placement.shift() <= usize::BITS,
        placement.num_shards() == pow2((usize::BITS - placement.shift()) as nat),
        is_power_of_two(placement.num_shards() as int),
{
}

/// Dividing by two to the power of the shift scales from the range of hashes to that of shards.
proof fn lemma_scale(x: usize, shift: u32, num_shards: int)
    requires
        shift <= usize::BITS,
        num_shards == pow2((usize::BITS - shift) as nat),
    ensures
        x as int / pow2(shift as nat) as int == x * num_shards / hash_range(),
        shift == usize::BITS ==> pow2(shift as nat) == hash_range(),
{
    let a = pow2(shift as nat) as int;
    lemma_pow2_pos(shift as nat);
    lemma_pow2_pos((usize::BITS - shift) as nat);
    lemma_pow2_adds((usize::BITS - shift) as nat, shift as nat);
    assert(pow2(usize::BITS as nat) == hash_range()) by {
        lemma2_to64();
        lemma2_to64_rest();
    }
    lemma_div_multiples_vanish_quotient(num_shards, x as int, a);
    assert(num_shards * x == x * num_shards) by (nonlinear_arith);
}

/// A power of two is positive.
pub proof fn lemma_power_of_two_positive(n: int)
    requires
        is_power_of_two(n),
    ensures
        n > 0,
{
    let k = choose|k: nat| n == #[trigger] pow2(k);
    lemma_pow2_pos(k);
}

/// The index of a shard is to the number of shards as what remains of the hash, moved to the top, is
/// to the range of the hashes, rounded down.
pub proof fn lemma_shard_index_scales(hash: usize, num_shards: int)
    ensures
        shard_index(hash, num_shards) * (usize::MAX + 1) <= ((hash * 128) % (usize::MAX + 1))
            * num_shards < (shard_index(hash, num_shards) + 1) * (usize::MAX + 1),
{
    let range = hash_range();
    let x = ((hash * 128) % range) * num_shards;
    lemma_fundamental_div_mod(x, range);
    lemma_mod_bound(x, range);
    let i = x / range;
    assert(i * range == range * i && (i + 1) * range == range * i + range) by (nonlinear_arith);
}

/// The index of a shard is less than the number of shards.
pub proof fn lemma_shard_index_in_range(hash: usize, num_shards: int)
    requires
        num_shards > 0,
    ensures
        0 <= shard_index(hash, num_shards) < num_shards,
{
    let x = (hash * 128) % hash_range();
    let range = hash_range();
    assert(0 <= x * num_shards < range * num_shards) by (nonlinear_arith)
        requires
            0 <= x < range,
            num_shards > 0,
    ;
    lemma_multiply_divide_lt(x * num_shards, range, num_shards);
    lemma_div_pos_is_pos(x * num_shards, range);
}

} // verus!
