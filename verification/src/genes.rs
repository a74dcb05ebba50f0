//! The genome and its mutation operator.
//!
//! A genome is one 128-bit value; every bit pattern is legal. Replication
//! copies the parent's bits and, independently for each region of the
//! genome, flips one uniformly chosen bit of that region with probability
//! one in [`MUT_ODDS`]. The randomness itself comes from `rand`; everything
//! the operator does with the drawn values is verified: a child differs
//! from its parent in at most one bit per region, and only inside that
//! region's bit range.

use vstd::prelude::*;
use rand::Rng;

verus! {

/// One chance in this many that a region mutates during replication.
pub const MUT_ODDS: u32 = 1000;

/// Region `j` of a genome: bits `16*j .. 16*j + 16`, as a 16-bit value.
pub open spec fn region_bits(g: u128, j: u128) -> u128 {
    (g >> ((16 * j) as u128)) & 0xffff
}

/// Region `j` of `c` differs from region `j` of `p` in exactly one bit.
pub open spec fn region_one_flip(p: u128, c: u128, j: u128) -> bool {
    exists|k: u128| k < 16 && region_bits(c, j) == region_bits(p, j) ^ (1u128 << k)
}

/// Region `j` of `c` is region `j` of `p`, either unchanged or with exactly
/// one bit flipped.
pub open spec fn region_mutation_ok(p: u128, c: u128, j: u128) -> bool {
    region_bits(c, j) == region_bits(p, j) || region_one_flip(p, c, j)
}

/// Flipping bit `b` of a genome, where `b` lies in region `i`, rewrites
/// region `i` alone: every other region keeps its bits, and region `i`
/// changes in exactly the bit `b - 16*i`.
proof fn lemma_flip_region(g: u128, b: u128, i: u128, j: u128)
    requires
        i < 8,
        j < 8,
        16 * i <= b < 16 * i + 16,
    ensures
        i != j ==> region_bits(g ^ (1u128 << b), j) == region_bits(g, j),
        i == j ==> region_bits(g ^ (1u128 << b), j)
            == region_bits(g, j) ^ (1u128 << ((b - 16 * i) as u128)),
{
    assert(i != j ==> ((g ^ (1u128 << b)) >> ((16 * j) as u128)) & 0xffff
        == (g >> ((16 * j) as u128)) & 0xffff) by (bit_vector)
        requires
            i < 8,
            j < 8,
            16 * i <= b < 16 * i + 16,
    ;
    assert(i == j ==> ((g ^ (1u128 << b)) >> ((16 * j) as u128)) & 0xffff
        == ((g >> ((16 * j) as u128)) & 0xffff) ^ (1u128 << ((b - 16 * i) as u128)))
        by (bit_vector)
        requires
            i < 8,
            j < 8,
            16 * i <= b < 16 * i + 16,
    ;
}

/// An agent's genome: a single 128-bit value. Every bit pattern is legal.
#[derive(Clone, Copy, PartialEq, Eq, Structural, Debug)]
pub struct Genes {
    pub gene: u128,
}

impl Genes {
    /// Derive a child genome. The genome's eight 16-bit regions are visited
    /// in order; each, independently with one-in-[`MUT_ODDS`] probability,
    /// has one uniformly chosen bit of its range flipped. Whatever the
    /// random draws turn out to be, every region of the child equals the
    /// parent's or differs from it in exactly one bit.
    pub fn replicate(&self) -> (child: Genes)
        ensures
            forall|j: u128| j < 8 ==> region_mutation_ok(self.gene, #[trigger] child.gene, j),
    {
        let mut gene: u128 = self.gene;
        let mut i: u32 = 0;
        while i < 8
            invariant
                i <= 8,
                forall|j: u128| j < i ==> region_mutation_ok(self.gene, gene, j),
                forall|j: u128| i <= j < 8 ==> region_bits(gene, j) == region_bits(self.gene, j),
            decreases 8 - i,
        {
            if coin_flip(1, MUT_ODDS) {
                let b: u32 = pick_in_range(16 * i, 16 * i + 16);
                let flipped: u128 = gene ^ (1u128 << (b as u128));
                proof {
                    let pre = gene;
                    let bb = b as u128;
                    let ii = i as u128;
                    assert(region_one_flip(self.gene, flipped, ii)) by {
                        let k = (bb - 16 * ii) as u128;
                        lemma_flip_region(pre, bb, ii, ii);
                        assert(k < 16 && region_bits(flipped, ii)
                            == region_bits(self.gene, ii) ^ (1u128 << k));
                    }
                    assert forall|j: u128| ii < j < 8 implies
                        region_bits(flipped, j) == region_bits(self.gene, j)
                    by {
                        lemma_flip_region(pre, bb, ii, j);
                    }
                    assert forall|j: u128| j < ii implies
                        region_mutation_ok(self.gene, flipped, j)
                    by {
                        lemma_flip_region(pre, bb, ii, j);
                        assert(region_bits(flipped, j) == region_bits(pre, j));
                        assert(region_mutation_ok(self.gene, pre, j));
                        if region_one_flip(self.gene, pre, j) {
                            let k = choose|k: u128| k < 16 && region_bits(pre, j)
                                == region_bits(self.gene, j) ^ (1u128 << k);
                            assert(k < 16 && region_bits(flipped, j)
                                == region_bits(self.gene, j) ^ (1u128 << k));
                        } else {
                            assert(region_bits(flipped, j) == region_bits(self.gene, j));
                        }
                    }
                }
                gene = flipped;
            }
            i = i + 1;
        }
        Genes { gene }
    }

    /// Derive a child genome with the whole 128 bits as a single mutation
    /// region: with one-in-[`MUT_ODDS`] probability the child differs from
    /// the parent in exactly one uniformly chosen bit, and otherwise it is
    /// the parent's exact bit pattern.
    pub fn replicate_whole(&self) -> (child: Genes)
        ensures
            child.gene == self.gene
                || exists|b: u128| b < 128 && child.gene == self.gene ^ (1u128 << b),
    {
        if coin_flip(1, MUT_ODDS) {
            let b: u32 = pick_in_range(0, 128);
            let child: u128 = self.gene ^ (1u128 << (b as u128));
            proof {
                let bb = b as u128;
                assert(bb < 128 && child == self.gene ^ (1u128 << bb));
            }
            Genes { gene: child }
        } else {
            Genes { gene: self.gene }
        }
    }
}

impl Default for Genes {
    /// A fresh, uniformly random genome, as population seeding uses.
    fn default() -> Genes {
        Genes { gene: random_gene() }
    }
}

/// Relies on rand's `Rng::gen` on the thread-local generator: a uniformly
/// random 128-bit value. Nothing can be promised of a random draw.
#[verifier::external_body]
fn random_gene() -> u128 {
    rand::thread_rng().gen()
}

/// Relies on rand's `Rng::gen_ratio` on the thread-local generator: `true`
/// with probability `num` in `den`. The underlying `Bernoulli::from_ratio`
/// is unwrapped and would panic when `den` is zero or `num` exceeds `den`,
/// so those inputs are excluded. Nothing can be promised of a random draw.
#[verifier::external_body]
fn coin_flip(num: u32, den: u32) -> bool
    requires
        0 < den,
        num <= den,
{
    rand::thread_rng().gen_ratio(num, den)
}

/// Relies on rand's `Rng::gen_range` on the half-open range `lo..hi`: a
/// uniform draw documented to lie within the range. An empty range panics,
/// so `lo < hi` is required.
#[verifier::external_body]
fn pick_in_range(lo: u32, hi: u32) -> (r: u32)
    requires
        lo < hi,
    ensures
        lo <= r < hi,
{
    rand::thread_rng().gen_range(lo..hi)
}

} // verus!
