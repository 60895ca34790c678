//! Shared utilities for the simulations: uniform random draws and the noise
//! permutation table.
use vstd::prelude::*;

pub mod systems;

verus! {

/// Relies on rand's `Rng::gen_range` over an integer range, which panics
/// only on an empty range and returns a value drawn from within the range.
/// Nothing more is promised: the draw is random.
#[verifier::external_body]
pub fn random(lo: u64, hi: u64) -> (r: u64)
    requires
        lo < hi,
    ensures
        lo <= r < hi,
{
    rand::Rng::gen_range(&mut rand::thread_rng(), lo..hi)
}

/// Seed a demo uses when it wants a fixed noise source.
pub const DEFAULT_NOISE_SEED: usize = 0;

/// How many entries of `s` are still unassigned.
pub open spec fn count_free(s: Seq<i16>) -> nat
    decreases s.len(),
{
    if s.len() == 0 {
        0
    } else {
        count_free(s.drop_last()) + if s.last() == -1 {
            1nat
        } else {
            0nat
        }
    }
}

/// Writing a value over an unassigned entry lowers the free count by one.
pub proof fn lemma_count_free_set(s: Seq<i16>, r: int, v: i16)
    requires
        0 <= r < s.len(),
        s[r] == -1,
        v != -1,
    ensures
        count_free(s.update(r, v)) + 1 == count_free(s),
    decreases s.len(),
{
    if r == s.len() - 1 {
        assert(s.update(r, v).drop_last() =~= s.drop_last());
    } else {
        lemma_count_free_set(s.drop_last(), r, v);
        assert(s.update(r, v).drop_last() =~= s.drop_last().update(r, v));
    }
}

/// Every entry of the table holds every value of `0 .. 256` somewhere: with
/// 256 entries, each value appears exactly once.
pub open spec fn is_permutation(s: Seq<i16>) -> bool {
    &&& s.len() == 256
    &&& forall|v: int| 0 <= v < 256 ==> s.contains(#[trigger] (v as i16))
}

/// A noise source: its seed and a random permutation of `0 .. 256`, the
/// table the interpolation stages of a noise function index into.
#[derive(Debug)]
pub struct Noise {
    /// The seed the source was created with.
    pub seed: usize,
    permutation_table: Vec<i16>,
}

impl Noise {
    /// The permutation table's entries.
    pub closed spec fn table(&self) -> Seq<i16> {
        self.permutation_table@
    }

    /// The seed, as contracts see it.
    pub closed spec fn spec_seed(&self) -> usize {
        self.seed
    }

    /// Places `i` at a random entry that is still unassigned, leaving every
    /// other entry alone.
    fn permutation_gen(table: &mut Vec<i16>, i: i16)
        requires
            old(table)@.len() == 256,
            count_free(old(table)@) >= 1,
            i != -1,
        ensures
            exists|r: int|
                0 <= r < 256 && old(table)@[r] == -1 && #[trigger] final(table)@ == old(
                    table,
                )@.update(r, i),
            count_free(final(table)@) + 1 == count_free(old(table)@),
    {
        let mut cnt: u64 = 0;
        let mut j: usize = 0;
        while j < 256
            invariant
                j <= 256,
                cnt == count_free(table@.take(j as int)),
                cnt <= j,
            decreases 256 - j,
        {
            proof {
                table@.lemma_take_succ_push(j as int);
                assert(table@.take(j as int + 1).drop_last() =~= table@.take(j as int));
            }
            if table[j] == -1 {
                cnt = cnt + 1;
            }
            j = j + 1;
        }
        proof {
            assert(table@.take(256) =~= table@);
        }
        let r = random(0, cnt);
        let mut seen: u64 = 0;
        let mut j: usize = 0;
        while j < 256
            invariant
                j <= 256,
                seen == count_free(table@.take(j as int)),
                seen <= r,
                r < count_free(table@),
                table@ == old(table)@,
            decreases 256 - j,
        {
            proof {
                table@.lemma_take_succ_push(j as int);
                assert(table@.take(j as int + 1).drop_last() =~= table@.take(j as int));
            }
            if table[j] == -1 {
                if seen == r {
                    proof {
                        lemma_count_free_set(table@, j as int, i);
                    }
                    table.set(j, i);
                    proof {
                        assert(0 <= j < 256 && old(table)@[j as int] == -1 && final(table)@
                            == old(table)@.update(j as int, i));
                    }
                    return ;
                }
                seen = seen + 1;
            }
            j = j + 1;
        }
        proof {
            assert(table@.take(256) =~= table@);
            assert(false);
        }
    }

    /// Builds a noise source for `seed`: the table starts unassigned and
    /// each value of `0 .. 256` lands at a randomly drawn free entry, so
    /// the finished table is a permutation.
    pub fn new(seed: usize) -> (r: Noise)
        ensures
            r.spec_seed() == seed,
            is_permutation(r.table()),
    {
        let mut table: Vec<i16> = Vec::new();
        let mut j: usize = 0;
        while j < 256
            invariant
                j <= 256,
                table@.len() == j,
                count_free(table@) == j,
                forall|w: int| 0 <= w < j ==> table@[w] == -1,
            decreases 256 - j,
        {
            let ghost prev = table@;
            table.push(-1);
            proof {
                assert(table@.drop_last() =~= prev);
            }
            j = j + 1;
        }
        let mut i: usize = 0;
        while i < 256
            invariant
                i <= 256,
                table@.len() == 256,
                count_free(table@) == 256 - i,
                forall|v: int| 0 <= v < i ==> table@.contains(#[trigger] (v as i16)),
            decreases 256 - i,
        {
            let ghost prev = table@;
            Noise::permutation_gen(&mut table, i as i16);
            proof {
                let r = choose|r: int|
                    0 <= r < 256 && prev[r] == -1 && #[trigger] table@ == prev.update(
                        r,
                        i as i16,
                    );
                assert forall|v: int| 0 <= v < i + 1 implies table@.contains(
                    #[trigger] (v as i16),
                ) by {
                    if v < i {
                        let w = choose|w: int|
                            0 <= w < prev.len() && #[trigger] prev[w] == (v as i16);
                        assert(table@[w] == (v as i16));
                    } else {
                        assert(table@[r] == (i as i16));
                    }
                }
            }
            i = i + 1;
        }
        Noise { seed, permutation_table: table }
    }

    /// The table entry at `i`.
    pub fn table_entry(&self, i: usize) -> (r: i16)
        requires
            i < self.table().len(),
        ensures
            r == self.table()[i as int],
    {
        self.permutation_table[i]
    }
}

} // verus!
