use crate::rtweekend::{drawn_values, random_int, Draw};
use vstd::prelude::*;

verus! {

broadcast use {
    vstd::seq_lib::to_multiset_update,
    vstd::seq_lib::group_to_multiset_ensures,
    vstd::multiset::group_multiset_axioms,
    vstd::multiset::group_multiset_properties,
};

/// Number of lattice points per axis, and the length of each permutation table.
pub const POINT_COUNT: usize = 256;

/// The identity arrangement `[0, 1, ..., n - 1]`.
pub open spec fn identity_seq(n: nat) -> Seq<usize> {
    Seq::new(n, |i: int| i as usize)
}

/// `s` holds each of `0, 1, ..., n - 1` exactly once.
pub open spec fn is_permutation_of_range(s: Seq<usize>, n: nat) -> bool {
    s.to_multiset() == identity_seq(n).to_multiset()
}

/// `s` with the entries at `i` and `j` exchanged.
pub open spec fn swapped(s: Seq<usize>, i: int, j: int) -> Seq<usize> {
    s.update(i, s[j]).update(j, s[i])
}

/// Swapping two entries keeps the multiset of entries.
proof fn lemma_swap_keeps_multiset(s: Seq<usize>, i: int, j: int)
    requires
        0 <= i < s.len(),
        0 <= j < s.len(),
    ensures
        swapped(s, i, j).to_multiset() == s.to_multiset(),
{
    let s1 = s.update(i, s[j]);
    let s2 = s1.update(j, s[i]);
    assert(s1.to_multiset() == s.to_multiset().insert(s[j]).remove(s[i]));
    assert(s2.to_multiset() == s1.to_multiset().insert(s[i]).remove(s1[j]));
    assert(s1[j] == s[j]);
    assert(s.to_multiset().count(s[i]) > 0);
    assert(s2.to_multiset() =~= s.to_multiset());
}

/// `s` after the first `k` steps of a Fisher-Yates shuffle with the given draws:
/// step `m` exchanges the entry at `s.len() - 1 - m` with the entry at `draws[m]`.
pub open spec fn shuffled(s: Seq<usize>, draws: Seq<u32>, k: nat) -> Seq<usize>
    decreases k,
{
    if k == 0 {
        s
    } else {
        let prev = shuffled(s, draws, (k - 1) as nat);
        swapped(prev, s.len() - k, draws[k - 1] as int)
    }
}

/// Draws fit a Fisher-Yates shuffle of `n` entries: one per step, step `m` drawing
/// from `0..=n - 1 - m`.
pub open spec fn valid_draws(draws: Seq<u32>, n: nat) -> bool {
    &&& draws.len() == if n == 0 { 0 } else { n - 1 }
    &&& forall|m: int| 0 <= m < draws.len() ==> (#[trigger] draws[m] as int) <= n - 1 - m
}

/// Fisher-Yates shuffle of `p` with the given draws: for `i` from the last index down
/// to `1`, exchanges the entries at `i` and at the next draw.
pub fn shuffle_with(p: &mut Vec<usize>, draws: &Vec<u32>)
    requires
        valid_draws(draws@, old(p)@.len()),
    ensures
        final(p)@ == shuffled(old(p)@, draws@, draws@.len()),
        final(p)@.len() == old(p)@.len(),
        final(p)@.to_multiset() == old(p)@.to_multiset(),
{
    let n = p.len();
    let steps = draws.len();
    let mut m: usize = 0;
    while m < steps
        invariant
            n == old(p)@.len(),
            steps == draws@.len(),
            valid_draws(draws@, n as nat),
            m <= steps,
            p@.len() == n,
            p@ == shuffled(old(p)@, draws@, m as nat),
            p@.to_multiset() == old(p)@.to_multiset(),
        decreases steps - m,
    {
        let i = n - 1 - m;
        let target = draws[m] as usize;
        let a = p[i];
        let b = p[target];
        proof {
            lemma_swap_keeps_multiset(p@, i as int, target as int);
        }
        p.set(i, b);
        p.set(target, a);
        m = m + 1;
    }
}

/// Shuffles `p` in place (Fisher-Yates) with random draws: for `i` from the last index
/// down to `1`, exchanges the entries at `i` and at a value drawn from `0..=i`. Every
/// entry is kept, in an order drawn at random. Returns the draws, in the order they
/// were made; step `m` used the `m`-th of them.
pub fn permute(p: &mut Vec<usize>) -> (draws: Vec<Draw>)
    ensures
        final(p)@.len() == old(p)@.len(),
        final(p)@.to_multiset() == old(p)@.to_multiset(),
        exists|d: Seq<u32>|
            valid_draws(d, old(p)@.len()) && final(p)@ == shuffled(old(p)@, d, d.len()),
        draws@.len() == if old(p)@.len() == 0 {
            0
        } else {
            old(p)@.len() - 1
        },
        forall|m: int|
            0 <= m < draws@.len() ==> {
                &&& (#[trigger] draws@[m]).low() == 0
                &&& draws@[m].high() == (old(p)@.len() - 1 - m) as u32
                &&& draws@[m].drawn() <= old(p)@.len() - 1 - m
            },
        final(p)@ == shuffled(old(p)@, drawn_values(draws@), draws@.len()),
        forall|m: int|
            0 <= m < draws@.len() ==> final(p)@[old(p)@.len() - 1 - m] == shuffled(
                old(p)@,
                drawn_values(draws@),
                m as nat,
            )[(#[trigger] draws@[m]).drawn() as int],
{
    let n = p.len();
    let mut draws: Vec<Draw> = Vec::new();
    let mut values: Vec<u32> = Vec::new();
    let mut i = n;
    while i > 1
        invariant
            i <= n,
            n <= 1 || i >= 1,
            draws@.len() == if n <= 1 {
                0
            } else {
                n - i
            },
            values@ == drawn_values(draws@),
            forall|m: int|
                0 <= m < draws@.len() ==> {
                    &&& (#[trigger] draws@[m]).low() == 0
                    &&& draws@[m].high() == (n - 1 - m) as u32
                    &&& draws@[m].drawn() <= n - 1 - m
                },
        decreases i,
    {
        i = i - 1;
        let bound = i as u32;
        assert((i as u32) as usize <= i) by (bit_vector);
        let d = random_int(0, bound);
        values.push(d.value());
        draws.push(d);
        assert(values@ =~= drawn_values(draws@));
    }
    assert(valid_draws(values@, n as nat));
    shuffle_with(p, &values);
    proof {
        assert forall|m: int| 0 <= m < draws@.len() implies final(p)@[n - 1 - m] == shuffled(
            old(p)@,
            drawn_values(draws@),
            m as nat,
        )[(#[trigger] draws@[m]).drawn() as int] by {
            lemma_shuffle_settles(old(p)@, values@, m);
        }
    }
    draws
}

/// A Fisher-Yates step fixes its slot for good: after the whole shuffle, the slot that
/// step `m` filled (`s.len() - 1 - m`) holds what stood at the `m`-th draw just before
/// that step, since every later step only touches lower slots.
pub proof fn lemma_shuffle_settles(s: Seq<usize>, draws: Seq<u32>, m: int)
    requires
        valid_draws(draws, s.len()),
        0 <= m < draws.len(),
    ensures
        shuffled(s, draws, draws.len())[s.len() - 1 - m] == shuffled(s, draws, m as nat)[draws[m] as int],
{
    lemma_shuffle_settles_at(s, draws, m, draws.len());
}

proof fn lemma_shuffle_settles_at(s: Seq<usize>, draws: Seq<u32>, m: int, k: nat)
    requires
        valid_draws(draws, s.len()),
        0 <= m < k <= draws.len(),
    ensures
        shuffled(s, draws, k).len() == s.len(),
        shuffled(s, draws, k)[s.len() - 1 - m] == shuffled(s, draws, m as nat)[draws[m] as int],
    decreases k,
{
    lemma_shuffled_len(s, draws, (k - 1) as nat);
    if k == m + 1 {
        assert(shuffled(s, draws, k) == swapped(shuffled(s, draws, m as nat), s.len() - 1 - m, draws[m] as int));
    } else {
        lemma_shuffle_settles_at(s, draws, m, (k - 1) as nat);
        let j = k - 1;
        assert((draws[j] as int) <= s.len() - 1 - j);
    }
}

proof fn lemma_shuffled_len(s: Seq<usize>, draws: Seq<u32>, k: nat)
    requires
        valid_draws(draws, s.len()),
        k <= draws.len(),
    ensures
        shuffled(s, draws, k).len() == s.len(),
    decreases k,
{
    if k > 0 {
        lemma_shuffled_len(s, draws, (k - 1) as nat);
        assert((draws[k - 1] as int) <= s.len() - 1 - (k - 1));
    }
}

/// A random arrangement of `0, 1, ..., POINT_COUNT - 1`.
pub fn generate_perm() -> (p: Vec<usize>)
    ensures
        p@.len() == POINT_COUNT,
        is_permutation_of_range(p@, POINT_COUNT as nat),
        exists|d: Seq<u32>|
            valid_draws(d, POINT_COUNT as nat) && p@ == shuffled(
                identity_seq(POINT_COUNT as nat),
                d,
                d.len(),
            ),
{
    let mut p: Vec<usize> = Vec::new();
    let mut i: usize = 0;
    while i < POINT_COUNT
        invariant
            i <= POINT_COUNT,
            p@ == identity_seq(i as nat),
        decreases POINT_COUNT - i,
    {
        p.push(i);
        i = i + 1;
        assert(p@ =~= identity_seq(i as nat));
    }
    permute(&mut p);
    p
}

/// A permutation of `0..n` has `n` entries, each below `n`, none repeated.
pub proof fn lemma_permutation_entries(s: Seq<usize>, n: nat)
    requires
        n <= usize::MAX,
        is_permutation_of_range(s, n),
    ensures
        s.len() == n,
        forall|k: int| 0 <= k < s.len() ==> (#[trigger] s[k] as int) < n,
        s.no_duplicates(),
{
    let id = identity_seq(n);
    assert(s.len() == s.to_multiset().len());
    assert(id.len() == id.to_multiset().len());
    assert forall|k: int| 0 <= k < s.len() implies (#[trigger] s[k] as int) < n by {
        assert(s.contains(s[k]));
        assert(s.to_multiset().count(s[k]) > 0);
        assert(id.to_multiset().count(s[k]) > 0);
        assert(id.contains(s[k]));
        let j = choose|j: int| 0 <= j < id.len() && id[j] == s[k];
        assert(id[j] == j as usize);
    }
    assert(id.no_duplicates()) by {
        assert forall|a: int, b: int| 0 <= a < id.len() && 0 <= b < id.len() && a != b implies id[a] != id[b] by {
            assert(id[a] == a as usize);
            assert(id[b] == b as usize);
        }
    }
    id.lemma_multiset_has_no_duplicates();
    s.lemma_multiset_has_no_duplicates_conv();
}

/// Index into the random table for lattice point `(x, y, z)`: the three permutation
/// entries at the coordinates' low eight bits, combined by exclusive or.
pub open spec fn spec_lattice_hash(perm_x: Seq<usize>, perm_y: Seq<usize>, perm_z: Seq<usize>, x: i32, y: i32, z: i32) -> usize {
    perm_x[(x & 255) as int] ^ perm_y[(y & 255) as int] ^ perm_z[(z & 255) as int]
}

/// The random-table index for lattice point `(x, y, z)`; with permutations of
/// `0..POINT_COUNT` as tables it always lies inside the random table.
pub fn lattice_hash(perm_x: &Vec<usize>, perm_y: &Vec<usize>, perm_z: &Vec<usize>, x: i32, y: i32, z: i32) -> (h: usize)
    requires
        perm_x@.len() == POINT_COUNT,
        perm_y@.len() == POINT_COUNT,
        perm_z@.len() == POINT_COUNT,
    ensures
        h == spec_lattice_hash(perm_x@, perm_y@, perm_z@, x, y, z),
        is_permutation_of_range(perm_x@, POINT_COUNT as nat)
            && is_permutation_of_range(perm_y@, POINT_COUNT as nat)
            && is_permutation_of_range(perm_z@, POINT_COUNT as nat) ==> h < POINT_COUNT,
{
    assert(0 <= (x & 255) < 256 && 0 <= (y & 255) < 256 && 0 <= (z & 255) < 256) by (bit_vector);
    let a = perm_x[(x & 255) as usize];
    let b = perm_y[(y & 255) as usize];
    let c = perm_z[(z & 255) as usize];
    let h = a ^ b ^ c;
    proof {
        if is_permutation_of_range(perm_x@, POINT_COUNT as nat)
            && is_permutation_of_range(perm_y@, POINT_COUNT as nat)
            && is_permutation_of_range(perm_z@, POINT_COUNT as nat) {
            lemma_permutation_entries(perm_x@, POINT_COUNT as nat);
            lemma_permutation_entries(perm_y@, POINT_COUNT as nat);
            lemma_permutation_entries(perm_z@, POINT_COUNT as nat);
            assert(perm_x@[(x & 255) as int] < 256);
            assert(perm_y@[(y & 255) as int] < 256);
            assert(perm_z@[(z & 255) as int] < 256);
            assert(a < 256 && b < 256 && c < 256 ==> a ^ b ^ c < 256) by (bit_vector);
        }
    }
    h
}

} // verus!
