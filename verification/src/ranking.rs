//! Highest random weight ranking of replicas.

use vstd::prelude::*;
use vstd::utf8::{encode_utf8, encode_utf8_decode_utf8};

use crate::cluster_state::{replica_ids, Replica};
use crate::text::{bytes_before, bytes_before_total, bytes_before_transitive, is_before};

verus! {

/// The 64-bit XXH3 hash of some bytes, with the default secret and seed 0.
pub uninterp spec fn xxh3_of(bytes: Seq<u8>) -> u64;

/// `xxhash_rust::xxh3::xxh3_64`: a hash that depends on the bytes alone.
pub assume_specification[ xxhash_rust::xxh3::xxh3_64 ](input: &[u8]) -> (hash: u64)
    ensures
        hash == xxh3_of(input@),
;

/// The weight of a replica in a cluster: the XOR of the hashes of their names.
pub open spec fn weight_of(replica_id: Seq<char>, cluster: Seq<char>) -> u64 {
    xxh3_of(encode_utf8(replica_id)) ^ xxh3_of(encode_utf8(cluster))
}

/// The weights of a list of replicas in a cluster.
pub open spec fn weights_of(ids: Seq<Seq<char>>, cluster: Seq<char>) -> Seq<u64> {
    Seq::new(ids.len(), |i: int| weight_of(ids[i], cluster))
}

/// Whether the replica at `i` of the list ranks before the one at `j`: by the
/// larger weight, then by the smaller ordinal, then by the place in the list.
pub open spec fn outranks(ids: Seq<Seq<char>>, weights: Seq<u64>, i: int, j: int) -> bool {
    ||| weights[i] > weights[j]
    ||| weights[i] == weights[j] && bytes_before(encode_utf8(ids[i]), encode_utf8(ids[j]))
    ||| weights[i] == weights[j] && ids[i] == ids[j] && i < j
}

/// Every index below `count` stands in `ranked`, once.
pub open spec fn is_permutation(ranked: Seq<usize>, count: nat) -> bool {
    &&& ranked.len() == count
    &&& ranked.no_duplicates()
    &&& forall|i: int| 0 <= i < count ==> (#[trigger] ranked[i]) < count
    &&& forall|r: usize| r < count ==> #[trigger] ranked.contains(r)
}

/// Each replica in `ranked` ranks before all that follow it.
pub open spec fn is_sorted(ids: Seq<Seq<char>>, weights: Seq<u64>, ranked: Seq<usize>) -> bool {
    forall|a: int, b: int|
        0 <= a < b < ranked.len() ==> outranks(
            ids,
            weights,
            #[trigger] ranked[a] as int,
            #[trigger] ranked[b] as int,
        )
}

/// Whether `ranked` holds the replicas in the order of their ranks. In a pair the
/// first replica needs the strictly larger weight to come first.
pub open spec fn is_ranking(ids: Seq<Seq<char>>, weights: Seq<u64>, ranked: Seq<usize>) -> bool {
    &&& is_permutation(ranked, ids.len())
    &&& if ids.len() == 2 {
        ranked[0] == if weights[0] > weights[1] {
            0usize
        } else {
            1usize
        }
    } else {
        is_sorted(ids, weights, ranked)
    }
}

/// The order of the replicas under some weights.
pub open spec fn ranking(ids: Seq<Seq<char>>, weights: Seq<u64>) -> Seq<usize> {
    choose|ranked: Seq<usize>| is_ranking(ids, weights, ranked)
}

/// The order of the replicas in a cluster.
pub open spec fn cluster_ranking(ids: Seq<Seq<char>>, cluster: Seq<char>) -> Seq<usize> {
    ranking(ids, weights_of(ids, cluster))
}

/// Of two different places in the list exactly one outranks the other.
proof fn outranks_total(ids: Seq<Seq<char>>, weights: Seq<u64>, i: int, j: int)
    requires
        i != j,
    ensures
        outranks(ids, weights, i, j) != outranks(ids, weights, j, i),
{
    let a = encode_utf8(ids[i]);
    let b = encode_utf8(ids[j]);
    encode_utf8_decode_utf8(ids[i]);
    encode_utf8_decode_utf8(ids[j]);
    bytes_before_total(a, b);
}

proof fn outranks_transitive(ids: Seq<Seq<char>>, weights: Seq<u64>, i: int, j: int, k: int)
    requires
        outranks(ids, weights, i, j),
        outranks(ids, weights, j, k),
    ensures
        outranks(ids, weights, i, k),
{
    let a = encode_utf8(ids[i]);
    let b = encode_utf8(ids[j]);
    let c = encode_utf8(ids[k]);
    if bytes_before(a, b) && bytes_before(b, c) {
        bytes_before_transitive(a, b, c);
    }
}

/// Two rankings of the same replicas under the same weights agree up to `k`.
proof fn rankings_agree(
    ids: Seq<Seq<char>>,
    weights: Seq<u64>,
    x: Seq<usize>,
    y: Seq<usize>,
    k: int,
)
    requires
        is_permutation(x, ids.len()),
        is_permutation(y, ids.len()),
        is_sorted(ids, weights, x),
        is_sorted(ids, weights, y),
        0 <= k <= ids.len(),
    ensures
        forall|a: int| 0 <= a < k ==> x[a] == y[a],
    decreases k,
{
    if k > 0 {
        rankings_agree(ids, weights, x, y, k - 1);
        let p = x[k - 1];
        let q = y[k - 1];
        if p != q {
            assert(y.contains(p));
            assert(x.contains(q));
            let i = choose|i: int| 0 <= i < y.len() && y[i] == p;
            let j = choose|j: int| 0 <= j < x.len() && x[j] == q;
            assert(i >= k - 1 && j >= k - 1);
            assert(outranks(ids, weights, y[k - 1] as int, y[i] as int));
            assert(outranks(ids, weights, x[k - 1] as int, x[j] as int));
            outranks_total(ids, weights, p as int, q as int);
        }
    }
}

/// Replicas and weights leave no choice: all rankings of the same replicas under
/// the same weights are the same.
pub proof fn law_ranking_unique(
    ids: Seq<Seq<char>>,
    weights: Seq<u64>,
    x: Seq<usize>,
    y: Seq<usize>,
)
    requires
        is_ranking(ids, weights, x),
        is_ranking(ids, weights, y),
    ensures
        x == y,
{
    if ids.len() == 2 {
        assert(x[0] != x[1] && y[0] != y[1]);
    } else {
        rankings_agree(ids, weights, x, y, ids.len() as int);
    }
    assert(x =~= y);
}

/// Putting the replica at `i` behind all that outrank it and before all that it
/// outranks extends a sorted permutation by one.
proof fn insertion_sorted(
    ids: Seq<Seq<char>>,
    weights: Seq<u64>,
    before: Seq<usize>,
    i: usize,
    p: int,
)
    requires
        is_permutation(before, i as nat),
        is_sorted(ids, weights, before),
        0 <= p <= before.len(),
        p > 0 ==> outranks(ids, weights, before[p - 1] as int, i as int),
        forall|b: int| p <= b < before.len() ==> outranks(
            ids,
            weights,
            i as int,
            #[trigger] before[b] as int,
        ),
    ensures
        is_permutation(before.insert(p, i), (i + 1) as nat),
        is_sorted(ids, weights, before.insert(p, i)),
{
    let after = before.insert(p, i);
    assert forall|a: int| 0 <= a < p implies outranks(
        ids,
        weights,
        #[trigger] before[a] as int,
        i as int,
    ) by {
        if a < p - 1 {
            outranks_transitive(
                ids,
                weights,
                before[a] as int,
                before[p - 1] as int,
                i as int,
            );
        }
    }
    assert forall|r: usize| r < i + 1 implies #[trigger] after.contains(r) by {
        if r == i {
            assert(after[p] == r);
        } else {
            assert(before.contains(r));
            let k = choose|k: int| 0 <= k < before.len() && before[k] == r;
            assert(after[if k < p { k } else { k + 1 }] == r);
        }
    }
}

/// The place of the replica at `i` among the first `q` of the ranked replicas
/// before it in the list.
proof fn insertion_point(
    ids: Seq<Seq<char>>,
    weights: Seq<u64>,
    before: Seq<usize>,
    i: usize,
    q: int,
) -> (p: int)
    requires
        is_permutation(before, i as nat),
        0 <= q <= before.len(),
        forall|b: int| q <= b < before.len() ==> outranks(
            ids,
            weights,
            i as int,
            #[trigger] before[b] as int,
        ),
    ensures
        0 <= p <= q,
        p > 0 ==> outranks(ids, weights, before[p - 1] as int, i as int),
        forall|b: int| p <= b < before.len() ==> outranks(
            ids,
            weights,
            i as int,
            #[trigger] before[b] as int,
        ),
    decreases q,
{
    if q == 0 {
        0
    } else {
        outranks_total(ids, weights, i as int, before[q - 1] as int);
        if outranks(ids, weights, before[q - 1] as int, i as int) {
            q
        } else {
            insertion_point(ids, weights, before, i, q - 1)
        }
    }
}

/// The first `count` replicas of the list can be sorted.
proof fn sorting_exists(ids: Seq<Seq<char>>, weights: Seq<u64>, count: usize) -> (ranked: Seq<
    usize,
>)
    ensures
        is_permutation(ranked, count as nat),
        is_sorted(ids, weights, ranked),
    decreases count,
{
    if count == 0 {
        Seq::empty()
    } else {
        let i = (count - 1) as usize;
        let before = sorting_exists(ids, weights, i);
        let p = insertion_point(ids, weights, before, i, before.len() as int);
        insertion_sorted(ids, weights, before, i, p);
        before.insert(p, i)
    }
}

/// Replicas have a ranking, whatever their weights.
pub proof fn law_ranking_exists(ids: Seq<Seq<char>>, weights: Seq<u64>)
    requires
        ids.len() <= usize::MAX,
    ensures
        is_ranking(ids, weights, ranking(ids, weights)),
{
    let ranked = if ids.len() == 2 {
        if weights[0] > weights[1] {
            seq![0usize, 1usize]
        } else {
            seq![1usize, 0usize]
        }
    } else {
        sorting_exists(ids, weights, ids.len() as usize)
    };
    if ids.len() == 2 {
        assert(ranked.contains(ranked[0]) && ranked.contains(ranked[1]));
    }
    assert(is_ranking(ids, weights, ranked));
}

/// In a ranking, the replica with the larger weight comes first.
proof fn heavier_first(
    ids: Seq<Seq<char>>,
    weights: Seq<u64>,
    ranked: Seq<usize>,
    a: int,
    b: int,
)
    requires
        is_ranking(ids, weights, ranked),
        0 <= a < ranked.len(),
        0 <= b < ranked.len(),
        weights[ranked[a] as int] > weights[ranked[b] as int],
    ensures
        a < b,
{
    if b < a {
        if ids.len() == 2 {
            assert(ranked[0] != ranked[1]);
        } else {
            assert(outranks(ids, weights, ranked[b] as int, ranked[a] as int));
        }
    }
}

/// Two replicas of different weights keep their order when other replicas join or
/// leave the list, or the list is rearranged.
pub proof fn law_order_is_pairwise(
    cluster: Seq<char>,
    ids: Seq<Seq<char>>,
    ranked: Seq<usize>,
    a: int,
    b: int,
    other_ids: Seq<Seq<char>>,
    other_ranked: Seq<usize>,
    c: int,
    d: int,
)
    requires
        is_ranking(ids, weights_of(ids, cluster), ranked),
        is_ranking(other_ids, weights_of(other_ids, cluster), other_ranked),
        0 <= a < ranked.len(),
        0 <= b < ranked.len(),
        0 <= c < other_ranked.len(),
        0 <= d < other_ranked.len(),
        ids[ranked[a] as int] == other_ids[other_ranked[c] as int],
        ids[ranked[b] as int] == other_ids[other_ranked[d] as int],
        weight_of(ids[ranked[a] as int], cluster) != weight_of(ids[ranked[b] as int], cluster),
    ensures
        a < b <==> c < d,
{
    let w = weights_of(ids, cluster);
    let v = weights_of(other_ids, cluster);
    assert(w[ranked[a] as int] == v[other_ranked[c] as int]);
    assert(w[ranked[b] as int] == v[other_ranked[d] as int]);
    if w[ranked[a] as int] > w[ranked[b] as int] {
        heavier_first(ids, w, ranked, a, b);
        heavier_first(other_ids, v, other_ranked, c, d);
    } else {
        heavier_first(ids, w, ranked, b, a);
        heavier_first(other_ids, v, other_ranked, d, c);
    }
}

/// The primary of a cluster has the largest weight.
pub proof fn law_primary_is_heaviest(ids: Seq<Seq<char>>, weights: Seq<u64>, ranked: Seq<usize>)
    requires
        ids.len() <= usize::MAX,
        is_ranking(ids, weights, ranked),
    ensures
        forall|i: int|
            0 <= i < ids.len() ==> #[trigger] weights[i] <= weights[ranked[0] as int],
{
    assert forall|i: int| 0 <= i < ids.len() implies #[trigger] weights[i]
        <= weights[ranked[0] as int] by {
        assert(ranked.contains(i as usize));
        let k = choose|k: int| 0 <= k < ranked.len() && ranked[k] == i as usize;
        if weights[i] > weights[ranked[0] as int] {
            heavier_first(ids, weights, ranked, k, 0);
        }
    }
}

/// The weight function of the ranking.
pub fn hrw_weight(replica_id: &str, cluster: &str) -> (weight: u64)
    ensures
        weight == weight_of(replica_id@, cluster@),
        weight == xxh3_of(encode_utf8(replica_id@)) ^ xxh3_of(encode_utf8(cluster@)),
{
    xxhash_rust::xxh3::xxh3_64(replica_id.as_bytes()) ^ xxhash_rust::xxh3::xxh3_64(
        cluster.as_bytes(),
    )
}

/// The weights of the replicas in a cluster.
pub fn hrw_weights(replicas: &[Replica], cluster: &str) -> (weights: Vec<u64>)
    ensures
        weights@ == weights_of(replica_ids(replicas@), cluster@),
{
    let mut weights: Vec<u64> = Vec::new();
    let mut i: usize = 0;
    while i < replicas.len()
        invariant
            i <= replicas@.len(),
            weights@ == weights_of(replica_ids(replicas@), cluster@).take(i as int),
        decreases replicas@.len() - i,
    {
        weights.push(hrw_weight(replicas[i].id.as_str(), cluster));
        i += 1;
    }
    weights
}

fn ranks_before(replicas: &[Replica], weights: &[u64], i: usize, j: usize) -> (before: bool)
    requires
        j < i < replicas@.len(),
        weights@.len() == replicas@.len(),
    ensures
        before == outranks(replica_ids(replicas@), weights@, i as int, j as int),
{
    if weights[i] != weights[j] {
        weights[i] > weights[j]
    } else {
        is_before(replicas[i].id.as_str().as_bytes(), replicas[j].id.as_str().as_bytes())
    }
}

/// Ranks the replicas by their weights.
pub fn rank_by_weight(replicas: &[Replica], weights: &[u64]) -> (ranked: Vec<usize>)
    requires
        weights@.len() == replicas@.len(),
    ensures
        is_ranking(replica_ids(replicas@), weights@, ranked@),
        ranked@ == ranking(replica_ids(replicas@), weights@),
{
    let ghost ids = replica_ids(replicas@);
    let mut ranked: Vec<usize> = Vec::new();
    if replicas.len() == 2 {
        if weights[0] > weights[1] {
            ranked.push(0);
            ranked.push(1);
        } else {
            ranked.push(1);
            ranked.push(0);
        }
        proof {
            assert(ranked@.contains(ranked@[0]) && ranked@.contains(ranked@[1]));
            assert(is_ranking(ids, weights@, ranked@));
            law_ranking_unique(ids, weights@, ranked@, ranking(ids, weights@));
        }
        return ranked;
    }
    let mut i: usize = 0;
    while i < replicas.len()
        invariant
            i <= replicas@.len(),
            ids == replica_ids(replicas@),
            weights@.len() == replicas@.len(),
            is_permutation(ranked@, i as nat),
            is_sorted(ids, weights@, ranked@),
        decreases replicas@.len() - i,
    {
        insert_ranked(replicas, weights, &mut ranked, i);
        i += 1;
    }
    proof {
        assert(is_ranking(ids, weights@, ranked@));
        law_ranking_unique(ids, weights@, ranked@, ranking(ids, weights@));
    }
    ranked
}

/// Puts the replica at `i` in its place among the ranked replicas before it in
/// the list.
fn insert_ranked(replicas: &[Replica], weights: &[u64], ranked: &mut Vec<usize>, i: usize)
    requires
        i < replicas@.len(),
        weights@.len() == replicas@.len(),
        is_permutation(old(ranked)@, i as nat),
        is_sorted(replica_ids(replicas@), weights@, old(ranked)@),
    ensures
        is_permutation(final(ranked)@, (i + 1) as nat),
        is_sorted(replica_ids(replicas@), weights@, final(ranked)@),
{
    let ghost ids = replica_ids(replicas@);
    let ghost before = ranked@;
    let mut p: usize = ranked.len();
    while p > 0 && ranks_before(replicas, weights, i, ranked[p - 1])
        invariant
            p <= ranked@.len(),
            ranked@ == before,
            i < replicas@.len(),
            weights@.len() == replicas@.len(),
            ids == replica_ids(replicas@),
            is_permutation(before, i as nat),
            forall|b: int| p <= b < before.len() ==> outranks(
                ids,
                weights@,
                i as int,
                #[trigger] before[b] as int,
            ),
        decreases p,
    {
        p -= 1;
    }
    ranked.insert(p, i);
    proof {
        if p > 0 {
            outranks_total(ids, weights@, i as int, before[p - 1] as int);
        }
        insertion_sorted(ids, weights@, before, i, p as int);
    }
}

/// Each replica weighs what the whole of its ordinal and the whole name of the cluster
/// hash to, combined by XOR.
pub proof fn law_weights_by_hash(ids: Seq<Seq<char>>, cluster: Seq<char>)
    ensures
        weights_of(ids, cluster).len() == ids.len(),
        forall|i: int|
            0 <= i < ids.len() ==> #[trigger] weights_of(ids, cluster)[i] == xxh3_of(
                encode_utf8(ids[i]),
            ) ^ xxh3_of(encode_utf8(cluster)),
        forall|i: int| #[trigger]
            weight_of(ids[i], cluster) == xxh3_of(encode_utf8(ids[i])) ^ xxh3_of(
                encode_utf8(cluster),
            ),
{
}

/// In a ranking every replica stands once, and none stands before a heavier one. Of
/// equally heavy ones the smaller ordinal comes first, by the bytes, and of the same
/// ordinal the first in the list, except in a pair, where the second of the list does.
pub proof fn law_ranking_by_weight(ids: Seq<Seq<char>>, weights: Seq<u64>, ranked: Seq<usize>)
    requires
        is_ranking(ids, weights, ranked),
    ensures
        ranked.len() == ids.len(),
        forall|a: int| 0 <= a < ranked.len() ==> (#[trigger] ranked[a]) < ids.len(),
        forall|r: usize| r < ids.len() ==> #[trigger] ranked.contains(r),
        forall|a: int, b: int|
            0 <= a < b < ranked.len() ==> {
                let i = #[trigger] ranked[a] as int;
                let j = #[trigger] ranked[b] as int;
                &&& i != j
                &&& weights[i] >= weights[j]
                &&& weights[i] == weights[j] && ids.len() == 2 ==> i == 1
                &&& weights[i] == weights[j] && ids.len() != 2 ==> {
                    ||| bytes_before(encode_utf8(ids[i]), encode_utf8(ids[j]))
                    ||| ids[i] == ids[j] && i < j
                }
            },
{
    assert forall|a: int, b: int| 0 <= a < b < ranked.len() implies {
        let i = #[trigger] ranked[a] as int;
        let j = #[trigger] ranked[b] as int;
        &&& i != j
        &&& weights[i] >= weights[j]
        &&& weights[i] == weights[j] && ids.len() == 2 ==> i == 1
        &&& weights[i] == weights[j] && ids.len() != 2 ==> {
            ||| bytes_before(encode_utf8(ids[i]), encode_utf8(ids[j]))
            ||| ids[i] == ids[j] && i < j
        }
    } by {
        assert(ranked[a] != ranked[b]);
        if ids.len() != 2 {
            assert(outranks(ids, weights, ranked[a] as int, ranked[b] as int));
        }
    }
}

/// The order of the replicas in a cluster is a ranking by what they weigh there.
pub proof fn law_cluster_ranked_by_hash(ids: Seq<Seq<char>>, cluster: Seq<char>)
    requires
        ids.len() <= usize::MAX,
    ensures
        ({
            let ranked = cluster_ranking(ids, cluster);
            &&& ranked.len() == ids.len()
            &&& forall|a: int| 0 <= a < ranked.len() ==> (#[trigger] ranked[a]) < ids.len()
            &&& forall|a: int, b: int|
                0 <= a < b < ranked.len() ==> {
                    let x = ids[#[trigger] ranked[a] as int];
                    let y = ids[#[trigger] ranked[b] as int];
                    let u = xxh3_of(encode_utf8(x)) ^ xxh3_of(encode_utf8(cluster));
                    let v = xxh3_of(encode_utf8(y)) ^ xxh3_of(encode_utf8(cluster));
                    &&& ranked[a] != ranked[b]
                    &&& u >= v
                    &&& u == v && ids.len() == 2 ==> ranked[a] == 1
                    &&& u == v && ids.len() != 2 ==> {
                        ||| bytes_before(encode_utf8(x), encode_utf8(y))
                        ||| x == y && ranked[a] < ranked[b]
                    }
                }
        }),
{
    let weights = weights_of(ids, cluster);
    law_ranking_exists(ids, weights);
    law_ranking_by_weight(ids, weights, cluster_ranking(ids, cluster));
    law_weights_by_hash(ids, cluster);
}

} // verus!
