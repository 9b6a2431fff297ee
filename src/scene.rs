use vstd::prelude::*;

verus! {

/// A distance key counts as a hit only when it is strictly positive: `None`
/// (the ray misses) and key 0 (distance zero, or behind the origin) do not.
pub open spec fn is_hit(key: Option<u64>) -> bool {
    key is Some && key.unwrap() > 0
}

/// Object `i` is the nearest hit among `hits`, where `hits[j]` is the
/// distance key of object `j` along the ray: its key is positive and the
/// least positive one, and every object before it with a positive key lies
/// strictly farther.
pub open spec fn is_nearest(hits: Seq<Option<u64>>, i: int) -> bool {
    &&& 0 <= i < hits.len()
    &&& is_hit(hits[i])
    &&& forall|j: int| 0 <= j < hits.len() && #[trigger] is_hit(hits[j]) ==> hits[i].unwrap() <= hits[j].unwrap()
    &&& forall|j: int| 0 <= j < i && #[trigger] is_hit(hits[j]) ==> hits[i].unwrap() < hits[j].unwrap()
}

/// The ray hits no object at a positive distance.
pub open spec fn all_miss(hits: Seq<Option<u64>>) -> bool {
    forall|j: int| 0 <= j < hits.len() ==> !#[trigger] is_hit(hits[j])
}

/// The nearest object that a ray hits at a strictly positive distance, by an
/// exhaustive scan in list order. Keys order as the distances do (for
/// non-negative floats, their bit patterns do); key 0 stands for distance
/// zero and is no hit; of equal keys the first in the list wins.
pub fn nearest_hit(hits: &Vec<Option<u64>>) -> (r: Option<usize>)
    ensures
        r.is_none() <==> all_miss(hits@),
        r.is_some() ==> is_nearest(hits@, r.unwrap() as int),
{
    let mut best: Option<usize> = None;
    let mut best_key: u64 = 0;
    let mut j: usize = 0;
    while j < hits.len()
        invariant
            j <= hits.len(),
            best.is_none() ==> forall|k: int| 0 <= k < j ==> !#[trigger] is_hit(hits@[k]),
            best.is_some() ==> {
                let b = best.unwrap() as int;
                &&& 0 <= b < j
                &&& hits@[b] == Some(best_key)
                &&& best_key > 0
                &&& forall|k: int| 0 <= k < j && #[trigger] is_hit(hits@[k]) ==> best_key <= hits@[k].unwrap()
                &&& forall|k: int| 0 <= k < b && #[trigger] is_hit(hits@[k]) ==> best_key < hits@[k].unwrap()
            },
        decreases hits.len() - j,
    {
        if let Some(key) = hits[j] {
            if key > 0 && (best.is_none() || key < best_key) {
                best = Some(j);
                best_key = key;
            }
        }
        j = j + 1;
    }
    proof {
        if best.is_some() {
            let b = best.unwrap() as int;
            assert(is_hit(hits@[b]));
        }
    }
    best
}

/// What the radiance of a ray comes from.
#[derive(Clone, Copy, Debug, PartialEq, Eq, Structural)]
pub enum Shade {
    /// The background: the ray escapes, or the bounce budget is spent.
    Background,
    /// The material of the object with this index, at the hit point.
    Surface(usize),
}

/// The radiance recursion at depth `bounces`: past `max_bounces` it stops at
/// the background whatever the ray would hit; otherwise the nearest hit's
/// material answers, or the background where nothing is hit.
pub open spec fn shade_spec(max_bounces: nat, bounces: nat, hit: Option<usize>) -> Shade {
    if bounces > max_bounces {
        Shade::Background
    } else {
        match hit {
            Some(i) => Shade::Surface(i),
            None => Shade::Background,
        }
    }
}

/// Decides where the radiance of a ray at depth `bounces` comes from, given
/// the nearest object that it hits. Materials that recurse do so at depth
/// `bounces + 1`.
pub fn shade(max_bounces: u32, bounces: u32, hit: Option<usize>) -> (r: Shade)
    ensures
        r == shade_spec(max_bounces as nat, bounces as nat, hit),
{
    if bounces > max_bounces {
        Shade::Background
    } else {
        match hit {
            Some(i) => Shade::Surface(i),
            None => Shade::Background,
        }
    }
}

/// A chain of radiance calls at depths 0, 1, 2, ..., each of which reached a
/// material (and so could recurse one bounce deeper), has at most
/// `max_bounces + 1` links: the call at depth `max_bounces + 1` answers with
/// the background, whatever its ray hits. With `max_bounces == 0` a hit
/// object's material is evaluated once and a recursive call it makes returns
/// the background.
pub proof fn lemma_bounce_limit(max_bounces: nat, hits: Seq<Option<usize>>)
    requires
        forall|d: int| 0 <= d < hits.len() ==> #[trigger] shade_spec(max_bounces, d as nat, hits[d]) is Surface,
    ensures
        hits.len() <= max_bounces + 1,
        forall|h: Option<usize>| #[trigger] shade_spec(max_bounces, max_bounces + 1, h) == Shade::Background,
{
    if hits.len() > max_bounces + 1 {
        let d = max_bounces + 1;
        assert(shade_spec(max_bounces, d as nat, hits[d as int]) is Surface);
    }
}

} // verus!
