use crate::cell::{cell_at, from_array_to_cell_id, is_at_level, is_valid_cell, parent, parent_bits, GeoPoint};
use std::collections::HashMap;
use vstd::prelude::*;

verus! {

broadcast use vstd::std_specs::hash::group_hash_axioms;

/// Level of the cell that a point is first placed in before it is bucketed.
pub const POINT_LEVEL: u64 = 20;

/// The bucket of a point: the ancestor at `split_level` of its cell at `POINT_LEVEL`.
pub open spec fn bucket_of(p: GeoPoint, split_level: u64) -> u64 {
    parent_bits(cell_at(p, POINT_LEVEL), split_level)
}

/// The points of `points` whose bucket is `key`, in their order.
pub open spec fn bucket_points(points: Seq<GeoPoint>, split_level: u64, key: u64) -> Seq<GeoPoint> {
    points.filter(|p: GeoPoint| bucket_of(p, split_level) == key)
}

/// The buckets of a sequence of points.
pub open spec fn is_cell_map(m: Map<u64, Vec<GeoPoint>>, points: Seq<GeoPoint>, split_level: u64) -> bool {
    &&& forall|k: u64| #[trigger] m.contains_key(k)
        <==> exists|i: int| 0 <= i < points.len() && bucket_of(#[trigger] points[i], split_level) == k
    &&& forall|k: u64| #[trigger] m.contains_key(k) ==> m[k]@ == bucket_points(points, split_level, k)
}

/// No point of `points` falls in the bucket `key`, so it holds none.
proof fn lemma_no_bucket(points: Seq<GeoPoint>, split_level: u64, key: u64)
    requires
        forall|j: int| 0 <= j < points.len() ==> bucket_of(#[trigger] points[j], split_level) != key,
    ensures
        bucket_points(points, split_level, key) == Seq::<GeoPoint>::empty(),
    decreases points.len(),
{
    reveal(Seq::filter);
    if points.len() > 0 {
        let init = points.drop_last();
        assert forall|j: int| 0 <= j < init.len() implies bucket_of(#[trigger] init[j], split_level) != key by {
            assert(init[j] == points[j]);
        }
        lemma_no_bucket(init, split_level, key);
    }
}

/// The number of points held in the buckets `keys` of `m`.
pub open spec fn bucket_total(m: Map<u64, Vec<GeoPoint>>, keys: Seq<u64>) -> nat
    decreases keys.len(),
{
    if keys.len() == 0 {
        0
    } else {
        bucket_total(m, keys.drop_last()) + m[keys.last()]@.len()
    }
}

/// Filtering by a predicate that holds of every element keeps everything.
proof fn lemma_filter_all(s: Seq<GeoPoint>, f: spec_fn(GeoPoint) -> bool)
    requires
        forall|j: int| 0 <= j < s.len() ==> f(#[trigger] s[j]),
    ensures
        s.filter(f) == s,
    decreases s.len(),
{
    reveal(Seq::filter);
    if s.len() > 0 {
        let init = s.drop_last();
        assert forall|j: int| 0 <= j < init.len() implies f(#[trigger] init[j]) by {
            assert(init[j] == s[j]);
        }
        lemma_filter_all(init, f);
        assert(init.push(s.last()) =~= s);
    }
}

/// Filtering by one of two predicates that never hold together keeps as many
/// elements as filtering by each, added.
proof fn lemma_filter_either(
    s: Seq<GeoPoint>,
    a: spec_fn(GeoPoint) -> bool,
    b: spec_fn(GeoPoint) -> bool,
    c: spec_fn(GeoPoint) -> bool,
)
    requires
        forall|x: GeoPoint| #[trigger] c(x) == (a(x) || b(x)),
        forall|x: GeoPoint| !(#[trigger] a(x) && b(x)),
    ensures
        s.filter(c).len() == s.filter(a).len() + s.filter(b).len(),
    decreases s.len(),
{
    reveal(Seq::filter);
    if s.len() > 0 {
        lemma_filter_either(s.drop_last(), a, b, c);
        assert(c(s.last()) == (a(s.last()) || b(s.last())));
    }
}

/// The buckets `keys` of a cell map hold the points whose bucket is among them.
proof fn lemma_bucket_total(m: Map<u64, Vec<GeoPoint>>, points: Seq<GeoPoint>, split_level: u64, keys: Seq<u64>)
    requires
        is_cell_map(m, points, split_level),
        keys.no_duplicates(),
        forall|j: int| 0 <= j < keys.len() ==> m.contains_key(#[trigger] keys[j]),
    ensures
        bucket_total(m, keys) == points.filter(|p: GeoPoint| keys.contains(bucket_of(p, split_level))).len(),
    decreases keys.len(),
{
    let c = |p: GeoPoint| keys.contains(bucket_of(p, split_level));
    if keys.len() == 0 {
        lemma_no_bucket_pred(points, c);
    } else {
        let init = keys.drop_last();
        let k = keys.last();
        assert forall|j: int| 0 <= j < init.len() implies m.contains_key(#[trigger] init[j]) by {
            assert(init[j] == keys[j]);
        }
        lemma_bucket_total(m, points, split_level, init);
        let a = |p: GeoPoint| init.contains(bucket_of(p, split_level));
        let b = |p: GeoPoint| bucket_of(p, split_level) == k;
        assert forall|x: GeoPoint| #[trigger] c(x) == (a(x) || b(x)) by {
            assert(keys =~= init.push(k));
            if keys.contains(bucket_of(x, split_level)) && bucket_of(x, split_level) != k {
                let j = choose|j: int| 0 <= j < keys.len() && keys[j] == bucket_of(x, split_level);
                assert(init[j] == keys[j]);
            }
        }
        assert forall|x: GeoPoint| !(#[trigger] a(x) && b(x)) by {
            if a(x) && b(x) {
                let j = choose|j: int| 0 <= j < init.len() && init[j] == k;
                assert(keys[j] == keys[keys.len() - 1]);
            }
        }
        lemma_filter_either(points, a, b, c);
        assert(m[k]@ == bucket_points(points, split_level, k));
    }
}

/// A predicate that holds of nothing keeps nothing.
proof fn lemma_no_bucket_pred(s: Seq<GeoPoint>, f: spec_fn(GeoPoint) -> bool)
    requires
        forall|x: GeoPoint| !#[trigger] f(x),
    ensures
        s.filter(f).len() == 0,
    decreases s.len(),
{
    reveal(Seq::filter);
    if s.len() > 0 {
        lemma_no_bucket_pred(s.drop_last(), f);
    }
}

/// Bucketing loses and repeats no point: the buckets hold as many points as
/// were given, each point lies in the bucket of its cell, and in no other.
pub proof fn lemma_buckets_complete(m: Map<u64, Vec<GeoPoint>>, points: Seq<GeoPoint>, split_level: u64, keys: Seq<u64>)
    requires
        is_cell_map(m, points, split_level),
        keys.no_duplicates(),
        keys.to_set() == m.dom(),
    ensures
        bucket_total(m, keys) == points.len(),
        forall|i: int| 0 <= i < points.len() ==> m.contains_key(bucket_of(#[trigger] points[i], split_level))
            && m[bucket_of(points[i], split_level)]@.contains(points[i]),
        forall|i: int, k: u64| 0 <= i < points.len() && m.contains_key(k) && #[trigger] m[k]@.contains(#[trigger] points[i])
            ==> k == bucket_of(points[i], split_level),
{
    broadcast use vstd::seq_lib::group_filter_ensures;
    assert forall|j: int| 0 <= j < keys.len() implies m.contains_key(#[trigger] keys[j]) by {
        assert(keys.to_set().contains(keys[j]));
    }
    lemma_bucket_total(m, points, split_level, keys);
    let c = |p: GeoPoint| keys.contains(bucket_of(p, split_level));
    assert forall|j: int| 0 <= j < points.len() implies c(#[trigger] points[j]) by {
        assert(m.contains_key(bucket_of(points[j], split_level)));
        assert(keys.to_set().contains(bucket_of(points[j], split_level)));
    }
    lemma_filter_all(points, c);
    assert forall|i: int| 0 <= i < points.len() implies m.contains_key(bucket_of(#[trigger] points[i], split_level))
        && m[bucket_of(points[i], split_level)]@.contains(points[i]) by {
        let k = bucket_of(points[i], split_level);
        assert(m.contains_key(k));
        assert(bucket_points(points, split_level, k).contains(points[i]));
    }
    assert forall|i: int, k: u64| 0 <= i < points.len() && m.contains_key(k) && #[trigger] m[k]@.contains(#[trigger] points[i])
        implies k == bucket_of(points[i], split_level) by {
        let f = |p: GeoPoint| bucket_of(p, split_level) == k;
        let fs = points.filter(f);
        let j = choose|j: int| 0 <= j < fs.len() && fs[j] == points[i];
        assert(f(fs[j]));
    }
}

/// The bucket of a point.
pub fn point_bucket(p: GeoPoint, split_level: u64) -> (r: u64)
    requires
        split_level <= POINT_LEVEL,
    ensures
        r == bucket_of(p, split_level),
        is_valid_cell(r),
        is_at_level(r, split_level),
{
    let cell = from_array_to_cell_id(p, POINT_LEVEL);
    parent(cell.id, split_level)
}

/// The points grouped by the ancestor at `split_level` of their cell at
/// `POINT_LEVEL`, each group in input order.
pub fn create_cell_map(points: &Vec<GeoPoint>, split_level: u64) -> (r: HashMap<u64, Vec<GeoPoint>>)
    requires
        split_level <= POINT_LEVEL,
    ensures
        is_cell_map(r@, points@, split_level),
        forall|k: u64| #[trigger] r@.contains_key(k) ==> is_valid_cell(k) && is_at_level(k, split_level),
{
    let mut map: HashMap<u64, Vec<GeoPoint>> = HashMap::new();
    let mut i: usize = 0;
    while i < points.len()
        invariant
            0 <= i <= points@.len(),
            split_level <= POINT_LEVEL,
            is_cell_map(map@, points@.subrange(0, i as int), split_level),
            forall|k: u64| #[trigger] map@.contains_key(k) ==> is_valid_cell(k) && is_at_level(k, split_level),
        decreases points@.len() - i,
    {
        let p = points[i];
        let key = point_bucket(p, split_level);
        let ghost before = map@;
        let ghost done = points@.subrange(0, i as int);
        let ghost next = points@.subrange(0, i as int + 1);
        proof {
            assert(next =~= done.push(p));
            reveal(Seq::filter);
            assert forall|k: u64| #[trigger] bucket_points(next, split_level, k)
                == if k == key { bucket_points(done, split_level, k).push(p) } else { bucket_points(done, split_level, k) } by {
                assert(next.drop_last() =~= done);
            }
        }
        let bucket = match map.remove(&key) {
            Some(mut v) => {
                v.push(p);
                v
            },
            None => {
                proof {
                    lemma_no_bucket(done, split_level, key);
                }
                let mut v: Vec<GeoPoint> = Vec::new();
                v.push(p);
                v
            },
        };
        map.insert(key, bucket);
        proof {
            assert forall|k: u64| #[trigger] map@.contains_key(k)
                <==> exists|j: int| 0 <= j < next.len() && bucket_of(#[trigger] next[j], split_level) == k by {
                if map@.contains_key(k) && k != key {
                    let j = choose|j: int| 0 <= j < done.len() && bucket_of(#[trigger] done[j], split_level) == k;
                    assert(next[j] == done[j]);
                }
                if k == key {
                    assert(next[i as int] == p);
                }
                if exists|j: int| 0 <= j < next.len() && bucket_of(#[trigger] next[j], split_level) == k {
                    let j = choose|j: int| 0 <= j < next.len() && bucket_of(#[trigger] next[j], split_level) == k;
                    if j < i {
                        assert(done[j] == next[j]);
                    }
                }
            }
        }
        i = i + 1;
    }
    assert(points@.subrange(0, points@.len() as int) =~= points@);
    map
}

} // verus!
