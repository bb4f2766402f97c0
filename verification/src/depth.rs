//! Painter's order: which triangle is drawn before which.

use vstd::prelude::*;
use crate::bits::{is_number, lemma_equal_magnitudes, lemma_magnitudes_order_as_values};
use crate::bits::lemma_zero_magnitude;
use crate::bits::{magnitude_bits, scaled_value, sign_bit, INFINITY_BITS};

verus! {

/// The integer that stands for a depth given as the bit pattern of a
/// single-precision number: the magnitude of the number, negated if the
/// number is negative. Both zeros give 0. What is not a number has no key.
pub open spec fn key_of_bits(bits: u32) -> Option<i64> {
    if magnitude_bits(bits) > INFINITY_BITS {
        None
    } else if sign_bit(bits) {
        Some((-magnitude_bits(bits)) as i64)
    } else {
        Some(magnitude_bits(bits) as i64)
    }
}

/// Turns a depth, given as the bit pattern of a single-precision number,
/// into a key for [`depth_order`]. Keys order as the numbers do, and are
/// equal where the numbers are.
pub fn depth_key(bits: u32) -> (key: Option<i64>)
    ensures
        key == key_of_bits(bits),
{
    let magnitude = bits & 0x7fff_ffff;
    if magnitude > INFINITY_BITS {
        None
    } else if bits & 0x8000_0000 != 0 {
        Some(-(magnitude as i64))
    } else {
        Some(magnitude as i64)
    }
}

/// Keys order as the numbers do: of two patterns that encode numbers, the
/// one with the lesser key encodes the lesser number, and equal keys come
/// from equal numbers. The two zeros are equal numbers.
pub proof fn lemma_keys_order_as_numbers(a: u32, b: u32)
    requires
        is_number(a),
        is_number(b),
    ensures
        key_of_bits(a) is Some,
        key_of_bits(b) is Some,
        key_of_bits(a)->0 < key_of_bits(b)->0 <==> scaled_value(a) < scaled_value(b),
        key_of_bits(a)->0 == key_of_bits(b)->0 <==> scaled_value(a) == scaled_value(b),
{
    lemma_zero_magnitude(a);
    lemma_zero_magnitude(b);
    if magnitude_bits(a) < magnitude_bits(b) {
        lemma_magnitudes_order_as_values(a, b);
    } else if magnitude_bits(b) < magnitude_bits(a) {
        lemma_magnitudes_order_as_values(b, a);
    } else {
        lemma_equal_magnitudes(a, b);
    }
}

/// Whether item `a` is painted before item `b`: the deeper of two items goes
/// first, and of two items of equal depth the one that came first stays
/// first. `keys[i]` is the depth of item `i`.
pub open spec fn paints_before(keys: Seq<i64>, a: int, b: int) -> bool {
    keys[a] > keys[b] || (keys[a] == keys[b] && a < b)
}

/// Whether `order` lists positions of `keys` such that each is painted
/// before all that follow it.
pub open spec fn is_painted_in_order(keys: Seq<i64>, order: Seq<usize>) -> bool {
    &&& forall|i: int| 0 <= i < order.len() ==> (#[trigger] order[i]) < keys.len()
    &&& forall|i: int, j: int|
        0 <= i < j < order.len() ==> paints_before(
            keys,
            #[trigger] order[i] as int,
            #[trigger] order[j] as int,
        )
}

/// Whether `order` lists every position from `lo` up to, not including, `hi`.
pub open spec fn lists_range(order: Seq<usize>, lo: int, hi: int) -> bool {
    forall|k: usize| lo <= k < hi ==> #[trigger] order.contains(k)
}

/// Whether `order` is the painter's order of the items with depths `keys`:
/// it lists each item once, the farthest first, items of equal depth in
/// their given order.
pub open spec fn is_depth_order(keys: Seq<i64>, order: Seq<usize>) -> bool {
    &&& order.len() == keys.len()
    &&& is_painted_in_order(keys, order)
    &&& lists_range(order, 0, keys.len() as int)
}

/// Merges two painter's orders of disjoint groups of items, of which the
/// first holds the lower positions.
fn merge(keys: &Vec<i64>, left: &Vec<usize>, right: &Vec<usize>) -> (out: Vec<usize>)
    requires
        is_painted_in_order(keys@, left@),
        is_painted_in_order(keys@, right@),
        forall|i: int, j: int|
            0 <= i < left.len() && 0 <= j < right.len() ==> #[trigger] left[i] < #[trigger] right[j],
        left.len() + right.len() <= usize::MAX,
    ensures
        out.len() == left.len() + right.len(),
        is_painted_in_order(keys@, out@),
        forall|x: usize| out@.contains(x) <==> left@.contains(x) || right@.contains(x),
{
    let mut out: Vec<usize> = Vec::new();
    let mut i: usize = 0;
    let mut j: usize = 0;
    while i < left.len() || j < right.len()
        invariant
            i <= left.len(),
            j <= right.len(),
            left.len() + right.len() <= usize::MAX,
            out.len() == i + j,
            is_painted_in_order(keys@, left@),
            is_painted_in_order(keys@, right@),
            forall|a: int, b: int|
                0 <= a < left.len() && 0 <= b < right.len() ==> #[trigger] left[a] < #[trigger] right[b],
            is_painted_in_order(keys@, out@),
            forall|k: int, a: int|
                0 <= k < out.len() && i <= a < left.len() ==> paints_before(
                    keys@,
                    #[trigger] out[k] as int,
                    #[trigger] left[a] as int,
                ),
            forall|k: int, b: int|
                0 <= k < out.len() && j <= b < right.len() ==> paints_before(
                    keys@,
                    #[trigger] out[k] as int,
                    #[trigger] right[b] as int,
                ),
            forall|x: usize|
                #![trigger out@.contains(x)]
                #![trigger left@.take(i as int).contains(x)]
                #![trigger right@.take(j as int).contains(x)]
                out@.contains(x) <==> left@.take(i as int).contains(x) || right@.take(
                    j as int,
                ).contains(x),
        decreases left.len() - i + right.len() - j,
    {
        let ghost before = out@;
        let take_left = if i == left.len() {
            false
        } else if j == right.len() {
            true
        } else {
            keys[left[i]] >= keys[right[j]]
        };
        if take_left {
            proof {
                lemma_contains_after_push(before, left@, i as int, right@.take(j as int));
            }
            out.push(left[i]);
            i = i + 1;
        } else {
            proof {
                lemma_contains_after_push(before, right@, j as int, left@.take(i as int));
            }
            out.push(right[j]);
            j = j + 1;
        }
    }
    proof {
        assert(left@.take(i as int) == left@);
        assert(right@.take(j as int) == right@);
    }
    out
}

/// If `grown` contains what the first `n` items of `from` and all of `other`
/// contain, then with item `n` of `from` appended it contains what the first
/// `n + 1` items of `from` and all of `other` contain.
proof fn lemma_contains_after_push(
    grown: Seq<usize>,
    from: Seq<usize>,
    n: int,
    other: Seq<usize>,
)
    requires
        0 <= n < from.len(),
        forall|x: usize|
            #![trigger grown.contains(x)]
            #![trigger from.take(n).contains(x)]
            #![trigger other.contains(x)]
            grown.contains(x) <==> from.take(n).contains(x) || other.contains(x),
    ensures
        forall|x: usize|
            #![trigger grown.push(from[n]).contains(x)]
            #![trigger from.take(n + 1).contains(x)]
            #![trigger other.contains(x)]
            grown.push(from[n]).contains(x) <==> from.take(n + 1).contains(x) || other.contains(x),
{
    let pushed = grown.push(from[n]);
    let short = from.take(n);
    let long = from.take(n + 1);
    assert forall|x: usize|
        #![trigger pushed.contains(x)]
        #![trigger long.contains(x)]
        #![trigger other.contains(x)]
        pushed.contains(x) <==> long.contains(x) || other.contains(x) by {
        assert(grown.contains(x) <==> short.contains(x) || other.contains(x));
        if grown.contains(x) {
            let k = choose|k: int| 0 <= k < grown.len() && grown[k] == x;
            assert(pushed[k] == x);
        }
        if x == from[n] {
            assert(pushed[grown.len() as int] == x);
            assert(long[n] == x);
        }
        if pushed.contains(x) {
            let k = choose|k: int| 0 <= k < pushed.len() && pushed[k] == x;
            if k < grown.len() {
                assert(grown[k] == x);
            }
        }
        if short.contains(x) {
            let k = choose|k: int| 0 <= k < short.len() && short[k] == x;
            assert(long[k] == x);
        }
        if long.contains(x) {
            let k = choose|k: int| 0 <= k < long.len() && long[k] == x;
            if k < n {
                assert(short[k] == x);
            }
        }
    }
}

/// Painter's order of the items from position `lo` up to, not including,
/// position `hi`.
fn order_range(keys: &Vec<i64>, lo: usize, hi: usize) -> (out: Vec<usize>)
    requires
        lo <= hi <= keys.len(),
    ensures
        out.len() == hi - lo,
        is_painted_in_order(keys@, out@),
        forall|x: usize| out@.contains(x) <==> lo <= x < hi,
    decreases hi - lo,
{
    if hi - lo == 0 {
        Vec::new()
    } else if hi - lo == 1 {
        let mut out: Vec<usize> = Vec::new();
        out.push(lo);
        assert(out[0] == lo);
        out
    } else {
        let mid = lo + (hi - lo) / 2;
        let left = order_range(keys, lo, mid);
        let right = order_range(keys, mid, hi);
        proof {
            assert forall|i: int, j: int| 0 <= i < left.len() && 0 <= j < right.len() implies #[trigger] left[i]
                < #[trigger] right[j] by {
                assert(left@.contains(left[i]));
                assert(right@.contains(right[j]));
            }
        }
        merge(keys, &left, &right)
    }
}

/// Painter's order of a frame: the positions of `keys`, each once, from the
/// greatest key to the least. Items with equal keys keep their given order.
/// `keys[i]` stands for the depth of item `i`, a greater key for a greater
/// depth.
pub fn depth_order(keys: &Vec<i64>) -> (order: Vec<usize>)
    ensures
        is_depth_order(keys@, order@),
{
    order_range(keys, 0, keys.len())
}

/// Whether `keys` are depths that `depth_key` gives for `items`, in order.
pub open spec fn keyed<T, K: Fn(&T) -> i64>(items: Seq<T>, depth_key: K, keys: Seq<i64>) -> bool {
    &&& keys.len() == items.len()
    &&& forall|i: int|
        0 <= i < items.len() ==> call_ensures(depth_key, (&items[i],), #[trigger] keys[i])
}

/// Whether `out` holds `items` in the painter's order of the depths that
/// `depth_key` gives them.
pub open spec fn depth_sorted<T, K: Fn(&T) -> i64>(items: Seq<T>, depth_key: K, out: Seq<T>) -> bool {
    exists|keys: Seq<i64>, order: Seq<usize>|
        {
            &&& #[trigger] keyed(items, depth_key, keys)
            &&& #[trigger] is_depth_order(keys, order)
            &&& out.len() == items.len()
            &&& forall|i: int| 0 <= i < out.len() ==> out[i] == items[order[i] as int]
        }
}

/// Whether `out` is the frame `items` as it is painted: in the painter's
/// order of the depths that `depth_key` gives, if there are two items or
/// more. A frame of fewer items has nothing to compare and is painted as it
/// is, whatever its depths.
pub open spec fn painted<T, K: Fn(&T) -> i64>(items: Seq<T>, depth_key: K, out: Seq<T>) -> bool {
    if items.len() < 2 {
        out == items
    } else {
        depth_sorted(items, depth_key, out)
    }
}

/// Sorts the items of a frame into painter's order: the deepest first, items
/// of equal depth in their given order. `depth_key` is asked once for each
/// item, in order, for an integer that stands for its depth; it is not asked
/// at all where there are fewer than two items.
pub fn depth_sort<T: Copy, K: Fn(&T) -> i64>(items: &Vec<T>, depth_key: &K) -> (out: Vec<T>)
    requires
        forall|i: int| 0 <= i < items.len() ==> call_requires(depth_key, (&#[trigger] items[i],)),
    ensures
        painted(items@, *depth_key, out@),
{
    if items.len() < 2 {
        let mut same: Vec<T> = Vec::new();
        if items.len() == 1 {
            same.push(items[0]);
        }
        assert(same@ == items@);
        return same;
    }
    let mut keys: Vec<i64> = Vec::new();
    let mut i: usize = 0;
    while i < items.len()
        invariant
            i <= items.len(),
            forall|i: int| 0 <= i < items.len() ==> call_requires(depth_key, (&#[trigger] items[i],)),
            keyed(items@.take(i as int), *depth_key, keys@),
        decreases items.len() - i,
    {
        let key = depth_key(&items[i]);
        keys.push(key);
        proof {
            assert forall|k: int| 0 <= k < i + 1 implies call_ensures(
                *depth_key,
                (&items@.take(i + 1)[k],),
                #[trigger] keys@[k],
            ) by {
                if k < i {
                    assert(items@.take(i as int)[k] == items@.take(i + 1)[k]);
                }
            }
        }
        i = i + 1;
    }
    proof {
        assert(items@.take(i as int) == items@);
    }
    let order = depth_order(&keys);
    let mut out: Vec<T> = Vec::new();
    let mut n: usize = 0;
    while n < order.len()
        invariant
            n <= order.len(),
            order.len() == items.len(),
            is_depth_order(keys@, order@),
            keys.len() == items.len(),
            out.len() == n,
            forall|k: int| 0 <= k < n ==> out[k] == items[order[k] as int],
        decreases order.len() - n,
    {
        out.push(items[order[n]]);
        n = n + 1;
    }
    proof {
        assert(keyed(items@, *depth_key, keys@));
        assert(is_depth_order(keys@, order@));
    }
    out
}

/// Two painter's orders of the same items agree on their first `n` places.
proof fn lemma_orders_agree_upto(keys: Seq<i64>, a: Seq<usize>, b: Seq<usize>, n: int)
    requires
        is_depth_order(keys, a),
        is_depth_order(keys, b),
        0 <= n <= keys.len(),
    ensures
        forall|i: int| 0 <= i < n ==> a[i] == b[i],
    decreases n,
{
    if n > 0 {
        lemma_orders_agree_upto(keys, a, b, n - 1);
        let i = n - 1;
        assert(b.contains(a[i]));
        let j = choose|j: int| 0 <= j < b.len() && b[j] == a[i];
        assert(a.contains(b[i]));
        let k = choose|k: int| 0 <= k < a.len() && a[k] == b[i];
        if j < i {
            assert(paints_before(keys, a[j] as int, a[i] as int));
        }
        if k < i {
            assert(paints_before(keys, b[k] as int, b[i] as int));
        }
        if j > i && k > i {
            assert(paints_before(keys, b[i] as int, b[j] as int));
            assert(paints_before(keys, a[i] as int, a[k] as int));
        }
    }
}

/// The painter's order of a frame is unique: no two different orders list
/// every item once, deeper items first and items of equal depth in their
/// given order.
pub proof fn lemma_depth_order_unique(keys: Seq<i64>, a: Seq<usize>, b: Seq<usize>)
    requires
        is_depth_order(keys, a),
        is_depth_order(keys, b),
    ensures
        a == b,
{
    lemma_orders_agree_upto(keys, a, b, keys.len() as int);
    assert(a =~= b);
}

/// In a painter's order no item stands twice.
pub proof fn lemma_depth_order_lists_once(keys: Seq<i64>, order: Seq<usize>, i: int, j: int)
    requires
        is_depth_order(keys, order),
        0 <= i < j < order.len(),
    ensures
        order[i] != order[j],
{
    assert(paints_before(keys, order[i] as int, order[j] as int));
}

} // verus!
