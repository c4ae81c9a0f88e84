use vstd::prelude::*;

use crate::order_key::{greater, key_gt};

verus! {

/// The key found at position `p` of `items`, or `init` where `p` is `None`.
pub open spec fn key_at(items: Seq<Option<i32>>, init: Option<i32>, p: Option<int>) -> Option<i32> {
    match p {
        Some(i) => items[i],
        None => init,
    }
}

/// Where the running minimum of `items` ends up, starting from `init`:
/// walking the items in order, an item that lies below the minimum so far
/// becomes the minimum.  `None` where no item ever did.
pub open spec fn min_position(items: Seq<Option<i32>>, init: Option<i32>) -> Option<int>
    decreases items.len(),
{
    if items.len() == 0 {
        None
    } else {
        let p = min_position(items.drop_last(), init);
        if key_gt(key_at(items.drop_last(), init, p), items.last()) {
            Some(items.len() - 1)
        } else {
            p
        }
    }
}

/// Where the running maximum of `items` ends up, starting from `init`:
/// walking the items in order, an item that lies above the maximum so far
/// becomes the maximum.  `None` where no item ever did.
pub open spec fn max_position(items: Seq<Option<i32>>, init: Option<i32>) -> Option<int>
    decreases items.len(),
{
    if items.len() == 0 {
        None
    } else {
        let p = max_position(items.drop_last(), init);
        if key_gt(items.last(), key_at(items.drop_last(), init, p)) {
            Some(items.len() - 1)
        } else {
            p
        }
    }
}

/// The running walk only ever points into `items`.
proof fn lemma_positions_in_range(items: Seq<Option<i32>>, init: Option<i32>)
    ensures
        min_position(items, init) matches Some(i) ==> 0 <= i < items.len(),
        max_position(items, init) matches Some(i) ==> 0 <= i < items.len(),
    decreases items.len(),
{
    if items.len() > 0 {
        lemma_positions_in_range(items.drop_last(), init);
    }
}

/// The minimum found by the running walk lies at or below every item that
/// orders at all, and at or below `init`; the maximum at or above them.
pub proof fn lemma_running_extrema_bound(items: Seq<Option<i32>>, init: Option<i32>)
    requires
        init is Some,
    ensures
        key_at(items, init, min_position(items, init)) is Some,
        key_at(items, init, max_position(items, init)) is Some,
        forall|i: int|
            0 <= i < items.len() && items[i] is Some ==> !key_gt(
                key_at(items, init, min_position(items, init)),
                #[trigger] items[i],
            ) && !key_gt(items[i], key_at(items, init, max_position(items, init))),
        !key_gt(key_at(items, init, min_position(items, init)), init),
        !key_gt(init, key_at(items, init, max_position(items, init))),
    decreases items.len(),
{
    lemma_positions_in_range(items, init);
    if items.len() > 0 {
        let prefix = items.drop_last();
        lemma_running_extrema_bound(prefix, init);
        lemma_positions_in_range(prefix, init);
        assert forall|i: int| 0 <= i < items.len() && items[i] is Some implies !key_gt(
            key_at(items, init, min_position(items, init)),
            #[trigger] items[i],
        ) && !key_gt(items[i], key_at(items, init, max_position(items, init))) by {
            if i < items.len() - 1 {
                assert(items[i] == prefix[i]);
            }
        }
    }
}

/// In the integer order of the keys, the running minimum ends at or below
/// the start and every item that has a key, and is the start or one of the
/// items; the running maximum ends at or above them all, and is the start or
/// one of the items.
pub proof fn lemma_running_extrema_numeric(items: Seq<Option<i32>>, init_min: i32, init_max: i32)
    ensures
        key_at(items, Some(init_min), min_position(items, Some(init_min))) matches Some(m) && m
            <= init_min && (m == init_min || exists|k: int|
            0 <= k < items.len() && items[k] == Some(m)) && forall|i: int|
            0 <= i < items.len() && #[trigger] items[i] is Some ==> m <= items[i].unwrap(),
        key_at(items, Some(init_max), max_position(items, Some(init_max))) matches Some(m) && m
            >= init_max && (m == init_max || exists|k: int|
            0 <= k < items.len() && items[k] == Some(m)) && forall|i: int|
            0 <= i < items.len() && #[trigger] items[i] is Some ==> m >= items[i].unwrap(),
{
    lemma_running_extrema_bound(items, Some(init_min));
    lemma_running_extrema_bound(items, Some(init_max));
    lemma_positions_in_range(items, Some(init_min));
    lemma_positions_in_range(items, Some(init_max));
    let m = key_at(items, Some(init_min), min_position(items, Some(init_min))).unwrap();
    let x = key_at(items, Some(init_max), max_position(items, Some(init_max))).unwrap();
    assert forall|i: int| 0 <= i < items.len() && #[trigger] items[i] is Some implies m
        <= items[i].unwrap() && x >= items[i].unwrap() by {
        assert(!key_gt(key_at(items, Some(init_min), min_position(items, Some(init_min))), items[i]));
        assert(!key_gt(items[i], key_at(items, Some(init_max), max_position(items, Some(init_max)))));
    }
    if let Some(k) = min_position(items, Some(init_min)) {
        assert(items[k] == Some(m));
    }
    if let Some(k) = max_position(items, Some(init_max)) {
        assert(items[k] == Some(x));
    }
}

/// The key at position `p` of `items`, or `init` where `p` is `None`.
fn key_at_exec(items: &Vec<Option<i32>>, init: Option<i32>, p: Option<usize>) -> (k: Option<i32>)
    requires
        p matches Some(i) ==> i < items.len(),
    ensures
        k == key_at(
            items@,
            init,
            match p {
                Some(i) => Some(i as int),
                None => None,
            },
        ),
{
    match p {
        Some(i) => items[i],
        None => init,
    }
}

/// Where the running minimum and maximum of `items` (order keys) end up,
/// starting from `init_min` and `init_max`; see `min_position` and
/// `max_position`.
pub fn min_max_positions(items: &Vec<Option<i32>>, init_min: Option<i32>, init_max: Option<i32>) -> (res: (Option<usize>, Option<usize>))
    ensures
        match res.0 {
            Some(i) => i < items.len() && min_position(items@, init_min) == Some(i as int),
            None => min_position(items@, init_min) is None,
        },
        match res.1 {
            Some(i) => i < items.len() && max_position(items@, init_max) == Some(i as int),
            None => max_position(items@, init_max) is None,
        },
{
    let n = items.len();
    let mut min_pos: Option<usize> = None;
    let mut max_pos: Option<usize> = None;
    let mut i: usize = 0;
    while i < n
        invariant
            i <= n,
            n == items.len(),
            match min_pos {
                Some(k) => k < i && min_position(items@.take(i as int), init_min) == Some(k as int),
                None => min_position(items@.take(i as int), init_min) is None,
            },
            match max_pos {
                Some(k) => k < i && max_position(items@.take(i as int), init_max) == Some(k as int),
                None => max_position(items@.take(i as int), init_max) is None,
            },
        decreases n - i,
    {
        let prefix = Ghost(items@.take(i as int));
        assert(items@.take(i + 1).drop_last() =~= prefix@);
        proof {
            lemma_positions_in_range(prefix@, init_min);
            lemma_positions_in_range(prefix@, init_max);
        }
        let item = items[i];
        let current_min = key_at_exec(items, init_min, min_pos);
        assert(current_min == key_at(prefix@, init_min, min_position(prefix@, init_min)));
        if greater(current_min, item) {
            min_pos = Some(i);
        }
        let current_max = key_at_exec(items, init_max, max_pos);
        assert(current_max == key_at(prefix@, init_max, max_position(prefix@, init_max)));
        if greater(item, current_max) {
            max_pos = Some(i);
        }
        i = i + 1;
    }
    assert(items@.take(n as int) =~= items@);
    (min_pos, max_pos)
}

} // verus!
