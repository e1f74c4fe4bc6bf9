//! The status bar's choice of color for a value.
//!
//! A status bar item maps thresholds to colors, in order. The entries are scanned in order: an
//! entry with a threshold that the value does not exceed is chosen and ends the scan; an entry
//! without a threshold is chosen but the scan goes on. The colors themselves are kept by the
//! game; here the choice is the position of the chosen entry (none: the default color).

use vstd::prelude::*;

verus! {

/// The entry at a position has a threshold that `value` does not exceed.
pub open spec fn hits(value: int, threshold: Option<u32>) -> bool {
    match threshold {
        Some(t) => value <= t,
        None => false,
    }
}

/// The scan over `thresholds`: the entry chosen so far and whether the scan has stopped.
pub open spec fn scan(value: int, thresholds: Seq<Option<u32>>) -> (Option<int>, bool)
    decreases thresholds.len(),
{
    if thresholds.len() == 0 {
        (None, false)
    } else {
        let prev = scan(value, thresholds.drop_last());
        let last = thresholds.len() - 1;
        if prev.1 {
            prev
        } else if hits(value, thresholds.last()) {
            (Some(last), true)
        } else if thresholds.last() is None {
            (Some(last), false)
        } else {
            (prev.0, false)
        }
    }
}

/// The position of the entry whose color a status bar item with `value` shows.
pub fn mapping_index(value: u32, thresholds: &Vec<Option<u32>>) -> (index: Option<usize>)
    ensures
        index == match scan(value as int, thresholds@).0 {
            Some(k) => Some(k as usize),
            None => None::<usize>,
        },
        index matches Some(k) ==> k < thresholds@.len(),
{
    let mut chosen: Option<usize> = None;
    let mut stopped = false;
    let mut i: usize = 0;
    while i < thresholds.len() && !stopped
        invariant
            0 <= i <= thresholds@.len(),
            stopped == scan(value as int, thresholds@.take(i as int)).1,
            chosen == match scan(value as int, thresholds@.take(i as int)).0 {
                Some(k) => Some(k as usize),
                None => None::<usize>,
            },
            scan(value as int, thresholds@.take(i as int)).0 matches Some(k) ==> 0 <= k < i,
        decreases thresholds@.len() - i,
    {
        let ghost t = thresholds@.take(i + 1);
        proof {
            assert(t.drop_last() == thresholds@.take(i as int));
            assert(t.last() == thresholds@[i as int]);
        }
        match thresholds[i] {
            Some(threshold) => {
                if value <= threshold {
                    chosen = Some(i);
                    stopped = true;
                }
            },
            None => {
                chosen = Some(i);
            },
        }
        i = i + 1;
    }
    proof {
        if stopped {
            lemma_scan_stops(value as int, thresholds@, i as int);
        } else {
            assert(thresholds@.take(i as int) == thresholds@);
        }
    }
    chosen
}

/// Once the scan of a prefix has stopped, scanning further changes nothing.
proof fn lemma_scan_stops(value: int, thresholds: Seq<Option<u32>>, n: int)
    requires
        0 <= n <= thresholds.len(),
        scan(value, thresholds.take(n)).1,
    ensures
        scan(value, thresholds) == scan(value, thresholds.take(n)),
    decreases thresholds.len() - n,
{
    if n < thresholds.len() {
        let t = thresholds.take(n + 1);
        assert(t.drop_last() == thresholds.take(n));
        lemma_scan_stops(value, thresholds, n + 1);
    } else {
        assert(thresholds.take(n) == thresholds);
    }
}

/// `k` is the first entry with a threshold that `value` does not exceed.
pub open spec fn first_hit(value: int, thresholds: Seq<Option<u32>>, k: int) -> bool {
    &&& 0 <= k < thresholds.len()
    &&& hits(value, thresholds[k])
    &&& forall|j: int| 0 <= j < k ==> !hits(value, #[trigger] thresholds[j])
}

/// No entry has a threshold that `value` does not exceed.
pub open spec fn no_hit(value: int, thresholds: Seq<Option<u32>>) -> bool {
    forall|j: int| 0 <= j < thresholds.len() ==> !hits(value, #[trigger] thresholds[j])
}

/// `k` is the last entry without a threshold.
pub open spec fn last_open(thresholds: Seq<Option<u32>>, k: int) -> bool {
    &&& 0 <= k < thresholds.len()
    &&& thresholds[k] is None
    &&& forall|j: int| k < j < thresholds.len() ==> (#[trigger] thresholds[j]) is Some
}

/// The chosen entry is the first one with a threshold the value does not exceed; when there is
/// none, it is the last entry without a threshold; when there is none of those either, no entry
/// is chosen.
pub proof fn law_mapping_choice(value: int, thresholds: Seq<Option<u32>>)
    ensures
        match scan(value, thresholds).0 {
            Some(k) => first_hit(value, thresholds, k) || (no_hit(value, thresholds) && last_open(
                thresholds,
                k,
            )),
            None => no_hit(value, thresholds) && forall|j: int|
                0 <= j < thresholds.len() ==> (#[trigger] thresholds[j]) is Some,
        },
        scan(value, thresholds).1 <==> !no_hit(value, thresholds),
    decreases thresholds.len(),
{
    if thresholds.len() > 0 {
        let prev = thresholds.drop_last();
        law_mapping_choice(value, prev);
        let last = thresholds.len() - 1;
        assert forall|j: int| 0 <= j < prev.len() implies #[trigger] prev[j] == thresholds[j] by {}
        assert(thresholds.last() == thresholds[last]);
        if scan(value, prev).1 {
            let k = scan(value, prev).0->0;
            assert(first_hit(value, prev, k));
            assert(first_hit(value, thresholds, k)) by {
                assert forall|j: int| 0 <= j < k implies !hits(value, #[trigger] thresholds[j]) by {
                    assert(prev[j] == thresholds[j]);
                }
            }
        } else {
            assert(no_hit(value, prev));
            if hits(value, thresholds[last]) {
                assert(first_hit(value, thresholds, last)) by {
                    assert forall|j: int| 0 <= j < last implies !hits(
                        value,
                        #[trigger] thresholds[j],
                    ) by {
                        assert(prev[j] == thresholds[j]);
                    }
                }
            } else {
                assert(no_hit(value, thresholds)) by {
                    assert forall|j: int| 0 <= j < thresholds.len() implies !hits(
                        value,
                        #[trigger] thresholds[j],
                    ) by {
                        if j < last {
                            assert(prev[j] == thresholds[j]);
                        }
                    }
                }
                if thresholds[last] is None {
                    assert(last_open(thresholds, last));
                } else {
                    match scan(value, prev).0 {
                        Some(k) => {
                            assert(!first_hit(value, prev, k));
                            assert(last_open(prev, k));
                            assert(last_open(thresholds, k)) by {
                                assert forall|j: int| k < j < thresholds.len() implies (
                                #[trigger] thresholds[j]) is Some by {
                                    if j < last {
                                        assert(prev[j] == thresholds[j]);
                                    }
                                }
                            }
                        },
                        None => {
                            assert forall|j: int| 0 <= j < thresholds.len() implies (
                            #[trigger] thresholds[j]) is Some by {
                                if j < last {
                                    assert(prev[j] == thresholds[j]);
                                }
                            }
                        },
                    }
                }
            }
        }
    }
}

} // verus!
