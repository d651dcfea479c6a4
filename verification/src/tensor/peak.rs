//! The largest number of bytes that are live at one position of a plan.
use vstd::prelude::*;

use super::storage::TensorValueLiveness;

verus! {

/// The sum of the byte extents of the values whose place `keep` selects.
pub open spec fn bytes_where(lives: Seq<TensorValueLiveness>, keep: spec_fn(int) -> bool) -> nat
    decreases lives.len(),
{
    if lives.len() == 0 {
        0
    } else {
        bytes_where(lives.drop_last(), keep) + if keep(lives.len() - 1) {
            lives.last().output_bytes->Some_0 as nat
        } else {
            0nat
        }
    }
}

/// The value at place `at` is live at `position`.
pub open spec fn covers(lives: Seq<TensorValueLiveness>, at: int, position: int) -> bool {
    lives[at].first_live_node <= position <= lives[at].last_live_node
}

/// The bytes that are live at `position`.
pub open spec fn live_bytes(lives: Seq<TensorValueLiveness>, position: int) -> nat {
    bytes_where(lives, |v: int| covers(lives, v, position))
}

/// The most bytes that are live at one of the first `count` positions.
pub open spec fn peak_before(lives: Seq<TensorValueLiveness>, count: int) -> nat
    decreases count,
{
    if count <= 0 {
        0
    } else if live_bytes(lives, count - 1) > peak_before(lives, count - 1) {
        live_bytes(lives, count - 1)
    } else {
        peak_before(lives, count - 1)
    }
}

/// Every extent is known and the live bytes of every position are representable.
pub open spec fn peak_known(lives: Seq<TensorValueLiveness>) -> bool {
    &&& forall|v: int| 0 <= v < lives.len() ==> (#[trigger] lives[v]).output_bytes is Some
    &&& forall|p: int| 0 <= p < lives.len() ==> #[trigger] live_bytes(lives, p) <= usize::MAX
}

/// The peak of a plan, where it is known.
pub open spec fn peak_of(lives: Seq<TensorValueLiveness>) -> Option<usize> {
    if peak_known(lives) {
        Some(peak_before(lives, lives.len() as int) as usize)
    } else {
        None
    }
}

/// Each value is produced at its own place and lives to a place of the plan.
pub open spec fn in_order(lives: Seq<TensorValueLiveness>) -> bool {
    forall|v: int|
        0 <= v < lives.len() ==> (#[trigger] lives[v]).first_live_node == v && v
            <= lives[v].last_live_node < lives.len()
}

proof fn lemma_same_choice(
    lives: Seq<TensorValueLiveness>,
    left: spec_fn(int) -> bool,
    right: spec_fn(int) -> bool,
)
    requires
        forall|v: int| 0 <= v < lives.len() ==> #[trigger] left(v) == #[trigger] right(v),
    ensures
        bytes_where(lives, left) == bytes_where(lives, right),
    decreases lives.len(),
{
    if lives.len() > 0 {
        lemma_same_choice(lives.drop_last(), left, right);
    }
}

proof fn lemma_split_choice(
    lives: Seq<TensorValueLiveness>,
    whole: spec_fn(int) -> bool,
    left: spec_fn(int) -> bool,
    right: spec_fn(int) -> bool,
)
    requires
        forall|v: int| 0 <= v < lives.len() ==> #[trigger] whole(v) == (left(v) || right(v)),
        forall|v: int| 0 <= v < lives.len() ==> !(#[trigger] left(v) && #[trigger] right(v)),
    ensures
        bytes_where(lives, whole) == bytes_where(lives, left) + bytes_where(lives, right),
    decreases lives.len(),
{
    if lives.len() > 0 {
        lemma_split_choice(lives.drop_last(), whole, left, right);
    }
}

proof fn lemma_single_choice(lives: Seq<TensorValueLiveness>, at: int, keep: spec_fn(int) -> bool)
    requires
        0 <= at < lives.len(),
        forall|v: int| 0 <= v < lives.len() ==> #[trigger] keep(v) == (v == at),
    ensures
        bytes_where(lives, keep) == lives[at].output_bytes->Some_0,
    decreases lives.len(),
{
    if at == lives.len() - 1 {
        let rest = lives.drop_last();
        lemma_no_choice(rest, keep);
    } else {
        lemma_single_choice(lives.drop_last(), at, keep);
    }
}

proof fn lemma_no_choice(lives: Seq<TensorValueLiveness>, keep: spec_fn(int) -> bool)
    requires
        forall|v: int| 0 <= v < lives.len() ==> !(#[trigger] keep(v)),
    ensures
        bytes_where(lives, keep) == 0,
    decreases lives.len(),
{
    if lives.len() > 0 {
        lemma_no_choice(lives.drop_last(), keep);
    }
}

proof fn lemma_peak_bounds(lives: Seq<TensorValueLiveness>, count: int, position: int)
    requires
        0 <= position < count,
    ensures
        live_bytes(lives, position) <= peak_before(lives, count),
    decreases count,
{
    if position < count - 1 {
        lemma_peak_bounds(lives, count - 1, position);
    }
}

/// A known peak is reached at some position, and no position exceeds it.
pub proof fn law_peak_is_the_maximum(lives: Seq<TensorValueLiveness>, peak: usize)
    requires
        lives.len() > 0,
        peak_of(lives) == Some(peak),
    ensures
        forall|p: int| 0 <= p < lives.len() ==> #[trigger] live_bytes(lives, p) <= peak,
        exists|p: int| 0 <= p < lives.len() && #[trigger] live_bytes(lives, p) == peak,
{
    lemma_peak_reached(lives, lives.len() as int);
    let top = choose|p: int|
        0 <= p < lives.len() && #[trigger] live_bytes(lives, p) == peak_before(
            lives,
            lives.len() as int,
        );
    assert(live_bytes(lives, top) <= usize::MAX);
    assert forall|p: int| 0 <= p < lives.len() implies #[trigger] live_bytes(lives, p) <= peak by {
        lemma_peak_bounds(lives, lives.len() as int, p);
    }
}

proof fn lemma_peak_reached(lives: Seq<TensorValueLiveness>, count: int)
    requires
        0 < count <= lives.len(),
    ensures
        exists|p: int| 0 <= p < count && #[trigger] live_bytes(lives, p) == peak_before(lives, count),
    decreases count,
{
    if live_bytes(lives, count - 1) > peak_before(lives, count - 1) || count == 1 {
        assert(live_bytes(lives, count - 1) == peak_before(lives, count));
    } else {
        lemma_peak_reached(lives, count - 1);
        let p = choose|p: int|
            0 <= p < count - 1 && #[trigger] live_bytes(lives, p) == peak_before(lives, count - 1);
        assert(live_bytes(lives, p) == peak_before(lives, count));
    }
}

/// Finds the peak of a plan by carrying the live bytes from position to position.
pub fn peak_bytes(lives: &[TensorValueLiveness]) -> (peak: Option<usize>)
    requires
        in_order(lives@),
    ensures
        peak == peak_of(lives@),
{
    let ghost all = lives@;
    let mut ending: Vec<usize> = Vec::with_capacity(lives.len());
    while ending.len() < lives.len()
        invariant
            ending@.len() <= lives@.len(),
            forall|p: int| 0 <= p < ending@.len() ==> ending@[p] == 0,
        decreases lives@.len() - ending@.len(),
    {
        ending.push(0);
    }
    let mut at: usize = 0;
    proof {
        assert forall|p: int| 0 <= p < all.len() implies #[trigger] ending@[p] == bytes_where(
            all,
            |v: int| v < 0 && all[v].last_live_node == p,
        ) by {
            lemma_no_choice(all, |v: int| v < 0 && all[v].last_live_node == p);
        }
    }
    while at < lives.len()
        invariant
            all == lives@,
            in_order(all),
            at <= all.len(),
            ending@.len() == all.len(),
            forall|v: int| 0 <= v < at ==> (#[trigger] all[v]).output_bytes is Some,
            forall|p: int|
                0 <= p < all.len() ==> #[trigger] ending@[p] == bytes_where(
                    all,
                    |v: int| v < at && all[v].last_live_node == p,
                ),
        decreases all.len() - at,
    {
        let life: TensorValueLiveness = lives[at];
        let ghost before = ending@;
        assert(all[at as int] == life);
        let bytes: usize = match life.output_bytes {
            Some(bytes) => bytes,
            None => {
                return None;
            },
        };
        let position: usize = life.last_live_node;
        proof {
            let q = position as int;
            let sooner = |v: int| v < at && all[v].last_live_node == q;
            let later = |v: int| v < at + 1 && all[v].last_live_node == q;
            let own = |v: int| v == at;
            lemma_split_choice(all, later, sooner, own);
            lemma_single_choice(all, at as int, own);
            assert(before[q] == bytes_where(all, sooner));
        }
        match ending[position].checked_add(bytes) {
            Some(sum) => {
                ending.set(position, sum);
            },
            None => {
                proof {
                    let q = position as int;
                    let later = |v: int| v < at + 1 && all[v].last_live_node == q;
                    let live = |v: int| covers(all, v, q);
                    let rest = |v: int| covers(all, v, q) && !(v < at + 1 && all[v].last_live_node == q);
                    lemma_split_choice(all, live, later, rest);
                    assert(live_bytes(all, q) > usize::MAX);
                }
                return None;
            },
        }
        proof {
            assert forall|p: int| 0 <= p < all.len() implies #[trigger] ending@[p] == bytes_where(
                all,
                |v: int| v < at + 1 && all[v].last_live_node == p,
            ) by {
                let sooner = |v: int| v < at && all[v].last_live_node == p;
                let later = |v: int| v < at + 1 && all[v].last_live_node == p;
                assert(before[p] == bytes_where(all, sooner));
                if p != position {
                    lemma_same_choice(all, sooner, later);
                }
            }
        }
        at += 1;
    }
    let mut live: usize = 0;
    let mut peak: usize = 0;
    let mut place: usize = 0;
    proof {
        lemma_no_choice(all, |v: int| v < 0 && all[v].last_live_node >= 0);
        assert forall|p: int| 0 <= p < all.len() implies #[trigger] ending@[p] == bytes_where(
            all,
            |v: int| all[v].last_live_node == p,
        ) by {
            lemma_same_choice(
                all,
                |v: int| v < at && all[v].last_live_node == p,
                |v: int| all[v].last_live_node == p,
            );
        }
    }
    while place < lives.len()
        invariant
            all == lives@,
            in_order(all),
            place <= all.len(),
            ending@.len() == all.len(),
            forall|v: int| 0 <= v < all.len() ==> (#[trigger] all[v]).output_bytes is Some,
            forall|p: int|
                0 <= p < all.len() ==> #[trigger] ending@[p] == bytes_where(
                    all,
                    |v: int| all[v].last_live_node == p,
                ),
            live == bytes_where(all, |v: int| v < place && all[v].last_live_node >= place),
            peak == peak_before(all, place as int),
            forall|p: int| 0 <= p < place ==> #[trigger] live_bytes(all, p) <= usize::MAX,
        decreases all.len() - place,
    {
        let ghost q = place as int;
        let bytes: usize = match lives[place].output_bytes {
            Some(bytes) => bytes,
            None => {
                assert(all[q].output_bytes is Some);
                return None;
            },
        };
        proof {
            assert(all[q].output_bytes is Some);
            let carried = |v: int| v < place && all[v].last_live_node >= place;
            let own = |v: int| v == q;
            let here = |v: int| covers(all, v, q);
            lemma_split_choice(all, here, carried, own);
            lemma_single_choice(all, q, own);
            let ends = |v: int| all[v].last_live_node == q;
            let stays = |v: int| v < place + 1 && all[v].last_live_node >= place + 1;
            lemma_split_choice(all, here, ends, stays);
            assert(ending@[q] == bytes_where(all, ends));
        }
        let next: usize = match live.checked_add(bytes) {
            Some(next) => next,
            None => {
                assert(live_bytes(all, q) > usize::MAX);
                return None;
            },
        };
        assert(next == live_bytes(all, q));
        live = next - ending[place];
        if next > peak {
            peak = next;
        }
        place += 1;
    }
    Some(peak)
}

} // verus!
