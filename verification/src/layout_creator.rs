//! The layout assignment engine: aggregates the rankings of one or more
//! timing hint sources into one ranking per position and greedily assigns
//! keys to positions to produce a complete candidate layout.
//!
//! The assignment is deliberately greedy, not a matching-theory optimum: it
//! repeatedly scans every still-open position and every still-free key and
//! locks in the pair with the strictly highest rank, ties resolved by scan
//! order (row-major positions, then ascending key index).

use vstd::prelude::*;
use vstd::set_lib::lemma_int_range;
use vstd::set_lib::lemma_len_subset;
use vstd::set_lib::set_int_range;

use crate::digram_timing::DigramTimingHint;
use crate::digram_timing::rank_term;
use crate::keyboard::KeyCode;
use crate::keyboard::KeyboardLayout;
use crate::keyboard::key_of_index;
use crate::keyboard::lemma_key_index_bijective;

verus! {

/// The greedy assignment ran out of strictly positive (position, key) ranks
/// before every position was filled; no layout can be proposed yet.
#[derive(Clone, Copy, Debug, PartialEq, Eq, Structural)]
pub struct InsufficientDataError;

/// The combined rank of `key` for position `(row, col)` over all hint
/// sources: a plain sum, sources with no opinion contributing nothing.
pub open spec fn sum_rank(
    hints: Seq<DigramTimingHint>,
    row: int,
    col: int,
    key: KeyCode,
) -> int
    decreases hints.len(),
{
    if hints.len() == 0 {
        0
    } else {
        sum_rank(hints.drop_last(), row, col, key) + hints.last().rank_spec(row, col, key)
    }
}

/// A rank grid: the combined rank for position index `p` and key index `k`.
pub type RankGrid = spec_fn(int, int) -> int;

/// The first (position, key) pair in scan order among the pairs with scan
/// index below `i` that are still open, still free, and strictly positively
/// ranked, carrying the highest rank; a later pair displaces an earlier one
/// only with a strictly greater rank. Scan index `p * 30 + k` orders the
/// pairs row-major by position, then by key index.
pub open spec fn best_in_prefix(g: RankGrid, used_p: Set<int>, used_k: Set<int>, i: int) -> Option<
    (int, int),
>
    decreases i,
{
    if i <= 0 {
        None
    } else {
        let p = (i - 1) / 30;
        let k = (i - 1) % 30;
        let prev = best_in_prefix(g, used_p, used_k, i - 1);
        if !used_p.contains(p) && !used_k.contains(k) && g(p, k) > 0 {
            match prev {
                None => Some((p, k)),
                Some(b) => if g(p, k) > g(b.0, b.1) {
                    Some((p, k))
                } else {
                    prev
                },
            }
        } else {
            prev
        }
    }
}

/// The greedy assignment: `remaining` times, pick the best still-available
/// pair over the whole grid and lock it in; fail if at some step no pair
/// with a strictly positive rank is left.
pub open spec fn greedy_assign(
    g: RankGrid,
    used_p: Set<int>,
    used_k: Set<int>,
    remaining: nat,
) -> Option<Map<int, int>>
    decreases remaining,
{
    if remaining == 0 {
        Some(Map::empty())
    } else {
        match best_in_prefix(g, used_p, used_k, 900) {
            None => None,
            Some(b) => match greedy_assign(
                g,
                used_p.insert(b.0),
                used_k.insert(b.1),
                (remaining - 1) as nat,
            ) {
                None => None,
                Some(rest) => Some(rest.insert(b.0, b.1)),
            },
        }
    }
}

/// The complete greedy layout for grid `g`: which key index each of the 30
/// position indexes receives, or `None` when the data ran out.
pub open spec fn greedy_layout(g: RankGrid) -> Option<Map<int, int>> {
    greedy_assign(g, Set::empty(), Set::empty(), 30)
}

/// A single hint source's rank lies between zero and `u32::MAX * 2000`.
pub proof fn lemma_rank_spec_bounds(h: DigramTimingHint, row: int, col: int, key: KeyCode)
    ensures
        0 <= h.rank_spec(row, col, key) <= 0xFFFF_FFFF as int * 2000,
{
    lemma_rank_term_bounds(h.frequency_spec(key), h.avg_to_spec(row * 10 + col));
    lemma_rank_term_bounds(h.frequency_spec(key), h.avg_from_spec(row * 10 + col));
}

/// A single rank term lies between zero and `u32::MAX * 1000`.
pub proof fn lemma_rank_term_bounds(freq: u32, avg: Option<u64>)
    ensures
        0 <= rank_term(freq, avg) <= 0xFFFF_FFFF as int * 1000,
{
    if let Some(d) = avg {
        let divisor: int = if d == 0 {
            1
        } else {
            d as int
        };
        let prod: int = (freq * 1000) as int;
        assert(0 <= prod / divisor <= prod) by (nonlinear_arith)
            requires
                divisor >= 1,
                prod >= 0,
        ;
    }
}

/// The combined rank of `key` lies between zero and the number of hint
/// sources times the single-source maximum.
pub proof fn lemma_sum_rank_bounds(hints: Seq<DigramTimingHint>, row: int, col: int, key: KeyCode)
    ensures
        0 <= sum_rank(hints, row, col, key) <= hints.len() * (0xFFFF_FFFF as int * 2000),
    decreases hints.len(),
{
    if hints.len() > 0 {
        lemma_sum_rank_bounds(hints.drop_last(), row, col, key);
        lemma_rank_spec_bounds(hints.last(), row, col, key);
    }
}

/// Hint sources that have seen no keystrokes rank nothing.
pub proof fn lemma_fresh_hints_rank_zero(
    hints: Seq<DigramTimingHint>,
    row: int,
    col: int,
    key: KeyCode,
)
    requires
        forall|i: int| 0 <= i < hints.len() ==> (#[trigger] hints[i]).is_fresh(),
        0 <= row < 3,
        0 <= col < 10,
    ensures
        sum_rank(hints, row, col, key) == 0,
    decreases hints.len(),
{
    lemma_key_index_bijective();
    if hints.len() > 0 {
        lemma_fresh_hints_rank_zero(hints.drop_last(), row, col, key);
        assert(hints.last().frequency_spec(key) == 0);
        assert(hints.last().avg_to_spec(row * 10 + col) is None);
        assert(hints.last().avg_from_spec(row * 10 + col) is None);
    }
}

/// What `best_in_prefix` promises: a result is an open, free, positively
/// ranked pair inside the scanned prefix whose rank no other such pair
/// exceeds; no result means no such pair exists.
pub proof fn lemma_best_in_prefix_props(g: RankGrid, used_p: Set<int>, used_k: Set<int>, i: int)
    requires
        0 <= i <= 900,
    ensures
        match best_in_prefix(g, used_p, used_k, i) {
            Some(b) => {
                &&& 0 <= b.0 < 30
                &&& 0 <= b.1 < 30
                &&& b.0 * 30 + b.1 < i
                &&& !used_p.contains(b.0)
                &&& !used_k.contains(b.1)
                &&& g(b.0, b.1) > 0
                &&& forall|p: int, k: int|
                    0 <= p < 30 && 0 <= k < 30 && p * 30 + k < i && !used_p.contains(p)
                        && !used_k.contains(k) ==> #[trigger] g(p, k) <= g(b.0, b.1)
            },
            None => forall|p: int, k: int|
                0 <= p < 30 && 0 <= k < 30 && p * 30 + k < i && !used_p.contains(p)
                    && !used_k.contains(k) ==> #[trigger] g(p, k) <= 0,
        },
    decreases i,
{
    if i > 0 {
        lemma_best_in_prefix_props(g, used_p, used_k, i - 1);
        let p = (i - 1) / 30;
        let k = (i - 1) % 30;
        assert(p * 30 + k == i - 1);
        assert(0 <= p < 30 && 0 <= k < 30);
        assert forall|p2: int, k2: int|
            0 <= p2 < 30 && 0 <= k2 < 30 && #[trigger] (p2 * 30 + k2) < i && !(p2 == p && k2
                == k) implies p2 * 30 + k2 < i - 1 by {}
    }
}

/// What a successful `greedy_assign` promises: it assigns exactly
/// `remaining` distinct open positions, each to a distinct free key with a
/// strictly positive rank.
pub proof fn lemma_greedy_assign_props(g: RankGrid, used_p: Set<int>, used_k: Set<int>, n: nat)
    ensures
        greedy_assign(g, used_p, used_k, n) matches Some(m) ==> {
            &&& m.dom().finite()
            &&& m.dom().len() == n
            &&& forall|p: int|
                #[trigger] m.dom().contains(p) ==> 0 <= p < 30 && !used_p.contains(p) && 0 <= m[p]
                    < 30 && !used_k.contains(m[p]) && g(p, m[p]) > 0
            &&& forall|p1: int, p2: int|
                m.dom().contains(p1) && m.dom().contains(p2) && p1 != p2 ==> m[p1] != m[p2]
        },
    decreases n,
{
    if n > 0 {
        if let Some(b) = best_in_prefix(g, used_p, used_k, 900) {
            lemma_best_in_prefix_props(g, used_p, used_k, 900);
            lemma_greedy_assign_props(g, used_p.insert(b.0), used_k.insert(b.1), (n - 1) as nat);
        }
    }
}

/// With no strictly positive rank anywhere in the grid, the greedy
/// assignment fails rather than inventing a layout.
pub proof fn lemma_no_positive_ranks_no_layout(g: RankGrid)
    requires
        forall|p: int, k: int| 0 <= p < 30 && 0 <= k < 30 ==> #[trigger] g(p, k) <= 0,
    ensures
        greedy_layout(g) is None,
{
    lemma_best_in_prefix_props(g, Set::empty(), Set::empty(), 900);
    if let Some(b) = best_in_prefix(g, Set::<int>::empty(), Set::<int>::empty(), 900) {
        assert(g(b.0, b.1) <= 0);
    }
}

/// Aggregates one or more timing hint sources and produces candidate
/// layouts from their combined rankings.
pub struct LayoutCreator {
    layout_hints: Vec<DigramTimingHint>,
}

impl LayoutCreator {
    /// The hint sources, in registration order.
    pub closed spec fn hints(self) -> Seq<DigramTimingHint> {
        self.layout_hints@
    }

    /// Every hint source is well-formed.
    pub open spec fn wf(self) -> bool {
        forall|i: int| 0 <= i < self.hints().len() ==> (#[trigger] self.hints()[i]).wf()
    }

    /// The combined rank of `key` for position `(row, col)`.
    pub open spec fn rank_spec(self, row: int, col: int, key: KeyCode) -> int {
        sum_rank(self.hints(), row, col, key)
    }

    /// The combined rank grid over position indexes and key indexes.
    pub open spec fn grid(self) -> RankGrid {
        |p: int, k: int| sum_rank(self.hints(), p / 10, p % 10, key_of_index(k))
    }

    /// A creator over the given hint sources.
    pub fn new(layout_hints: Vec<DigramTimingHint>) -> (s: Self)
        requires
            forall|i: int| 0 <= i < layout_hints@.len() ==> (#[trigger] layout_hints@[i]).wf(),
        ensures
            s.wf(),
            s.hints() == layout_hints@,
    {
        LayoutCreator { layout_hints }
    }

    /// Broadcast one keystroke to every hint source; each moves exactly as
    /// `model_step` describes.
    pub fn receive_key_press(&mut self, key_code: KeyCode, time_ms: u64)
        requires
            old(self).wf(),
        ensures
            final(self).wf(),
            final(self).hints().len() == old(self).hints().len(),
            forall|i: int|
                0 <= i < old(self).hints().len() ==> (#[trigger] final(self).hints()[i]).model()
                    == crate::digram_timing::model_step(
                    old(self).hints()[i].model(),
                    key_code,
                    time_ms,
                ),
    {
        let n = self.layout_hints.len();
        let mut h: usize = 0;
        while h < n
            invariant
                old(self).wf(),
                n == old(self).hints().len(),
                self.layout_hints@.len() == n,
                h <= n,
                forall|i: int|
                    h <= i < n ==> #[trigger] self.layout_hints@[i] == old(self).hints()[i],
                forall|i: int|
                    0 <= i < h ==> (#[trigger] self.layout_hints@[i]).wf()
                        && self.layout_hints@[i].model() == crate::digram_timing::model_step(
                        old(self).hints()[i].model(),
                        key_code,
                        time_ms,
                    ),
            decreases n - h,
        {
            self.layout_hints[h].receive_key_press(key_code, time_ms);
            h = h + 1;
        }
    }

    /// The combined rank of a single key for the position at `position`.
    fn rank_at(&self, position: (usize, usize), key_code: KeyCode) -> (r: u128)
        requires
            self.wf(),
            position.0 < 3,
            position.1 < 10,
        ensures
            r == self.rank_spec(position.0 as int, position.1 as int, key_code),
    {
        let ghost row = position.0 as int;
        let ghost col = position.1 as int;
        let n = self.layout_hints.len();
        let mut total: u128 = 0;
        let mut h: usize = 0;
        while h < n
            invariant
                self.wf(),
                n == self.hints().len(),
                h <= n,
                position.0 < 3,
                position.1 < 10,
                row == position.0 as int,
                col == position.1 as int,
                total == sum_rank(self.hints().take(h as int), row, col, key_code),
                total <= h * (0xFFFF_FFFFu128 * 2000),
            decreases n - h,
        {
            let hr = self.layout_hints[h].rank_for(position, key_code);
            proof {
                lemma_sum_rank_bounds(self.hints().take(h as int), row, col, key_code);
                assert(self.hints().take(h + 1).drop_last() =~= self.hints().take(h as int));
                assert(self.hints().take(h + 1).last() == self.hints()[h as int]);
                assert((h + 1) * (0xFFFF_FFFFu128 * 2000) == h * (0xFFFF_FFFFu128 * 2000)
                    + 0xFFFF_FFFFu128 * 2000) by (nonlinear_arith);
                assert(n * (0xFFFF_FFFFu128 * 2000) <= 0xFFFF_FFFF_FFFF_FFFFu128 * (
                0xFFFF_FFFFu128 * 2000)) by (nonlinear_arith)
                    requires
                        n <= 0xFFFF_FFFF_FFFF_FFFFu128,
                ;
            }
            total = total + hr;
            h = h + 1;
        }
        proof {
            assert(self.hints().take(n as int) =~= self.hints());
        }
        total
    }

    /// For the position at `position`, the combined rank of every key that
    /// has one, as `(key, rank)` pairs in ascending key order.
    ///
    /// Every returned rank is strictly positive and equals `rank_spec`;
    /// keys no source has an opinion about are omitted.
    pub fn rank_keys_for_position(&self, position: (usize, usize)) -> (r: Vec<(KeyCode, u128)>)
        requires
            self.wf(),
            position.0 < 3,
            position.1 < 10,
        ensures
            forall|j: int|
                0 <= j < r@.len() ==> (#[trigger] r@[j]).1 == self.rank_spec(
                    position.0 as int,
                    position.1 as int,
                    r@[j].0,
                ) && r@[j].1 > 0,
            forall|j1: int, j2: int|
                0 <= j1 < j2 < r@.len() ==> (#[trigger] r@[j1]).0.index_spec() < (#[trigger] r@[
                    j2
                ]).0.index_spec(),
            forall|k: KeyCode|
                self.rank_spec(position.0 as int, position.1 as int, k) > 0 ==> exists|j: int|
                    0 <= j < r@.len() && (#[trigger] r@[j]).0 == k,
    {
        let ghost row = position.0 as int;
        let ghost col = position.1 as int;
        let mut r: Vec<(KeyCode, u128)> = Vec::new();
        let mut ki: usize = 0;
        while ki < 30
            invariant
                self.wf(),
                ki <= 30,
                row == position.0 as int,
                col == position.1 as int,
                position.0 < 3,
                position.1 < 10,
                forall|j: int|
                    0 <= j < r@.len() ==> (#[trigger] r@[j]).1 == self.rank_spec(row, col, r@[j].0)
                        && r@[j].1 > 0 && r@[j].0.index_spec() < ki,
                forall|j1: int, j2: int|
                    0 <= j1 < j2 < r@.len() ==> (#[trigger] r@[j1]).0.index_spec() < (
                    #[trigger] r@[j2]).0.index_spec(),
                forall|k: KeyCode|
                    #[trigger] k.index_spec() < ki && self.rank_spec(row, col, k) > 0 ==> exists|
                        j: int,
                    | 0 <= j < r@.len() && (#[trigger] r@[j]).0 == k,
            decreases 30 - ki,
        {
            let key = KeyCode::from_index(ki);
            let rank = self.rank_at(position, key);
            let ghost r_before = r@;
            if rank > 0 {
                r.push((key, rank));
            }
            proof {
                lemma_key_index_bijective();
                assert forall|k: KeyCode|
                    #[trigger] k.index_spec() < ki + 1 && self.rank_spec(row, col, k)
                        > 0 implies exists|j: int|
                    0 <= j < r@.len() && (#[trigger] r@[j]).0 == k by {
                    if k.index_spec() == ki {
                        assert(key_of_index(k.index_spec()) == k);
                        assert(k == key);
                        assert(r@[r@.len() - 1].0 == k);
                    } else {
                        let j0 = choose|j: int| 0 <= j < r_before.len() && (#[trigger] r_before[
                            j
                        ]).0 == k;
                        assert(r@[j0].0 == k);
                    }
                }
            }
            ki = ki + 1;
        }
        r
    }
}

/// The position indexes (or key indexes) marked used in a flag vector.
pub open spec fn used_set(v: Seq<bool>) -> Set<int> {
    Set::new(|i: int| 0 <= i < 30 && v[i])
}

/// Scanning across a used position leaves the best pair as it was: none of
/// that position's pairs is eligible.
proof fn lemma_best_in_prefix_skip_position(
    g: RankGrid,
    used_p: Set<int>,
    used_k: Set<int>,
    p: int,
    j: int,
)
    requires
        used_p.contains(p),
        0 <= p,
        0 <= j <= 30,
    ensures
        best_in_prefix(g, used_p, used_k, p * 30 + j) == best_in_prefix(g, used_p, used_k, p * 30),
    decreases j,
{
    if j > 0 {
        lemma_best_in_prefix_skip_position(g, used_p, used_k, p, j - 1);
        assert((p * 30 + j - 1) / 30 == p && (p * 30 + j - 1) % 30 == j - 1) by (nonlinear_arith)
            requires
                0 <= j - 1 < 30,
                0 <= p,
        ;
    }
}

impl LayoutCreator {
    /// Greedily assign a key to every position, exactly as `greedy_layout`
    /// describes: repeatedly lock in the open, free (position, key) pair
    /// with the strictly highest combined rank, ties resolved by scan order.
    ///
    /// On success the layout holds the greedy assignment's key at every
    /// position and uses 30 distinct keys; if at some step no pair with a
    /// strictly positive rank remains, the attempt fails with
    /// `InsufficientDataError` instead of leaving default-filled positions.
    pub fn create_layout(&self) -> (r: Result<KeyboardLayout, InsufficientDataError>)
        requires
            self.wf(),
        ensures
            match r {
                Ok(l) => greedy_layout(self.grid()) matches Some(m) && (forall|p: int|
                    0 <= p < 30 ==> #[trigger] m.dom().contains(p) && l.keys()[p] == key_of_index(
                        m[p],
                    )) && l.all_keys_distinct(),
                Err(_) => greedy_layout(self.grid()) is None,
            },
    {
        let ghost g = self.grid();
        // The full grid of combined ranks, computed once; entry p * 30 + k
        // holds the rank of key index k for position index p.
        let mut grid: Vec<u128> = Vec::new();
        let mut p: usize = 0;
        while p < 30
            invariant
                self.wf(),
                p <= 30,
                grid@.len() == p * 30,
                g == self.grid(),
                forall|i: int| 0 <= i < p * 30 ==> (#[trigger] grid@[i]) as int == g(i / 30, i % 30),
            decreases 30 - p,
        {
            let mut k: usize = 0;
            while k < 30
                invariant
                    self.wf(),
                    p < 30,
                    k <= 30,
                    grid@.len() == p * 30 + k,
                    g == self.grid(),
                    forall|i: int|
                        0 <= i < p * 30 + k ==> (#[trigger] grid@[i]) as int == g(i / 30, i % 30),
                decreases 30 - k,
            {
                let v = self.rank_at((p / 10, p % 10), KeyCode::from_index(k));
                grid.push(v);
                proof {
                    let i = (p * 30 + k) as int;
                    assert(i / 30 == p && i % 30 == k) by (nonlinear_arith)
                        requires
                            i == p * 30 + k,
                            0 <= k < 30,
                            0 <= p,
                    ;
                    assert((p / 10) as int == (p as int) / 10 && (p % 10) as int == (p as int)
                        % 10);
                    assert(v as int == g(p as int, k as int));
                }
                k = k + 1;
            }
            p = p + 1;
        }
        // Greedy assignment over the grid.
        let mut layout = KeyboardLayout::qwerty();
        let mut used_positions = thirty_flags();
        let mut used_keys = thirty_flags();
        let ghost mut picks: Map<int, int> = Map::empty();
        proof {
            assert(used_set(used_positions@) =~= Set::<int>::empty());
            assert(used_set(used_keys@) =~= Set::<int>::empty());
            if let Some(rest) = greedy_assign(g, Set::empty(), Set::empty(), 30) {
                assert(picks.union_prefer_right(rest) =~= rest);
            }
        }
        let mut iteration: usize = 0;
        while iteration < 30
            invariant
                iteration <= 30,
                g == self.grid(),
                grid@.len() == 900,
                forall|i: int| 0 <= i < 900 ==> (#[trigger] grid@[i]) as int == g(i / 30, i % 30),
                used_positions@.len() == 30,
                used_keys@.len() == 30,
                picks.dom() == used_set(used_positions@),
                greedy_layout(g) == (match greedy_assign(
                    g,
                    used_set(used_positions@),
                    used_set(used_keys@),
                    (30 - iteration) as nat,
                ) {
                    None => None::<Map<int, int>>,
                    Some(rest) => Some(picks.union_prefer_right(rest)),
                }),
                forall|pp: int|
                    #[trigger] picks.dom().contains(pp) ==> 0 <= pp < 30 && 0 <= picks[pp] < 30
                        && layout.keys()[pp] == key_of_index(picks[pp]),
            decreases 30 - iteration,
        {
            let ghost up = used_set(used_positions@);
            let ghost uk = used_set(used_keys@);
            // Scan every open position and free key for the single highest
            // strictly positive rank; earlier pairs win ties.
            let mut best_rank: u128 = 0;
            let mut best: Option<(usize, usize)> = None;
            let mut sp: usize = 0;
            while sp < 30
                invariant
                    sp <= 30,
                    grid@.len() == 900,
                    forall|i: int|
                        0 <= i < 900 ==> (#[trigger] grid@[i]) as int == g(i / 30, i % 30),
                    used_positions@.len() == 30,
                    used_keys@.len() == 30,
                    up == used_set(used_positions@),
                    uk == used_set(used_keys@),
                    match best {
                        None => best_in_prefix(g, up, uk, sp * 30) is None && best_rank == 0,
                        Some(b) => {
                            &&& b.0 < 30
                            &&& b.1 < 30
                            &&& best_in_prefix(g, up, uk, sp * 30) == Some(
                                (b.0 as int, b.1 as int),
                            )
                            &&& best_rank as int == g(b.0 as int, b.1 as int)
                            &&& best_rank > 0
                        },
                    },
                decreases 30 - sp,
            {
                if !used_positions[sp] {
                    let mut sk: usize = 0;
                    while sk < 30
                        invariant
                            sp < 30,
                            sk <= 30,
                            grid@.len() == 900,
                            forall|i: int|
                                0 <= i < 900 ==> (#[trigger] grid@[i]) as int == g(i / 30, i % 30),
                            used_positions@.len() == 30,
                            used_keys@.len() == 30,
                            up == used_set(used_positions@),
                            uk == used_set(used_keys@),
                            !up.contains(sp as int),
                            match best {
                                None => best_in_prefix(g, up, uk, sp * 30 + sk) is None
                                    && best_rank == 0,
                                Some(b) => {
                                    &&& b.0 < 30
                                    &&& b.1 < 30
                                    &&& best_in_prefix(g, up, uk, sp * 30 + sk) == Some(
                                        (b.0 as int, b.1 as int),
                                    )
                                    &&& best_rank as int == g(b.0 as int, b.1 as int)
                                    &&& best_rank > 0
                                },
                            },
                        decreases 30 - sk,
                    {
                        proof {
                            let i = (sp * 30 + sk) as int;
                            assert(i / 30 == sp && i % 30 == sk) by (nonlinear_arith)
                                requires
                                    i == sp * 30 + sk,
                                    0 <= sk < 30,
                                    0 <= sp,
                            ;
                        }
                        if !used_keys[sk] {
                            let v = grid[sp * 30 + sk];
                            if v > best_rank {
                                best_rank = v;
                                best = Some((sp, sk));
                            }
                        }
                        sk = sk + 1;
                    }
                } else {
                    proof {
                        lemma_best_in_prefix_skip_position(g, up, uk, sp as int, 30);
                    }
                }
                sp = sp + 1;
            }
            match best {
                None => {
                    // No open position and free key has a positive combined
                    // rank: the data collected so far cannot fill the grid.
                    return Err(InsufficientDataError);
                },
                Some((bp, bk)) => {
                    proof {
                        lemma_best_in_prefix_props(g, up, uk, 900);
                        lemma_greedy_assign_props(
                            g,
                            up.insert(bp as int),
                            uk.insert(bk as int),
                            (30 - iteration - 1) as nat,
                        );
                    }
                    layout.set_key_at(bp / 10, bp % 10, KeyCode::from_index(bk));
                    used_positions[bp] = true;
                    used_keys[bk] = true;
                    proof {
                        let bpi = bp as int;
                        let bki = bk as int;
                        assert((bp / 10) as int * 10 + (bp % 10) as int == bpi);
                        assert(used_set(used_positions@) =~= up.insert(bpi));
                        assert(used_set(used_keys@) =~= uk.insert(bki));
                        let rem = (30 - iteration) as nat;
                        assert(greedy_assign(g, up, uk, rem) == (match greedy_assign(
                            g,
                            up.insert(bpi),
                            uk.insert(bki),
                            (rem - 1) as nat,
                        ) {
                            None => None::<Map<int, int>>,
                            Some(rest) => Some(rest.insert(bpi, bki)),
                        }));
                        if let Some(rest2) = greedy_assign(
                            g,
                            up.insert(bpi),
                            uk.insert(bki),
                            (rem - 1) as nat,
                        ) {
                            assert(!rest2.dom().contains(bpi));
                            assert(!picks.dom().contains(bpi));
                            assert(picks.union_prefer_right(rest2.insert(bpi, bki))
                                =~= picks.insert(bpi, bki).union_prefer_right(rest2));
                        }
                        picks = picks.insert(bpi, bki);
                        assert(picks.dom() =~= up.insert(bpi));
                    }
                    iteration = iteration + 1;
                },
            }
        }
        proof {
            // All 30 iterations succeeded: the picks are the whole greedy
            // assignment, they cover every position, and their keys are
            // pairwise distinct.
            assert(greedy_assign(
                g,
                used_set(used_positions@),
                used_set(used_keys@),
                0,
            ) == Some(Map::<int, int>::empty()));
            assert(picks.union_prefer_right(Map::<int, int>::empty()) =~= picks);
            assert(greedy_layout(g) == Some(picks));
            lemma_greedy_assign_props(g, Set::empty(), Set::empty(), 30);
            assert forall|pp: int| 0 <= pp < 30 implies picks.dom().contains(pp) by {
                if !picks.dom().contains(pp) {
                    lemma_int_range(0, 30);
                    assert(set_int_range(0, 30).remove(pp).finite());
                    assert(picks.dom().subset_of(set_int_range(0, 30).remove(pp)));
                    lemma_len_subset(picks.dom(), set_int_range(0, 30).remove(pp));
                    assert(set_int_range(0, 30).remove(pp).len() == 29);
                }
            }
            lemma_key_index_bijective();
            assert forall|i: int, j: int| 0 <= i < j < 30 implies layout.keys()[i]
                != layout.keys()[j] by {
                assert(picks[i] != picks[j]);
                assert(key_of_index(picks[i]).index_spec() == picks[i]);
                assert(key_of_index(picks[j]).index_spec() == picks[j]);
            }
        }
        Ok(layout)
    }
}

/// A vector of 30 cleared flags.
fn thirty_flags() -> (v: Vec<bool>)
    ensures
        v@.len() == 30,
        forall|i: int| 0 <= i < 30 ==> !(#[trigger] v@[i]),
{
    let mut v: Vec<bool> = Vec::new();
    let mut i: usize = 0;
    while i < 30
        invariant
            i <= 30,
            v@.len() == i,
            forall|j: int| 0 <= j < i ==> !(#[trigger] v@[j]),
        decreases 30 - i,
    {
        v.push(false);
        i = i + 1;
    }
    v
}

/// A creator none of whose hint sources has seen a keystroke cannot produce
/// a layout: `create_layout` fails with `InsufficientDataError` rather than
/// handing back a default-filled grid.
pub proof fn lemma_fresh_creator_yields_no_layout(c: LayoutCreator)
    requires
        forall|i: int| 0 <= i < c.hints().len() ==> (#[trigger] c.hints()[i]).is_fresh(),
    ensures
        greedy_layout(c.grid()) is None,
{
    let g = c.grid();
    assert forall|p: int, k: int| 0 <= p < 30 && 0 <= k < 30 implies #[trigger] g(p, k) <= 0 by {
        lemma_fresh_hints_rank_zero(c.hints(), p / 10, p % 10, key_of_index(k));
    }
    lemma_no_positive_ranks_no_layout(g);
}

/// When, for every open position, one dedicated free key strictly outranks
/// every other key there, the greedy assignment succeeds and gives each open
/// position exactly its dedicated key.
///
/// `t` names the dedicated key index of each position index.
pub proof fn lemma_greedy_places_unambiguous_tops(
    g: RankGrid,
    t: spec_fn(int) -> int,
    used_p: Set<int>,
    used_k: Set<int>,
    n: nat,
)
    requires
        n <= 30,
        used_p.finite(),
        used_p.len() == 30 - n,
        forall|p: int| #[trigger] used_p.contains(p) ==> 0 <= p < 30,
        forall|p: int| 0 <= p < 30 ==> 0 <= #[trigger] t(p) < 30,
        forall|p1: int, p2: int|
            0 <= p1 < 30 && 0 <= p2 < 30 && p1 != p2 ==> #[trigger] t(p1) != #[trigger] t(p2),
        forall|p: int, k: int|
            0 <= p < 30 && 0 <= k < 30 && k != t(p) ==> #[trigger] g(p, k) < g(p, t(p)),
        forall|p: int|
            0 <= p < 30 && !used_p.contains(p) ==> !used_k.contains(#[trigger] t(p)) && g(p, t(p))
                > 0,
    ensures
        greedy_assign(g, used_p, used_k, n) matches Some(m) && (forall|p: int|
            0 <= p < 30 && !used_p.contains(p) ==> #[trigger] m.dom().contains(p) && m[p] == t(p)),
    decreases n,
{
    if n == 0 {
        // All 30 positions are already assigned: nothing is open.
        assert forall|p: int| 0 <= p < 30 implies used_p.contains(p) by {
            if !used_p.contains(p) {
                lemma_int_range(0, 30);
                assert(set_int_range(0, 30).remove(p).finite());
                assert(used_p.subset_of(set_int_range(0, 30).remove(p)));
                lemma_len_subset(used_p, set_int_range(0, 30).remove(p));
                assert(set_int_range(0, 30).remove(p).len() == 29);
            }
        }
    } else {
        // Some position is still open, and its dedicated key gives an
        // eligible, positively ranked pair; so the scan finds a best pair.
        assert(exists|p: int| 0 <= p < 30 && !used_p.contains(p)) by {
            if forall|p: int| 0 <= p < 30 ==> #[trigger] used_p.contains(p) {
                assert(set_int_range(0, 30).subset_of(used_p));
                lemma_len_subset(set_int_range(0, 30), used_p);
                lemma_int_range(0, 30);
                assert(false);
            }
        }
        let p0 = choose|p: int| 0 <= p < 30 && !used_p.contains(p);
        lemma_best_in_prefix_props(g, used_p, used_k, 900);
        assert(p0 * 30 + t(p0) < 900);
        assert(g(p0, t(p0)) > 0);
        let b = best_in_prefix(g, used_p, used_k, 900);
        assert(b is Some);
        let bp = b->Some_0.0;
        let bk = b->Some_0.1;
        // The best pair's key is the dedicated key of its position: the
        // dedicated pair is eligible too, and any other key is strictly
        // outranked by it.
        assert(bk == t(bp)) by {
            if bk != t(bp) {
                assert(g(bp, t(bp)) <= g(bp, bk));
                assert(g(bp, bk) < g(bp, t(bp)));
            }
        }
        lemma_greedy_places_unambiguous_tops(
            g,
            t,
            used_p.insert(bp),
            used_k.insert(bk),
            (n - 1) as nat,
        );
        let rest = greedy_assign(g, used_p.insert(bp), used_k.insert(bk), (n - 1) as nat);
        assert(rest is Some);
        let m = rest->Some_0.insert(bp, bk);
        assert(greedy_assign(g, used_p, used_k, n) == Some(m));
        assert forall|p: int|
            0 <= p < 30 && !used_p.contains(p) implies #[trigger] m.dom().contains(p) && m[p] == t(
            p,
        ) by {
            if p != bp {
                assert(!used_p.insert(bp).contains(p));
                assert(rest->Some_0.dom().contains(p) && rest->Some_0[p] == t(p));
            }
        }
    }
}

} // verus!
