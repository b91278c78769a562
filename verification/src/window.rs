//! Sliding windows of the most recent items: the cells an agent stood on
//! last, which drive the recency penalty of the reward and the "recent
//! diversity" by which agents are judged, and the board's history lines.

use vstd::prelude::*;
use std::collections::VecDeque;
use crate::grid::GRID_SIZE;

verus! {

/// Window length of a bacterium.
pub const BACTERIA_WINDOW: usize = 500;
/// Window length of a food agent.
pub const FOOD_WINDOW: usize = 200;
/// Number of recent rewards over which fitness is averaged.
pub const REWARD_WINDOW: usize = 200;
/// Number of history lines the board keeps.
pub const HISTORY_WINDOW: usize = 100;

/// The last `n` elements of `s` (all of `s` when it is shorter).
pub open spec fn last_n<A>(s: Seq<A>, n: nat) -> Seq<A> {
    if s.len() <= n {
        s
    } else {
        s.subrange(s.len() - n, s.len() as int)
    }
}

/// The window after the positions `h` were pushed, one by one, into an empty
/// window of length `n`.
pub open spec fn window_after<A>(h: Seq<A>, n: nat) -> Seq<A>
    decreases h.len(),
{
    if h.len() == 0 {
        Seq::empty()
    } else {
        last_n(window_after(h.drop_last(), n).push(h.last()), n)
    }
}

/// How many times `x` occurs in `s`.
pub open spec fn occurrences_in(s: Seq<usize>, x: usize) -> nat
    decreases s.len(),
{
    if s.len() == 0 {
        0
    } else {
        occurrences_in(s.drop_last(), x) + if s.last() == x { 1nat } else { 0nat }
    }
}

/// How many of the cells `0..m` occur in `s`.
pub open spec fn present_below(s: Seq<usize>, m: int) -> nat
    decreases m,
{
    if m <= 0 {
        0
    } else {
        present_below(s, m - 1) + if s.contains((m - 1) as usize) { 1nat } else { 0nat }
    }
}

pub open spec fn all_in_grid(s: Seq<usize>) -> bool {
    forall|i: int| 0 <= i < s.len() ==> (#[trigger] s[i]) < GRID_SIZE
}

/// The most recent items, oldest first, at most `capacity` of them.
#[derive(Clone)]
pub struct RecentWindow<T> {
    cells: VecDeque<T>,
    cap: usize,
}

impl<T> View for RecentWindow<T> {
    type V = Seq<T>;

    closed spec fn view(&self) -> Seq<T> {
        self.cells@
    }
}

impl<T> RecentWindow<T> {
    /// The window never holds more than its capacity.
    pub closed spec fn wf(self) -> bool {
        self.cells@.len() <= self.cap
    }

    pub closed spec fn capacity(self) -> nat {
        self.cap as nat
    }

    /// An empty window that keeps the last `cap` items.
    pub fn new(cap: usize) -> (r: Self)
        ensures
            r@ == Seq::<T>::empty(),
            r.capacity() == cap,
            r.wf(),
    {
        RecentWindow { cells: VecDeque::new(), cap }
    }

    /// Adds `pos` as the newest item; the oldest one leaves the window when
    /// it is full.
    pub fn push(&mut self, pos: T)
        requires
            old(self).wf(),
        ensures
            final(self).wf(),
            final(self)@ == last_n(old(self)@.push(pos), old(self).capacity()),
            final(self).capacity() == old(self).capacity(),
            final(self)@.len() <= final(self).capacity(),
    {
        if self.cap == 0 {
            return;
        }
        if self.cells.len() == self.cap {
            let _ = self.cells.pop_front();
        }
        self.cells.push_back(pos);
        assert(self.cells@ =~= last_n(old(self)@.push(pos), old(self).capacity()));
    }

    pub fn len(&self) -> (r: usize)
        ensures
            r == self@.len(),
    {
        self.cells.len()
    }

    pub fn is_empty(&self) -> (r: bool)
        ensures
            r == (self@.len() == 0),
    {
        self.cells.len() == 0
    }

    /// The item at `i`, counting from the oldest.
    pub fn get(&self, i: usize) -> (r: &T)
        requires
            i < self@.len(),
        ensures
            *r == self@[i as int],
    {
        &self.cells[i]
    }
}

impl RecentWindow<usize> {
    /// How many times `pos` occurs in the window.
    pub fn occurrences(&self, pos: usize) -> (r: usize)
        ensures
            r == occurrences_in(self@, pos),
            r == self@.filter(|y: usize| y == pos).len(),
            r == match_indices(self@, pos).len(),
    {
        let n = self.cells.len();
        let mut count: usize = 0;
        let mut k: usize = 0;
        while k < n
            invariant
                n == self@.len(),
                k <= n,
                count == occurrences_in(self@.take(k as int), pos),
                count <= k,
            decreases n - k,
        {
            assert(self@.take(k + 1).drop_last() =~= self@.take(k as int));
            if self.cells[k] == pos {
                count = count + 1;
            }
            k = k + 1;
        }
        assert(self@.take(n as int) =~= self@);
        proof {
            lemma_occurrences_are_matches(self@, pos);
        }
        count
    }

    /// How many different cells the window holds.
    pub fn distinct_count(&self) -> (r: usize)
        requires
            all_in_grid(self@),
        ensures
            r == self@.to_set().len(),
            r == present_below(self@, GRID_SIZE as int),
    {
        let n = self.cells.len();
        let mut seen: Vec<bool> = vec![false; GRID_SIZE];
        let mut k: usize = 0;
        while k < n
            invariant
                n == self@.len(),
                all_in_grid(self@),
                k <= n,
                seen@.len() == GRID_SIZE,
                forall|c: int| 0 <= c < GRID_SIZE ==> #[trigger] seen@[c] == self@.take(k as int).contains(c as usize),
            decreases n - k,
        {
            let p = self.cells[k];
            seen.set(p, true);
            proof {
                assert forall|c: int| 0 <= c < GRID_SIZE implies #[trigger] seen@[c] == self@.take(k + 1).contains(c as usize) by {
                    let t = self@.take(k as int);
                    let t1 = self@.take(k + 1);
                    assert(t1 =~= t.push(p));
                    assert(t1[k as int] == p);
                    if t.contains(c as usize) {
                        let i = choose|i: int| 0 <= i < t.len() && t[i] == c as usize;
                        assert(t1[i] == c as usize);
                    }
                    if t1.contains(c as usize) {
                        let i = choose|i: int| 0 <= i < t1.len() && t1[i] == c as usize;
                        if i < k {
                            assert(t[i] == c as usize);
                        }
                    }
                }
            }
            k = k + 1;
        }
        assert(self@.take(n as int) =~= self@);
        let mut count: usize = 0;
        let mut c: usize = 0;
        while c < GRID_SIZE
            invariant
                c <= GRID_SIZE,
                seen@.len() == GRID_SIZE,
                forall|d: int| 0 <= d < GRID_SIZE ==> #[trigger] seen@[d] == self@.contains(d as usize),
                count == present_below(self@, c as int),
                count <= c,
            decreases GRID_SIZE - c,
        {
            if seen[c] {
                count = count + 1;
            }
            c = c + 1;
        }
        proof {
            lemma_present_below_is_set_len(self@, GRID_SIZE as int);
            assert(self@.to_set().filter(|x: usize| (x as int) < GRID_SIZE as int) =~= self@.to_set());
        }
        count
    }
}

/// The cells of `s` below `m` are as many as `present_below` counts.
proof fn lemma_present_below_is_set_len(s: Seq<usize>, m: int)
    requires
        0 <= m <= GRID_SIZE,
    ensures
        s.to_set().filter(|x: usize| (x as int) < m).finite(),
        present_below(s, m) == s.to_set().filter(|x: usize| (x as int) < m).len(),
    decreases m,
{
    let full = s.to_set();
    vstd::seq_lib::seq_to_set_is_finite(s);
    let cur = full.filter(|x: usize| (x as int) < m);
    vstd::set_lib::lemma_set_subset_finite(full, cur);
    if m == 0 {
        assert(cur =~= Set::<usize>::empty());
    } else {
        lemma_present_below_is_set_len(s, m - 1);
        let prev = full.filter(|x: usize| (x as int) < m - 1);
        let e = (m - 1) as usize;
        vstd::set_lib::lemma_set_subset_finite(full, prev);
        if s.contains(e) {
            assert(!prev.contains(e));
            assert(cur =~= prev.insert(e));
            assert(prev.insert(e).len() == prev.len() + 1);
        } else {
            assert(cur =~= prev);
        }
    }
}

/// Sum of the occurrence counts of the cells `0..m`.
pub open spec fn occurrences_total(s: Seq<usize>, m: int) -> nat
    decreases m,
{
    if m <= 0 {
        0
    } else {
        occurrences_total(s, m - 1) + occurrences_in(s, (m - 1) as usize)
    }
}

/// The indices of `s` that hold `x`.
pub open spec fn match_indices(s: Seq<usize>, x: usize) -> Set<int> {
    Set::new(|i: int| 0 <= i < s.len() && s[i] == x)
}

/// The occurrences of `x` counted by the window are its entries equal to `x`,
/// every one of them, the oldest included: as many as the filtered window
/// holds, and as many as the indices that hold `x`.
pub proof fn lemma_occurrences_are_matches(s: Seq<usize>, x: usize)
    ensures
        occurrences_in(s, x) == s.filter(|y: usize| y == x).len(),
        match_indices(s, x).finite(),
        occurrences_in(s, x) == match_indices(s, x).len(),
    decreases s.len(),
{
    reveal(Seq::filter);
    if s.len() == 0 {
        assert(match_indices(s, x) =~= Set::<int>::empty());
    } else {
        let p = s.drop_last();
        lemma_occurrences_are_matches(p, x);
        let last = s.len() - 1;
        if s.last() == x {
            assert(match_indices(s, x) =~= match_indices(p, x).insert(last));
            assert(!match_indices(p, x).contains(last));
        } else {
            assert(match_indices(s, x) =~= match_indices(p, x));
        }
    }
}

/// Every entry of the window is counted once, under its own cell: over the
/// cells `0..m`, the occurrence counts add up to the window's length.
pub proof fn lemma_occurrences_add_up(s: Seq<usize>, m: int)
    requires
        0 <= m <= usize::MAX as int + 1,
        forall|i: int| 0 <= i < s.len() ==> (#[trigger] s[i] as int) < m,
    ensures
        occurrences_total(s, m) == s.len(),
    decreases s.len(),
{
    if s.len() == 0 {
        lemma_occurrences_total_empty(s, m);
    } else {
        let t = s.drop_last();
        assert forall|i: int| 0 <= i < t.len() implies (#[trigger] t[i] as int) < m by {
            assert(t[i] == s[i]);
        }
        lemma_occurrences_add_up(t, m);
        lemma_occurrences_total_last(s, m);
    }
}

proof fn lemma_occurrences_total_empty(s: Seq<usize>, m: int)
    requires
        s.len() == 0,
    ensures
        occurrences_total(s, m) == 0,
    decreases m,
{
    if m > 0 {
        lemma_occurrences_total_empty(s, m - 1);
    }
}

proof fn lemma_occurrences_total_last(s: Seq<usize>, m: int)
    requires
        s.len() > 0,
        0 <= m <= usize::MAX as int + 1,
    ensures
        occurrences_total(s, m) == occurrences_total(s.drop_last(), m) + if (s.last() as int) < m { 1nat } else { 0nat },
    decreases m,
{
    if m > 0 {
        lemma_occurrences_total_last(s, m - 1);
    }
}

/// Whatever positions were pushed, the window holds exactly the last
/// `n` of them, oldest first.
pub proof fn lemma_window_holds_last<A>(h: Seq<A>, n: nat)
    ensures
        window_after(h, n) == last_n(h, n),
    decreases h.len(),
{
    if h.len() > 0 {
        lemma_window_holds_last(h.drop_last(), n);
        let p = h.drop_last();
        assert(p.push(h.last()) =~= h);
        if p.len() <= n {
            assert(last_n(p, n).push(h.last()) =~= h);
        } else {
            let w = last_n(p, n);
            assert(w.push(h.last()) =~= h.subrange(h.len() - 1 - n, h.len() as int));
            assert(last_n(w.push(h.last()), n) =~= last_n(h, n));
        }
    }
}

} // verus!
