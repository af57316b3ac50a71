//! The sparse store of live cells and the generation-step algorithm.
//!
//! Only live cells are stored; a coordinate absent from the store is dead.
//! A `Grid` is viewed in specifications as the set of live coordinates,
//! a `Set<(int, int)>`.

use vstd::prelude::*;

verus! {

/// One cell coordinate on the unbounded integer lattice.
#[derive(Clone, Copy, PartialEq, Eq, Structural, Debug, Hash)]
pub struct Cell {
    pub x: i64,
    pub y: i64,
}

impl View for Cell {
    type V = (int, int);

    open spec fn view(&self) -> (int, int) {
        (self.x as int, self.y as int)
    }
}

/// True when the sequence holds a cell at coordinate `p`.
pub open spec fn has_coord(s: Seq<Cell>, p: (int, int)) -> bool {
    exists|i: int| 0 <= i < s.len() && (#[trigger] s[i])@ == p
}

/// True when the first `j` cells of the sequence include coordinate `p`.
pub open spec fn has_coord_prefix(s: Seq<Cell>, j: int, p: (int, int)) -> bool {
    exists|i: int| 0 <= i < j && (#[trigger] s[i])@ == p
}

/// One if `live` holds `q`, zero otherwise.
pub open spec fn live_bit(live: Set<(int, int)>, q: (int, int)) -> int {
    if live.contains(q) {
        1
    } else {
        0
    }
}

/// How many of the eight Moore neighbors of `p` (the offsets (±1, ±1),
/// (±1, 0) and (0, ±1)) are alive in `live`.
pub open spec fn neighbor_count(live: Set<(int, int)>, p: (int, int)) -> int {
    live_bit(live, (p.0 - 1, p.1 - 1)) + live_bit(live, (p.0, p.1 - 1)) + live_bit(
        live,
        (p.0 + 1, p.1 - 1),
    ) + live_bit(live, (p.0 - 1, p.1)) + live_bit(live, (p.0 + 1, p.1)) + live_bit(
        live,
        (p.0 - 1, p.1 + 1),
    ) + live_bit(live, (p.0, p.1 + 1)) + live_bit(live, (p.0 + 1, p.1 + 1))
}

/// The Life rule: whether `p` is alive in the generation that follows the
/// live set `live`. A dead cell is born with exactly three live neighbors;
/// a live cell survives with two or three.
pub open spec fn alive_next(live: Set<(int, int)>, p: (int, int)) -> bool {
    if live.contains(p) {
        neighbor_count(live, p) == 2 || neighbor_count(live, p) == 3
    } else {
        neighbor_count(live, p) == 3
    }
}

/// The whole next generation of `live`.
pub open spec fn step_spec(live: Set<(int, int)>) -> Set<(int, int)> {
    Set::new(|p: (int, int)| alive_next(live, p))
}

/// `p` lies within Chebyshev distance one of `q`: `q` itself or one of its
/// eight Moore neighbors.
pub open spec fn in_neighborhood(q: (int, int), p: (int, int)) -> bool {
    q.0 - 1 <= p.0 <= q.0 + 1 && q.1 - 1 <= p.1 <= q.1 + 1
}

/// Some live cell of `live` has `p` at or around it.
pub open spec fn near_live(live: Set<(int, int)>, p: (int, int)) -> bool {
    exists|q: (int, int)| #[trigger] live.contains(q) && in_neighborhood(q, p)
}

/// Machine limit on stepping: the step algorithm probes the eight
/// coordinates around every cell that is live or adjacent to a live cell,
/// and those candidates lie within one unit of a live cell, so every live
/// coordinate must leave two units of headroom inside `i64`.
pub open spec fn step_safe(live: Set<(int, int)>) -> bool {
    forall|p: (int, int)| #[trigger] live.contains(p) ==> i64::MIN + 2 <= p.0 <= i64::MAX - 2
        && i64::MIN + 2 <= p.1 <= i64::MAX - 2
}

/// The cell's eight neighbors are representable: its coordinates leave
/// one unit of headroom inside `i64`.
pub open spec fn probe_range(c: Cell) -> bool {
    i64::MIN + 1 <= c.x as int <= i64::MAX - 1 && i64::MIN + 1 <= c.y as int <= i64::MAX - 1
}

/// A cell alive in the next generation lies in the neighborhood of some
/// currently live cell: a birth needs three live neighbors, and a survivor
/// is itself live.
pub proof fn lemma_alive_next_near_live(live: Set<(int, int)>, p: (int, int))
    requires
        alive_next(live, p),
    ensures
        near_live(live, p),
{
    if live.contains(p) {
        assert(live.contains(p) && in_neighborhood(p, p));
    } else if live.contains((p.0 - 1, p.1 - 1)) {
        assert(live.contains((p.0 - 1, p.1 - 1)) && in_neighborhood((p.0 - 1, p.1 - 1), p));
    } else if live.contains((p.0, p.1 - 1)) {
        assert(live.contains((p.0, p.1 - 1)) && in_neighborhood((p.0, p.1 - 1), p));
    } else if live.contains((p.0 + 1, p.1 - 1)) {
        assert(live.contains((p.0 + 1, p.1 - 1)) && in_neighborhood((p.0 + 1, p.1 - 1), p));
    } else if live.contains((p.0 - 1, p.1)) {
        assert(live.contains((p.0 - 1, p.1)) && in_neighborhood((p.0 - 1, p.1), p));
    } else if live.contains((p.0 + 1, p.1)) {
        assert(live.contains((p.0 + 1, p.1)) && in_neighborhood((p.0 + 1, p.1), p));
    } else if live.contains((p.0 - 1, p.1 + 1)) {
        assert(live.contains((p.0 - 1, p.1 + 1)) && in_neighborhood((p.0 - 1, p.1 + 1), p));
    } else if live.contains((p.0, p.1 + 1)) {
        assert(live.contains((p.0, p.1 + 1)) && in_neighborhood((p.0, p.1 + 1), p));
    } else if live.contains((p.0 + 1, p.1 + 1)) {
        assert(live.contains((p.0 + 1, p.1 + 1)) && in_neighborhood((p.0 + 1, p.1 + 1), p));
    } else {
        assert(neighbor_count(live, p) == 0);
    }
}

/// Linear search of a cell vector by coordinate.
fn vec_has_cell(v: &Vec<Cell>, c: Cell) -> (r: bool)
    ensures
        r == has_coord(v@, c@),
{
    let n = v.len();
    let mut i: usize = 0;
    while i < n
        invariant
            n == v@.len(),
            i <= n,
            forall|k: int| 0 <= k < i ==> (#[trigger] v@[k])@ != c@,
        decreases n - i,
    {
        if v[i].x == c.x && v[i].y == c.y {
            proof {
                assert(v@[i as int]@ == c@);
            }
            return true;
        }
        i += 1;
    }
    false
}

/// Appends `c` unless its coordinate is already present, keeping the
/// vector duplicate-free.
fn push_unique(v: &mut Vec<Cell>, c: Cell)
    requires
        old(v)@.no_duplicates(),
    ensures
        final(v)@.no_duplicates(),
        forall|p: (int, int)|
            #[trigger] has_coord(final(v)@, p) <==> (has_coord(old(v)@, p) || p == c@),
        forall|d: Cell| #[trigger] final(v)@.contains(d) ==> old(v)@.contains(d) || d == c,
{
    if !vec_has_cell(v, c) {
        v.push(c);
        proof {
            assert forall|k: int|
                0 <= k < old(v)@.len() implies #[trigger] old(v)@[k] != c by {
                if old(v)@[k] == c {
                    assert(old(v)@[k]@ == c@);
                }
            }
            assert(v@ == old(v)@.push(c));
            assert(v@.no_duplicates());
            assert forall|p: (int, int)|
                #[trigger] has_coord(v@, p) <==> (has_coord(old(v)@, p) || p == c@) by {
                lemma_has_coord_push(old(v)@, c, p);
            }
            assert forall|d: Cell| #[trigger] v@.contains(d) implies old(v)@.contains(
                d,
            ) || d == c by {
                let k = choose|k: int| 0 <= k < v@.len() && v@[k] == d;
                if k < old(v)@.len() {
                    assert(old(v)@[k] == d);
                }
            }
        }
    }
}

/// The sparse set of live cells. Absence means dead.
pub struct Grid {
    cells: Vec<Cell>,
}

impl View for Grid {
    type V = Set<(int, int)>;

    closed spec fn view(&self) -> Set<(int, int)> {
        Set::new(|p: (int, int)| has_coord(self.cells@, p))
    }
}

/// Pushing a cell extends the coordinates a sequence holds by exactly
/// that cell's coordinate.
proof fn lemma_has_coord_push(s: Seq<Cell>, c: Cell, p: (int, int))
    ensures
        has_coord(s.push(c), p) <==> (has_coord(s, p) || p == c@),
{
    if has_coord(s.push(c), p) {
        let i = choose|i: int| 0 <= i < s.push(c).len() && (#[trigger] s.push(c)[i])@ == p;
        if i < s.len() {
            assert(s[i]@ == p);
        } else {
            assert(s.push(c)[i] == c);
        }
    }
    if has_coord(s, p) {
        let i = choose|i: int| 0 <= i < s.len() && (#[trigger] s[i])@ == p;
        assert(s.push(c)[i]@ == p);
    }
    if p == c@ {
        assert(s.push(c)[s.len() as int]@ == p);
    }
}

impl Grid {
    /// The backing vector never stores the same coordinate twice, so the
    /// dead-cells-are-absent sparsity invariant has a unique representation.
    pub closed spec fn wf(&self) -> bool {
        self.cells@.no_duplicates()
    }

    /// A fresh grid: every coordinate is dead.
    pub fn new() -> (g: Grid)
        ensures
            g.wf(),
            g@ == Set::<(int, int)>::empty(),
    {
        let g = Grid { cells: Vec::new() };
        proof {
            assert(g@ =~= Set::<(int, int)>::empty());
        }
        g
    }

    /// Pure query: true iff `c` is currently alive.
    pub fn is_alive(&self, c: Cell) -> (r: bool)
        ensures
            r == self@.contains(c@),
    {
        let n = self.cells.len();
        let mut i: usize = 0;
        while i < n
            invariant
                n == self.cells@.len(),
                i <= n,
                forall|k: int| 0 <= k < i ==> (#[trigger] self.cells@[k])@ != c@,
            decreases n - i,
        {
            if self.cells[i].x == c.x && self.cells[i].y == c.y {
                proof {
                    assert(self.cells@[i as int]@ == c@);
                    assert(has_coord(self.cells@, c@));
                }
                return true;
            }
            i += 1;
        }
        proof {
            assert(!has_coord(self.cells@, c@));
        }
        false
    }

    /// Marks `c` alive. Idempotent: inserting a live coordinate again
    /// leaves the live set unchanged.
    pub fn set_alive(&mut self, c: Cell)
        requires
            old(self).wf(),
        ensures
            final(self).wf(),
            final(self)@ == old(self)@.insert(c@),
    {
        if !self.is_alive(c) {
            self.cells.push(c);
            proof {
                assert forall|k: int| 0 <= k < old(self).cells@.len() implies
                    #[trigger] old(self).cells@[k] != c by {
                    if old(self).cells@[k] == c {
                        assert(old(self).cells@[k]@ == c@);
                    }
                }
                assert(self.cells@ == old(self).cells@.push(c));
                assert(self.cells@.no_duplicates());
                assert(self@ =~= old(self)@.insert(c@)) by {
                    assert forall|p: (int, int)| #[trigger] self@.contains(p)
                        implies old(self)@.insert(c@).contains(p) by {
                        lemma_has_coord_push(old(self).cells@, c, p);
                    }
                    assert forall|p: (int, int)| #[trigger] old(self)@.insert(c@).contains(p)
                        implies self@.contains(p) by {
                        lemma_has_coord_push(old(self).cells@, c, p);
                    }
                }
            }
        } else {
            proof {
                assert(self@ =~= old(self)@.insert(c@));
            }
        }
    }

    /// Marks `c` dead. Idempotent: removing an absent coordinate is a no-op.
    pub fn set_dead(&mut self, c: Cell)
        requires
            old(self).wf(),
        ensures
            final(self).wf(),
            final(self)@ == old(self)@.remove(c@),
    {
        let n = self.cells.len();
        let mut i: usize = 0;
        while i < n
            invariant
                self == old(self),
                n == self.cells@.len(),
                i <= n,
                old(self).wf(),
                forall|k: int| 0 <= k < i ==> (#[trigger] self.cells@[k])@ != c@,
            decreases n - i,
        {
            if self.cells[i].x == c.x && self.cells[i].y == c.y {
                proof {
                    assert(self.cells@[i as int]@ == c@);
                }
                self.cells.remove(i);
                proof {
                    lemma_remove_at(old(self).cells@, i as int, c@);
                    assert(self@ =~= old(self)@.remove(c@)) by {
                        assert forall|p: (int, int)| #[trigger] self@.contains(p)
                            implies old(self)@.remove(c@).contains(p) by {}
                        assert forall|p: (int, int)| #[trigger] old(self)@.remove(c@).contains(p)
                            implies self@.contains(p) by {}
                    }
                }
                return;
            }
            i += 1;
        }
        proof {
            assert(!has_coord(self.cells@, c@));
            assert(self@ =~= old(self)@.remove(c@));
        }
    }

    /// A snapshot of every live cell, each coordinate exactly once, for
    /// external rendering. Does not change the grid.
    pub fn live_cells(&self) -> (v: Vec<Cell>)
        requires
            self.wf(),
        ensures
            forall|k: int| 0 <= k < v@.len() ==> self@.contains((#[trigger] v@[k])@),
            forall|p: (int, int)| self@.contains(p) ==> has_coord(v@, p),
            v@.no_duplicates(),
    {
        let n = self.cells.len();
        let mut v: Vec<Cell> = Vec::new();
        let mut i: usize = 0;
        while i < n
            invariant
                n == self.cells@.len(),
                i <= n,
                self.wf(),
                v@ == self.cells@.subrange(0, i as int),
            decreases n - i,
        {
            v.push(self.cells[i]);
            proof {
                assert(v@ =~= self.cells@.subrange(0, i + 1 as int));
            }
            i += 1;
        }
        proof {
            assert(v@ =~= self.cells@);
        }
        v
    }

    /// Every live cell together with its eight neighbors, each coordinate
    /// at most once: exactly the coordinates the Life rule has to look at.
    fn collect_candidates(&self) -> (cands: Vec<Cell>)
        requires
            self.wf(),
            step_safe(self@),
        ensures
            cands@.no_duplicates(),
            forall|k: int| 0 <= k < cands@.len() ==> probe_range(#[trigger] cands@[k]),
            forall|p: (int, int)| near_live(self@, p) ==> #[trigger] has_coord(cands@, p),
    {
        let n = self.cells.len();
        let mut cands: Vec<Cell> = Vec::new();
        let mut i: usize = 0;
        while i < n
            invariant
                n == self.cells@.len(),
                i <= n,
                self.wf(),
                step_safe(self@),
                cands@.no_duplicates(),
                forall|k: int| 0 <= k < cands@.len() ==> probe_range(#[trigger] cands@[k]),
                forall|j: int, p: (int, int)|
                    0 <= j < i && #[trigger] in_neighborhood((#[trigger] self.cells@[j])@, p)
                        ==> has_coord(cands@, p),
            decreases n - i,
        {
            let c = self.cells[i];
            proof {
                assert(self@.contains(c@));
            }
            let c00 = Cell { x: c.x - 1, y: c.y - 1 };
            let c10 = Cell { x: c.x, y: c.y - 1 };
            let c20 = Cell { x: c.x + 1, y: c.y - 1 };
            let c01 = Cell { x: c.x - 1, y: c.y };
            let c11 = Cell { x: c.x, y: c.y };
            let c21 = Cell { x: c.x + 1, y: c.y };
            let c02 = Cell { x: c.x - 1, y: c.y + 1 };
            let c12 = Cell { x: c.x, y: c.y + 1 };
            let c22 = Cell { x: c.x + 1, y: c.y + 1 };
            push_unique(&mut cands, c00);
            push_unique(&mut cands, c10);
            push_unique(&mut cands, c20);
            push_unique(&mut cands, c01);
            push_unique(&mut cands, c11);
            push_unique(&mut cands, c21);
            push_unique(&mut cands, c02);
            push_unique(&mut cands, c12);
            push_unique(&mut cands, c22);
            proof {
                assert forall|k: int| 0 <= k < cands@.len() implies probe_range(
                    #[trigger] cands@[k],
                ) by {
                    assert(cands@.contains(cands@[k]));
                }
                assert forall|j: int, p: (int, int)|
                    0 <= j < i + 1 && #[trigger] in_neighborhood(
                        (#[trigger] self.cells@[j])@,
                        p,
                    ) implies has_coord(cands@, p) by {
                    if j == i {
                        assert(p == c00@ || p == c10@ || p == c20@ || p == c01@ || p == c11@
                            || p == c21@ || p == c02@ || p == c12@ || p == c22@);
                    }
                }
            }
            i += 1;
        }
        proof {
            assert forall|p: (int, int)| near_live(self@, p) implies #[trigger] has_coord(
                cands@,
                p,
            ) by {
                let q = choose|q: (int, int)| #[trigger] self@.contains(q) && in_neighborhood(q, p);
                let j = choose|j: int|
                    0 <= j < self.cells@.len() && (#[trigger] self.cells@[j])@ == q;
                assert(in_neighborhood(self.cells@[j]@, p));
            }
        }
        cands
    }

    /// Counts the live cells among the eight Moore neighbors of `c`.
    fn count_neighbors(&self, c: Cell) -> (n: u8)
        requires
            probe_range(c),
        ensures
            n as int == neighbor_count(self@, c@),
    {
        let mut n: u8 = 0;
        if self.is_alive(Cell { x: c.x - 1, y: c.y - 1 }) {
            n += 1;
        }
        if self.is_alive(Cell { x: c.x, y: c.y - 1 }) {
            n += 1;
        }
        if self.is_alive(Cell { x: c.x + 1, y: c.y - 1 }) {
            n += 1;
        }
        if self.is_alive(Cell { x: c.x - 1, y: c.y }) {
            n += 1;
        }
        if self.is_alive(Cell { x: c.x + 1, y: c.y }) {
            n += 1;
        }
        if self.is_alive(Cell { x: c.x - 1, y: c.y + 1 }) {
            n += 1;
        }
        if self.is_alive(Cell { x: c.x, y: c.y + 1 }) {
            n += 1;
        }
        if self.is_alive(Cell { x: c.x + 1, y: c.y + 1 }) {
            n += 1;
        }
        n
    }

    /// Builds the next generation as a fresh, duplicate-free cell vector,
    /// reading but not changing the current one.
    fn compute_next(&self) -> (next: Vec<Cell>)
        requires
            self.wf(),
            step_safe(self@),
        ensures
            next@.no_duplicates(),
            forall|p: (int, int)| #[trigger] has_coord(next@, p) <==> alive_next(self@, p),
    {
        let cands = self.collect_candidates();
        let m = cands.len();
        let mut next: Vec<Cell> = Vec::new();
        let mut j: usize = 0;
        while j < m
            invariant
                m == cands@.len(),
                j <= m,
                self.wf(),
                step_safe(self@),
                cands@.no_duplicates(),
                forall|k: int| 0 <= k < cands@.len() ==> probe_range(#[trigger] cands@[k]),
                forall|p: (int, int)| near_live(self@, p) ==> #[trigger] has_coord(cands@, p),
                next@.no_duplicates(),
                forall|p: (int, int)|
                    #[trigger] has_coord(next@, p) <==> (alive_next(self@, p) && has_coord_prefix(
                        cands@,
                        j as int,
                        p,
                    )),
            decreases m - j,
        {
            let c = cands[j];
            let n = self.count_neighbors(c);
            let live = self.is_alive(c);
            let keep = if live {
                n == 2 || n == 3
            } else {
                n == 3
            };
            proof {
                assert(keep == alive_next(self@, c@));
            }
            if keep {
                proof {
                    assert(!has_coord(next@, c@)) by {
                        if has_coord(next@, c@) {
                            let k = choose|k: int|
                                0 <= k < j && (#[trigger] cands@[k])@ == c@;
                            assert(cands@[k]@ == cands@[j as int]@);
                            assert(cands@[k] == cands@[j as int]);
                        }
                    }
                    assert forall|k: int|
                        0 <= k < next@.len() implies #[trigger] next@[k] != c by {
                        if next@[k] == c {
                            assert(next@[k]@ == c@);
                            assert(has_coord(next@, c@));
                        }
                    }
                }
                let ghost next_before = next@;
                next.push(c);
                proof {
                    assert(next@.no_duplicates());
                    assert forall|p: (int, int)|
                        #[trigger] has_coord(next@, p) <==> (alive_next(self@, p)
                            && has_coord_prefix(cands@, j + 1 as int, p)) by {
                        lemma_has_coord_push(next_before, c, p);
                        if has_coord_prefix(cands@, j + 1 as int, p) && p != c@ {
                            let k = choose|k: int|
                                0 <= k < j + 1 && (#[trigger] cands@[k])@ == p;
                            assert(k != j);
                            assert(has_coord_prefix(cands@, j as int, p));
                        }
                        if p == c@ {
                            assert(cands@[j as int]@ == p);
                            assert(has_coord_prefix(cands@, j + 1 as int, p));
                        }
                        if has_coord_prefix(cands@, j as int, p) {
                            let k = choose|k: int| 0 <= k < j && (#[trigger] cands@[k])@ == p;
                            assert(has_coord_prefix(cands@, j + 1 as int, p));
                        }
                    }
                }
            } else {
                proof {
                    assert forall|p: (int, int)|
                        #[trigger] has_coord(next@, p) <==> (alive_next(self@, p)
                            && has_coord_prefix(cands@, j + 1 as int, p)) by {
                        if alive_next(self@, p) && has_coord_prefix(cands@, j + 1 as int, p) {
                            let k = choose|k: int|
                                0 <= k < j + 1 && (#[trigger] cands@[k])@ == p;
                            assert(k != j);
                            assert(has_coord_prefix(cands@, j as int, p));
                        }
                        if alive_next(self@, p) && has_coord_prefix(cands@, j as int, p) {
                            let k = choose|k: int| 0 <= k < j && (#[trigger] cands@[k])@ == p;
                            assert(has_coord_prefix(cands@, j + 1 as int, p));
                        }
                    }
                }
            }
            j += 1;
        }
        proof {
            assert forall|p: (int, int)|
                #[trigger] has_coord(next@, p) <==> alive_next(self@, p) by {
                if alive_next(self@, p) {
                    lemma_alive_next_near_live(self@, p);
                    assert(has_coord(cands@, p));
                    let k = choose|k: int|
                        0 <= k < cands@.len() && (#[trigger] cands@[k])@ == p;
                    assert(has_coord_prefix(cands@, m as int, p));
                }
                if has_coord(next@, p) {
                    assert(alive_next(self@, p));
                }
            }
        }
        next
    }

    /// Advances the automaton by exactly one generation: applies the Life
    /// rule to every relevant coordinate against the pre-step grid, then
    /// replaces the live set atomically with the result.
    pub fn step(&mut self)
        requires
            old(self).wf(),
            step_safe(old(self)@),
        ensures
            final(self).wf(),
            final(self)@ == step_spec(old(self)@),
    {
        let next = self.compute_next();
        self.cells = next;
        proof {
            assert(self@ =~= step_spec(old(self)@));
        }
    }
}

/// Removing the one index that carries coordinate `cp` from a
/// duplicate-free sequence removes exactly that coordinate, and keeps the
/// sequence duplicate-free.
proof fn lemma_remove_at(s: Seq<Cell>, i: int, cp: (int, int))
    requires
        s.no_duplicates(),
        0 <= i < s.len(),
        s[i]@ == cp,
    ensures
        s.remove(i).no_duplicates(),
        forall|p: (int, int)| has_coord(s.remove(i), p) <==> (has_coord(s, p) && p != cp),
{
    s.remove_ensures(i);
    assert forall|p: (int, int)| has_coord(s.remove(i), p) implies (has_coord(s, p) && p != cp) by {
        let k = choose|k: int| 0 <= k < s.remove(i).len() && (#[trigger] s.remove(i)[k])@ == p;
        if k < i {
            assert(s[k]@ == p);
            if p == cp {
                assert(s[k]@ == s[i]@);
                assert(s[k].x as int == s[i].x as int && s[k].y as int == s[i].y as int);
                assert(s[k] == s[i]);
            }
        } else {
            assert(s[k + 1]@ == p);
            if p == cp {
                assert(s[k + 1]@ == s[i]@);
                assert(s[k + 1] == s[i]);
            }
        }
    }
    assert forall|p: (int, int)| has_coord(s, p) && p != cp implies has_coord(s.remove(i), p) by {
        let k = choose|k: int| 0 <= k < s.len() && (#[trigger] s[k])@ == p;
        if k < i {
            assert(s.remove(i)[k]@ == p);
        } else if k > i {
            assert(s.remove(i)[k - 1]@ == p);
        }
    }
}

} // verus!
