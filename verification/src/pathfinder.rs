//! Shortest walking routes on the map.
//!
//! A route leads from one cell to another by steps to the north, east,
//! south or west, each onto a passable cell. The search explores the map
//! level by level: first the cells one step from the start, then those two
//! steps away, and so on, until no new cell is found.

use vstd::prelude::*;
use vstd::set_lib::{lemma_int_range, set_int_range};
use crate::geometry::Cell;
use crate::space::{cell_index, index_of, is_on_map, on_map};

verus! {

/// Number of cells of the map.
pub const MAP_CELLS: usize = 3440;

/// The distance of a cell that the search has not reached.
pub const UNSEEN: u32 = u32::MAX;

/// Which cells of the map can be walked onto.
pub struct Passability {
    pub open: Vec<bool>,
}

impl Passability {
    pub open spec fn wf(&self) -> bool {
        self.open@.len() == MAP_CELLS
    }

    /// Whether the cell can be walked onto; no cell off the map can.
    pub open spec fn passable(&self, c: Cell) -> bool {
        on_map(c) && self.open@[cell_index(c)]
    }

    /// A map on which no cell can be walked onto.
    pub fn new() -> (g: Passability)
        ensures
            g.wf(),
            forall|c: Cell| !g.passable(c),
    {
        let mut open: Vec<bool> = Vec::new();
        while open.len() < MAP_CELLS
            invariant
                open@.len() <= MAP_CELLS,
                forall|i: int| 0 <= i < open@.len() ==> !open@[i],
            decreases MAP_CELLS - open@.len(),
        {
            open.push(false);
        }
        Passability { open }
    }

    /// Records whether a cell of the map can be walked onto.
    pub fn set(&mut self, c: Cell, passable: bool)
        requires
            old(self).wf(),
            on_map(c),
        ensures
            final(self).wf(),
            final(self).passable(c) == passable,
            forall|q: Cell| q != c ==> final(self).passable(q) == old(self).passable(q),
    {
        let i = index_of(c);
        self.open[i] = passable;
        assert forall|q: Cell| q != c implies final(self).passable(q) == old(self).passable(q) by {
            if on_map(q) {
                assert(cell_index(q) != cell_index(c));
            }
        }
    }

    /// Tests whether the cell can be walked onto.
    pub fn is_passable(&self, c: Cell) -> (b: bool)
        requires
            self.wf(),
        ensures
            b == self.passable(c),
    {
        if is_on_map(c) {
            self.open[index_of(c)]
        } else {
            false
        }
    }
}

/// Whether two cells are one step apart: to the north, east, south or west.
pub open spec fn adjacent(a: Cell, b: Cell) -> bool {
    ||| (a.0 == b.0 && (a.1 - b.1 == 1 || b.1 - a.1 == 1))
    ||| (a.1 == b.1 && (a.0 - b.0 == 1 || b.0 - a.0 == 1))
}

/// Whether `route` can be walked from `from`: every cell of it is passable
/// and one step from the cell before it, the first one step from `from`.
pub open spec fn is_route(grid: &Passability, from: Cell, route: Seq<Cell>) -> bool {
    forall|i: int| 0 <= i < route.len() ==> #[trigger] step_ok(grid, from, route, i)
}

/// Whether the `i`-th cell of `route` is passable and one step from the
/// cell before it.
pub open spec fn step_ok(grid: &Passability, from: Cell, route: Seq<Cell>, i: int) -> bool {
    grid.passable(route[i]) && adjacent(
        if i == 0 {
            from
        } else {
            route[i - 1]
        },
        route[i],
    )
}

/// Whether `route` leads from `from` to `to`.
pub open spec fn joins(grid: &Passability, from: Cell, to: Cell, route: Seq<Cell>) -> bool {
    is_route(grid, from, route) && route.len() > 0 && route.last() == to
}

/// Whether `to` can be reached from `from` at all.
pub open spec fn reachable(grid: &Passability, from: Cell, to: Cell) -> bool {
    exists|route: Seq<Cell>| joins(grid, from, to, route)
}

/// What the search knows: for every cell reached, how many steps it is
/// from the start, and the cell it was reached from.
pub struct Search {
    pub dist: Vec<u32>,
    pub parent: Vec<Cell>,
    /// The places of the cells not reached yet.
    pub unseen: Ghost<Set<int>>,
}

impl Search {
    /// The number of steps from the start to a cell, if it was reached.
    pub open spec fn depth(&self, from: Cell, c: Cell) -> Option<int> {
        if c == from {
            Some(0int)
        } else if on_map(c) && self.dist@[cell_index(c)] != UNSEEN {
            Some(self.dist@[cell_index(c)] as int)
        } else {
            None
        }
    }

    /// Whether the cell was reached in at most `limit` steps.
    pub open spec fn within(&self, from: Cell, c: Cell, limit: int) -> bool {
        match self.depth(from, c) {
            Some(k) => k <= limit,
            None => false,
        }
    }

    /// Whether every passable neighbour of a cell that was reached was
    /// reached too, in at most one step more.
    pub open spec fn explored(&self, grid: &Passability, from: Cell, c: Cell) -> bool {
        forall|n: Cell|
            adjacent(c, n) && #[trigger] grid.passable(n) ==> self.within(
                from,
                n,
                self.depth(from, c).unwrap() + 1,
            )
    }

    /// What holds of the search while the cells `level` steps from the start
    /// are expanded.
    pub open spec fn inv(&self, grid: &Passability, from: Cell, level: int) -> bool {
        &&& self.dist@.len() == MAP_CELLS
        &&& self.parent@.len() == MAP_CELLS
        &&& self.unseen@.finite()
        &&& forall|i: int|
            self.unseen@.contains(i) <==> 0 <= i < MAP_CELLS && self.dist@[i] == UNSEEN
        &&& forall|c: Cell|
            on_map(c) && c != from && #[trigger] self.dist@[cell_index(c)] != UNSEEN ==> {
                &&& 1 <= self.dist@[cell_index(c)] <= level + 1
                &&& grid.passable(c)
                &&& adjacent(self.parent@[cell_index(c)], c)
                &&& self.depth(from, self.parent@[cell_index(c)]) == Some(
                    self.dist@[cell_index(c)] - 1,
                )
            }
    }

    /// A search that has reached the start only.
    fn new(Ghost(grid): Ghost<&Passability>, from: Cell) -> (s: Search)
        ensures
            s.inv(grid, from, 0),
            s.unseen@.len() == MAP_CELLS,
            forall|c: Cell| c != from ==> s.depth(from, c).is_none(),
    {
        let mut dist: Vec<u32> = Vec::new();
        let mut parent: Vec<Cell> = Vec::new();
        while dist.len() < MAP_CELLS
            invariant
                dist@.len() <= MAP_CELLS,
                parent@.len() == dist@.len(),
                forall|i: int| 0 <= i < dist@.len() ==> dist@[i] == UNSEEN,
            decreases MAP_CELLS - dist@.len(),
        {
            dist.push(UNSEEN);
            parent.push((0, 0));
        }
        proof {
            lemma_int_range(0, MAP_CELLS as int);
        }
        Search { dist, parent, unseen: Ghost(set_int_range(0, MAP_CELLS as int)) }
    }

    /// Looks at the cell `n`, one step from the cell `c` that is `level`
    /// steps from the start. If `n` is passable and new, it is reached from
    /// `c` and joins the next level.
    fn visit(
        &mut self,
        grid: &Passability,
        from: Cell,
        c: Cell,
        n: Cell,
        level: u32,
        next: &mut Vec<Cell>,
    )
        requires
            old(self).inv(grid, from, level as int),
            grid.wf(),
            level < MAP_CELLS + 2,
            old(self).depth(from, c) == Some(level as int),
            adjacent(c, n),
            forall|j: int|
                0 <= j < old(next)@.len() ==> old(self).depth(from, #[trigger] old(next)@[j])
                    == Some(level + 1),
            forall|q: Cell|
                old(self).depth(from, q) == Some(level + 1) ==> old(next)@.contains(q),
        ensures
            final(self).inv(grid, from, level as int),
            forall|q: Cell|
                old(self).depth(from, q).is_some() ==> final(self).depth(from, q) == old(self).depth(from, q),
            forall|q: Cell|
                old(self).depth(from, q).is_none() && final(self).depth(from, q).is_some()
                    ==> final(self).depth(from, q) == Some(level + 1),
            forall|q: Cell|
                q != n ==> final(self).depth(from, q) == old(self).depth(from, q),
            grid.passable(n) ==> final(self).within(from, n, level + 1),
            forall|j: int|
                0 <= j < final(next)@.len() ==> final(self).depth(from, #[trigger] final(next)@[j])
                    == Some(level + 1),
            forall|q: Cell|
                final(self).depth(from, q) == Some(level + 1) ==> final(next)@.contains(q),
            final(self).unseen@.len() + final(next)@.len() == old(self).unseen@.len() + old(next)@.len(),
    {
        if n.0 == from.0 && n.1 == from.1 {
            return ;
        }
        if !grid.is_passable(n) {
            return ;
        }
        let i = index_of(n);
        if self.dist[i] != UNSEEN {
            return ;
        }
        self.dist[i] = level + 1;
        self.parent[i] = c;
        self.unseen = Ghost(self.unseen@.remove(i as int));
        let ghost before = next@;
        next.push(n);
        proof {
            assert forall|q: Cell| q != n implies final(self).depth(from, q) == old(self).depth(
                from,
                q,
            ) by {
                if on_map(q) {
                    assert(cell_index(q) != cell_index(n));
                }
            }
            assert forall|q: Cell|
                on_map(q) && q != from && #[trigger] self.dist@[cell_index(q)]
                    != UNSEEN implies {
                &&& 1 <= self.dist@[cell_index(q)] <= level + 1
                &&& grid.passable(q)
                &&& adjacent(self.parent@[cell_index(q)], q)
                &&& self.depth(from, self.parent@[cell_index(q)]) == Some(
                    self.dist@[cell_index(q)] - 1,
                )
            } by {
                if q != n {
                    assert(cell_index(q) != cell_index(n));
                    assert(old(self).dist@[cell_index(q)] != UNSEEN);
                    let p = old(self).parent@[cell_index(q)];
                    assert(old(self).depth(from, p).is_some());
                }
            }
            assert forall|j: int| 0 <= j < next@.len() implies self.depth(
                from,
                #[trigger] next@[j],
            ) == Some(level + 1) by {
                if j < before.len() {
                    assert(next@[j] == before[j]);
                }
            }
            assert forall|q: Cell| self.depth(from, q) == Some(level + 1) implies next@.contains(
                q,
            ) by {
                if q == n {
                    assert(next@[before.len() as int] == n);
                } else {
                    assert(before.contains(q));
                    let j = choose|j: int| 0 <= j < before.len() && before[j] == q;
                    assert(next@[j] == q);
                }
            }
        }
    }

    /// Looks at the four neighbours of a cell that is `level` steps from the
    /// start.
    fn expand(&mut self, grid: &Passability, from: Cell, c: Cell, level: u32, next: &mut Vec<Cell>)
        requires
            old(self).inv(grid, from, level as int),
            grid.wf(),
            level < MAP_CELLS + 2,
            old(self).depth(from, c) == Some(level as int),
            forall|j: int|
                0 <= j < old(next)@.len() ==> old(self).depth(from, #[trigger] old(next)@[j])
                    == Some(level + 1),
            forall|q: Cell|
                old(self).depth(from, q) == Some(level + 1) ==> old(next)@.contains(q),
        ensures
            final(self).inv(grid, from, level as int),
            forall|q: Cell|
                old(self).depth(from, q).is_some() ==> final(self).depth(from, q) == old(self).depth(from, q),
            forall|q: Cell|
                old(self).depth(from, q).is_none() && final(self).depth(from, q).is_some()
                    ==> final(self).depth(from, q) == Some(level + 1),
            final(self).explored(grid, from, c),
            forall|j: int|
                0 <= j < final(next)@.len() ==> final(self).depth(from, #[trigger] final(next)@[j])
                    == Some(level + 1),
            forall|q: Cell|
                final(self).depth(from, q) == Some(level + 1) ==> final(next)@.contains(q),
            final(self).unseen@.len() + final(next)@.len() == old(self).unseen@.len() + old(next)@.len(),
    {
        if c.0 < i32::MAX {
            self.visit(grid, from, c, (c.0 + 1, c.1), level, next);
        }
        if c.0 > i32::MIN {
            self.visit(grid, from, c, (c.0 - 1, c.1), level, next);
        }
        if c.1 < i32::MAX {
            self.visit(grid, from, c, (c.0, c.1 + 1), level, next);
        }
        if c.1 > i32::MIN {
            self.visit(grid, from, c, (c.0, c.1 - 1), level, next);
        }
        proof {
            assert forall|n: Cell| adjacent(c, n) && #[trigger] grid.passable(n) implies self.within(
                from,
                n,
                self.depth(from, c).unwrap() + 1,
            ) by {
                assert((n.0 == c.0 + 1 && n.1 == c.1) || (n.0 == c.0 - 1 && n.1 == c.1) || (n.0
                    == c.0 && n.1 == c.1 + 1) || (n.0 == c.0 && n.1 == c.1 - 1));
            }
        }
    }
}

/// Where every cell that was reached is explored, the end of a route was
/// reached in at most as many steps as the route has.
pub proof fn lemma_route_bounded(
    search: &Search,
    grid: &Passability,
    from: Cell,
    route: Seq<Cell>,
    i: int,
)
    requires
        is_route(grid, from, route),
        0 <= i < route.len(),
        forall|c: Cell| search.depth(from, c).is_some() ==> search.explored(grid, from, c),
    ensures
        search.within(from, route[i], i + 1),
    decreases i,
{
    assert(step_ok(grid, from, route, i));
    if i == 0 {
        assert(search.explored(grid, from, from));
        assert(grid.passable(route[0]));
    } else {
        lemma_route_bounded(search, grid, from, route, i - 1);
        assert(search.explored(grid, from, route[i - 1]));
        assert(grid.passable(route[i]));
    }
}

/// A shortest route from `from` to `to`: its cells in the order in which
/// they are walked, `from` itself left out. The result is empty where the
/// two cells are the same, and where no route joins them.
pub fn find_route(grid: &Passability, from: Cell, to: Cell) -> (path: Vec<Cell>)
    requires
        grid.wf(),
    ensures
        from == to ==> path@.len() == 0,
        path@.len() > 0 ==> joins(grid, from, to, path@),
        forall|route: Seq<Cell>|
            path@.len() > 0 && joins(grid, from, to, route) ==> path@.len() <= route.len(),
        from != to && reachable(grid, from, to) ==> path@.len() > 0,
{
    if from.0 == to.0 && from.1 == to.1 {
        return Vec::new();
    }
    let mut search = Search::new(Ghost(grid), from);
    let mut frontier: Vec<Cell> = Vec::new();
    frontier.push(from);
    let mut level: u32 = 0;
    assert(frontier@[0] == from);
    while frontier.len() > 0
        invariant
            grid.wf(),
            search.inv(grid, from, level as int),
            forall|c: Cell|
                search.depth(from, c).is_some() ==> #[trigger] search.within(from, c, level as int),
            forall|c: Cell|
                search.depth(from, c).is_some() && !(search.depth(from, c) == Some(
                    level as int,
                )) ==> #[trigger] search.explored(grid, from, c),
            forall|j: int|
                0 <= j < frontier@.len() ==> search.depth(from, #[trigger] frontier@[j]) == Some(
                    level as int,
                ),
            forall|q: Cell| search.depth(from, q) == Some(level as int) ==> frontier@.contains(q),
            level + search.unseen@.len() + (if frontier@.len() > 0 {
                1int
            } else {
                0int
            }) <= MAP_CELLS + 1,
        decreases search.unseen@.len(), frontier@.len(),
    {
        let mut next: Vec<Cell> = Vec::new();
        let ghost unseen_before = search.unseen@.len();
        let mut k: usize = 0;
        proof {
            assert forall|q: Cell| search.depth(from, q) == Some(level + 1) implies next@.contains(
                q,
            ) by {
                assert(search.within(from, q, level as int));
            }
            assert forall|c: Cell|
                search.depth(from, c).is_some() && search.within(
                    from,
                    c,
                    level - 1,
                ) implies #[trigger] search.explored(grid, from, c) by {}
            assert forall|c: Cell| search.depth(from, c).is_some() implies #[trigger] search.within(
                from,
                c,
                level + 1,
            ) by {
                assert(search.within(from, c, level as int));
            }
        }
        while k < frontier.len()
            invariant
                grid.wf(),
                k <= frontier@.len(),
                level < MAP_CELLS + 2,
                search.inv(grid, from, level as int),
                forall|c: Cell|
                    search.depth(from, c).is_some() ==> #[trigger] search.within(
                        from,
                        c,
                        level + 1,
                    ),
                forall|c: Cell|
                    search.depth(from, c).is_some() && search.within(from, c, level - 1)
                        ==> #[trigger] search.explored(grid, from, c),
                forall|j: int|
                    0 <= j < frontier@.len() ==> search.depth(from, #[trigger] frontier@[j])
                        == Some(level as int),
                forall|j: int| 0 <= j < k ==> search.explored(grid, from, #[trigger] frontier@[j]),
                forall|q: Cell|
                    search.depth(from, q) == Some(level as int) ==> frontier@.contains(q),
                forall|j: int|
                    0 <= j < next@.len() ==> search.depth(from, #[trigger] next@[j]) == Some(
                        level + 1,
                    ),
                forall|q: Cell| search.depth(from, q) == Some(level + 1) ==> next@.contains(q),
                search.unseen@.len() + next@.len() == unseen_before,
            decreases frontier@.len() - k,
        {
            let c = frontier[k];
            let ghost before = search;
            search.expand(grid, from, c, level, &mut next);
            proof {
                assert forall|q: Cell|
                    search.depth(from, q).is_some() && search.within(
                        from,
                        q,
                        level - 1,
                    ) implies #[trigger] search.explored(grid, from, q) by {
                    assert(before.depth(from, q).is_some());
                    assert(before.explored(grid, from, q));
                    lemma_explored_stays(&before, &search, grid, from, q);
                }
                assert forall|j: int| 0 <= j < k + 1 implies search.explored(
                    grid,
                    from,
                    #[trigger] frontier@[j],
                ) by {
                    if j < k {
                        assert(before.explored(grid, from, frontier@[j]));
                        lemma_explored_stays(&before, &search, grid, from, frontier@[j]);
                    }
                }
            }
            k = k + 1;
        }
        proof {
            assert forall|c: Cell|
                search.depth(from, c).is_some() && !(search.depth(from, c) == Some(
                    level + 1,
                )) implies #[trigger] search.explored(grid, from, c) by {
                if search.depth(from, c) == Some(level as int) {
                    let j = choose|j: int| 0 <= j < frontier@.len() && frontier@[j] == c;
                    assert(search.explored(grid, from, frontier@[j]));
                } else {
                    assert(search.within(from, c, level + 1));
                    assert(search.within(from, c, level - 1));
                }
            }
        }
        frontier = next;
        level = level + 1;
    }
    proof {
        assert forall|c: Cell| search.depth(from, c).is_some() implies search.explored(
            grid,
            from,
            c,
        ) by {
            if search.depth(from, c) == Some(level as int) {
                assert(frontier@.contains(c));
            }
        }
    }
    if !is_on_map(to) || search.dist[index_of(to)] == UNSEEN {
        proof {
            assert(search.depth(from, to).is_none());
            assert forall|route: Seq<Cell>| !joins(grid, from, to, route) by {
                if joins(grid, from, to, route) {
                    lemma_route_bounded(&search, grid, from, route, route.len() - 1);
                }
            }
        }
        return Vec::new();
    }
    let steps: u32 = search.dist[index_of(to)];
    let ghost total = steps as int;
    // Walk back from the goal to the start.
    let mut back: Vec<Cell> = Vec::new();
    let mut cur = to;
    while back.len() < steps as usize
        invariant
            search.inv(grid, from, level as int),
            back@.len() <= total,
            total == steps,
            1 <= total,
            search.depth(from, cur) == Some(total - back@.len()),
            back@.len() > 0 ==> back@[0] == to && adjacent(cur, back@.last()),
            back@.len() == 0 ==> cur == to,
            forall|j: int| 0 <= j < back@.len() ==> grid.passable(#[trigger] back@[j]),
            forall|j: int| 0 < j < back@.len() ==> adjacent(#[trigger] back@[j], back@[j - 1]),
        decreases total - back@.len(),
    {
        assert(cur != from);
        assert(search.dist@[cell_index(cur)] != UNSEEN);
        back.push(cur);
        cur = search.parent[index_of(cur)];
    }
    assert(cur == from);
    // Turn the walk around.
    let mut path: Vec<Cell> = Vec::new();
    let mut i: usize = back.len();
    while i > 0
        invariant
            i <= back@.len(),
            back@.len() == total,
            path@.len() == total - i,
            forall|j: int| 0 <= j < path@.len() ==> path@[j] == back@[total - 1 - j],
        decreases i,
    {
        i = i - 1;
        path.push(back[i]);
    }
    proof {
        assert(path@.last() == to);
        assert forall|j: int| 0 <= j < path@.len() implies #[trigger] step_ok(
            grid,
            from,
            path@,
            j,
        ) by {
            assert(path@[j] == back@[total - 1 - j]);
            if j > 0 {
                assert(path@[j - 1] == back@[total - j]);
                assert(adjacent(back@[total - j], back@[total - j - 1]));
            }
        }
        assert forall|route: Seq<Cell>| joins(grid, from, to, route) implies path@.len()
            <= route.len() by {
            lemma_route_bounded(&search, grid, from, route, route.len() - 1);
        }
    }
    path
}

/// A cell that was explored stays explored as the search reaches more
/// cells.
proof fn lemma_explored_stays(
    before: &Search,
    after: &Search,
    grid: &Passability,
    from: Cell,
    c: Cell,
)
    requires
        before.depth(from, c).is_some(),
        before.explored(grid, from, c),
        forall|q: Cell|
            before.depth(from, q).is_some() ==> after.depth(from, q) == before.depth(from, q),
    ensures
        after.explored(grid, from, c),
{
    assert forall|n: Cell| adjacent(c, n) && #[trigger] grid.passable(n) implies after.within(
        from,
        n,
        after.depth(from, c).unwrap() + 1,
    ) by {
        assert(before.within(from, n, before.depth(from, c).unwrap() + 1));
    }
}

/// A cell walled in cannot be reached from outside: where `inside` holds
/// `to` but not `from`, and no cell of `inside` next to a cell outside it is
/// passable, no route joins the two.
pub proof fn lemma_enclosed_unreachable(
    grid: &Passability,
    from: Cell,
    to: Cell,
    inside: Set<Cell>,
)
    requires
        inside.contains(to),
        !inside.contains(from),
        forall|c: Cell, n: Cell|
            inside.contains(c) && !inside.contains(n) && adjacent(n, c) ==> !grid.passable(c),
    ensures
        !reachable(grid, from, to),
{
    if reachable(grid, from, to) {
        let route = choose|route: Seq<Cell>| joins(grid, from, to, route);
        lemma_first_inside(grid, from, route, inside, route.len() - 1);
    }
}

/// A route that ends inside a walled region starting outside it cannot be.
proof fn lemma_first_inside(
    grid: &Passability,
    from: Cell,
    route: Seq<Cell>,
    inside: Set<Cell>,
    i: int,
)
    requires
        is_route(grid, from, route),
        0 <= i < route.len(),
        !inside.contains(from),
        forall|c: Cell, n: Cell|
            inside.contains(c) && !inside.contains(n) && adjacent(n, c) ==> !grid.passable(c),
    ensures
        !inside.contains(route[i]),
    decreases i,
{
    assert(step_ok(grid, from, route, i));
    if i > 0 {
        lemma_first_inside(grid, from, route, inside, i - 1);
    }
}

} // verus!
