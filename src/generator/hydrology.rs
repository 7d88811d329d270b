use vstd::prelude::*;

use crate::biomes::Biomes;
use crate::helper::{get_tile, set_tile_type};
use crate::MapData;

verus! {

use crate::biomes::Biome;
use crate::helper::{
    count_kind, grid_view, kind_at, lemma_count_kind_bound, lemma_count_kind_gain, valid_cell,
    well_formed, with_kind, MAX_MAP_SIZE,
};

/// `(x, y)` is reached from the corner `(0, 0)` in at most `steps` cardinal
/// steps through cells of kind `k` only.
pub open spec fn reach(g: Seq<Seq<Biome>>, k: Biomes, steps: nat, x: int, y: int) -> bool
    decreases steps,
{
    &&& valid_cell(g.len() as int, x, y)
    &&& kind_at(g, x, y) == k
    &&& ((x == 0 && y == 0) || (steps > 0 && (reach(g, k, (steps - 1) as nat, x - 1, y) || reach(
        g,
        k,
        (steps - 1) as nat,
        x + 1,
        y,
    ) || reach(g, k, (steps - 1) as nat, x, y - 1) || reach(g, k, (steps - 1) as nat, x, y + 1))))
}

/// `(x, y)` is joined to the corner `(0, 0)` by a 4-connected path of cells of
/// kind `k`.
pub open spec fn connected(g: Seq<Seq<Biome>>, k: Biomes, x: int, y: int) -> bool {
    exists|steps: nat| #[trigger] reach(g, k, steps, x, y)
}

/// Every untouched cell joined to the corner through untouched cells takes
/// kind `biome`.
pub open spec fn flood_spec(g: Seq<Seq<Biome>>, biome: Biomes) -> Seq<Seq<Biome>> {
    Seq::new(
        g.len(),
        |x: int|
            Seq::new(
                g[x].len(),
                |y: int|
                    if connected(g, Biomes::Void, x, y) {
                        with_kind(g[x][y], biome)
                    } else {
                        g[x][y]
                    },
            ),
    )
}

pub open spec fn bool_view(v: Vec<Vec<bool>>) -> Seq<Seq<bool>> {
    v@.map_values(|r: Vec<bool>| r@)
}

pub open spec fn pending(q: Seq<(i64, i64)>, head: int, x: int, y: int) -> bool {
    exists|i: int| head <= i < q.len() && q[i] == (x as i64, y as i64)
}

/// A cell that is off the map, already visited, or still waiting in the queue.
pub open spec fn covered(vw: Seq<Seq<bool>>, q: Seq<(i64, i64)>, head: int, n: int, x: int, y: int) -> bool {
    !valid_cell(n, x, y) || vw[x][y] || pending(q, head, x, y)
}

pub open spec fn adjacent(a: (int, int), b: (int, int)) -> bool {
    (a.0 == b.0 && (a.1 == b.1 + 1 || a.1 == b.1 - 1)) || (a.1 == b.1 && (a.0 == b.0 + 1 || a.0
        == b.0 - 1))
}

/// Popping the head of the queue keeps every covered cell covered, provided
/// the popped cell is off the map or visited afterwards.
proof fn lemma_covered_after_pop(
    vw0: Seq<Seq<bool>>,
    vw: Seq<Seq<bool>>,
    q0: Seq<(i64, i64)>,
    q: Seq<(i64, i64)>,
    old_head: int,
    n: int,
)
    requires
        0 <= old_head < q0.len(),
        n <= MAX_MAP_SIZE,
        q0.len() <= q.len(),
        forall|i: int| 0 <= i < q0.len() ==> q[i] == q0[i],
        forall|a: int, b: int| valid_cell(n, a, b) && vw0[a][b] ==> vw[a][b],
        valid_cell(n, q0[old_head].0 as int, q0[old_head].1 as int) ==> vw[q0[old_head].0 as int][q0[old_head].1 as int],
    ensures
        forall|a: int, b: int|
            #![trigger covered(vw0, q0, old_head, n, a, b)]
            covered(vw0, q0, old_head, n, a, b) ==> covered(vw, q, old_head + 1, n, a, b),
{
    assert forall|a: int, b: int|
        #![trigger covered(vw0, q0, old_head, n, a, b)]
        covered(vw0, q0, old_head, n, a, b) implies covered(vw, q, old_head + 1, n, a, b) by {
        if valid_cell(n, a, b) && !vw0[a][b] && !vw[a][b] {
            let i = choose|i: int| old_head <= i < q0.len() && q0[i] == (a as i64, b as i64);
            if i == old_head {
                assert(q0[old_head].0 as int == a && q0[old_head].1 as int == b);
            } else {
                assert(q[i] == q0[i]);
            }
        }
    }
}

/// Reads one flag of a matrix of flags.
fn get_flag(v: &Vec<Vec<bool>>, x: usize, y: usize) -> (r: bool)
    requires
        x < bool_view(*v).len(),
        y < bool_view(*v)[x as int].len(),
    ensures
        r == bool_view(*v)[x as int][y as int],
{
    v[x][y]
}

/// Raises one flag of a matrix of flags.
fn set_flag(v: &mut Vec<Vec<bool>>, x: usize, y: usize)
    requires
        x < bool_view(*old(v)).len(),
        y < bool_view(*old(v))[x as int].len(),
    ensures
        bool_view(*final(v)) == bool_view(*old(v)).update(
            x as int,
            bool_view(*old(v))[x as int].update(y as int, true),
        ),
{
    v[x][y] = true;
    proof {
        assert(bool_view(*v) =~~= bool_view(*old(v)).update(
            x as int,
            bool_view(*old(v))[x as int].update(y as int, true),
        ));
    }
}

proof fn lemma_reach_closed(g: Seq<Seq<Biome>>, vw: Seq<Seq<bool>>, n: int, steps: nat, x: int, y: int)
    requires
        g.len() == n,
        n >= 1,
        vw[0][0] || kind_at(g, 0, 0) != Biomes::Void,
        forall|a: int, b: int|
            valid_cell(n, a, b) && #[trigger] vw[a][b] && kind_at(g, a, b) == Biomes::Void ==> {
                &&& (valid_cell(n, a + 1, b) ==> vw[a + 1][b])
                &&& (valid_cell(n, a - 1, b) ==> vw[a - 1][b])
                &&& (valid_cell(n, a, b + 1) ==> vw[a][b + 1])
                &&& (valid_cell(n, a, b - 1) ==> vw[a][b - 1])
            },
    ensures
        reach(g, Biomes::Void, steps, x, y) ==> vw[x][y],
    decreases steps,
{
    reveal_with_fuel(reach, 2);
    if reach(g, Biomes::Void, steps, x, y) && x == 0 && y == 0 {
        assert(kind_at(g, 0, 0) == Biomes::Void);
    }
    if reach(g, Biomes::Void, steps, x, y) && !(x == 0 && y == 0) {
        let s = (steps - 1) as nat;
        lemma_reach_closed(g, vw, n, s, x - 1, y);
        lemma_reach_closed(g, vw, n, s, x + 1, y);
        lemma_reach_closed(g, vw, n, s, x, y - 1);
        lemma_reach_closed(g, vw, n, s, x, y + 1);
        assert(valid_cell(n, x, y));
        if reach(g, Biomes::Void, s, x - 1, y) {
            assert(vw[x - 1][y]);
            assert(valid_cell(n, (x - 1) + 1, y));
        } else if reach(g, Biomes::Void, s, x + 1, y) {
            assert(vw[x + 1][y]);
            assert(valid_cell(n, (x + 1) - 1, y));
        } else if reach(g, Biomes::Void, s, x, y - 1) {
            assert(vw[x][y - 1]);
            assert(valid_cell(n, x, (y - 1) + 1));
        } else {
            assert(vw[x][y + 1]);
            assert(valid_cell(n, x, (y + 1) - 1));
        }
    }
}

/// Breadth-first fill from the corner `(0, 0)`: every untouched cell joined
/// to it through untouched cells takes kind `biome`.
pub fn flood_fill(map_data: &mut MapData, biome: Biomes)
    requires
        well_formed(grid_view(*old(map_data)), old(map_data)@.len() as int),
        1 <= old(map_data)@.len() <= MAX_MAP_SIZE,
        biome != Biomes::Void,
        count_kind(grid_view(*old(map_data)), biome) == 0,
    ensures
        final(map_data)@.len() == old(map_data)@.len(),
        well_formed(grid_view(*final(map_data)), old(map_data)@.len() as int),
        grid_view(*final(map_data)) == flood_spec(grid_view(*old(map_data)), biome),
{
    let ghost g0 = grid_view(*map_data);
    let ghost n = g0.len() as int;
    let size = map_data.len();
    let rows = size as i64;
    let mut visited: Vec<Vec<bool>> = Vec::new();
    let mut x: usize = 0;
    while x < size
        invariant
            x <= size,
            size == n,
            g0 == grid_view(*map_data),
            well_formed(g0, n),
            visited@.len() == x,
            forall|a: int| 0 <= a < x ==> #[trigger] bool_view(visited)[a].len() == n,
            forall|a: int, b: int|
                0 <= a < x && 0 <= b < n ==> #[trigger] bool_view(visited)[a][b] == (kind_at(g0, a, b)
                    != Biomes::Void),
        decreases size - x,
    {
        let mut row: Vec<bool> = Vec::new();
        let mut y: usize = 0;
        while y < size
            invariant
                x < size,
                y <= size,
                size == n,
                g0 == grid_view(*map_data),
                well_formed(g0, n),
                row@.len() == y,
                forall|b: int| 0 <= b < y ==> #[trigger] row@[b] == (kind_at(g0, x as int, b) != Biomes::Void),
            decreases size - y,
        {
            row.push(get_tile(map_data, x, y).tile_type != Biomes::Void);
            y += 1;
        }
        let ghost before = bool_view(visited);
        visited.push(row);
        proof {
            assert forall|a: int| 0 <= a < x + 1 implies #[trigger] bool_view(visited)[a].len() == n by {
                if a < x {
                    assert(bool_view(visited)[a] == before[a]);
                }
            }
            assert forall|a: int, b: int|
                0 <= a < x + 1 && 0 <= b < n implies #[trigger] bool_view(visited)[a][b] == (kind_at(
                g0,
                a,
                b,
            ) != Biomes::Void) by {
                if a < x {
                    assert(bool_view(visited)[a] == before[a]);
                }
            }
        }
        x += 1;
    }
    let mut queue: Vec<(i64, i64)> = Vec::new();
    queue.push((0, 0));
    let ghost mut from: Seq<(int, int)> = seq![(0, 0)];
    let mut head: usize = 0;
    proof {
        lemma_count_kind_bound(g0, biome, n);
        assert(n * n <= MAX_MAP_SIZE * MAX_MAP_SIZE) by (nonlinear_arith)
            requires
                1 <= n <= MAX_MAP_SIZE,
        ;
        assert(grid_view(*map_data) == g0);
        lemma_flood_start(g0, bool_view(visited), queue@, from, n, biome);
    }
    while head < queue.len()
        invariant
            size == n,
            rows == n,
            1 <= n <= MAX_MAP_SIZE,
            n * n <= MAX_MAP_SIZE * MAX_MAP_SIZE,
            g0 == grid_view(*old(map_data)),
            map_data@.len() == n,
            flood_inv(g0, grid_view(*map_data), bool_view(visited), queue@, from, head as int, n, biome),
        decreases 1 + 4 * n * n - head,
    {
        proof {
            lemma_flood_inv_facts(g0, grid_view(*map_data), bool_view(visited), queue@, from, head as int, n, biome);
        }
        let (row, col) = queue[head];
        let ghost old_head = head as int;
        let ghost vw0 = bool_view(visited);
        let ghost q0 = queue@;
        let ghost cur0 = grid_view(*map_data);
        let ghost from0 = from;
        head += 1;
        if 0 <= row && row < rows && 0 <= col && col < rows && !get_flag(&visited, row as usize, col as usize) {
            let r = row as usize;
            let c = col as usize;
            set_flag(&mut visited, r, c);
            set_tile_type(map_data, r, c, biome);
            queue.push((row + 1, col));
            queue.push((row - 1, col));
            queue.push((row, col + 1));
            queue.push((row, col - 1));
            proof {
                let p = (r as int, c as int);
                from = from + seq![p, p, p, p];
                assert(queue@ == q0 + seq![((row + 1) as i64, col), ((row - 1) as i64, col), (row, (col + 1) as i64), (row, (col - 1) as i64)]);
                lemma_flood_visit(g0, cur0, vw0, q0, from0, old_head, n, biome, grid_view(*map_data), bool_view(visited), queue@, from);
            }
        } else {
            proof {
                lemma_flood_skip(g0, cur0, vw0, q0, from0, old_head, n, biome);
            }
        }
    }
    proof {
        lemma_flood_done(g0, grid_view(*map_data), bool_view(visited), queue@, from, head as int, n, biome);
    }
}

/// What the breadth-first fill keeps true between two pops of its queue.
#[verifier::opaque]
pub open spec fn flood_inv(
    g0: Seq<Seq<Biome>>,
    cur: Seq<Seq<Biome>>,
    vw: Seq<Seq<bool>>,
    q: Seq<(i64, i64)>,
    from: Seq<(int, int)>,
    head: int,
    n: int,
    biome: Biomes,
) -> bool {
    &&& 1 <= n <= MAX_MAP_SIZE
    &&& n * n <= MAX_MAP_SIZE * MAX_MAP_SIZE
    &&& biome != Biomes::Void
    &&& count_kind(g0, biome) == 0
    &&& well_formed(g0, n)
    &&& well_formed(cur, n)
    &&& vw.len() == n
    &&& forall|a: int| 0 <= a < n ==> #[trigger] vw[a].len() == n
    &&& 0 <= head <= q.len()
    &&& q.len() == 1 + 4 * count_kind(cur, biome)
    &&& count_kind(cur, biome) <= n * n
    &&& q[0] == (0i64, 0i64)
    &&& from.len() == q.len()
    &&& head >= 1 ==> vw[0][0]
    &&& forall|i: int| 0 <= i < q.len() ==> -1 <= #[trigger] q[i].0 <= n && -1 <= q[i].1 <= n
    &&& forall|i: int|
        1 <= i < q.len() ==> {
            let f = #[trigger] from[i];
            &&& valid_cell(n, f.0, f.1)
            &&& vw[f.0][f.1]
            &&& kind_at(g0, f.0, f.1) == Biomes::Void
            &&& adjacent(f, (q[i].0 as int, q[i].1 as int))
        }
    &&& forall|a: int, b: int|
        valid_cell(n, a, b) ==> #[trigger] cur[a][b] == if vw[a][b] && kind_at(g0, a, b)
            == Biomes::Void {
            with_kind(g0[a][b], biome)
        } else {
            g0[a][b]
        }
    &&& forall|a: int, b: int|
        valid_cell(n, a, b) && kind_at(g0, a, b) != Biomes::Void ==> #[trigger] vw[a][b]
    &&& forall|a: int, b: int|
        valid_cell(n, a, b) && #[trigger] vw[a][b] && kind_at(g0, a, b) == Biomes::Void
            ==> connected(g0, Biomes::Void, a, b)
    &&& forall|a: int, b: int|
        valid_cell(n, a, b) && #[trigger] vw[a][b] && kind_at(g0, a, b) == Biomes::Void ==> {
            &&& covered(vw, q, head, n, a + 1, b)
            &&& covered(vw, q, head, n, a - 1, b)
            &&& covered(vw, q, head, n, a, b + 1)
            &&& covered(vw, q, head, n, a, b - 1)
        }
}

proof fn lemma_flood_inv_facts(
    g0: Seq<Seq<Biome>>,
    cur: Seq<Seq<Biome>>,
    vw: Seq<Seq<bool>>,
    q: Seq<(i64, i64)>,
    from: Seq<(int, int)>,
    head: int,
    n: int,
    biome: Biomes,
)
    requires
        flood_inv(g0, cur, vw, q, from, head, n, biome),
    ensures
        well_formed(cur, n),
        vw.len() == n,
        forall|a: int| 0 <= a < n ==> #[trigger] vw[a].len() == n,
        0 <= head <= q.len(),
        q.len() <= 1 + 4 * n * n,
        forall|i: int| 0 <= i < q.len() ==> -1 <= #[trigger] q[i].0 <= n && -1 <= q[i].1 <= n,
        head < q.len() && valid_cell(n, q[head].0 as int, q[head].1 as int) && !vw[q[head].0 as int][q[head].1 as int] ==> count_kind(cur, biome) < n * n,
{
    reveal(flood_inv);
    assert(4 * count_kind(cur, biome) <= 4 * n * n) by (nonlinear_arith)
        requires
            count_kind(cur, biome) <= n * n,
    ;
    if head < q.len() && valid_cell(n, q[head].0 as int, q[head].1 as int) && !vw[q[head].0 as int][q[head].1 as int] {
        let r = q[head].0 as int;
        let c = q[head].1 as int;
        assert(kind_at(g0, r, c) == Biomes::Void);
        assert(kind_at(cur, r, c) != biome);
        lemma_count_kind_gain(cur, r, c, biome);
        lemma_count_kind_bound(crate::helper::set_kind(cur, r, c, biome), biome, n);
    }
}

proof fn lemma_flood_start(
    g0: Seq<Seq<Biome>>,
    vw: Seq<Seq<bool>>,
    q: Seq<(i64, i64)>,
    from: Seq<(int, int)>,
    n: int,
    biome: Biomes,
)
    requires
        1 <= n <= MAX_MAP_SIZE,
        n * n <= MAX_MAP_SIZE * MAX_MAP_SIZE,
        biome != Biomes::Void,
        count_kind(g0, biome) == 0,
        well_formed(g0, n),
        vw.len() == n,
        forall|a: int| 0 <= a < n ==> #[trigger] vw[a].len() == n,
        forall|a: int, b: int| 0 <= a < n && 0 <= b < n ==> #[trigger] vw[a][b] == (kind_at(g0, a, b) != Biomes::Void),
        q == seq![(0i64, 0i64)],
        from == seq![(0int, 0int)],
    ensures
        flood_inv(g0, g0, vw, q, from, 0, n, biome),
{
    reveal(flood_inv);
    assert forall|a: int, b: int| valid_cell(n, a, b) implies #[trigger] g0[a][b] == if vw[a][b] && kind_at(g0, a, b)
            == Biomes::Void {
            with_kind(g0[a][b], biome)
        } else {
            g0[a][b]
        } by {
        assert(vw[a][b] == (kind_at(g0, a, b) != Biomes::Void));
    }
}

proof fn lemma_flood_skip(
    g0: Seq<Seq<Biome>>,
    cur: Seq<Seq<Biome>>,
    vw: Seq<Seq<bool>>,
    q: Seq<(i64, i64)>,
    from: Seq<(int, int)>,
    head: int,
    n: int,
    biome: Biomes,
)
    requires
        flood_inv(g0, cur, vw, q, from, head, n, biome),
        head < q.len(),
        valid_cell(n, q[head].0 as int, q[head].1 as int) ==> vw[q[head].0 as int][q[head].1 as int],
    ensures
        flood_inv(g0, cur, vw, q, from, head + 1, n, biome),
{
    reveal(flood_inv);
    lemma_covered_after_pop(vw, vw, q, q, head, n);
    assert forall|a: int, b: int|
        valid_cell(n, a, b) && #[trigger] vw[a][b] && kind_at(g0, a, b) == Biomes::Void implies {
        &&& covered(vw, q, head + 1, n, a + 1, b)
        &&& covered(vw, q, head + 1, n, a - 1, b)
        &&& covered(vw, q, head + 1, n, a, b + 1)
        &&& covered(vw, q, head + 1, n, a, b - 1)
    } by {
        assert(covered(vw, q, head, n, a + 1, b));
        assert(covered(vw, q, head, n, a - 1, b));
        assert(covered(vw, q, head, n, a, b + 1));
        assert(covered(vw, q, head, n, a, b - 1));
    }
    if head == 0 {
        assert(q[0] == (0i64, 0i64));
    }
}

proof fn lemma_visit_queue(
    g0: Seq<Seq<Biome>>,
    cur0: Seq<Seq<Biome>>,
    vw0: Seq<Seq<bool>>,
    q0: Seq<(i64, i64)>,
    from0: Seq<(int, int)>,
    head: int,
    n: int,
    biome: Biomes,
    cur: Seq<Seq<Biome>>,
    vw: Seq<Seq<bool>>,
    q: Seq<(i64, i64)>,
    from: Seq<(int, int)>,
)
    requires
        flood_inv(g0, cur0, vw0, q0, from0, head, n, biome),
        head < q0.len(),
        valid_cell(n, q0[head].0 as int, q0[head].1 as int),
        !vw0[q0[head].0 as int][q0[head].1 as int],
        vw == vw0.update(q0[head].0 as int, vw0[q0[head].0 as int].update(q0[head].1 as int, true)),
        cur == crate::helper::set_kind(cur0, q0[head].0 as int, q0[head].1 as int, biome),
        q == q0 + seq![((q0[head].0 + 1) as i64, q0[head].1), ((q0[head].0 - 1) as i64, q0[head].1), (q0[head].0, (q0[head].1 + 1) as i64), (q0[head].0, (q0[head].1 - 1) as i64)],
        from == from0 + seq![(q0[head].0 as int, q0[head].1 as int), (q0[head].0 as int, q0[head].1 as int), (q0[head].0 as int, q0[head].1 as int), (q0[head].0 as int, q0[head].1 as int)],
    ensures
        forall|i: int|
            1 <= i < q.len() ==> {
                let f = #[trigger] from[i];
                &&& valid_cell(n, f.0, f.1)
                &&& vw[f.0][f.1]
                &&& kind_at(g0, f.0, f.1) == Biomes::Void
                &&& adjacent(f, (q[i].0 as int, q[i].1 as int))
            },
        forall|i: int| 0 <= i < q.len() ==> -1 <= #[trigger] q[i].0 <= n && -1 <= q[i].1 <= n,
        q.len() == 1 + 4 * count_kind(cur, biome),
        count_kind(cur, biome) <= n * n,
        q[0] == (0i64, 0i64),
        from.len() == q.len(),
{
    reveal(flood_inv);
    let r = q0[head].0 as int;
    let c = q0[head].1 as int;
    assert(kind_at(g0, r, c) == Biomes::Void);
    assert(kind_at(cur0, r, c) != biome);
    lemma_count_kind_gain(cur0, r, c, biome);
    lemma_count_kind_bound(cur, biome, n);
    assert forall|i: int| 1 <= i < q.len() implies {
        let f = #[trigger] from[i];
        &&& valid_cell(n, f.0, f.1)
        &&& vw[f.0][f.1]
        &&& kind_at(g0, f.0, f.1) == Biomes::Void
        &&& adjacent(f, (q[i].0 as int, q[i].1 as int))
    } by {
        if i < q0.len() {
            assert(q[i] == q0[i]);
            assert(from[i] == from0[i]);
            let f = from0[i];
            assert(vw0[f.0][f.1]);
        }
    }
    assert forall|i: int| 0 <= i < q.len() implies -1 <= #[trigger] q[i].0 <= n && -1 <= q[i].1 <= n by {
        if i < q0.len() {
            assert(q[i] == q0[i]);
        }
    }
}

proof fn lemma_visit_cells(
    g0: Seq<Seq<Biome>>,
    cur0: Seq<Seq<Biome>>,
    vw0: Seq<Seq<bool>>,
    q0: Seq<(i64, i64)>,
    from0: Seq<(int, int)>,
    head: int,
    n: int,
    biome: Biomes,
    cur: Seq<Seq<Biome>>,
    vw: Seq<Seq<bool>>,
    q: Seq<(i64, i64)>,
    from: Seq<(int, int)>,
)
    requires
        flood_inv(g0, cur0, vw0, q0, from0, head, n, biome),
        head < q0.len(),
        valid_cell(n, q0[head].0 as int, q0[head].1 as int),
        !vw0[q0[head].0 as int][q0[head].1 as int],
        vw == vw0.update(q0[head].0 as int, vw0[q0[head].0 as int].update(q0[head].1 as int, true)),
        cur == crate::helper::set_kind(cur0, q0[head].0 as int, q0[head].1 as int, biome),
        q == q0 + seq![((q0[head].0 + 1) as i64, q0[head].1), ((q0[head].0 - 1) as i64, q0[head].1), (q0[head].0, (q0[head].1 + 1) as i64), (q0[head].0, (q0[head].1 - 1) as i64)],
        from == from0 + seq![(q0[head].0 as int, q0[head].1 as int), (q0[head].0 as int, q0[head].1 as int), (q0[head].0 as int, q0[head].1 as int), (q0[head].0 as int, q0[head].1 as int)],
    ensures
        forall|a: int, b: int|
            valid_cell(n, a, b) ==> #[trigger] cur[a][b] == if vw[a][b] && kind_at(g0, a, b)
                == Biomes::Void {
                with_kind(g0[a][b], biome)
            } else {
                g0[a][b]
            },
        forall|a: int, b: int|
            valid_cell(n, a, b) && kind_at(g0, a, b) != Biomes::Void ==> #[trigger] vw[a][b],
        vw.len() == n,
        forall|a: int| 0 <= a < n ==> #[trigger] vw[a].len() == n,
        well_formed(cur, n),
        vw[0][0],
{
    reveal(flood_inv);
    let r = q0[head].0 as int;
    let c = q0[head].1 as int;
    assert forall|a: int, b: int| valid_cell(n, a, b) implies #[trigger] cur[a][b] == if vw[a][b] && kind_at(g0, a, b)
            == Biomes::Void {
            with_kind(g0[a][b], biome)
        } else {
            g0[a][b]
        } by {
        if a != r || b != c {
            assert(cur[a][b] == cur0[a][b]);
            assert(vw[a][b] == vw0[a][b]);
        }
    }
    assert forall|a: int, b: int|
        valid_cell(n, a, b) && kind_at(g0, a, b) != Biomes::Void implies #[trigger] vw[a][b] by {
        assert(vw0[a][b]);
    }
    assert forall|a: int| 0 <= a < n implies #[trigger] vw[a].len() == n by {
        assert(vw0[a].len() == n);
    }
    if head == 0 {
        assert(q0[0] == (0i64, 0i64));
    }
}

proof fn lemma_visit_cover(
    g0: Seq<Seq<Biome>>,
    cur0: Seq<Seq<Biome>>,
    vw0: Seq<Seq<bool>>,
    q0: Seq<(i64, i64)>,
    from0: Seq<(int, int)>,
    head: int,
    n: int,
    biome: Biomes,
    cur: Seq<Seq<Biome>>,
    vw: Seq<Seq<bool>>,
    q: Seq<(i64, i64)>,
    from: Seq<(int, int)>,
)
    requires
        flood_inv(g0, cur0, vw0, q0, from0, head, n, biome),
        head < q0.len(),
        valid_cell(n, q0[head].0 as int, q0[head].1 as int),
        !vw0[q0[head].0 as int][q0[head].1 as int],
        vw == vw0.update(q0[head].0 as int, vw0[q0[head].0 as int].update(q0[head].1 as int, true)),
        cur == crate::helper::set_kind(cur0, q0[head].0 as int, q0[head].1 as int, biome),
        q == q0 + seq![((q0[head].0 + 1) as i64, q0[head].1), ((q0[head].0 - 1) as i64, q0[head].1), (q0[head].0, (q0[head].1 + 1) as i64), (q0[head].0, (q0[head].1 - 1) as i64)],
        from == from0 + seq![(q0[head].0 as int, q0[head].1 as int), (q0[head].0 as int, q0[head].1 as int), (q0[head].0 as int, q0[head].1 as int), (q0[head].0 as int, q0[head].1 as int)],
    ensures
        forall|a: int, b: int|
            valid_cell(n, a, b) && #[trigger] vw[a][b] && kind_at(g0, a, b) == Biomes::Void
                ==> connected(g0, Biomes::Void, a, b),
        forall|a: int, b: int|
            valid_cell(n, a, b) && #[trigger] vw[a][b] && kind_at(g0, a, b) == Biomes::Void ==> {
                &&& covered(vw, q, head + 1, n, a + 1, b)
                &&& covered(vw, q, head + 1, n, a - 1, b)
                &&& covered(vw, q, head + 1, n, a, b + 1)
                &&& covered(vw, q, head + 1, n, a, b - 1)
            },
{
    reveal(flood_inv);
    let r = q0[head].0 as int;
    let c = q0[head].1 as int;
    let row = q0[head].0;
    let col = q0[head].1;
    assert(kind_at(g0, r, c) == Biomes::Void);
    // the cell is joined to the corner: it is the corner, or next to a filled cell
    if head == 0 {
        assert(reach(g0, Biomes::Void, 0, 0, 0));
    } else {
        let f = from0[head];
        assert(connected(g0, Biomes::Void, f.0, f.1));
        let s = choose|s: nat| #[trigger] reach(g0, Biomes::Void, s, f.0, f.1);
        assert(reach(g0, Biomes::Void, s + 1, r, c));
    }
    assert(pending(q, head + 1, r + 1, c)) by {
        assert(q[q0.len() as int] == ((row + 1) as i64, col));
    }
    assert(pending(q, head + 1, r - 1, c)) by {
        assert(q[q0.len() as int + 1] == ((row - 1) as i64, col));
    }
    assert(pending(q, head + 1, r, c + 1)) by {
        assert(q[q0.len() as int + 2] == (row, (col + 1) as i64));
    }
    assert(pending(q, head + 1, r, c - 1)) by {
        assert(q[q0.len() as int + 3] == (row, (col - 1) as i64));
    }
    lemma_covered_after_pop(vw0, vw, q0, q, head, n);
    assert forall|a: int, b: int|
        valid_cell(n, a, b) && #[trigger] vw[a][b] && kind_at(g0, a, b) == Biomes::Void implies {
        &&& covered(vw, q, head + 1, n, a + 1, b)
        &&& covered(vw, q, head + 1, n, a - 1, b)
        &&& covered(vw, q, head + 1, n, a, b + 1)
        &&& covered(vw, q, head + 1, n, a, b - 1)
    } by {
        if a != r || b != c {
            assert(vw0[a][b]);
            assert(covered(vw0, q0, head, n, a + 1, b));
            assert(covered(vw0, q0, head, n, a - 1, b));
            assert(covered(vw0, q0, head, n, a, b + 1));
            assert(covered(vw0, q0, head, n, a, b - 1));
        }
    }
    assert forall|a: int, b: int|
        valid_cell(n, a, b) && #[trigger] vw[a][b] && kind_at(g0, a, b) == Biomes::Void implies connected(g0, Biomes::Void, a, b) by {
        if a != r || b != c {
            assert(vw0[a][b]);
        }
    }
}

proof fn lemma_flood_visit(
    g0: Seq<Seq<Biome>>,
    cur0: Seq<Seq<Biome>>,
    vw0: Seq<Seq<bool>>,
    q0: Seq<(i64, i64)>,
    from0: Seq<(int, int)>,
    head: int,
    n: int,
    biome: Biomes,
    cur: Seq<Seq<Biome>>,
    vw: Seq<Seq<bool>>,
    q: Seq<(i64, i64)>,
    from: Seq<(int, int)>,
)
    requires
        flood_inv(g0, cur0, vw0, q0, from0, head, n, biome),
        head < q0.len(),
        valid_cell(n, q0[head].0 as int, q0[head].1 as int),
        !vw0[q0[head].0 as int][q0[head].1 as int],
        vw == vw0.update(q0[head].0 as int, vw0[q0[head].0 as int].update(q0[head].1 as int, true)),
        cur == crate::helper::set_kind(cur0, q0[head].0 as int, q0[head].1 as int, biome),
        q == q0 + seq![((q0[head].0 + 1) as i64, q0[head].1), ((q0[head].0 - 1) as i64, q0[head].1), (q0[head].0, (q0[head].1 + 1) as i64), (q0[head].0, (q0[head].1 - 1) as i64)],
        from == from0 + seq![(q0[head].0 as int, q0[head].1 as int), (q0[head].0 as int, q0[head].1 as int), (q0[head].0 as int, q0[head].1 as int), (q0[head].0 as int, q0[head].1 as int)],
    ensures
        flood_inv(g0, cur, vw, q, from, head + 1, n, biome),
{
    lemma_visit_queue(g0, cur0, vw0, q0, from0, head, n, biome, cur, vw, q, from);
    lemma_visit_cells(g0, cur0, vw0, q0, from0, head, n, biome, cur, vw, q, from);
    lemma_visit_cover(g0, cur0, vw0, q0, from0, head, n, biome, cur, vw, q, from);
    reveal(flood_inv);
}

proof fn lemma_flood_done(
    g0: Seq<Seq<Biome>>,
    cur: Seq<Seq<Biome>>,
    vw: Seq<Seq<bool>>,
    q: Seq<(i64, i64)>,
    from: Seq<(int, int)>,
    head: int,
    n: int,
    biome: Biomes,
)
    requires
        flood_inv(g0, cur, vw, q, from, head, n, biome),
        head >= q.len(),
    ensures
        cur == flood_spec(g0, biome),
{
    reveal(flood_inv);
    assert forall|a: int, b: int|
        valid_cell(n, a, b) && #[trigger] vw[a][b] && kind_at(g0, a, b) == Biomes::Void implies {
        &&& (valid_cell(n, a + 1, b) ==> vw[a + 1][b])
        &&& (valid_cell(n, a - 1, b) ==> vw[a - 1][b])
        &&& (valid_cell(n, a, b + 1) ==> vw[a][b + 1])
        &&& (valid_cell(n, a, b - 1) ==> vw[a][b - 1])
    } by {
        assert(covered(vw, q, head, n, a + 1, b));
        assert(covered(vw, q, head, n, a - 1, b));
        assert(covered(vw, q, head, n, a, b + 1));
        assert(covered(vw, q, head, n, a, b - 1));
    }
    assert forall|a: int, b: int| valid_cell(n, a, b) implies #[trigger] cur[a][b]
        == flood_spec(g0, biome)[a][b] by {
        if connected(g0, Biomes::Void, a, b) {
            let s = choose|s: nat| #[trigger] reach(g0, Biomes::Void, s, a, b);
            lemma_reach_closed(g0, vw, n, s, a, b);
        }
    }
    assert(cur =~~= flood_spec(g0, biome));
}

} // verus!
