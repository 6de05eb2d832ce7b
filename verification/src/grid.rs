use vstd::prelude::*;
use vstd::arithmetic::div_mod::{lemma_fundamental_div_mod, lemma_fundamental_div_mod_converse, lemma_mod_pos_bound};

verus! {

/// A rectangular grid of `width * height` square cells, numbered row by row:
/// the cell in column `x` and row `y` has index `y * width + x`.
pub struct Grid {
    pub width: usize,
    pub height: usize,
    pub cell_count: usize,
}

impl Grid {
    /// Number of cells of the grid.
    pub open spec fn len(self) -> nat {
        (self.width * self.height) as nat
    }

    pub open spec fn wf(self) -> bool {
        self.cell_count == self.width * self.height
    }

    /// Column of cell `i`.
    pub open spec fn column(self, i: int) -> int {
        i % (self.width as int)
    }

    /// The cells next to `i`, in the order in which the game visits them:
    /// right (`x + 1`), left (`x - 1`), up (`y + 1`), down (`y - 1`),
    /// each one only where it lies inside the grid.
    pub open spec fn neighbors(self, i: int) -> Seq<int> {
        let right: Seq<int> = if self.column(i) + 1 < self.width { seq![i + 1] } else { seq![] };
        let left: Seq<int> = if self.column(i) > 0 { seq![i - 1] } else { seq![] };
        let up: Seq<int> = if i + self.width < self.len() { seq![i + self.width] } else { seq![] };
        let down: Seq<int> = if i >= self.width { seq![i - self.width] } else { seq![] };
        right + left + up + down
    }

    /// Position of `j` among the cells next to `i`: 0 for the first one
    /// visited, up to 3 for the last.
    pub open spec fn neighbor_rank(self, i: int, j: int) -> int {
        let r: int = if self.column(i) + 1 < self.width { 1 } else { 0 };
        let l: int = if self.column(i) > 0 { 1 } else { 0 };
        let u: int = if i + self.width < self.len() { 1 } else { 0 };
        if r == 1 && j == i + 1 {
            0
        } else if l == 1 && j == i - 1 {
            r
        } else if u == 1 && j == i + self.width {
            r + l
        } else {
            r + l + u
        }
    }

    /// `j` is one of the four cells next to `i`.
    pub open spec fn is_neighbor(self, i: int, j: int) -> bool {
        self.neighbors(i).contains(j)
    }

    /// Creates the grid; the cell count must fit in a `usize`.
    pub fn new(width: usize, height: usize) -> (g: Grid)
        requires
            width * height <= usize::MAX,
        ensures
            g.wf(),
            g.width == width,
            g.height == height,
    {
        Grid { width, height, cell_count: width * height }
    }

    /// Number of cells.
    pub fn cell_count(&self) -> (n: usize)
        requires
            self.wf(),
        ensures
            n == self.len(),
    {
        self.cell_count
    }

    /// Index of the cell at column `x`, row `y`, or `None` when that cell
    /// lies outside the grid.
    pub fn index(&self, x: i64, y: i64) -> (r: Option<usize>)
        requires
            self.wf(),
        ensures
            r is Some <==> (0 <= x < self.width && 0 <= y < self.height),
            r matches Some(i) ==> i == y * self.width + x && i < self.len(),
    {
        if x >= 0 && y >= 0 && (x as u64 as u128) < (self.width as u128) && (y as u64 as u128) < (self.height as u128) {
            let xu = x as usize;
            let yu = y as usize;
            proof {
                let w = self.width as int;
                let h = self.height as int;
                assert(yu * w + xu < w * h) by (nonlinear_arith)
                    requires
                        0 <= xu < w,
                        0 <= yu < h,
                ;
                assert(yu * w <= w * h) by (nonlinear_arith)
                    requires
                        0 <= yu < h,
                        0 <= w,
                ;
            }
            Some(yu * self.width + xu)
        } else {
            None
        }
    }

    /// Column and row of cell `index`.
    pub fn coordinates(&self, index: usize) -> (r: (usize, usize))
        requires
            self.wf(),
            index < self.len(),
        ensures
            r.0 < self.width,
            r.1 < self.height,
            r.1 * self.width + r.0 == index,
            r.0 == self.column(index as int),
    {
        proof {
            if self.width == 0 {
                assert(self.len() == 0) by (nonlinear_arith)
                    requires
                        self.width == 0,
                        self.len() == self.width * self.height,
                ;
            }
        }
        let x = index % self.width;
        let y = index / self.width;
        proof {
            let w = self.width as int;
            let h = self.height as int;
            let i = index as int;
            assert(y * w + x == i) by (nonlinear_arith)
                requires
                    w > 0,
                    x == i % w,
                    y == i / w,
            ;
            assert(y < h) by (nonlinear_arith)
                requires
                    w > 0,
                    y * w + x == i,
                    0 <= x,
                    i < w * h,
            ;
        }
        (x, y)
    }

    /// The cells next to `index`, in the order right, left, up, down.
    pub fn neighbor_indices(&self, index: usize) -> (r: Vec<usize>)
        requires
            self.wf(),
            index < self.len(),
        ensures
            r@.map_values(|j: usize| j as int) == self.neighbors(index as int),
            forall|k: int| 0 <= k < r.len() ==> (r@[k] as int) < self.len(),
    {
        let (x, _y) = self.coordinates(index);
        let w = self.width;
        let mut r: Vec<usize> = Vec::new();
        if x + 1 < w {
            r.push(index + 1);
        }
        let ghost s1 = r@;
        if x > 0 {
            r.push(index - 1);
        }
        let ghost s2 = r@;
        if index < self.cell_count && w < self.cell_count - index {
            r.push(index + w);
        }
        let ghost s3 = r@;
        if index >= w {
            r.push(index - w);
        }
        proof {
            let i = index as int;
            let right: Seq<int> = if self.column(i) + 1 < self.width { seq![i + 1] } else { seq![] };
            let left: Seq<int> = if self.column(i) > 0 { seq![i - 1] } else { seq![] };
            let up: Seq<int> = if i + self.width < self.len() { seq![i + self.width] } else { seq![] };
            let down: Seq<int> = if i >= self.width { seq![i - self.width] } else { seq![] };
            assert(s1.map_values(|j: usize| j as int) =~= right);
            assert(s2.map_values(|j: usize| j as int) =~= right + left);
            assert(s3.map_values(|j: usize| j as int) =~= right + left + up);
            assert(r@.map_values(|j: usize| j as int) =~= right + left + up + down);
            let wi = w as int;
            let hi = self.height as int;
            let xi = x as int;
            let yi = _y as int;
            assert((yi + 1) * wi <= hi * wi) by (nonlinear_arith)
                requires
                    yi + 1 <= hi,
                    0 <= wi,
            ;
            assert((yi + 1) * wi == yi * wi + wi) by (nonlinear_arith);
            assert(hi * wi == wi * hi) by (nonlinear_arith);
        }
        r
    }
}

/// The position of a neighbour is its index in the list of neighbours, and
/// is below 4.
pub proof fn lemma_neighbor_rank(grid: Grid, i: int, a: int)
    requires
        0 <= i < grid.len(),
        0 <= a < grid.neighbors(i).len(),
    ensures
        grid.neighbor_rank(i, grid.neighbors(i)[a]) == a,
        0 <= a < 4,
{
    let w = grid.width as int;
    let h = grid.height as int;
    if w == 0 {
        assert(grid.len() == 0) by (nonlinear_arith)
            requires
                w == 0,
                grid.len() == w * h,
        ;
    }
    lemma_mod_pos_bound(i, w);
    if w == 1 {
        lemma_fundamental_div_mod(i, w);
        assert(grid.column(i) == 0) by (nonlinear_arith)
            requires
                w == 1,
                0 <= grid.column(i) < w,
        ;
    }
    let right: Seq<int> = if grid.column(i) + 1 < grid.width { seq![i + 1] } else { seq![] };
    let left: Seq<int> = if grid.column(i) > 0 { seq![i - 1] } else { seq![] };
    let up: Seq<int> = if i + grid.width < grid.len() { seq![i + grid.width] } else { seq![] };
    let down: Seq<int> = if i >= grid.width { seq![i - grid.width] } else { seq![] };
    assert(grid.neighbors(i) == right + left + up + down);
}

/// Being next to each other is symmetric: if `j` is one of the cells next
/// to `i`, then `i` is one of the cells next to `j`.
pub proof fn lemma_neighbor_symmetric(grid: Grid, i: int, j: int)
    requires
        0 <= i < grid.len(),
        grid.is_neighbor(i, j),
    ensures
        0 <= j < grid.len(),
        grid.is_neighbor(j, i),
{
    let w = grid.width as int;
    let h = grid.height as int;
    if w == 0 {
        assert(grid.len() == 0) by (nonlinear_arith)
            requires
                w == 0,
                grid.len() == w * h,
        ;
    }
    assert(w > 0);
    lemma_fundamental_div_mod(i, w);
    lemma_mod_pos_bound(i, w);
    let q = i / w;
    let r = i % w;
    let right: Seq<int> = if grid.column(i) + 1 < grid.width { seq![i + 1] } else { seq![] };
    let left: Seq<int> = if grid.column(i) > 0 { seq![i - 1] } else { seq![] };
    let up: Seq<int> = if i + grid.width < grid.len() { seq![i + grid.width] } else { seq![] };
    let down: Seq<int> = if i >= grid.width { seq![i - grid.width] } else { seq![] };
    assert(grid.neighbors(i) == right + left + up + down);
    let k = choose|k: int| 0 <= k < grid.neighbors(i).len() && grid.neighbors(i)[k] == j;
    let sj = grid.neighbors(j);
    if r + 1 < w && j == i + 1 {
        assert(j == w * q + (r + 1));
        lemma_fundamental_div_mod_converse(j, w, q, r + 1);
        assert(q < h) by (nonlinear_arith)
            requires
                i == w * q + r,
                0 <= r,
                i < w * h,
                w > 0,
        ;
        assert(j < w * h) by (nonlinear_arith)
            requires
                j == w * q + r + 1,
                r + 1 < w,
                q < h,
                w > 0,
        ;
        assert(grid.column(j) > 0);
        let rj: Seq<int> = if grid.column(j) + 1 < grid.width { seq![j + 1] } else { seq![] };
        assert(sj[rj.len() as int] == i);
    } else if r > 0 && j == i - 1 && (k == right.len()) {
        assert(j == w * q + (r - 1));
        lemma_fundamental_div_mod_converse(j, w, q, r - 1);
        assert(grid.column(j) + 1 < w);
        assert(sj[0] == i);
    } else if j == i + w && i + w < grid.len() && k == right.len() + left.len() {
        assert(j >= w);
        let rj: Seq<int> = if grid.column(j) + 1 < grid.width { seq![j + 1] } else { seq![] };
        let lj: Seq<int> = if grid.column(j) > 0 { seq![j - 1] } else { seq![] };
        let uj: Seq<int> = if j + grid.width < grid.len() { seq![j + grid.width] } else { seq![] };
        assert(sj[(rj.len() + lj.len() + uj.len()) as int] == i);
    } else {
        assert(k == right.len() + left.len() + up.len());
        assert(i >= w && j == i - w);
        let rj: Seq<int> = if grid.column(j) + 1 < grid.width { seq![j + 1] } else { seq![] };
        let lj: Seq<int> = if grid.column(j) > 0 { seq![j - 1] } else { seq![] };
        assert(sj[(rj.len() + lj.len()) as int] == i);
    }
}

} // verus!
