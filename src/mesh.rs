use vstd::prelude::*;

verus! {

/// Handles of the GPU objects that hold one mesh, and how many indices it draws.
#[derive(Clone, Copy, Debug, PartialEq, Eq, Structural)]
pub struct VAOobj {
    pub vao: u32,
    pub vbo: u32,
    pub ibo: u32,
    pub cbo: u32,
    pub nbo: u32,
    pub texbo: u32,
    pub n: i32,
}

impl VAOobj {
    pub open spec fn spec_empty() -> VAOobj {
        VAOobj { vao: 0, vbo: 0, ibo: 0, cbo: 0, nbo: 0, texbo: 0, n: 0 }
    }
}

impl Default for VAOobj {
    fn default() -> (r: VAOobj)
        ensures
            r == VAOobj::spec_empty(),
    {
        VAOobj { vao: 0, vbo: 0, ibo: 0, cbo: 0, nbo: 0, texbo: 0, n: 0 }
    }
}

/// Corner `k` (of six, two triangles) of grid cell `(z, x)` in a grid of
/// `n` by `n` cells, whose `(n + 1)^2` vertices are numbered row by row.
pub open spec fn grid_corner(n: int, z: int, x: int, k: int) -> int {
    let res = n + 1;
    if k == 0 {
        z * res + x + 1
    } else if k == 1 {
        z * res + x
    } else if k == 2 {
        (z + 1) * res + x + 1
    } else if k == 3 {
        z * res + x
    } else if k == 4 {
        (z + 1) * res + x
    } else {
        (z + 1) * res + x + 1
    }
}

/// Vertices of a grid of `n` by `n` cells.
pub fn grid_vertex_count(n: usize) -> (r: usize)
    requires
        (n + 1) * (n + 1) <= usize::MAX,
    ensures
        r == (n + 1) * (n + 1),
{
    assert(n + 1 <= (n + 1) * (n + 1)) by (nonlinear_arith);
    (n + 1) * (n + 1)
}

/// The triangle list of a grid of `n` by `n` cells: six indices per cell,
/// cells row by row; cell `c` is in row `c / n`, column `c % n`.
pub fn grid_indices(n: usize) -> (r: Vec<u32>)
    requires
        (n + 1) * (n + 1) <= 0x1_0000_0000,
        6 * n * n <= usize::MAX,
    ensures
        r@.len() == 6 * n * n,
        forall|c: int, k: int|
            0 <= c < n * n && 0 <= k < 6 ==> #[trigger] r@[6 * c + k] as int == grid_corner(
                n as int,
                c / n as int,
                c % n as int,
                k,
            ),
{
    let mut r: Vec<u32> = Vec::new();
    assert(n == 0 || (n + 1) * (n + 1) <= 6 * n * n) by (nonlinear_arith);
    assert(n + 1 <= (n + 1) * (n + 1)) by (nonlinear_arith);
    let res: usize = n + 1;
    let mut z: usize = 0;
    while z < n
        invariant
            0 <= z <= n,
            res == n + 1,
            (n + 1) * (n + 1) <= 0x1_0000_0000,
            6 * n * n <= usize::MAX,
            n == 0 || (n + 1) * (n + 1) <= 6 * n * n,
            r@.len() == 6 * (z * n),
            forall|c: int, k: int|
                0 <= c < z * n && 0 <= k < 6 ==> #[trigger] r@[6 * c + k] as int == grid_corner(
                    n as int,
                    c / n as int,
                    c % n as int,
                    k,
                ),
        decreases n - z,
    {
        let mut x: usize = 0;
        while x < n
            invariant
                0 <= z < n,
                0 <= x <= n,
                res == n + 1,
                (n + 1) * (n + 1) <= 0x1_0000_0000,
                6 * n * n <= usize::MAX,
                (n + 1) * (n + 1) <= 6 * n * n,
                r@.len() == 6 * (z * n + x),
                forall|c: int, k: int|
                    0 <= c < z * n + x && 0 <= k < 6 ==> #[trigger] r@[6 * c + k] as int
                        == grid_corner(n as int, c / n as int, c % n as int, k),
            decreases n - x,
        {
            proof {
                assert((z + 1) * res + x + 1 < (n + 1) * (n + 1)) by (nonlinear_arith)
                    requires
                        z < n,
                        x < n,
                        res == n + 1,
                ;
                assert(z * res <= (z + 1) * res) by (nonlinear_arith)
                    requires
                        res >= 0,
                ;
                assert((z * n + x) < n * n) by (nonlinear_arith)
                    requires
                        z < n,
                        x < n,
                ;
            }
            let row: usize = z * res;
            let next: usize = (z + 1) * res;
            let ghost before = r@;
            let ghost c = z * n + x;
            r.push((row + x + 1) as u32);
            r.push((row + x) as u32);
            r.push((next + x + 1) as u32);
            r.push((row + x) as u32);
            r.push((next + x) as u32);
            r.push((next + x + 1) as u32);
            proof {
                vstd::arithmetic::div_mod::lemma_fundamental_div_mod_converse(
                    c as int,
                    n as int,
                    z as int,
                    x as int,
                );
                assert forall|d: int, k: int|
                    0 <= d < z * n + x + 1 && 0 <= k < 6 implies #[trigger] r@[6 * d + k] as int
                    == grid_corner(n as int, d / n as int, d % n as int, k) by {
                    if d < c {
                        assert(6 * d + k < 6 * c);
                        assert(r@[6 * d + k] == before[6 * d + k]);
                    } else {
                        assert(d == c);
                        assert(r@[6 * d + k] == r@[6 * c + k]);
                    }
                }
            }
            x = x + 1;
        }
        proof {
            assert(z * n + n == (z + 1) * n) by (nonlinear_arith);
        }
        z = z + 1;
    }
    assert(6 * (n * n) == 6 * n * n) by (nonlinear_arith);
    r
}

} // verus!
