//! The voxel grid: a 3D array of voxel states spanning a bounding box, with
//! exact coordinate transforms between voxel indices and world-space cell
//! centers.
//!
//! World coordinates are fixed-point rationals: a `Volume` stores its corner
//! positions and voxel edge length as integer numerators over the common
//! denominator `self.den`.  Voxel centers are returned as numerators over
//! `2 * self.den`, which keeps the half-voxel offset of a cell center exact.

use vstd::math::abs;
use vstd::prelude::*;

verus! {

/// Largest denominator accepted for fixed-point world coordinates.
pub const MAX_DEN: i64 = 0x8000_0000;

/// Largest magnitude accepted for a bounding-box corner numerator.
pub const MAX_COORD: i64 = 0x8000_0000;

/// Largest voxel edge length numerator accepted.
pub const MAX_SIZE: i64 = 0x8000_0000;

/// Largest voxel count accepted along one grid axis.
pub const MAX_DIM: usize = 512;

/// Largest magnitude a voxel-center numerator (over `2 * den`) can reach
/// under the bounds above.
pub const POS2_MAX: i64 = 0x800_0000_0000;

/// A representative RGB color with channels in [0, 1], stored exactly as
/// three numerators over a common denominator.
#[derive(Clone, Copy, Debug, PartialEq, Eq, Structural)]
pub struct Color {
    pub r_num: u64,
    pub g_num: u64,
    pub b_num: u64,
    pub den: u64,
}

impl Color {
    /// Each channel is a rational in [0, 1].
    pub open spec fn wf(self) -> bool {
        &&& 1 <= self.den
        &&& self.r_num <= self.den
        &&& self.g_num <= self.den
        &&& self.b_num <= self.den
    }

    pub fn new(r_num: u64, g_num: u64, b_num: u64, den: u64) -> (c: Color)
        requires
            1 <= den,
            r_num <= den,
            g_num <= den,
            b_num <= den,
        ensures
            c == (Color { r_num, g_num, b_num, den }),
            c.wf(),
    {
        Color { r_num, g_num, b_num, den }
    }

    /// The value of one channel scaled to an 8-bit sample, rounded down.
    pub open spec fn byte_of(num: u64, den: u64) -> int {
        255 * (num as int) / (den as int)
    }

    /// The three channels as 8-bit samples, rounded down.
    pub fn channel_bytes(&self) -> (r: (u8, u8, u8))
        requires
            self.wf(),
            self.den <= 0x1000_0000,
        ensures
            r.0 == Color::byte_of(self.r_num, self.den),
            r.1 == Color::byte_of(self.g_num, self.den),
            r.2 == Color::byte_of(self.b_num, self.den),
    {
        proof {
            Self::lemma_byte_in_range(self.r_num, self.den);
            Self::lemma_byte_in_range(self.g_num, self.den);
            Self::lemma_byte_in_range(self.b_num, self.den);
        }
        let r = (255u64 * self.r_num) / self.den;
        let g = (255u64 * self.g_num) / self.den;
        let b = (255u64 * self.b_num) / self.den;
        (r as u8, g as u8, b as u8)
    }

    proof fn lemma_byte_in_range(num: u64, den: u64)
        requires
            1 <= den,
            num <= den,
        ensures
            0 <= Color::byte_of(num, den) <= 255,
    {
        let n = num as int;
        let d = den as int;
        assert(255 * n <= 255 * d) by (nonlinear_arith)
            requires n <= d;
        assert(255 * d / d == 255) by (nonlinear_arith)
            requires 1 <= d;
        assert(255 * n / d <= 255 * d / d) by (nonlinear_arith)
            requires 1 <= d && 255 * n <= 255 * d;
    }
}

/// The state of one grid cell.
#[derive(Clone, Copy, Debug, PartialEq, Eq, Structural)]
pub enum Voxel {
    /// Removed: proven inconsistent with the views; permanently transparent.
    Carved,
    /// Never evaluated; treated as present but uncolored.
    Untouched,
    /// Kept, with a representative color.
    Colored(Color),
}

pub open spec fn is_carved(v: Voxel) -> bool {
    v is Carved
}

/// Any color stored in a voxel is a genuine [0, 1] rational with a bounded
/// denominator, so it can always be scaled to 8-bit samples.
pub open spec fn color_ok(v: Voxel) -> bool {
    match v {
        Voxel::Colored(c) => c.wf() && c.den <= 0x1000_0000,
        _ => true,
    }
}

/// A world-space point as a triple of fixed-point numerators.
#[derive(Clone, Copy, Debug, PartialEq, Eq, Structural)]
pub struct Pos3 {
    pub x: i64,
    pub y: i64,
    pub z: i64,
}

/// A 3D grid of voxels spanning the bounding box between `front_top_left`
/// and `back_bottom_right`, with cells of edge length `voxel_size / den`.
///
/// The grid is stored flat in `data`, indexed `[y][x][z]`.
pub struct Volume {
    pub data: Vec<Voxel>,
    pub voxel_size: i64,
    pub den: i64,
    pub front_top_left: Pos3,
    pub back_bottom_right: Pos3,
    pub width: usize,
    pub height: usize,
    pub depth: usize,
}

/// Voxel count along one axis: the bounding-box extent divided by the voxel
/// size, rounded up, then rounded up again to an even number so the grid
/// origin never falls on a voxel boundary.
pub open spec fn even_ceil_div(delta: int, size: int) -> int {
    let d = (delta + size - 1) / size;
    if d % 2 == 1 {
        d + 1
    } else {
        d
    }
}

impl Volume {
    pub open spec fn wf(self) -> bool {
        &&& 1 <= self.den <= MAX_DEN
        &&& 1 <= self.voxel_size <= MAX_SIZE
        &&& -MAX_COORD <= self.front_top_left.x <= MAX_COORD
        &&& -MAX_COORD <= self.front_top_left.y <= MAX_COORD
        &&& -MAX_COORD <= self.front_top_left.z <= MAX_COORD
        &&& -MAX_COORD <= self.back_bottom_right.x <= MAX_COORD
        &&& -MAX_COORD <= self.back_bottom_right.y <= MAX_COORD
        &&& -MAX_COORD <= self.back_bottom_right.z <= MAX_COORD
        &&& 2 <= self.width <= MAX_DIM && self.width % 2 == 0
        &&& 2 <= self.height <= MAX_DIM && self.height % 2 == 0
        &&& 2 <= self.depth <= MAX_DIM && self.depth % 2 == 0
        &&& self.data.len() == self.width * self.height * self.depth
        &&& forall|i: int| 0 <= i < self.data.len() ==> color_ok(#[trigger] self.data@[i])
    }

    pub open spec fn idx_ok(self, x: int, y: int, z: int) -> bool {
        &&& 0 <= x < self.width
        &&& 0 <= y < self.height
        &&& 0 <= z < self.depth
    }

    /// Position of cell `(x, y, z)` in the flat `data` vector.
    pub open spec fn flat(self, x: int, y: int, z: int) -> int {
        (y * self.width + x) * self.depth + z
    }

    pub open spec fn vox(self, x: int, y: int, z: int) -> Voxel {
        self.data@[self.flat(x, y, z)]
    }

    /// X numerator (over `2 * den`) of the center of column `x`: world x
    /// grows with the index, away from the front-top-left corner.
    pub open spec fn center_x2(self, x: int) -> int {
        2 * self.front_top_left.x + (2 * x + 1) * self.voxel_size
    }

    /// Y numerator (over `2 * den`) of the center of row `y`: world y shrinks
    /// as the index grows (the front-top-left corner is the highest point).
    pub open spec fn center_y2(self, y: int) -> int {
        2 * self.front_top_left.y - (2 * y + 1) * self.voxel_size
    }

    /// Z numerator (over `2 * den`) of the center of slice `z`: world z
    /// shrinks as the index grows (depth recedes from the front corner).
    pub open spec fn center_z2(self, z: int) -> int {
        2 * self.front_top_left.z - (2 * z + 1) * self.voxel_size
    }

    /// The center of voxel `(x, y, z)` as numerators over `2 * den`.
    pub open spec fn center(self, x: int, y: int, z: int) -> Pos3 {
        Pos3 {
            x: self.center_x2(x) as i64,
            y: self.center_y2(y) as i64,
            z: self.center_z2(z) as i64,
        }
    }

    pub open spec fn on_boundary(self, x: int, y: int, z: int) -> bool {
        x == 0 || y == 0 || z == 0 || x == self.width - 1 || y == self.height - 1
            || z == self.depth - 1
    }

    /// True when the voxel lies on an outer face of the grid or one of its
    /// six axis-neighbors has been carved: only such frontier voxels can
    /// receive fresh image evidence.
    pub open spec fn visible_spec(self, x: int, y: int, z: int) -> bool {
        self.on_boundary(x, y, z) || is_carved(self.vox(x - 1, y, z)) || is_carved(
            self.vox(x + 1, y, z),
        ) || is_carved(self.vox(x, y - 1, z)) || is_carved(self.vox(x, y + 1, z)) || is_carved(
            self.vox(x, y, z - 1),
        ) || is_carved(self.vox(x, y, z + 1))
    }
}

/// The flat index of an in-range cell is itself in range.
pub proof fn lemma_flat_bounds(v: Volume, x: int, y: int, z: int)
    requires
        v.wf(),
        v.idx_ok(x, y, z),
    ensures
        0 <= v.flat(x, y, z) < v.data.len(),
        0 <= y * v.width <= y * v.width + x < 0x10_0000,
        0 <= (y * v.width + x) * v.depth <= v.flat(x, y, z) < 0x4000_0000,
{
    let w = v.width as int;
    let h = v.height as int;
    let d = v.depth as int;
    assert(0 <= (y * w + x) * d + z < w * h * d && 0 <= y * w && y * w + x < 0x10_0000 && 0 <= (y
        * w + x) * d && w * h * d <= 0x4000_0000) by (nonlinear_arith)
        requires
            0 <= x < w <= 1024,
            0 <= y < h <= 1024,
            0 <= z < d <= 1024;
}

/// Distinct cells have distinct flat indices.
pub proof fn lemma_flat_injective(v: Volume, x1: int, y1: int, z1: int, x2: int, y2: int, z2: int)
    requires
        v.wf(),
        v.idx_ok(x1, y1, z1),
        v.idx_ok(x2, y2, z2),
        v.flat(x1, y1, z1) == v.flat(x2, y2, z2),
    ensures
        x1 == x2 && y1 == y2 && z1 == z2,
{
    let w = v.width as int;
    let d = v.depth as int;
    let a1 = y1 * w + x1;
    let a2 = y2 * w + x2;
    assert(a1 == a2 && z1 == z2) by (nonlinear_arith)
        requires
            0 <= z1 < d,
            0 <= z2 < d,
            a1 * d + z1 == a2 * d + z2;
    assert(y1 == y2 && x1 == x2) by (nonlinear_arith)
        requires
            0 <= x1 < w,
            0 <= x2 < w,
            y1 * w + x1 == y2 * w + x2;
}

/// Number of cells of a grid that have not been carved.
pub open spec fn count_uncarved(s: Seq<Voxel>) -> int
    decreases s.len(),
{
    if s.len() == 0 {
        0
    } else {
        count_uncarved(s.drop_last()) + if is_carved(s.last()) {
            0int
        } else {
            1int
        }
    }
}

pub proof fn lemma_count_uncarved_bounds(s: Seq<Voxel>)
    ensures
        0 <= count_uncarved(s) <= s.len(),
    decreases s.len(),
{
    if s.len() > 0 {
        lemma_count_uncarved_bounds(s.drop_last());
    }
}

/// How replacing one cell changes the uncarved count.
pub proof fn lemma_count_uncarved_update(s: Seq<Voxel>, i: int, v: Voxel)
    requires
        0 <= i < s.len(),
    ensures
        count_uncarved(s.update(i, v)) == count_uncarved(s) - (if is_carved(s[i]) {
            0int
        } else {
            1int
        }) + (if is_carved(v) {
            0int
        } else {
            1int
        }),
    decreases s.len(),
{
    let t = s.update(i, v);
    if i == s.len() - 1 {
        assert(t.drop_last() =~= s.drop_last());
    } else {
        assert(t.drop_last() =~= s.drop_last().update(i, v));
        lemma_count_uncarved_update(s.drop_last(), i, v);
    }
}

impl Volume {
    /// Create a grid of `Untouched` voxels spanning the box between the two
    /// corners, with cells of edge length `voxel_size / den`.  Returns `None`
    /// when the box has zero extent on some axis, or when an axis would need
    /// more than `MAX_DIM` voxels.
    pub fn new(voxel_size: i64, front_top_left: Pos3, back_bottom_right: Pos3, den: i64) -> (r:
        Option<Volume>)
        requires
            1 <= voxel_size <= MAX_SIZE,
            1 <= den <= MAX_DEN,
            -MAX_COORD <= front_top_left.x <= MAX_COORD,
            -MAX_COORD <= front_top_left.y <= MAX_COORD,
            -MAX_COORD <= front_top_left.z <= MAX_COORD,
            -MAX_COORD <= back_bottom_right.x <= MAX_COORD,
            -MAX_COORD <= back_bottom_right.y <= MAX_COORD,
            -MAX_COORD <= back_bottom_right.z <= MAX_COORD,
        ensures
            ({
                let dx = abs(back_bottom_right.x - front_top_left.x) as int;
                let dy = abs(back_bottom_right.y - front_top_left.y) as int;
                let dz = abs(back_bottom_right.z - front_top_left.z) as int;
                let w = even_ceil_div(dx, voxel_size as int);
                let h = even_ceil_div(dy, voxel_size as int);
                let d = even_ceil_div(dz, voxel_size as int);
                match r {
                    Some(v) => {
                        &&& v.wf()
                        &&& v.voxel_size == voxel_size
                        &&& v.den == den
                        &&& v.front_top_left == front_top_left
                        &&& v.back_bottom_right == back_bottom_right
                        &&& v.width == w && v.height == h && v.depth == d
                        &&& v.width % 2 == 0 && v.width >= 2
                        &&& v.height % 2 == 0 && v.height >= 2
                        &&& v.depth % 2 == 0 && v.depth >= 2
                        &&& forall|x: int, y: int, z: int|
                            v.idx_ok(x, y, z) ==> v.vox(x, y, z) == Voxel::Untouched
                    },
                    None => !(dx >= 1 && dy >= 1 && dz >= 1 && w <= MAX_DIM && h <= MAX_DIM && d
                        <= MAX_DIM),
                }
            }),
    {
        let dx = abs_delta(back_bottom_right.x, front_top_left.x);
        let dy = abs_delta(back_bottom_right.y, front_top_left.y);
        let dz = abs_delta(back_bottom_right.z, front_top_left.z);
        if dx == 0 || dy == 0 || dz == 0 {
            return None;
        }
        let w64 = dim_of(dx, voxel_size);
        let h64 = dim_of(dy, voxel_size);
        let d64 = dim_of(dz, voxel_size);
        if w64 > MAX_DIM as u64 || h64 > MAX_DIM as u64 || d64 > MAX_DIM as u64 {
            return None;
        }
        let w = w64 as usize;
        let h = h64 as usize;
        let d = d64 as usize;
        proof {
            assert(w * h <= MAX_DIM * MAX_DIM && w * h * d <= MAX_DIM * MAX_DIM * MAX_DIM) by (
            nonlinear_arith)
                requires
                    0 < w <= MAX_DIM,
                    0 < h <= MAX_DIM,
                    0 < d <= MAX_DIM;
        }
        let total = w * h * d;
        let mut data: Vec<Voxel> = Vec::new();
        let mut i: usize = 0;
        while i < total
            invariant
                i <= total,
                data.len() == i,
                forall|j: int| 0 <= j < i ==> data@[j] == Voxel::Untouched,
            decreases total - i,
        {
            data.push(Voxel::Untouched);
            i = i + 1;
        }
        let v = Volume {
            data,
            voxel_size,
            den,
            front_top_left,
            back_bottom_right,
            width: w,
            height: h,
            depth: d,
        };
        proof {
            assert forall|x: int, y: int, z: int| v.idx_ok(x, y, z) implies v.vox(x, y, z)
                == Voxel::Untouched by {
                lemma_flat_bounds(v, x, y, z);
            }
        }
        Some(v)
    }

    /// The world-space center of voxel `(x, y, z)`, as numerators over
    /// `2 * den`: the single source of truth for all geometry.
    pub fn voxel_to_position(&self, x: usize, y: usize, z: usize) -> (p: Pos3)
        requires
            self.wf(),
            self.idx_ok(x as int, y as int, z as int),
        ensures
            p == self.center(x as int, y as int, z as int),
            -POS2_MAX <= p.x <= POS2_MAX,
            -POS2_MAX <= p.y <= POS2_MAX,
            -POS2_MAX <= p.z <= POS2_MAX,
    {
        proof {
            self.lemma_center_bounds(x as int, y as int, z as int);
        }
        let px = 2 * self.front_top_left.x + (2 * (x as i64) + 1) * self.voxel_size;
        let py = 2 * self.front_top_left.y - (2 * (y as i64) + 1) * self.voxel_size;
        let pz = 2 * self.front_top_left.z - (2 * (z as i64) + 1) * self.voxel_size;
        Pos3 { x: px, y: py, z: pz }
    }

    pub proof fn lemma_center_bounds(self, x: int, y: int, z: int)
        requires
            self.wf(),
            self.idx_ok(x, y, z),
        ensures
            -POS2_MAX <= self.center_x2(x) <= POS2_MAX,
            -POS2_MAX <= self.center_y2(y) <= POS2_MAX,
            -POS2_MAX <= self.center_z2(z) <= POS2_MAX,
    {
        assert(1 <= (2 * x + 1) * self.voxel_size <= 2049 * (MAX_SIZE as int)) by (nonlinear_arith)
            requires
                0 <= x < 1024,
                1 <= self.voxel_size <= MAX_SIZE;
        assert(1 <= (2 * y + 1) * self.voxel_size <= 2049 * (MAX_SIZE as int)) by (nonlinear_arith)
            requires
                0 <= y < 1024,
                1 <= self.voxel_size <= MAX_SIZE;
        assert(1 <= (2 * z + 1) * self.voxel_size <= 2049 * (MAX_SIZE as int)) by (nonlinear_arith)
            requires
                0 <= z < 1024,
                1 <= self.voxel_size <= MAX_SIZE;
    }

    /// Read one voxel.
    pub fn get_voxel(&self, x: usize, y: usize, z: usize) -> (r: Voxel)
        requires
            self.wf(),
            self.idx_ok(x as int, y as int, z as int),
        ensures
            r == self.vox(x as int, y as int, z as int),
    {
        proof {
            lemma_flat_bounds(*self, x as int, y as int, z as int);
        }
        let idx = (y * self.width + x) * self.depth + z;
        self.data[idx]
    }

    /// Replace one voxel; every other cell and all grid metadata are kept.
    pub fn set_voxel(&mut self, x: usize, y: usize, z: usize, v: Voxel)
        requires
            old(self).wf(),
            old(self).idx_ok(x as int, y as int, z as int),
            color_ok(v),
        ensures
            final(self).wf(),
            final(self).voxel_size == old(self).voxel_size,
            final(self).den == old(self).den,
            final(self).front_top_left == old(self).front_top_left,
            final(self).back_bottom_right == old(self).back_bottom_right,
            final(self).width == old(self).width,
            final(self).height == old(self).height,
            final(self).depth == old(self).depth,
            final(self).data@ == old(self).data@.update(
                old(self).flat(x as int, y as int, z as int),
                v,
            ),
            final(self).vox(x as int, y as int, z as int) == v,
            forall|a: int, b: int, c: int|
                old(self).idx_ok(a, b, c) && !(a == x && b == y && c == z) ==> final(self).vox(
                    a,
                    b,
                    c,
                ) == old(self).vox(a, b, c),
    {
        proof {
            lemma_flat_bounds(*self, x as int, y as int, z as int);
        }
        let idx = (y * self.width + x) * self.depth + z;
        self.data[idx] = v;
        proof {
            let s = *self;
            let o = *old(self);
            assert forall|a: int, b: int, c: int|
                o.idx_ok(a, b, c) && !(a == x && b == y && c == z) implies s.vox(a, b, c) == o.vox(
                a,
                b,
                c,
            ) by {
                lemma_flat_bounds(o, a, b, c);
                if o.flat(a, b, c) == o.flat(x as int, y as int, z as int) {
                    lemma_flat_injective(o, a, b, c, x as int, y as int, z as int);
                }
            }
        }
    }

    /// True when the voxel is on the current carving frontier: it lies on an
    /// outer face of the grid, or one of its six axis-neighbors is `Carved`.
    pub fn voxel_visible(&self, x: usize, y: usize, z: usize) -> (r: bool)
        requires
            self.wf(),
            self.idx_ok(x as int, y as int, z as int),
        ensures
            r == self.visible_spec(x as int, y as int, z as int),
    {
        if x == 0 || y == 0 || z == 0 || x == self.width - 1 || y == self.height - 1 || z
            == self.depth - 1 {
            return true;
        }
        if self.get_voxel(x - 1, y, z) == Voxel::Carved {
            return true;
        }
        if self.get_voxel(x + 1, y, z) == Voxel::Carved {
            return true;
        }
        if self.get_voxel(x, y - 1, z) == Voxel::Carved {
            return true;
        }
        if self.get_voxel(x, y + 1, z) == Voxel::Carved {
            return true;
        }
        if self.get_voxel(x, y, z - 1) == Voxel::Carved {
            return true;
        }
        if self.get_voxel(x, y, z + 1) == Voxel::Carved {
            return true;
        }
        false
    }
}

/// Centers of distinct voxels of one volume are distinct: `voxel_to_position`
/// is injective over the grid's index range.
pub proof fn lemma_voxel_to_position_injective(
    v: Volume,
    x1: int,
    y1: int,
    z1: int,
    x2: int,
    y2: int,
    z2: int,
)
    requires
        v.wf(),
        v.idx_ok(x1, y1, z1),
        v.idx_ok(x2, y2, z2),
        v.center(x1, y1, z1) == v.center(x2, y2, z2),
    ensures
        x1 == x2 && y1 == y2 && z1 == z2,
{
    v.lemma_center_bounds(x1, y1, z1);
    v.lemma_center_bounds(x2, y2, z2);
    assert(x1 == x2) by (nonlinear_arith)
        requires
            1 <= v.voxel_size,
            (2 * x1 + 1) * v.voxel_size == (2 * x2 + 1) * v.voxel_size;
    assert(y1 == y2) by (nonlinear_arith)
        requires
            1 <= v.voxel_size,
            (2 * y1 + 1) * v.voxel_size == (2 * y2 + 1) * v.voxel_size;
    assert(z1 == z2) by (nonlinear_arith)
        requires
            1 <= v.voxel_size,
            (2 * z1 + 1) * v.voxel_size == (2 * z2 + 1) * v.voxel_size;
}

/// `|a - b|` for bounded inputs.
fn abs_delta(a: i64, b: i64) -> (r: i64)
    requires
        -MAX_COORD <= a <= MAX_COORD,
        -MAX_COORD <= b <= MAX_COORD,
    ensures
        r == abs(a - b),
{
    if a >= b {
        a - b
    } else {
        b - a
    }
}

/// Voxel count along one axis, as `even_ceil_div` of the extent.
fn dim_of(delta: i64, size: i64) -> (r: u64)
    requires
        1 <= delta <= 2 * MAX_COORD,
        1 <= size <= MAX_SIZE,
    ensures
        r == even_ceil_div(delta as int, size as int),
        r >= 2,
        r % 2 == 0,
{
    let du = delta as u64;
    let su = size as u64;
    let q = (du + su - 1) / su;
    proof {
        assert(1 <= (du as int + su as int - 1) / (su as int) <= 2 * MAX_COORD) by (
        nonlinear_arith)
            requires
                1 <= du <= 2 * MAX_COORD,
                1 <= su <= MAX_SIZE;
    }
    if q % 2 == 1 {
        q + 1
    } else {
        q
    }
}

} // verus!
