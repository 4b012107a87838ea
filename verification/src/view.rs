//! One calibrated camera plus its captured image plus the per-pixel
//! "claimed" mask used for occlusion bookkeeping during a sweep.
//!
//! Calibration entries (intrinsic matrix `K`, rotation `R`, translation `t`)
//! are fixed-point rationals: integer numerators over the camera denominator
//! `den`.  The projection matrix `K * [R | t]` and the perspective divide are
//! computed exactly over the numerators; the common denominators cancel in
//! the divide, so the resulting pixel is the exact floor of the real-valued
//! projection.

use crate::volume::{Pos3, MAX_DEN, POS2_MAX};
use vstd::arithmetic::div_mod::{lemma_fundamental_div_mod, lemma_fundamental_div_mod_converse};
use vstd::prelude::*;

verus! {

/// Largest magnitude accepted for a calibration numerator.
pub const MAX_CAM: i64 = 0x8000_0000;

/// Largest image extent accepted along either axis.
pub const MAX_IMG: usize = 32768;

/// Largest magnitude a projection-matrix entry can reach: three products of
/// calibration numerators.
pub const PM_MAX: i128 = 0xC000_0000_0000_0000;

/// Largest magnitude a homogeneous image coordinate can reach.
pub const HOMOG_MAX: i128 = 0x1_0000_0000_0000_0000_0000_0000_0000;

/// One image pixel, RGB with one byte per channel.
#[derive(Clone, Copy, Debug, PartialEq, Eq, Structural)]
pub struct Rgb {
    pub r: u8,
    pub g: u8,
    pub b: u8,
}

/// Camera calibration: intrinsic matrix `K`, rotation `R` (both row-major)
/// and translation `t`, as numerators over `den`.
#[derive(Clone, Copy, Debug, PartialEq, Eq, Structural)]
pub struct CameraData {
    pub k00: i64,
    pub k01: i64,
    pub k02: i64,
    pub k10: i64,
    pub k11: i64,
    pub k12: i64,
    pub k20: i64,
    pub k21: i64,
    pub k22: i64,
    pub r00: i64,
    pub r01: i64,
    pub r02: i64,
    pub r10: i64,
    pub r11: i64,
    pub r12: i64,
    pub r20: i64,
    pub r21: i64,
    pub r22: i64,
    pub t0: i64,
    pub t1: i64,
    pub t2: i64,
    pub den: i64,
}

/// The 3x4 projection matrix `K * [R | t]`, as numerators over `den * den`.
#[derive(Clone, Copy, Debug, PartialEq, Eq, Structural)]
pub struct ProjMatrix {
    pub e00: i128,
    pub e01: i128,
    pub e02: i128,
    pub e03: i128,
    pub e10: i128,
    pub e11: i128,
    pub e12: i128,
    pub e13: i128,
    pub e20: i128,
    pub e21: i128,
    pub e22: i128,
    pub e23: i128,
}

impl CameraData {
    pub open spec fn wf(self) -> bool {
        &&& 1 <= self.den <= MAX_DEN
        &&& -MAX_CAM <= self.k00 <= MAX_CAM && -MAX_CAM <= self.k01 <= MAX_CAM && -MAX_CAM
            <= self.k02 <= MAX_CAM
        &&& -MAX_CAM <= self.k10 <= MAX_CAM && -MAX_CAM <= self.k11 <= MAX_CAM && -MAX_CAM
            <= self.k12 <= MAX_CAM
        &&& -MAX_CAM <= self.k20 <= MAX_CAM && -MAX_CAM <= self.k21 <= MAX_CAM && -MAX_CAM
            <= self.k22 <= MAX_CAM
        &&& -MAX_CAM <= self.r00 <= MAX_CAM && -MAX_CAM <= self.r01 <= MAX_CAM && -MAX_CAM
            <= self.r02 <= MAX_CAM
        &&& -MAX_CAM <= self.r10 <= MAX_CAM && -MAX_CAM <= self.r11 <= MAX_CAM && -MAX_CAM
            <= self.r12 <= MAX_CAM
        &&& -MAX_CAM <= self.r20 <= MAX_CAM && -MAX_CAM <= self.r21 <= MAX_CAM && -MAX_CAM
            <= self.r22 <= MAX_CAM
        &&& -MAX_CAM <= self.t0 <= MAX_CAM && -MAX_CAM <= self.t1 <= MAX_CAM && -MAX_CAM
            <= self.t2 <= MAX_CAM
    }

    /// Build calibration from the row-major entries of `K` (9 values), `R`
    /// (9 values) and `t` (3 values), over the denominator `den`.
    pub fn new(k: &Vec<i64>, r: &Vec<i64>, t: &Vec<i64>, den: i64) -> (c: CameraData)
        requires
            k.len() == 9,
            r.len() == 9,
            t.len() == 3,
            1 <= den <= MAX_DEN,
            forall|i: int| 0 <= i < 9 ==> -MAX_CAM <= #[trigger] k@[i] <= MAX_CAM,
            forall|i: int| 0 <= i < 9 ==> -MAX_CAM <= #[trigger] r@[i] <= MAX_CAM,
            forall|i: int| 0 <= i < 3 ==> -MAX_CAM <= #[trigger] t@[i] <= MAX_CAM,
        ensures
            c.wf(),
            c.k00 == k@[0] && c.k01 == k@[1] && c.k02 == k@[2],
            c.k10 == k@[3] && c.k11 == k@[4] && c.k12 == k@[5],
            c.k20 == k@[6] && c.k21 == k@[7] && c.k22 == k@[8],
            c.r00 == r@[0] && c.r01 == r@[1] && c.r02 == r@[2],
            c.r10 == r@[3] && c.r11 == r@[4] && c.r12 == r@[5],
            c.r20 == r@[6] && c.r21 == r@[7] && c.r22 == r@[8],
            c.t0 == t@[0] && c.t1 == t@[1] && c.t2 == t@[2],
            c.den == den,
    {
        CameraData {
            k00: k[0],
            k01: k[1],
            k02: k[2],
            k10: k[3],
            k11: k[4],
            k12: k[5],
            k20: k[6],
            k21: k[7],
            k22: k[8],
            r00: r[0],
            r01: r[1],
            r02: r[2],
            r10: r[3],
            r11: r[4],
            r12: r[5],
            r20: r[6],
            r21: r[7],
            r22: r[8],
            t0: t[0],
            t1: t[1],
            t2: t[2],
            den,
        }
    }

    /// The projection matrix `K * [R | t]` of this camera, entry by entry.
    pub open spec fn pm_spec(self) -> ProjMatrix {
        ProjMatrix {
            e00: (self.k00 * self.r00 + self.k01 * self.r10 + self.k02 * self.r20) as i128,
            e01: (self.k00 * self.r01 + self.k01 * self.r11 + self.k02 * self.r21) as i128,
            e02: (self.k00 * self.r02 + self.k01 * self.r12 + self.k02 * self.r22) as i128,
            e03: (self.k00 * self.t0 + self.k01 * self.t1 + self.k02 * self.t2) as i128,
            e10: (self.k10 * self.r00 + self.k11 * self.r10 + self.k12 * self.r20) as i128,
            e11: (self.k10 * self.r01 + self.k11 * self.r11 + self.k12 * self.r21) as i128,
            e12: (self.k10 * self.r02 + self.k11 * self.r12 + self.k12 * self.r22) as i128,
            e13: (self.k10 * self.t0 + self.k11 * self.t1 + self.k12 * self.t2) as i128,
            e20: (self.k20 * self.r00 + self.k21 * self.r10 + self.k22 * self.r20) as i128,
            e21: (self.k20 * self.r01 + self.k21 * self.r11 + self.k22 * self.r21) as i128,
            e22: (self.k20 * self.r02 + self.k21 * self.r12 + self.k22 * self.r22) as i128,
            e23: (self.k20 * self.t0 + self.k21 * self.t1 + self.k22 * self.t2) as i128,
        }
    }

    /// The homogeneous projection matrix `K * [R | t]`, mapping a world
    /// point to a homogeneous image-plane point.  Entries are numerators
    /// over `den * den`.
    pub fn projection_matrix(&self) -> (p: ProjMatrix)
        requires
            self.wf(),
        ensures
            p == self.pm_spec(),
            p.wf(),
    {
        ProjMatrix {
            e00: mul3_add(self.k00, self.r00, self.k01, self.r10, self.k02, self.r20),
            e01: mul3_add(self.k00, self.r01, self.k01, self.r11, self.k02, self.r21),
            e02: mul3_add(self.k00, self.r02, self.k01, self.r12, self.k02, self.r22),
            e03: mul3_add(self.k00, self.t0, self.k01, self.t1, self.k02, self.t2),
            e10: mul3_add(self.k10, self.r00, self.k11, self.r10, self.k12, self.r20),
            e11: mul3_add(self.k10, self.r01, self.k11, self.r11, self.k12, self.r21),
            e12: mul3_add(self.k10, self.r02, self.k11, self.r12, self.k12, self.r22),
            e13: mul3_add(self.k10, self.t0, self.k11, self.t1, self.k12, self.t2),
            e20: mul3_add(self.k20, self.r00, self.k21, self.r10, self.k22, self.r20),
            e21: mul3_add(self.k20, self.r01, self.k21, self.r11, self.k22, self.r21),
            e22: mul3_add(self.k20, self.r02, self.k21, self.r12, self.k22, self.r22),
            e23: mul3_add(self.k20, self.t0, self.k21, self.t1, self.k22, self.t2),
        }
    }

    /// The camera translation, interpreted as the camera position in world
    /// space for occlusion-ordering purposes, as numerators over `den`.
    pub fn translation(&self) -> (t: Pos3)
        ensures
            t == (Pos3 { x: self.t0, y: self.t1, z: self.t2 }),
    {
        Pos3 { x: self.t0, y: self.t1, z: self.t2 }
    }
}

/// A three-term dot product of calibration numerators, exact in `i128`.
fn mul3_add(a1: i64, b1: i64, a2: i64, b2: i64, a3: i64, b3: i64) -> (r: i128)
    requires
        -MAX_CAM <= a1 <= MAX_CAM && -MAX_CAM <= b1 <= MAX_CAM,
        -MAX_CAM <= a2 <= MAX_CAM && -MAX_CAM <= b2 <= MAX_CAM,
        -MAX_CAM <= a3 <= MAX_CAM && -MAX_CAM <= b3 <= MAX_CAM,
    ensures
        r == a1 * b1 + a2 * b2 + a3 * b3,
        -PM_MAX <= r <= PM_MAX,
{
    proof {
        assert(-PM_MAX <= a1 * b1 + a2 * b2 + a3 * b3 <= PM_MAX && -PM_MAX <= a1 * b1 <= PM_MAX
            && -PM_MAX <= a1 * b1 + a2 * b2 <= PM_MAX) by (nonlinear_arith)
            requires
                -MAX_CAM <= a1 <= MAX_CAM && -MAX_CAM <= b1 <= MAX_CAM,
                -MAX_CAM <= a2 <= MAX_CAM && -MAX_CAM <= b2 <= MAX_CAM,
                -MAX_CAM <= a3 <= MAX_CAM && -MAX_CAM <= b3 <= MAX_CAM;
    }
    (a1 as i128) * (b1 as i128) + (a2 as i128) * (b2 as i128) + (a3 as i128) * (b3 as i128)
}

impl ProjMatrix {
    pub open spec fn wf(self) -> bool {
        &&& -PM_MAX <= self.e00 <= PM_MAX && -PM_MAX <= self.e01 <= PM_MAX && -PM_MAX <= self.e02
            <= PM_MAX && -PM_MAX <= self.e03 <= PM_MAX
        &&& -PM_MAX <= self.e10 <= PM_MAX && -PM_MAX <= self.e11 <= PM_MAX && -PM_MAX <= self.e12
            <= PM_MAX && -PM_MAX <= self.e13 <= PM_MAX
        &&& -PM_MAX <= self.e20 <= PM_MAX && -PM_MAX <= self.e21 <= PM_MAX && -PM_MAX <= self.e22
            <= PM_MAX && -PM_MAX <= self.e23 <= PM_MAX
    }
}

/// One row of the homogeneous image point of a world position: the dot
/// product of a projection-matrix row with `(pos, 1)`, where `pos` has
/// denominator `2 * wden` and the trailing 1 is written as `2 wden / 2 wden`.
pub open spec fn homog_spec(e0: i128, e1: i128, e2: i128, e3: i128, pos: Pos3, wden: int) -> int {
    e0 * pos.x + e1 * pos.y + e2 * pos.z + e3 * 2 * wden
}

fn homog_row(e0: i128, e1: i128, e2: i128, e3: i128, pos: Pos3, wden: i64) -> (r: i128)
    requires
        -PM_MAX <= e0 <= PM_MAX && -PM_MAX <= e1 <= PM_MAX && -PM_MAX <= e2 <= PM_MAX && -PM_MAX
            <= e3 <= PM_MAX,
        -POS2_MAX <= pos.x <= POS2_MAX,
        -POS2_MAX <= pos.y <= POS2_MAX,
        -POS2_MAX <= pos.z <= POS2_MAX,
        1 <= wden <= MAX_DEN,
    ensures
        r == homog_spec(e0, e1, e2, e3, pos, wden as int),
        -HOMOG_MAX <= r <= HOMOG_MAX,
{
    proof {
        lemma_homog_bounds(e0, e1, e2, e3, pos, wden as int);
    }
    e0 * (pos.x as i128) + e1 * (pos.y as i128) + e2 * (pos.z as i128) + e3 * 2 * (wden as i128)
}

proof fn lemma_homog_bounds(e0: i128, e1: i128, e2: i128, e3: i128, pos: Pos3, wden: int)
    requires
        -PM_MAX <= e0 <= PM_MAX && -PM_MAX <= e1 <= PM_MAX && -PM_MAX <= e2 <= PM_MAX && -PM_MAX
            <= e3 <= PM_MAX,
        -POS2_MAX <= pos.x <= POS2_MAX,
        -POS2_MAX <= pos.y <= POS2_MAX,
        -POS2_MAX <= pos.z <= POS2_MAX,
        1 <= wden <= MAX_DEN,
    ensures
        -HOMOG_MAX <= homog_spec(e0, e1, e2, e3, pos, wden) <= HOMOG_MAX,
        ({
            let q = PM_MAX * POS2_MAX;
            &&& -q <= e0 * pos.x <= q
            &&& -q <= e1 * pos.y <= q
            &&& -q <= e2 * pos.z <= q
            &&& -PM_MAX * 2 <= e3 * 2 <= PM_MAX * 2
            &&& -q <= e3 * 2 * wden <= q
        }),
{
    let q = PM_MAX * POS2_MAX;
    assert(-q <= e0 * pos.x <= q && -q <= e1 * pos.y <= q && -q <= e2 * pos.z <= q && -PM_MAX * 2
        <= e3 * 2 <= PM_MAX * 2 && -q <= (e3 * 2) * wden <= q && 4 * q <= HOMOG_MAX) by (
    nonlinear_arith)
        requires
            -PM_MAX <= e0 <= PM_MAX && -PM_MAX <= e1 <= PM_MAX && -PM_MAX <= e2 <= PM_MAX
                && -PM_MAX <= e3 <= PM_MAX,
            -POS2_MAX <= pos.x <= POS2_MAX,
            -POS2_MAX <= pos.y <= POS2_MAX,
            -POS2_MAX <= pos.z <= POS2_MAX,
            1 <= wden <= MAX_DEN,
            q == PM_MAX * POS2_MAX;
}

/// Floor division for a positive divisor.  (In the mathematical integers of
/// specifications, `/` rounds toward negative infinity when the divisor is
/// positive, which is exactly the floor of the real quotient.)
fn floor_div(a: i128, b: i128) -> (q: i128)
    requires
        -HOMOG_MAX <= a <= HOMOG_MAX,
        1 <= b <= HOMOG_MAX,
    ensures
        q == a as int / b as int,
{
    if a >= 0 {
        let qa = (a as u128) / (b as u128);
        proof {
            assert(a as int / b as int <= a as int) by (nonlinear_arith)
                requires
                    0 <= a,
                    1 <= b;
        }
        qa as i128
    } else {
        let na = (-a) as u128;
        let bu = b as u128;
        let d = na / bu;
        let m = na % bu;
        proof {
            lemma_fundamental_div_mod(na as int, bu as int);
            assert(na as int / bu as int <= na as int) by (nonlinear_arith)
                requires
                    0 <= na,
                    1 <= bu;
        }
        if m == 0 {
            proof {
                assert(a as int == (-(d as int)) * (b as int) + 0) by (nonlinear_arith)
                    requires
                        a as int == -(na as int),
                        na as int == (bu as int) * (d as int) + (m as int),
                        m as int == 0,
                        b as int == bu as int;
                lemma_fundamental_div_mod_converse(a as int, b as int, -(d as int), 0);
            }
            -(d as i128)
        } else {
            proof {
                assert(a as int == (-(d as int) - 1) * (b as int) + (b as int - m as int)) by (
                nonlinear_arith)
                    requires
                        a as int == -(na as int),
                        na as int == (bu as int) * (d as int) + (m as int),
                        b as int == bu as int;
                lemma_fundamental_div_mod_converse(
                    a as int,
                    b as int,
                    -(d as int) - 1,
                    b as int - m as int,
                );
            }
            -(d as i128) - 1
        }
    }
}

/// Back-projection of a world point into a camera's pixel grid: the
/// homogeneous image point of `pos`, perspective-divided by its third
/// component and floored.  `None` when the point's homogeneous depth is not
/// positive or the pixel falls outside `[0, w) x [0, h)`: such a view simply
/// contributes no evidence for the voxel.
pub open spec fn project_spec(pm: ProjMatrix, pos: Pos3, wden: int, w: int, h: int) -> Option<
    (int, int),
> {
    let h0 = homog_spec(pm.e00, pm.e01, pm.e02, pm.e03, pos, wden);
    let h1 = homog_spec(pm.e10, pm.e11, pm.e12, pm.e13, pos, wden);
    let h2 = homog_spec(pm.e20, pm.e21, pm.e22, pm.e23, pos, wden);
    if h2 <= 0 {
        None
    } else {
        let px = h0 / h2;
        let py = h1 / h2;
        if 0 <= px < w && 0 <= py < h {
            Some((px, py))
        } else {
            None
        }
    }
}

/// Project a world point (numerators over `2 * wden`) through a projection
/// matrix; the fixed-point denominators cancel in the perspective divide.
pub fn project(pm: &ProjMatrix, pos: Pos3, wden: i64, img_w: usize, img_h: usize) -> (r: Option<
    (usize, usize),
>)
    requires
        pm.wf(),
        -POS2_MAX <= pos.x <= POS2_MAX,
        -POS2_MAX <= pos.y <= POS2_MAX,
        -POS2_MAX <= pos.z <= POS2_MAX,
        1 <= wden <= MAX_DEN,
        img_w <= MAX_IMG,
        img_h <= MAX_IMG,
    ensures
        r is None <==> project_spec(*pm, pos, wden as int, img_w as int, img_h as int) is None,
        r matches Some(p) ==> project_spec(*pm, pos, wden as int, img_w as int, img_h as int)
            == Some((p.0 as int, p.1 as int)),
{
    let h2 = homog_row(pm.e20, pm.e21, pm.e22, pm.e23, pos, wden);
    if h2 <= 0 {
        return None;
    }
    let h0 = homog_row(pm.e00, pm.e01, pm.e02, pm.e03, pos, wden);
    let h1 = homog_row(pm.e10, pm.e11, pm.e12, pm.e13, pos, wden);
    let px = floor_div(h0, h2);
    let py = floor_div(h1, h2);
    if px < 0 || px >= img_w as i128 || py < 0 || py >= img_h as i128 {
        return None;
    }
    Some((px as usize, py as usize))
}

/// An immutable captured image: a `width * height` buffer of RGB pixels
/// stored row-major.
pub struct Image {
    pub width: usize,
    pub height: usize,
    pub pixels: Vec<Rgb>,
}

impl Image {
    pub open spec fn wf(self) -> bool {
        &&& self.width <= MAX_IMG
        &&& self.height <= MAX_IMG
        &&& self.pixels.len() == self.width * self.height
    }

    pub open spec fn pixel_at(self, x: int, y: int) -> Rgb {
        self.pixels@[y * self.width + x]
    }

    /// Wrap a row-major pixel buffer; `None` when the buffer length does not
    /// match the dimensions.
    pub fn new(width: usize, height: usize, pixels: Vec<Rgb>) -> (r: Option<Image>)
        requires
            width <= MAX_IMG,
            height <= MAX_IMG,
        ensures
            match r {
                Some(img) => {
                    &&& img.wf()
                    &&& img.width == width
                    &&& img.height == height
                    &&& img.pixels == pixels
                },
                None => pixels.len() != width * height,
            },
    {
        proof {
            assert(width * height <= MAX_IMG * MAX_IMG) by (nonlinear_arith)
                requires
                    width <= MAX_IMG,
                    height <= MAX_IMG;
        }
        if pixels.len() == width * height {
            Some(Image { width, height, pixels })
        } else {
            None
        }
    }

    pub fn get_pixel(&self, x: usize, y: usize) -> (r: Rgb)
        requires
            self.wf(),
            x < self.width,
            y < self.height,
        ensures
            r == self.pixel_at(x as int, y as int),
    {
        proof {
            lemma_pix_bounds(self.width as int, self.height as int, x as int, y as int);
        }
        self.pixels[y * self.width + x]
    }
}

/// The row-major index of an in-range pixel is itself in range.
pub proof fn lemma_pix_bounds(w: int, h: int, x: int, y: int)
    requires
        0 <= x < w <= MAX_IMG,
        0 <= y < h <= MAX_IMG,
    ensures
        0 <= y * w <= y * w + x < w * h <= MAX_IMG * MAX_IMG,
{
    assert(0 <= y * w && y * w + x < w * h && w * h <= MAX_IMG * MAX_IMG) by (nonlinear_arith)
        requires
            0 <= x < w <= MAX_IMG,
            0 <= y < h <= MAX_IMG;
}

/// Distinct pixels have distinct row-major indices.
pub proof fn lemma_pix_injective(w: int, h: int, x1: int, y1: int, x2: int, y2: int)
    requires
        0 <= x1 < w,
        0 <= y1 < h,
        0 <= x2 < w,
        0 <= y2 < h,
        y1 * w + x1 == y2 * w + x2,
    ensures
        x1 == x2 && y1 == y2,
{
    assert(x1 == x2 && y1 == y2) by (nonlinear_arith)
        requires
            0 <= x1 < w,
            0 <= x2 < w,
            y1 * w + x1 == y2 * w + x2;
}

/// One calibrated camera, its captured image, and the mutable per-pixel
/// occlusion mask (row-major, same dimensions as the image).
pub struct CameraView {
    pub camera: CameraData,
    pub img: Image,
    pub mask: Vec<bool>,
}

impl CameraView {
    pub open spec fn wf(self) -> bool {
        &&& self.camera.wf()
        &&& self.img.wf()
        &&& self.mask.len() == self.img.width * self.img.height
    }

    /// Whether the pixel has been claimed by a resolved voxel in this sweep.
    pub open spec fn claimed(self, x: int, y: int) -> bool {
        self.mask@[y * self.img.width + x]
    }

    /// Pair a camera with its image; the mask starts all-false.
    pub fn new(camera: CameraData, img: Image) -> (v: CameraView)
        requires
            camera.wf(),
            img.wf(),
        ensures
            v.wf(),
            v.camera == camera,
            v.img == img,
            forall|i: int| 0 <= i < v.mask@.len() ==> !v.mask@[i],
    {
        proof {
            assert(img.width * img.height <= MAX_IMG * MAX_IMG) by (nonlinear_arith)
                requires
                    img.width <= MAX_IMG,
                    img.height <= MAX_IMG;
        }
        let total = img.width * img.height;
        let mut mask: Vec<bool> = Vec::new();
        let mut i: usize = 0;
        while i < total
            invariant
                i <= total,
                mask.len() == i,
                forall|j: int| 0 <= j < i ==> !mask@[j],
            decreases total - i,
        {
            mask.push(false);
            i = i + 1;
        }
        CameraView { camera, img, mask }
    }

    /// Clear the whole mask; called at the start of every directional sweep.
    pub fn reset_mask(&mut self)
        ensures
            final(self).camera == old(self).camera,
            final(self).img == old(self).img,
            final(self).mask.len() == old(self).mask.len(),
            forall|i: int| 0 <= i < final(self).mask@.len() ==> !final(self).mask@[i],
    {
        let n = self.mask.len();
        let mut i: usize = 0;
        while i < n
            invariant
                i <= n,
                self.mask.len() == n,
                self.camera == old(self).camera,
                self.img == old(self).img,
                forall|j: int| 0 <= j < i ==> !self.mask@[j],
            decreases n - i,
        {
            self.mask[i] = false;
            i = i + 1;
        }
    }

    /// Read the occlusion mask at one pixel.
    pub fn is_pixel_claimed(&self, x: usize, y: usize) -> (r: bool)
        requires
            self.wf(),
            x < self.img.width,
            y < self.img.height,
        ensures
            r == self.claimed(x as int, y as int),
    {
        proof {
            lemma_pix_bounds(self.img.width as int, self.img.height as int, x as int, y as int);
        }
        self.mask[y * self.img.width + x]
    }

    /// Mark one pixel as consumed by a resolved voxel; every other pixel and
    /// the camera and image are kept.
    pub fn claim_pixel(&mut self, x: usize, y: usize)
        requires
            old(self).wf(),
            x < old(self).img.width,
            y < old(self).img.height,
        ensures
            final(self).wf(),
            final(self).camera == old(self).camera,
            final(self).img == old(self).img,
            final(self).mask@ == old(self).mask@.update(
                y * old(self).img.width + x,
                true,
            ),
            final(self).claimed(x as int, y as int),
            forall|a: int, b: int|
                0 <= a < old(self).img.width && 0 <= b < old(self).img.height && !(a == x && b
                    == y) ==> final(self).claimed(a, b) == old(self).claimed(a, b),
    {
        proof {
            lemma_pix_bounds(self.img.width as int, self.img.height as int, x as int, y as int);
        }
        let idx = y * self.img.width + x;
        self.mask[idx] = true;
        proof {
            let w = self.img.width as int;
            let h = self.img.height as int;
            assert forall|a: int, b: int|
                0 <= a < w && 0 <= b < h && !(a == x && b == y) implies self.claimed(a, b) == old(
                self,
            ).claimed(a, b) by {
                lemma_pix_bounds(w, h, a, b);
                if b * w + a == y * w + x {
                    lemma_pix_injective(w, h, a, b, x as int, y as int);
                }
            }
        }
    }
}

} // verus!
