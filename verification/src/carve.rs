//! The carving engine: occlusion-aware plane sweeps over the volume, driven
//! to convergence.
//!
//! For each voxel on the current carving frontier the engine back-projects
//! the voxel center into every view that is on the unoccluded side of the
//! sweep plane, gathers the colors of unclaimed in-frame pixels, and runs
//! the photo-consistency test over them: an accepted voxel keeps the mean
//! color and claims the consumed pixels, a rejected voxel (or one with no
//! evidence at all) is carved.

use crate::brdf::{check_spec, standard_consistency_check, Ray, Sample, Threshold};
use crate::view::{project, project_spec, CameraData, CameraView, Rgb};
use crate::volume::{
    color_ok, count_uncarved, is_carved, lemma_count_uncarved_bounds, lemma_count_uncarved_update,
    lemma_flat_bounds, Color, Pos3, Volume, Voxel, MAX_DEN, POS2_MAX,
};
use vstd::prelude::*;

verus! {

/// Largest number of views the engine accepts: one observation per view.
pub const MAX_VIEWS: usize = 0x1_0000;

/// The axis perpendicular to the planes of a sweep.
#[derive(Clone, Copy, Debug, PartialEq, Eq, Structural)]
pub enum Axis {
    X,
    Y,
    Z,
}

/// One pixel consumed by a resolved voxel: the orchestrator sets the mask of
/// view `view` at `(px, py)` when the voxel is accepted.
#[derive(Clone, Copy, Debug, PartialEq, Eq, Structural)]
pub struct Claim {
    pub view: usize,
    pub px: usize,
    pub py: usize,
}

pub open spec fn views_wf(views: Seq<CameraView>) -> bool {
    forall|i: int| 0 <= i < views.len() ==> #[trigger] views[i].wf()
}

/// The pixel through which a view observes a world point, if it observes it
/// at all: the view must be marked valid for the current plane, the
/// back-projected point must fall inside the image, and the pixel must not
/// already be claimed by a nearer voxel.
pub open spec fn sees(v: CameraView, valid: bool, pos: Pos3, wden: int) -> Option<(int, int)> {
    if !valid {
        None
    } else {
        match project_spec(
            v.camera.pm_spec(),
            pos,
            wden,
            v.img.width as int,
            v.img.height as int,
        ) {
            Option::None => None,
            Option::Some(p) => if v.claimed(p.0, p.1) {
                None
            } else {
                Some(p)
            },
        }
    }
}

/// The viewing ray from the world point toward the camera: the camera
/// translation minus the point, as numerators over `2 * wden * cam.den`.
pub open spec fn ray_of(cam: CameraData, pos: Pos3, wden: int) -> Ray {
    Ray {
        x: (cam.t0 * 2 * wden - pos.x * cam.den) as i128,
        y: (cam.t1 * 2 * wden - pos.y * cam.den) as i128,
        z: (cam.t2 * 2 * wden - pos.z * cam.den) as i128,
    }
}

/// The observation a view contributes through pixel `p`.
pub open spec fn sample_of(v: CameraView, pos: Pos3, wden: int, p: (int, int)) -> Sample {
    Sample { color: v.img.pixel_at(p.0, p.1), ray: ray_of(v.camera, pos, wden) }
}

/// All observations of a world point, in view order.
pub open spec fn gather_samples(
    views: Seq<CameraView>,
    valid: Seq<bool>,
    pos: Pos3,
    wden: int,
) -> Seq<Sample>
    decreases views.len(),
{
    if views.len() == 0 {
        Seq::empty()
    } else {
        let rest = gather_samples(views.drop_last(), valid.drop_last(), pos, wden);
        let i = views.len() - 1;
        match sees(views[i], valid[i], pos, wden) {
            Option::None => rest,
            Option::Some(p) => rest.push(sample_of(views[i], pos, wden, p)),
        }
    }
}

/// The pixels those observations came through, in view order.
pub open spec fn gather_claims(
    views: Seq<CameraView>,
    valid: Seq<bool>,
    pos: Pos3,
    wden: int,
) -> Seq<Claim>
    decreases views.len(),
{
    if views.len() == 0 {
        Seq::empty()
    } else {
        let rest = gather_claims(views.drop_last(), valid.drop_last(), pos, wden);
        let i = views.len() - 1;
        match sees(views[i], valid[i], pos, wden) {
            Option::None => rest,
            Option::Some(p) => rest.push(
                Claim { view: (views.len() - 1) as usize, px: p.0 as usize, py: p.1 as usize },
            ),
        }
    }
}

/// The occlusion masks of a set of views, as one boolean row per view.
pub open spec fn masks_of(views: Seq<CameraView>) -> Seq<Seq<bool>> {
    Seq::new(views.len(), |i: int| views[i].mask@)
}

/// The image widths of a set of views, which fix how a pixel coordinate
/// maps into its mask row.
pub open spec fn widths_of(views: Seq<CameraView>) -> Seq<int> {
    Seq::new(views.len(), |i: int| views[i].img.width as int)
}

/// The masks after the claimed pixels have been marked consumed, claim by
/// claim in order.
pub open spec fn masks_after(widths: Seq<int>, masks: Seq<Seq<bool>>, claims: Seq<Claim>) -> Seq<
    Seq<bool>,
>
    decreases claims.len(),
{
    if claims.len() == 0 {
        masks
    } else {
        let rest = masks_after(widths, masks, claims.drop_last());
        let c = claims.last();
        rest.update(
            c.view as int,
            rest[c.view as int].update(c.py * widths[c.view as int] + c.px, true),
        )
    }
}

/// The state an evaluated voxel moves to: carved when there is no evidence
/// at all or the photo-consistency test rejects, colored with the mean
/// otherwise.
pub open spec fn eval_vox(samples: Seq<Sample>, t: Threshold) -> Voxel {
    if samples.len() == 0 {
        Voxel::Carved
    } else {
        match check_spec(samples, t) {
            Option::None => Voxel::Carved,
            Option::Some(c) => Voxel::Colored(c),
        }
    }
}

/// Every claim names an existing view and an in-range pixel of it.
pub open spec fn claims_ok(claims: Seq<Claim>, views: Seq<CameraView>) -> bool {
    forall|i: int|
        0 <= i < claims.len() ==> {
            let c = #[trigger] claims[i];
            &&& c.view < views.len()
            &&& c.px < views[c.view as int].img.width
            &&& c.py < views[c.view as int].img.height
        }
}

/// The viewing ray toward the camera, exact in `i128`.
fn compute_ray(cam: &CameraData, pos: Pos3, wden: i64) -> (r: Ray)
    requires
        cam.wf(),
        -POS2_MAX <= pos.x <= POS2_MAX,
        -POS2_MAX <= pos.y <= POS2_MAX,
        -POS2_MAX <= pos.z <= POS2_MAX,
        1 <= wden <= MAX_DEN,
    ensures
        r == ray_of(*cam, pos, wden as int),
{
    proof {
        lemma_ray_bounds(*cam, pos, wden as int);
    }
    Ray {
        x: (cam.t0 as i128) * 2 * (wden as i128) - (pos.x as i128) * (cam.den as i128),
        y: (cam.t1 as i128) * 2 * (wden as i128) - (pos.y as i128) * (cam.den as i128),
        z: (cam.t2 as i128) * 2 * (wden as i128) - (pos.z as i128) * (cam.den as i128),
    }
}

proof fn lemma_ray_bounds(cam: CameraData, pos: Pos3, wden: int)
    requires
        cam.wf(),
        -POS2_MAX <= pos.x <= POS2_MAX,
        -POS2_MAX <= pos.y <= POS2_MAX,
        -POS2_MAX <= pos.z <= POS2_MAX,
        1 <= wden <= MAX_DEN,
    ensures
        ({
            let b = 0x1_0000_0000_0000_0000_0000int;
            &&& -b <= cam.t0 * 2 <= b && -b <= cam.t0 * 2 * wden <= b
            &&& -b <= cam.t1 * 2 <= b && -b <= cam.t1 * 2 * wden <= b
            &&& -b <= cam.t2 * 2 <= b && -b <= cam.t2 * 2 * wden <= b
            &&& -b <= pos.x * cam.den <= b
            &&& -b <= pos.y * cam.den <= b
            &&& -b <= pos.z * cam.den <= b
        }),
{
    let b = 0x1_0000_0000_0000_0000_0000int;
    assert(-b <= cam.t0 * 2 <= b && -b <= (cam.t0 * 2) * wden <= b && -b <= cam.t1 * 2 <= b && -b
        <= (cam.t1 * 2) * wden <= b && -b <= cam.t2 * 2 <= b && -b <= (cam.t2 * 2) * wden <= b
        && -b <= pos.x * cam.den <= b && -b <= pos.y * cam.den <= b && -b <= pos.z * cam.den
        <= b) by (nonlinear_arith)
        requires
            -0x8000_0000 <= cam.t0 <= 0x8000_0000,
            -0x8000_0000 <= cam.t1 <= 0x8000_0000,
            -0x8000_0000 <= cam.t2 <= 0x8000_0000,
            1 <= cam.den <= 0x8000_0000,
            -POS2_MAX <= pos.x <= POS2_MAX,
            -POS2_MAX <= pos.y <= POS2_MAX,
            -POS2_MAX <= pos.z <= POS2_MAX,
            1 <= wden <= 0x8000_0000,
            b == 0x1_0000_0000_0000_0000_0000int;
}

/// Evaluate one voxel against the currently valid views: gather the
/// observations that unoccluded, in-frame, unclaimed pixels provide, and run
/// the photo-consistency test over them.  Returns the decision (`None` means
/// carve: rejected, or no evidence at all) together with the pixels the
/// observations came through; the orchestrator claims those pixels when the
/// decision is an accept.  The views are not mutated here.
pub fn carve_voxel(
    volume: &Volume,
    x: usize,
    y: usize,
    z: usize,
    views: &Vec<CameraView>,
    valid: &Vec<bool>,
    threshold: &Threshold,
) -> (r: (Option<Color>, Vec<Claim>))
    requires
        volume.wf(),
        volume.idx_ok(x as int, y as int, z as int),
        views_wf(views@),
        valid.len() == views.len(),
        views.len() <= MAX_VIEWS,
        threshold.wf(),
    ensures
        ({
            let pos = volume.center(x as int, y as int, z as int);
            let samples = gather_samples(views@, valid@, pos, volume.den as int);
            &&& r.1@ == gather_claims(views@, valid@, pos, volume.den as int)
            &&& claims_ok(r.1@, views@)
            &&& samples.len() == 0 ==> r.0 is None
            &&& samples.len() > 0 ==> r.0 == check_spec(samples, *threshold)
            &&& r.0 matches Some(c) ==> color_ok(Voxel::Colored(c))
        }),
{
    let pos = volume.voxel_to_position(x, y, z);
    let n = views.len();
    let mut samples: Vec<Sample> = Vec::new();
    let mut claims: Vec<Claim> = Vec::new();
    let mut i: usize = 0;
    while i < n
        invariant
            i <= n,
            n == views.len(),
            n <= MAX_VIEWS,
            valid.len() == views.len(),
            views_wf(views@),
            volume.wf(),
            pos == volume.center(x as int, y as int, z as int),
            -POS2_MAX <= pos.x <= POS2_MAX,
            -POS2_MAX <= pos.y <= POS2_MAX,
            -POS2_MAX <= pos.z <= POS2_MAX,
            samples@ == gather_samples(
                views@.take(i as int),
                valid@.take(i as int),
                pos,
                volume.den as int,
            ),
            claims@ == gather_claims(
                views@.take(i as int),
                valid@.take(i as int),
                pos,
                volume.den as int,
            ),
            samples@.len() <= i,
            claims_ok(claims@, views@),
        decreases n - i,
    {
        proof {
            assert(views@.take(i + 1).drop_last() =~= views@.take(i as int));
            assert(valid@.take(i + 1).drop_last() =~= valid@.take(i as int));
            assert(views@.take(i + 1).last() == views@[i as int]);
            assert(valid@.take(i + 1).last() == valid@[i as int]);
            assert(views@[i as int].wf());
        }
        let v = &views[i];
        if valid[i] {
            let pm = v.camera.projection_matrix();
            match project(&pm, pos, volume.den, v.img.width, v.img.height) {
                Option::None => {},
                Option::Some((px, py)) => {
                    if !v.is_pixel_claimed(px, py) {
                        let color = v.img.get_pixel(px, py);
                        let ray = compute_ray(&v.camera, pos, volume.den);
                        samples.push(Sample { color, ray });
                        claims.push(Claim { view: i, px, py });
                    }
                },
            }
        }
        i = i + 1;
    }
    proof {
        assert(views@.take(n as int) =~= views@);
        assert(valid@.take(n as int) =~= valid@);
    }
    if samples.len() == 0 {
        (None, claims)
    } else {
        let res = standard_consistency_check(&samples, threshold);
        (res, claims)
    }
}

/// The grid metadata (geometry, dimensions, buffer length) of two volume
/// states agree: carving only rewrites voxel states.
pub open spec fn same_shape(v0: Volume, v1: Volume) -> bool {
    &&& v1.voxel_size == v0.voxel_size
    &&& v1.den == v0.den
    &&& v1.front_top_left == v0.front_top_left
    &&& v1.back_bottom_right == v0.back_bottom_right
    &&& v1.width == v0.width
    &&& v1.height == v0.height
    &&& v1.depth == v0.depth
    &&& v1.data.len() == v0.data.len()
}

/// Every voxel carved in the earlier state is still carved in the later one:
/// carving is permanent.
pub open spec fn monotone(v0: Volume, v1: Volume) -> bool {
    forall|x: int, y: int, z: int|
        #![trigger v0.vox(x, y, z)]
        #![trigger v1.vox(x, y, z)]
        v0.idx_ok(x, y, z) && is_carved(v0.vox(x, y, z)) ==> is_carved(v1.vox(x, y, z))
}

/// None of the six axis-neighbors of the voxel is carved.
pub open spec fn neighbors_uncarved(v: Volume, x: int, y: int, z: int) -> bool {
    &&& !is_carved(v.vox(x - 1, y, z))
    &&& !is_carved(v.vox(x + 1, y, z))
    &&& !is_carved(v.vox(x, y - 1, z))
    &&& !is_carved(v.vox(x, y + 1, z))
    &&& !is_carved(v.vox(x, y, z - 1))
    &&& !is_carved(v.vox(x, y, z + 1))
}

/// A voxel that is not on the grid boundary and whose neighborhood is intact
/// in the later state was never on the carving frontier in between, so its
/// state was not re-evaluated and is unchanged.
pub open spec fn frontier_ok(v0: Volume, v1: Volume) -> bool {
    forall|x: int, y: int, z: int|
        #![trigger v1.vox(x, y, z)]
        v0.idx_ok(x, y, z) && !v0.on_boundary(x, y, z) && neighbors_uncarved(v1, x, y, z)
            ==> v1.vox(x, y, z) == v0.vox(x, y, z)
}

/// Every pixel of the view's occlusion mask is unclaimed.
pub open spec fn mask_cleared(v: CameraView) -> bool {
    forall|k: int| 0 <= k < v.mask@.len() ==> !v.mask@[k]
}

/// Sweeping only touches the occlusion masks of the views: the cameras and
/// images are unchanged and every mask keeps its size.
pub open spec fn views_preserved(s0: Seq<CameraView>, s1: Seq<CameraView>) -> bool {
    &&& s1.len() == s0.len()
    &&& forall|i: int|
        0 <= i < s0.len() ==> {
            &&& (#[trigger] s1[i]).camera == s0[i].camera
            &&& s1[i].img == s0[i].img
            &&& s1[i].mask.len() == s0[i].mask.len()
        }
}

/// `same_shape`, `monotone` and `frontier_ok` compose across two carving
/// stages.  The frontier property composes because a neighborhood intact at
/// the end was intact at every earlier stage (carving is monotone).
pub proof fn lemma_volume_compose(v0: Volume, v1: Volume, v2: Volume)
    requires
        same_shape(v0, v1),
        same_shape(v1, v2),
        monotone(v0, v1),
        monotone(v1, v2),
        frontier_ok(v0, v1),
        frontier_ok(v1, v2),
    ensures
        same_shape(v0, v2),
        monotone(v0, v2),
        frontier_ok(v0, v2),
{
    assert forall|x: int, y: int, z: int|
        v0.idx_ok(x, y, z) && !v0.on_boundary(x, y, z) && neighbors_uncarved(v2, x, y, z) implies
        #[trigger] v2.vox(x, y, z) == v0.vox(x, y, z) by {
        assert(v1.idx_ok(x - 1, y, z) && v1.idx_ok(x + 1, y, z) && v1.idx_ok(x, y - 1, z)
            && v1.idx_ok(x, y + 1, z) && v1.idx_ok(x, y, z - 1) && v1.idx_ok(x, y, z + 1));
        assert(neighbors_uncarved(v1, x, y, z));
        assert(v1.vox(x, y, z) == v0.vox(x, y, z));
        assert(v2.vox(x, y, z) == v1.vox(x, y, z));
    }
}

pub proof fn lemma_views_preserved_compose(s0: Seq<CameraView>, s1: Seq<CameraView>, s2: Seq<
    CameraView,
>)
    requires
        views_preserved(s0, s1),
        views_preserved(s1, s2),
    ensures
        views_preserved(s0, s2),
{
    assert forall|i: int| 0 <= i < s0.len() implies {
        &&& (#[trigger] s2[i]).camera == s0[i].camera
        &&& s2[i].img == s0[i].img
        &&& s2[i].mask.len() == s0[i].mask.len()
    } by {
        assert(s1[i].camera == s0[i].camera && s1[i].img == s0[i].img && s1[i].mask.len()
            == s0[i].mask.len());
    }
}

/// Rewriting one frontier voxel that was not carved preserves monotonicity
/// and the frontier property for that single step.
proof fn lemma_step(v1: Volume, v2: Volume, x: int, y: int, z: int, val: Voxel)
    requires
        v1.wf(),
        v1.idx_ok(x, y, z),
        same_shape(v1, v2),
        !is_carved(v1.vox(x, y, z)),
        v1.visible_spec(x, y, z),
        v2.vox(x, y, z) == val,
        forall|a: int, b: int, c: int|
            v1.idx_ok(a, b, c) && !(a == x && b == y && c == z) ==> v2.vox(a, b, c) == v1.vox(
                a,
                b,
                c,
            ),
    ensures
        monotone(v1, v2),
        frontier_ok(v1, v2),
{
    assert forall|a: int, b: int, c: int|
        v1.idx_ok(a, b, c) && !v1.on_boundary(a, b, c) && neighbors_uncarved(v2, a, b, c) implies
        #[trigger] v2.vox(a, b, c) == v1.vox(a, b, c) by {
        if a == x && b == y && c == z {
            // The voxel was visible but interior, so some neighbor was
            // carved before the step; that neighbor is a different cell, so
            // it is still carved afterwards, contradicting the intact
            // neighborhood.
            assert(is_carved(v1.vox(x - 1, y, z)) || is_carved(v1.vox(x + 1, y, z)) || is_carved(
                v1.vox(x, y - 1, z),
            ) || is_carved(v1.vox(x, y + 1, z)) || is_carved(v1.vox(x, y, z - 1)) || is_carved(
                v1.vox(x, y, z + 1),
            ));
            assert(false);
        }
    }
}

/// Whether a camera stands on the already-swept side of the current plane,
/// so that it looks at the plane through resolved voxels only.  The camera
/// coordinate `t / cam.den` on the sweep axis is compared exactly against
/// the plane center `ppos / (2 wden)`; a sweep that walks world coordinates
/// upward has its swept side below the plane, and vice versa.  (Grid index
/// order runs with world x and against world y and z.)
pub open spec fn swept_side_spec(
    cam: CameraData,
    axis: Axis,
    ascending: bool,
    ppos: int,
    wden: int,
) -> bool {
    let t = match axis {
        Axis::X => cam.t0 as int,
        Axis::Y => cam.t1 as int,
        Axis::Z => cam.t2 as int,
    };
    let world_ascending = match axis {
        Axis::X => ascending,
        Axis::Y => !ascending,
        Axis::Z => !ascending,
    };
    if world_ascending {
        t * 2 * wden < ppos * cam.den
    } else {
        t * 2 * wden > ppos * cam.den
    }
}

fn camera_on_swept_side(cam: &CameraData, axis: Axis, ascending: bool, ppos: i64, wden: i64) -> (r:
    bool)
    requires
        cam.wf(),
        -POS2_MAX <= ppos <= POS2_MAX,
        1 <= wden <= MAX_DEN,
    ensures
        r == swept_side_spec(*cam, axis, ascending, ppos as int, wden as int),
{
    let t = match axis {
        Axis::X => cam.t0,
        Axis::Y => cam.t1,
        Axis::Z => cam.t2,
    };
    let world_ascending = match axis {
        Axis::X => ascending,
        Axis::Y => !ascending,
        Axis::Z => !ascending,
    };
    proof {
        let b = 0x1_0000_0000_0000_0000_0000int;
        assert(-b <= t * 2 <= b && -b <= (t * 2) * wden <= b && -b <= ppos * cam.den <= b) by (
        nonlinear_arith)
            requires
                -0x8000_0000 <= t <= 0x8000_0000,
                1 <= wden <= 0x8000_0000,
                -POS2_MAX <= ppos <= POS2_MAX,
                1 <= cam.den <= 0x8000_0000,
                b == 0x1_0000_0000_0000_0000_0000int;
    }
    let lhs = (t as i128) * 2 * (wden as i128);
    let rhs = (ppos as i128) * (cam.den as i128);
    if world_ascending {
        lhs < rhs
    } else {
        lhs > rhs
    }
}

/// The geometry of a volume without its voxel data: what a sweep needs to
/// know about the grid.  Carving never changes it.
pub struct GridShape {
    pub width: int,
    pub height: int,
    pub depth: int,
    pub voxel_size: int,
    pub den: int,
    pub front_top_left: Pos3,
}

pub open spec fn shape_of(v: Volume) -> GridShape {
    GridShape {
        width: v.width as int,
        height: v.height as int,
        depth: v.depth as int,
        voxel_size: v.voxel_size as int,
        den: v.den as int,
        front_top_left: v.front_top_left,
    }
}

impl GridShape {
    pub open spec fn flat(self, x: int, y: int, z: int) -> int {
        (y * self.width + x) * self.depth + z
    }

    pub open spec fn center(self, x: int, y: int, z: int) -> Pos3 {
        Pos3 {
            x: (2 * self.front_top_left.x + (2 * x + 1) * self.voxel_size) as i64,
            y: (2 * self.front_top_left.y - (2 * y + 1) * self.voxel_size) as i64,
            z: (2 * self.front_top_left.z - (2 * z + 1) * self.voxel_size) as i64,
        }
    }

    pub open spec fn on_boundary(self, x: int, y: int, z: int) -> bool {
        x == 0 || y == 0 || z == 0 || x == self.width - 1 || y == self.height - 1 || z
            == self.depth - 1
    }

    pub open spec fn visible(self, data: Seq<Voxel>, x: int, y: int, z: int) -> bool {
        self.on_boundary(x, y, z) || is_carved(data[self.flat(x - 1, y, z)]) || is_carved(
            data[self.flat(x + 1, y, z)],
        ) || is_carved(data[self.flat(x, y - 1, z)]) || is_carved(data[self.flat(x, y + 1, z)])
            || is_carved(data[self.flat(x, y, z - 1)]) || is_carved(data[self.flat(x, y, z + 1)])
    }
}

/// What a sweep reads of one view besides its mutable mask: the calibration
/// and the captured image.  Carving never changes these.
pub struct ViewModel {
    pub camera: CameraData,
    pub width: int,
    pub height: int,
    pub pixels: Seq<Rgb>,
}

pub open spec fn view_models(views: Seq<CameraView>) -> Seq<ViewModel> {
    Seq::new(
        views.len(),
        |i: int|
            ViewModel {
                camera: views[i].camera,
                width: views[i].img.width as int,
                height: views[i].img.height as int,
                pixels: views[i].img.pixels@,
            },
    )
}

pub open spec fn model_widths(ms: Seq<ViewModel>) -> Seq<int> {
    Seq::new(ms.len(), |i: int| ms[i].width)
}

/// The all-false occlusion masks every directional sweep starts from.
pub open spec fn cleared_masks(ms: Seq<ViewModel>) -> Seq<Seq<bool>> {
    Seq::new(ms.len(), |i: int| Seq::new((ms[i].width * ms[i].height) as nat, |j: int| false))
}

/// `sees` over the split state: the view's constant data plus its mask row.
pub open spec fn sees_m(m: ViewModel, mask: Seq<bool>, valid: bool, pos: Pos3, wden: int) -> Option<
    (int, int),
> {
    if !valid {
        None
    } else {
        match project_spec(m.camera.pm_spec(), pos, wden, m.width, m.height) {
            Option::None => None,
            Option::Some(p) => if mask[p.1 * m.width + p.0] {
                None
            } else {
                Some(p)
            },
        }
    }
}

pub open spec fn sample_m(m: ViewModel, pos: Pos3, wden: int, p: (int, int)) -> Sample {
    Sample { color: m.pixels[p.1 * m.width + p.0], ray: ray_of(m.camera, pos, wden) }
}

pub open spec fn gather_samples_m(
    ms: Seq<ViewModel>,
    masks: Seq<Seq<bool>>,
    valid: Seq<bool>,
    pos: Pos3,
    wden: int,
) -> Seq<Sample>
    decreases ms.len(),
{
    if ms.len() == 0 {
        Seq::empty()
    } else {
        let rest = gather_samples_m(ms.drop_last(), masks.drop_last(), valid.drop_last(), pos, wden);
        let i = ms.len() - 1;
        match sees_m(ms[i], masks[i], valid[i], pos, wden) {
            Option::None => rest,
            Option::Some(p) => rest.push(sample_m(ms[i], pos, wden, p)),
        }
    }
}

pub open spec fn gather_claims_m(
    ms: Seq<ViewModel>,
    masks: Seq<Seq<bool>>,
    valid: Seq<bool>,
    pos: Pos3,
    wden: int,
) -> Seq<Claim>
    decreases ms.len(),
{
    if ms.len() == 0 {
        Seq::empty()
    } else {
        let rest = gather_claims_m(ms.drop_last(), masks.drop_last(), valid.drop_last(), pos, wden);
        let i = ms.len() - 1;
        match sees_m(ms[i], masks[i], valid[i], pos, wden) {
            Option::None => rest,
            Option::Some(p) => rest.push(
                Claim { view: (ms.len() - 1) as usize, px: p.0 as usize, py: p.1 as usize },
            ),
        }
    }
}

/// Gathering over the split state agrees with gathering over the views
/// themselves when the mask matrix is the views' own masks.
pub proof fn lemma_gather_bridge(views: Seq<CameraView>, valid: Seq<bool>, pos: Pos3, wden: int)
    requires
        valid.len() == views.len(),
    ensures
        gather_samples_m(view_models(views), masks_of(views), valid, pos, wden) == gather_samples(
            views,
            valid,
            pos,
            wden,
        ),
        gather_claims_m(view_models(views), masks_of(views), valid, pos, wden) == gather_claims(
            views,
            valid,
            pos,
            wden,
        ),
    decreases views.len(),
{
    let ms = view_models(views);
    let masks = masks_of(views);
    if views.len() > 0 {
        let vd = views.drop_last();
        lemma_gather_bridge(vd, valid.drop_last(), pos, wden);
        assert(ms.drop_last() =~= view_models(vd));
        assert(masks.drop_last() =~= masks_of(vd));
        let i = views.len() - 1;
        assert(sees_m(ms[i], masks[i], valid[i], pos, wden) == sees(views[i], valid[i], pos, wden));
        match sees(views[i], valid[i], pos, wden) {
            Option::None => {},
            Option::Some(p) => {
                assert(sample_m(ms[i], pos, wden, p) == sample_of(views[i], pos, wden, p));
            },
        }
    }
}

/// Identical cameras and images give identical view models.
pub proof fn lemma_view_models_eq(s0: Seq<CameraView>, s1: Seq<CameraView>)
    requires
        views_preserved(s0, s1),
    ensures
        view_models(s1) == view_models(s0),
{
    assert(view_models(s1) =~= view_models(s0));
}

/// One cell of a sweep, over the split state `(voxel data, mask matrix)`:
/// an already-carved or off-frontier voxel is skipped; otherwise the voxel
/// becomes `eval_vox` of its observations, and exactly on an accept the
/// observed pixels are claimed.
pub open spec fn cell_step(
    sh: GridShape,
    ms: Seq<ViewModel>,
    valid: Seq<bool>,
    t: Threshold,
    x: int,
    y: int,
    z: int,
    data: Seq<Voxel>,
    masks: Seq<Seq<bool>>,
) -> (Seq<Voxel>, Seq<Seq<bool>>) {
    let cur = data[sh.flat(x, y, z)];
    if is_carved(cur) || !sh.visible(data, x, y, z) {
        (data, masks)
    } else {
        let pos = sh.center(x, y, z);
        let samples = gather_samples_m(ms, masks, valid, pos, sh.den);
        let nv = eval_vox(samples, t);
        let data2 = data.update(sh.flat(x, y, z), nv);
        if nv is Carved {
            (data2, masks)
        } else {
            let claims = gather_claims_m(ms, masks, valid, pos, sh.den);
            (data2, masks_after(model_widths(ms), masks, claims))
        }
    }
}

/// The world position of sweep plane `a` on the sweep axis.
pub open spec fn plane_pos(sh: GridShape, axis: Axis, a: int) -> int {
    match axis {
        Axis::X => sh.center(a, 0, 0).x as int,
        Axis::Y => sh.center(0, a, 0).y as int,
        Axis::Z => sh.center(0, 0, a).z as int,
    }
}

/// Which views are valid for plane `a`: those whose camera stands on the
/// already-swept side of the plane.
pub open spec fn plane_valid(
    sh: GridShape,
    ms: Seq<ViewModel>,
    axis: Axis,
    ascending: bool,
    a: int,
) -> Seq<bool> {
    Seq::new(
        ms.len(),
        |i: int| swept_side_spec(ms[i].camera, axis, ascending, plane_pos(sh, axis, a), sh.den),
    )
}

/// Grid coordinates of the cell that plane `a`, row `b`, column `c` of a
/// sweep along `axis` visits.
pub open spec fn cell_coords(axis: Axis, a: int, b: int, c: int) -> (int, int, int) {
    match axis {
        Axis::X => (a, c, b),
        Axis::Y => (b, a, c),
        Axis::Z => (c, b, a),
    }
}

/// Rows and columns of one sweep plane: the extents of the two non-sweep
/// axes, in visiting order.
pub open spec fn row_count(sh: GridShape, axis: Axis) -> int {
    match axis {
        Axis::X => sh.depth,
        Axis::Y => sh.width,
        Axis::Z => sh.height,
    }
}

pub open spec fn col_count(sh: GridShape, axis: Axis) -> int {
    match axis {
        Axis::X => sh.height,
        Axis::Y => sh.depth,
        Axis::Z => sh.width,
    }
}

pub open spec fn plane_count(sh: GridShape, axis: Axis) -> int {
    match axis {
        Axis::X => sh.width,
        Axis::Y => sh.height,
        Axis::Z => sh.depth,
    }
}

/// The state after the first `c_done` cells of row `b` of plane `a`.
pub open spec fn sweep_row(
    sh: GridShape,
    ms: Seq<ViewModel>,
    axis: Axis,
    ascending: bool,
    t: Threshold,
    a: int,
    b: int,
    c_done: int,
    st: (Seq<Voxel>, Seq<Seq<bool>>),
) -> (Seq<Voxel>, Seq<Seq<bool>>)
    decreases c_done,
{
    if c_done <= 0 {
        st
    } else {
        let prev = sweep_row(sh, ms, axis, ascending, t, a, b, c_done - 1, st);
        let valid = plane_valid(sh, ms, axis, ascending, a);
        let xyz = cell_coords(axis, a, b, c_done - 1);
        cell_step(sh, ms, valid, t, xyz.0, xyz.1, xyz.2, prev.0, prev.1)
    }
}

/// The state after the first `b_done` rows of plane `a`.
pub open spec fn sweep_plane(
    sh: GridShape,
    ms: Seq<ViewModel>,
    axis: Axis,
    ascending: bool,
    t: Threshold,
    a: int,
    b_done: int,
    st: (Seq<Voxel>, Seq<Seq<bool>>),
) -> (Seq<Voxel>, Seq<Seq<bool>>)
    decreases b_done,
{
    if b_done <= 0 {
        st
    } else {
        let prev = sweep_plane(sh, ms, axis, ascending, t, a, b_done - 1, st);
        sweep_row(sh, ms, axis, ascending, t, a, b_done - 1, col_count(sh, axis), prev)
    }
}

/// The state after the first `steps_done` planes of a directional sweep, in
/// ascending or descending plane-index order.
pub open spec fn sweep_planes(
    sh: GridShape,
    ms: Seq<ViewModel>,
    axis: Axis,
    ascending: bool,
    t: Threshold,
    steps_done: int,
    st: (Seq<Voxel>, Seq<Seq<bool>>),
) -> (Seq<Voxel>, Seq<Seq<bool>>)
    decreases steps_done,
{
    if steps_done <= 0 {
        st
    } else {
        let prev = sweep_planes(sh, ms, axis, ascending, t, steps_done - 1, st);
        let a = if ascending {
            steps_done - 1
        } else {
            plane_count(sh, axis) - steps_done
        };
        sweep_plane(sh, ms, axis, ascending, t, a, row_count(sh, axis), prev)
    }
}

/// The full effect of one directional sweep on the voxel data: the masks
/// start all-false, every plane is visited in order, and the final masks
/// come out alongside the carved grid.
#[verifier::opaque]
pub open spec fn sweep_result(
    sh: GridShape,
    ms: Seq<ViewModel>,
    axis: Axis,
    ascending: bool,
    t: Threshold,
    data0: Seq<Voxel>,
) -> (Seq<Voxel>, Seq<Seq<bool>>) {
    sweep_planes(sh, ms, axis, ascending, t, plane_count(sh, axis), (data0, cleared_masks(ms)))
}

/// A `sweep_cell` transition, reflected onto the split state.
proof fn lemma_cell_matches(
    cams: Seq<CameraView>,
    v0: Volume,
    ws0: Seq<CameraView>,
    v1: Volume,
    ws1: Seq<CameraView>,
    valid: Seq<bool>,
    t: Threshold,
    x: int,
    y: int,
    z: int,
    carved: int,
)
    requires
        same_shape(v0, v1),
        shape_of(v0) == shape_of(v1),
        views_preserved(cams, ws0),
        valid.len() == ws0.len(),
        sweep_cell_post(v0, ws0, v1, ws1, valid, t, x, y, z, carved),
    ensures
        (v1.data@, masks_of(ws1)) == cell_step(
            shape_of(v0),
            view_models(cams),
            valid,
            t,
            x,
            y,
            z,
            v0.data@,
            masks_of(ws0),
        ),
{
    let sh = shape_of(v0);
    let ms = view_models(cams);
    lemma_view_models_eq(cams, ws0);
    lemma_gather_bridge(ws0, valid, sh.center(x, y, z), sh.den);
    assert(sh.center(x, y, z) == v0.center(x, y, z));
    assert(sh.flat(x, y, z) == v0.flat(x, y, z));
    assert(sh.visible(v0.data@, x, y, z) == v0.visible_spec(x, y, z));
    assert(model_widths(ms) =~= widths_of(ws0));
    let pos = v0.center(x, y, z);
    let samples = gather_samples(ws0, valid, pos, v0.den as int);
    if !(is_carved(v0.vox(x, y, z)) || !v0.visible_spec(x, y, z)) && !(eval_vox(samples, t)
        is Carved) {
        assert(masks_of(ws1) == masks_after(
            model_widths(ms),
            masks_of(ws0),
            gather_claims_m(ms, masks_of(ws0), valid, pos, sh.den),
        ));
    }
}

/// What `sweep_cell` does to voxel `(x, y, z)` and the view masks, stated
/// over the entry state: a voxel that is already carved or off the frontier
/// is skipped; otherwise its state becomes `eval_vox` of its observations,
/// and exactly on an accept the observed pixels are claimed.
pub open spec fn sweep_cell_post(
    v0: Volume,
    ws0: Seq<CameraView>,
    v1: Volume,
    ws1: Seq<CameraView>,
    valid: Seq<bool>,
    t: Threshold,
    x: int,
    y: int,
    z: int,
    carved: int,
) -> bool {
    let skip = is_carved(v0.vox(x, y, z)) || !v0.visible_spec(x, y, z);
    let pos = v0.center(x, y, z);
    let samples = gather_samples(ws0, valid, pos, v0.den as int);
    let claims = gather_claims(ws0, valid, pos, v0.den as int);
    let nv = eval_vox(samples, t);
    if skip {
        &&& v1.data@ == v0.data@
        &&& ws1 == ws0
        &&& carved == 0
    } else {
        &&& v1.data@ == v0.data@.update(v0.flat(x, y, z), nv)
        &&& carved == (if nv is Carved {
            1int
        } else {
            0int
        })
        &&& (nv is Carved ==> ws1 == ws0)
        &&& (!(nv is Carved) ==> masks_of(ws1) == masks_after(
            widths_of(ws0),
            masks_of(ws0),
            claims,
        ))
    }
}

/// Process one voxel of the current plane: skip it unless it is uncarved and
/// on the visibility frontier; otherwise evaluate it, rewrite its state, and
/// on an accept claim the consumed pixels.  Returns how many voxels this
/// step carved (0 or 1).
#[verifier::loop_isolation(false)]
fn sweep_cell(
    volume: &mut Volume,
    x: usize,
    y: usize,
    z: usize,
    views: &mut Vec<CameraView>,
    valid: &Vec<bool>,
    threshold: &Threshold,
) -> (carved: usize)
    requires
        old(volume).wf(),
        old(volume).idx_ok(x as int, y as int, z as int),
        views_wf(old(views)@),
        valid.len() == old(views).len(),
        old(views).len() <= MAX_VIEWS,
        threshold.wf(),
    ensures
        final(volume).wf(),
        same_shape(*old(volume), *final(volume)),
        monotone(*old(volume), *final(volume)),
        frontier_ok(*old(volume), *final(volume)),
        carved <= 1,
        carved as int + count_uncarved(final(volume).data@) == count_uncarved(
            old(volume).data@,
        ),
        views_wf(final(views)@),
        views_preserved(old(views)@, final(views)@),
        sweep_cell_post(
            *old(volume),
            old(views)@,
            *final(volume),
            final(views)@,
            valid@,
            *threshold,
            x as int,
            y as int,
            z as int,
            carved as int,
        ),
{
    let cur = volume.get_voxel(x, y, z);
    if cur == Voxel::Carved {
        return 0;
    }
    if !volume.voxel_visible(x, y, z) {
        return 0;
    }
    let (res, cl) = carve_voxel(volume, x, y, z, views, valid, threshold);
    match res {
        Option::None => {
            proof {
                lemma_flat_bounds(*volume, x as int, y as int, z as int);
                lemma_count_uncarved_update(
                    volume.data@,
                    volume.flat(x as int, y as int, z as int),
                    Voxel::Carved,
                );
            }
            let ghost v1 = *volume;
            volume.set_voxel(x, y, z, Voxel::Carved);
            proof {
                lemma_step(v1, *volume, x as int, y as int, z as int, Voxel::Carved);
            }
            1
        },
        Option::Some(color) => {
            proof {
                lemma_flat_bounds(*volume, x as int, y as int, z as int);
                lemma_count_uncarved_update(
                    volume.data@,
                    volume.flat(x as int, y as int, z as int),
                    Voxel::Colored(color),
                );
            }
            let ghost v1 = *volume;
            volume.set_voxel(x, y, z, Voxel::Colored(color));
            proof {
                lemma_step(v1, *volume, x as int, y as int, z as int, Voxel::Colored(color));
            }
            let ghost ws0 = old(views)@;
            let ghost widths = widths_of(ws0);
            let mut k: usize = 0;
            while k < cl.len()
                invariant
                    k <= cl.len(),
                    views_wf(views@),
                    views_preserved(old(views)@, views@),
                    claims_ok(cl@, views@),
                    masks_of(views@) == masks_after(widths, masks_of(ws0), cl@.take(k as int)),
                decreases cl.len() - k,
            {
                let c = cl[k];
                let ghost ws = views@;
                proof {
                    assert(cl@[k as int] == c);
                    assert(views@[c.view as int].wf());
                }
                let vr = &mut views[c.view];
                vr.claim_pixel(c.px, c.py);
                proof {
                    assert forall|i: int| 0 <= i < views@.len() implies (#[trigger] views@[i]).wf()
                        && views@[i].camera == ws[i].camera && views@[i].img == ws[i].img
                        && views@[i].mask.len() == ws[i].mask.len() by {
                        assert(ws[i].wf());
                    }
                    lemma_views_preserved_compose(old(views)@, ws, views@);
                    assert(cl@.take(k + 1).drop_last() =~= cl@.take(k as int));
                    assert(cl@.take(k + 1).last() == cl@[k as int]);
                    assert(widths[c.view as int] == ws[c.view as int].img.width as int);
                    assert(masks_of(views@) =~= masks_after(
                        widths,
                        masks_of(ws0),
                        cl@.take(k + 1),
                    ));
                }
                k = k + 1;
            }
            proof {
                assert(cl@.take(cl.len() as int) =~= cl@);
            }
            0
        },
    }
}

/// One directional plane sweep: reset every view's occlusion mask, then walk
/// the planes perpendicular to `axis` in ascending or descending index
/// order.  For each plane, the views whose camera stands on the already-
/// swept side are the valid ones (they look at the plane through resolved
/// voxels only); every uncarved frontier voxel of the plane is then
/// evaluated against them.  Returns the number of voxels this sweep carved.
#[verifier::loop_isolation(false)]
#[verifier::rlimit(100)]
pub fn plane_sweep(
    axis: Axis,
    ascending: bool,
    volume: &mut Volume,
    views: &mut Vec<CameraView>,
    threshold: &Threshold,
) -> (carved: usize)
    requires
        old(volume).wf(),
        views_wf(old(views)@),
        old(views).len() <= MAX_VIEWS,
        threshold.wf(),
    ensures
        final(volume).wf(),
        same_shape(*old(volume), *final(volume)),
        monotone(*old(volume), *final(volume)),
        frontier_ok(*old(volume), *final(volume)),
        carved as int + count_uncarved(final(volume).data@) == count_uncarved(
            old(volume).data@,
        ),
        views_wf(final(views)@),
        views_preserved(old(views)@, final(views)@),
        ({
            let r = sweep_result(
                shape_of(*old(volume)),
                view_models(old(views)@),
                axis,
                ascending,
                *threshold,
                old(volume).data@,
            );
            &&& final(volume).data@ == r.0
            &&& masks_of(final(views)@) == r.1
        }),
{
    let ghost sh = shape_of(*old(volume));
    let ghost ms = view_models(old(views)@);
    proof {
        reveal(sweep_result);
    }
    let mut i: usize = 0;
    while i < views.len()
        invariant
            i <= views.len(),
            views_wf(views@),
            views_preserved(old(views)@, views@),
            forall|j: int| 0 <= j < i ==> mask_cleared(#[trigger] views@[j]),
        decreases views.len() - i,
    {
        let ghost ws = views@;
        proof {
            assert(views@[i as int].wf());
        }
        let vr = &mut views[i];
        vr.reset_mask();
        proof {
            assert forall|j: int| 0 <= j < views@.len() implies (#[trigger] views@[j]).wf()
                && views@[j].camera == ws[j].camera && views@[j].img == ws[j].img
                && views@[j].mask.len() == ws[j].mask.len() by {
                assert(ws[j].wf());
            }
            lemma_views_preserved_compose(old(views)@, ws, views@);
            assert forall|j: int| 0 <= j < i + 1 implies mask_cleared(#[trigger] views@[j]) by {
                if j < i {
                    assert(mask_cleared(ws[j]));
                    assert(views@[j] == ws[j]);
                }
            }
        }
        i = i + 1;
    }
    let ghost st0 = (old(volume).data@, cleared_masks(ms));
    proof {
        assert forall|j: int| 0 <= j < views@.len() implies masks_of(views@)[j]
            == cleared_masks(ms)[j] by {
            assert(mask_cleared(views@[j]));
            assert(old(views)@[j].wf());
            assert(views@[j].mask@.len() == (ms[j].width * ms[j].height) as nat);
            assert(masks_of(views@)[j] =~= cleared_masks(ms)[j]);
        }
        assert(masks_of(views@) =~= cleared_masks(ms));
        assert(sweep_planes(sh, ms, axis, ascending, *threshold, 0, st0) == st0);
    }
    let n_planes = match axis {
        Axis::X => volume.width,
        Axis::Y => volume.height,
        Axis::Z => volume.depth,
    };
    let n_b = match axis {
        Axis::X => volume.depth,
        Axis::Y => volume.width,
        Axis::Z => volume.height,
    };
    let n_c = match axis {
        Axis::X => volume.height,
        Axis::Y => volume.depth,
        Axis::Z => volume.width,
    };
    proof {
        assert(n_planes == plane_count(sh, axis) && n_b == row_count(sh, axis) && n_c
            == col_count(sh, axis));
    }
    let mut carved: usize = 0;
    let mut step: usize = 0;
    while step < n_planes
        invariant
            step <= n_planes,
            volume.wf(),
            same_shape(*old(volume), *volume),
            monotone(*old(volume), *volume),
            frontier_ok(*old(volume), *volume),
            carved as int + count_uncarved(volume.data@) == count_uncarved(old(volume).data@),
            views_wf(views@),
            views_preserved(old(views)@, views@),
            (volume.data@, masks_of(views@)) == sweep_planes(
                sh,
                ms,
                axis,
                ascending,
                *threshold,
                step as int,
                st0,
            ),
        decreases n_planes - step,
    {
        let a = if ascending {
            step
        } else {
            n_planes - 1 - step
        };
        let ppos = match axis {
            Axis::X => volume.voxel_to_position(a, 0, 0).x,
            Axis::Y => volume.voxel_to_position(0, a, 0).y,
            Axis::Z => volume.voxel_to_position(0, 0, a).z,
        };
        proof {
            assert(ppos as int == plane_pos(sh, axis, a as int));
        }
        let mut valid: Vec<bool> = Vec::new();
        let mut j: usize = 0;
        while j < views.len()
            invariant
                j <= views.len(),
                valid.len() == j,
                forall|i2: int|
                    0 <= i2 < j ==> valid@[i2] == plane_valid(sh, ms, axis, ascending, a as int)[i2],
            decreases views.len() - j,
        {
            proof {
                assert(views@[j as int].wf());
                assert(views@[j as int].camera == ms[j as int].camera);
            }
            let side = camera_on_swept_side(&views[j].camera, axis, ascending, ppos, volume.den);
            valid.push(side);
            j = j + 1;
        }
        proof {
            assert(valid@ =~= plane_valid(sh, ms, axis, ascending, a as int));
        }
        let ghost plane_st = (volume.data@, masks_of(views@));
        let mut b: usize = 0;
        while b < n_b
            invariant
                b <= n_b,
                valid.len() == views.len(),
                valid@ == plane_valid(sh, ms, axis, ascending, a as int),
                volume.wf(),
                same_shape(*old(volume), *volume),
                monotone(*old(volume), *volume),
                frontier_ok(*old(volume), *volume),
                carved as int + count_uncarved(volume.data@) == count_uncarved(
                    old(volume).data@,
                ),
                views_wf(views@),
                views_preserved(old(views)@, views@),
                (volume.data@, masks_of(views@)) == sweep_plane(
                    sh,
                    ms,
                    axis,
                    ascending,
                    *threshold,
                    a as int,
                    b as int,
                    plane_st,
                ),
            decreases n_b - b,
        {
            let ghost row_st = (volume.data@, masks_of(views@));
            let mut c: usize = 0;
            while c < n_c
                invariant
                    c <= n_c,
                    valid.len() == views.len(),
                    valid@ == plane_valid(sh, ms, axis, ascending, a as int),
                    volume.wf(),
                    same_shape(*old(volume), *volume),
                    monotone(*old(volume), *volume),
                    frontier_ok(*old(volume), *volume),
                    carved as int + count_uncarved(volume.data@) == count_uncarved(
                        old(volume).data@,
                    ),
                    views_wf(views@),
                    views_preserved(old(views)@, views@),
                    (volume.data@, masks_of(views@)) == sweep_row(
                        sh,
                        ms,
                        axis,
                        ascending,
                        *threshold,
                        a as int,
                        b as int,
                        c as int,
                        row_st,
                    ),
                decreases n_c - c,
            {
                let (x, y, z) = match axis {
                    Axis::X => (a, c, b),
                    Axis::Y => (b, a, c),
                    Axis::Z => (c, b, a),
                };
                let ghost v_pre = *volume;
                let ghost ws_pre = views@;
                proof {
                    lemma_count_uncarved_bounds(old(volume).data@);
                    lemma_count_uncarved_bounds(volume.data@);
                }
                let r = sweep_cell(volume, x, y, z, views, &valid, threshold);
                proof {
                    lemma_volume_compose(*old(volume), v_pre, *volume);
                    lemma_views_preserved_compose(old(views)@, ws_pre, views@);
                    lemma_count_uncarved_bounds(volume.data@);
                    assert(shape_of(v_pre) == sh);
                    assert(shape_of(*volume) == sh);
                    lemma_cell_matches(
                        old(views)@,
                        v_pre,
                        ws_pre,
                        *volume,
                        views@,
                        valid@,
                        *threshold,
                        x as int,
                        y as int,
                        z as int,
                        r as int,
                    );
                    assert((x as int, y as int, z as int) == cell_coords(
                        axis,
                        a as int,
                        b as int,
                        c as int,
                    ));
                }
                carved = carved + r;
                c = c + 1;
            }
            b = b + 1;
        }
        step = step + 1;
    }
    carved
}

/// The effect of one full pass on the voxel data: the six directional
/// sweeps in their fixed order, each starting from freshly cleared masks.
/// The second component is the mask state the last sweep leaves behind.
#[verifier::opaque]
pub open spec fn pass_result(
    sh: GridShape,
    ms: Seq<ViewModel>,
    t: Threshold,
    data0: Seq<Voxel>,
) -> (Seq<Voxel>, Seq<Seq<bool>>) {
    let d1 = sweep_result(sh, ms, Axis::X, true, t, data0).0;
    let d2 = sweep_result(sh, ms, Axis::X, false, t, d1).0;
    let d3 = sweep_result(sh, ms, Axis::Y, true, t, d2).0;
    let d4 = sweep_result(sh, ms, Axis::Y, false, t, d3).0;
    let d5 = sweep_result(sh, ms, Axis::Z, true, t, d4).0;
    sweep_result(sh, ms, Axis::Z, false, t, d5)
}

/// The voxel data after `k` full passes.
pub open spec fn pass_iter(
    sh: GridShape,
    ms: Seq<ViewModel>,
    t: Threshold,
    data0: Seq<Voxel>,
    k: int,
) -> Seq<Voxel>
    decreases k,
{
    if k <= 0 {
        data0
    } else {
        pass_result(sh, ms, t, pass_iter(sh, ms, t, data0, k - 1)).0
    }
}

/// One full pass: a directional plane sweep for each of the six
/// (axis, direction) combinations in turn.  Returns the total number of
/// voxels the pass carved.
#[verifier::loop_isolation(false)]
pub fn full_pass(volume: &mut Volume, views: &mut Vec<CameraView>, threshold: &Threshold) -> (
    carved: usize)
    requires
        old(volume).wf(),
        views_wf(old(views)@),
        old(views).len() <= MAX_VIEWS,
        threshold.wf(),
    ensures
        final(volume).wf(),
        same_shape(*old(volume), *final(volume)),
        monotone(*old(volume), *final(volume)),
        frontier_ok(*old(volume), *final(volume)),
        carved as int + count_uncarved(final(volume).data@) == count_uncarved(
            old(volume).data@,
        ),
        views_wf(final(views)@),
        views_preserved(old(views)@, final(views)@),
        ({
            let r = pass_result(
                shape_of(*old(volume)),
                view_models(old(views)@),
                *threshold,
                old(volume).data@,
            );
            &&& final(volume).data@ == r.0
            &&& masks_of(final(views)@) == r.1
        }),
{
    proof {
        lemma_count_uncarved_bounds(old(volume).data@);
    }
    let ghost sh = shape_of(*old(volume));
    let ghost ms = view_models(old(views)@);
    proof {
        reveal(pass_result);
    }
    let mut carved: usize = 0;
    let ghost v1 = *volume;
    let ghost w1 = views@;
    let c1 = plane_sweep(Axis::X, true, volume, views, threshold);
    proof {
        lemma_count_uncarved_bounds(volume.data@);
    }
    carved = carved + c1;
    let ghost v2 = *volume;
    let ghost w2 = views@;
    let c2 = plane_sweep(Axis::X, false, volume, views, threshold);
    proof {
        lemma_volume_compose(v1, v2, *volume);
        lemma_views_preserved_compose(w1, w2, views@);
        lemma_count_uncarved_bounds(volume.data@);
        assert(shape_of(v2) == sh);
        lemma_view_models_eq(old(views)@, w2);
    }
    carved = carved + c2;
    let ghost v3 = *volume;
    let ghost w3 = views@;
    let c3 = plane_sweep(Axis::Y, true, volume, views, threshold);
    proof {
        lemma_volume_compose(v1, v3, *volume);
        lemma_views_preserved_compose(w1, w3, views@);
        lemma_count_uncarved_bounds(volume.data@);
        assert(shape_of(v3) == sh);
        lemma_view_models_eq(old(views)@, w3);
    }
    carved = carved + c3;
    let ghost v4 = *volume;
    let ghost w4 = views@;
    let c4 = plane_sweep(Axis::Y, false, volume, views, threshold);
    proof {
        lemma_volume_compose(v1, v4, *volume);
        lemma_views_preserved_compose(w1, w4, views@);
        lemma_count_uncarved_bounds(volume.data@);
        assert(shape_of(v4) == sh);
        lemma_view_models_eq(old(views)@, w4);
    }
    carved = carved + c4;
    let ghost v5 = *volume;
    let ghost w5 = views@;
    let c5 = plane_sweep(Axis::Z, true, volume, views, threshold);
    proof {
        lemma_volume_compose(v1, v5, *volume);
        lemma_views_preserved_compose(w1, w5, views@);
        lemma_count_uncarved_bounds(volume.data@);
        assert(shape_of(v5) == sh);
        lemma_view_models_eq(old(views)@, w5);
    }
    carved = carved + c5;
    let ghost v6 = *volume;
    let ghost w6 = views@;
    let c6 = plane_sweep(Axis::Z, false, volume, views, threshold);
    proof {
        lemma_volume_compose(v1, v6, *volume);
        lemma_views_preserved_compose(w1, w6, views@);
        lemma_count_uncarved_bounds(volume.data@);
        assert(shape_of(v6) == sh);
        lemma_view_models_eq(old(views)@, w6);
    }
    carved = carved + c6;
    carved
}

/// Carve the volume until it is consistent with the views: run full passes
/// until one carves no voxel.  Since a voxel, once carved, never changes
/// again, every pass but the last removes at least one of the finitely many
/// uncarved voxels, so the loop always terminates; the returned number of
/// passes is accordingly at most one more than the number of voxels that
/// were uncarved at the start.
#[verifier::loop_isolation(false)]
#[verifier::rlimit(100)]
pub fn carve(volume: &mut Volume, views: &mut Vec<CameraView>, threshold: &Threshold) -> (passes:
    usize)
    requires
        old(volume).wf(),
        views_wf(old(views)@),
        old(views).len() <= MAX_VIEWS,
        threshold.wf(),
    ensures
        final(volume).wf(),
        same_shape(*old(volume), *final(volume)),
        monotone(*old(volume), *final(volume)),
        frontier_ok(*old(volume), *final(volume)),
        views_wf(final(views)@),
        views_preserved(old(views)@, final(views)@),
        1 <= passes,
        passes as int <= count_uncarved(old(volume).data@) + 1,
        ({
            let sh = shape_of(*old(volume));
            let ms = view_models(old(views)@);
            let d0 = old(volume).data@;
            &&& final(volume).data@ == pass_iter(sh, ms, *threshold, d0, passes as int)
            &&& masks_of(final(views)@) == pass_result(
                sh,
                ms,
                *threshold,
                pass_iter(sh, ms, *threshold, d0, passes as int - 1),
            ).1
            &&& count_uncarved(pass_iter(sh, ms, *threshold, d0, passes as int))
                == count_uncarved(pass_iter(sh, ms, *threshold, d0, passes as int - 1))
            &&& forall|j: int|
                1 <= j < passes ==> count_uncarved(
                    #[trigger] pass_iter(sh, ms, *threshold, d0, j),
                ) < count_uncarved(pass_iter(sh, ms, *threshold, d0, j - 1))
        }),
{
    proof {
        lemma_count_uncarved_bounds(old(volume).data@);
    }
    let ghost sh = shape_of(*old(volume));
    let ghost ms = view_models(old(views)@);
    let ghost d0 = old(volume).data@;
    let mut passes: usize = 1;
    let mut total = full_pass(volume, views, threshold);
    proof {
        lemma_count_uncarved_bounds(volume.data@);
        assert(pass_iter(sh, ms, *threshold, d0, 0) == d0);
        assert(volume.data@ == pass_iter(sh, ms, *threshold, d0, 1));
    }
    while total != 0
        invariant
            volume.wf(),
            same_shape(*old(volume), *volume),
            monotone(*old(volume), *volume),
            frontier_ok(*old(volume), *volume),
            views_wf(views@),
            views_preserved(old(views)@, views@),
            1 <= passes,
            passes as int <= count_uncarved(old(volume).data@) - count_uncarved(volume.data@)
                + (if total == 0 {
                1int
            } else {
                0int
            }),
            volume.data@ == pass_iter(sh, ms, *threshold, d0, passes as int),
            masks_of(views@) == pass_result(
                sh,
                ms,
                *threshold,
                pass_iter(sh, ms, *threshold, d0, passes as int - 1),
            ).1,
            total as int == count_uncarved(pass_iter(sh, ms, *threshold, d0, passes as int - 1))
                - count_uncarved(pass_iter(sh, ms, *threshold, d0, passes as int)),
            forall|j: int|
                1 <= j < passes ==> count_uncarved(
                    #[trigger] pass_iter(sh, ms, *threshold, d0, j),
                ) < count_uncarved(pass_iter(sh, ms, *threshold, d0, j - 1)),
        decreases count_uncarved(volume.data@), total,
    {
        let ghost v_pre = *volume;
        let ghost w_pre = views@;
        proof {
            assert(count_uncarved(pass_iter(sh, ms, *threshold, d0, passes as int))
                < count_uncarved(pass_iter(sh, ms, *threshold, d0, passes as int - 1)));
        }
        total = full_pass(volume, views, threshold);
        proof {
            lemma_volume_compose(*old(volume), v_pre, *volume);
            lemma_views_preserved_compose(old(views)@, w_pre, views@);
            lemma_count_uncarved_bounds(volume.data@);
            assert(shape_of(v_pre) == sh);
            lemma_view_models_eq(old(views)@, w_pre);
            assert(volume.data@ == pass_iter(sh, ms, *threshold, d0, passes as int + 1));
            let len0 = old(volume).data.len() as int;
            let w0 = old(volume).width as int;
            let h0 = old(volume).height as int;
            let d0 = old(volume).depth as int;
            assert(len0 <= 0x4000_0000) by (nonlinear_arith)
                requires
                    len0 == w0 * h0 * d0,
                    0 <= w0 <= 1024,
                    0 <= h0 <= 1024,
                    0 <= d0 <= 1024;
        }
        passes = passes + 1;
    }
    proof {
        lemma_count_uncarved_bounds(volume.data@);
    }
    passes
}

} // verus!
