use voxel_carver::brdf::Threshold;
use voxel_carver::carve::{carve, full_pass, plane_sweep, Axis};
use voxel_carver::view::{CameraData, CameraView, Image, Rgb};
use voxel_carver::volume::{Color, Pos3, Volume, Voxel};

fn camera(r: [i64; 9], t: [i64; 3]) -> CameraData {
    CameraData::new(&vec![1, 0, 0, 0, 1, 0, 0, 0, 1], &r.to_vec(), &t.to_vec(), 1)
}

fn uniform_image(w: usize, h: usize, color: Rgb) -> Image {
    Image::new(w, h, vec![color; w * h]).unwrap()
}

const WHITE: Rgb = Rgb { r: 255, g: 255, b: 255 };

/// A 2x2x2 volume with voxel centers at x in {0.5, 1.5}, y in {1.5, 0.5}
/// and z in {-0.5, -1.5}.
fn small_volume() -> Volume {
    Volume::new(1, Pos3 { x: 0, y: 2, z: 0 }, Pos3 { x: 2, y: 0, z: -2 }, 1).unwrap()
}

/// Three synthetic views that together cover all six sweep directions of
/// `small_volume` and back-project its eight voxel centers injectively.
fn three_views(view_c_pixels: Image) -> Vec<CameraView> {
    // A and C stand on the low-x, low-y, high-z side; B on the other.
    let cam_a = camera([50, 0, 0, 0, 50, 0, 0, 0, -10], [-10, -10, 5]);
    let cam_b = camera([0, 50, 0, 0, 0, 50, 10, 0, 0], [200, 100, -2]);
    let cam_c = camera([100, 0, 0, 0, 100, 0, 0, 0, -10], [-20, -20, 9]);
    vec![
        CameraView::new(cam_a, uniform_image(100, 30, WHITE)),
        CameraView::new(cam_b, uniform_image(100, 30, WHITE)),
        CameraView::new(cam_c, view_c_pixels),
    ]
}

#[test]
fn uniform_white_views_carve_nothing() {
    let mut volume = small_volume();
    let mut views = three_views(uniform_image(100, 30, WHITE));
    let threshold = Threshold::new(3, 10);
    let passes = carve(&mut volume, &mut views, &threshold);
    // The first pass already carves nothing, and well within the
    // width * height * depth bound.
    assert_eq!(passes, 1);
    assert!(passes <= 8);
    for x in 0..2 {
        for y in 0..2 {
            for z in 0..2 {
                match volume.get_voxel(x, y, z) {
                    Voxel::Colored(c) => {
                        assert_eq!(c.channel_bytes(), (255, 255, 255));
                    },
                    other => panic!("voxel {:?} not colored: {:?}", (x, y, z), other),
                }
            }
        }
    }
}

#[test]
fn one_black_observation_carves_exactly_that_voxel() {
    // View C reports pure black exactly where voxel (1, 1, 1) projects in
    // it (pixel (5, 1)); every other pixel stays white.
    let mut pixels = vec![WHITE; 100 * 30];
    pixels[1 * 100 + 5] = Rgb { r: 0, g: 0, b: 0 };
    let black_spot = Image::new(100, 30, pixels).unwrap();
    let mut volume = small_volume();
    let mut views = three_views(black_spot);
    let threshold = Threshold::new(3, 10);
    let passes = carve(&mut volume, &mut views, &threshold);
    assert_eq!(passes, 2);
    assert!(passes <= 8);
    for x in 0..2 {
        for y in 0..2 {
            for z in 0..2 {
                let vox = volume.get_voxel(x, y, z);
                if (x, y, z) == (1, 1, 1) {
                    assert_eq!(vox, Voxel::Carved);
                } else {
                    match vox {
                        Voxel::Colored(c) => {
                            assert_eq!(c.channel_bytes(), (255, 255, 255));
                        },
                        other => panic!("voxel {:?} not colored: {:?}", (x, y, z), other),
                    }
                }
            }
        }
    }
}

#[test]
fn carved_voxels_stay_carved_across_further_passes() {
    let mut pixels = vec![WHITE; 100 * 30];
    pixels[1 * 100 + 5] = Rgb { r: 0, g: 0, b: 0 };
    let black_spot = Image::new(100, 30, pixels).unwrap();
    let mut volume = small_volume();
    let mut views = three_views(black_spot);
    let threshold = Threshold::new(3, 10);
    carve(&mut volume, &mut views, &threshold);
    assert_eq!(volume.get_voxel(1, 1, 1), Voxel::Carved);
    // Further passes never revive a carved voxel.
    let carved = full_pass(&mut volume, &mut views, &threshold);
    assert_eq!(carved, 0);
    assert_eq!(volume.get_voxel(1, 1, 1), Voxel::Carved);
}

#[test]
fn no_views_carve_everything() {
    // With no views there is never any evidence, and absence of evidence
    // resolves to carving; the whole volume empties in one pass and the
    // second pass confirms convergence.
    let mut volume = small_volume();
    let mut views: Vec<CameraView> = Vec::new();
    let threshold = Threshold::new(3, 10);
    let passes = carve(&mut volume, &mut views, &threshold);
    assert_eq!(passes, 2);
    for x in 0..2 {
        for y in 0..2 {
            for z in 0..2 {
                assert_eq!(volume.get_voxel(x, y, z), Voxel::Carved);
            }
        }
    }
}

#[test]
fn occluded_voxels_lose_their_evidence_and_are_carved() {
    // A single camera whose projection does not depend on x: both x-planes
    // of the volume land on the same pixels.  In the ascending-x sweep the
    // near plane is resolved first and claims those pixels; the far plane
    // then finds every pixel claimed, is left without evidence, and is
    // carved.
    let mut volume = small_volume();
    let cam = camera([0, 50, 0, 0, 0, 50, 0, -10, 0], [-10, 80, 20]);
    let mut views = vec![CameraView::new(cam, uniform_image(100, 30, WHITE))];
    let threshold = Threshold::new(3, 10);
    let carved = plane_sweep(Axis::X, true, &mut volume, &mut views, &threshold);
    assert_eq!(carved, 4);
    for y in 0..2 {
        for z in 0..2 {
            assert!(matches!(volume.get_voxel(0, y, z), Voxel::Colored(_)));
            assert_eq!(volume.get_voxel(1, y, z), Voxel::Carved);
        }
    }
}

#[test]
fn interior_voxel_is_not_reevaluated() {
    // A 4x4x4 block of colored voxels with one interior voxel left
    // untouched: the untouched voxel is not on the grid edge and has no
    // carved neighbor, so a sweep never re-evaluates it, while boundary
    // voxels are re-colored from the (white) view.
    let mut volume =
        Volume::new(1, Pos3 { x: 0, y: 4, z: 0 }, Pos3 { x: 4, y: 0, z: -4 }, 1).unwrap();
    let gray = Color::new(1, 1, 1, 2);
    for x in 0..4 {
        for y in 0..4 {
            for z in 0..4 {
                volume.set_voxel(x, y, z, Voxel::Colored(gray));
            }
        }
    }
    volume.set_voxel(1, 1, 1, Voxel::Untouched);
    let cam = camera([100, 0, 0, 0, 100, 0, 0, 0, -2], [-10, -10, 1]);
    let mut views = vec![CameraView::new(cam, uniform_image(200, 200, WHITE))];
    let threshold = Threshold::new(3, 10);
    let carved = plane_sweep(Axis::X, true, &mut volume, &mut views, &threshold);
    assert_eq!(carved, 0);
    // The interior voxels kept their state...
    assert_eq!(volume.get_voxel(1, 1, 1), Voxel::Untouched);
    assert_eq!(volume.get_voxel(2, 2, 2), Voxel::Colored(gray));
    // ...while a boundary voxel was re-evaluated and re-colored white.
    match volume.get_voxel(0, 0, 0) {
        Voxel::Colored(c) => assert_eq!(c.channel_bytes(), (255, 255, 255)),
        other => panic!("boundary voxel not colored: {:?}", other),
    }
}
