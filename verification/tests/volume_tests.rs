use voxel_carver::volume::{Color, Pos3, Volume, Voxel};

fn unit_box() -> Volume {
    Volume::new(1, Pos3 { x: 0, y: 2, z: 0 }, Pos3 { x: 2, y: 0, z: -2 }, 1).unwrap()
}

#[test]
fn new_dims_exact_division() {
    let v = unit_box();
    assert_eq!(v.width, 2);
    assert_eq!(v.height, 2);
    assert_eq!(v.depth, 2);
}

#[test]
fn new_dims_even_and_at_least_two() {
    // 10 / 3 rounds up to 4, already even.
    let v = Volume::new(3, Pos3 { x: 0, y: 10, z: 0 }, Pos3 { x: 10, y: 0, z: -10 }, 1).unwrap();
    assert_eq!(v.width, 4);
    assert_eq!(v.height, 4);
    assert_eq!(v.depth, 4);
    // 8 / 3 rounds up to 3, then up again to the even 4.
    let v = Volume::new(3, Pos3 { x: 0, y: 8, z: 0 }, Pos3 { x: 8, y: 0, z: -8 }, 1).unwrap();
    assert_eq!(v.width, 4);
    assert_eq!(v.height, 4);
    assert_eq!(v.depth, 4);
    // A tiny box still gets two voxels per axis.
    let v = Volume::new(5, Pos3 { x: 0, y: 1, z: 0 }, Pos3 { x: 1, y: 0, z: -1 }, 1).unwrap();
    assert_eq!(v.width, 2);
    assert_eq!(v.height, 2);
    assert_eq!(v.depth, 2);
}

#[test]
fn new_rejects_degenerate_box() {
    // Zero extent on the x axis.
    let r = Volume::new(1, Pos3 { x: 0, y: 2, z: 0 }, Pos3 { x: 0, y: 0, z: -2 }, 1);
    assert!(r.is_none());
}

#[test]
fn voxel_to_position_example() {
    // Volume::new(1.0, (0, 2, 0), (2, 0, -2)): the first voxel center is
    // (0.5, 1.5, -0.5), i.e. numerators (1, 3, -1) over 2 * den with den 1.
    let v = unit_box();
    let p = v.voxel_to_position(0, 0, 0);
    assert_eq!(p, Pos3 { x: 1, y: 3, z: -1 });
    // x grows with the index; y and z shrink.
    let p = v.voxel_to_position(1, 1, 1);
    assert_eq!(p, Pos3 { x: 3, y: 1, z: -3 });
}

#[test]
fn voxel_to_position_injective_on_grid() {
    let v = unit_box();
    let mut seen = Vec::new();
    for x in 0..2 {
        for y in 0..2 {
            for z in 0..2 {
                let p = v.voxel_to_position(x, y, z);
                assert!(!seen.contains(&p));
                seen.push(p);
            }
        }
    }
}

#[test]
fn get_and_set_voxel() {
    let mut v = unit_box();
    assert_eq!(v.get_voxel(0, 0, 0), Voxel::Untouched);
    let c = Color::new(1, 1, 1, 2);
    v.set_voxel(1, 0, 1, Voxel::Colored(c));
    assert_eq!(v.get_voxel(1, 0, 1), Voxel::Colored(c));
    assert_eq!(v.get_voxel(0, 0, 0), Voxel::Untouched);
    v.set_voxel(1, 0, 1, Voxel::Carved);
    assert_eq!(v.get_voxel(1, 0, 1), Voxel::Carved);
}

#[test]
fn visibility_boundary_and_neighbors() {
    let mut v =
        Volume::new(1, Pos3 { x: 0, y: 4, z: 0 }, Pos3 { x: 4, y: 0, z: -4 }, 1).unwrap();
    // Boundary voxels are always visible.
    assert!(v.voxel_visible(0, 0, 0));
    assert!(v.voxel_visible(3, 2, 1));
    // An interior voxel with intact neighbors is not.
    assert!(!v.voxel_visible(1, 1, 1));
    assert!(!v.voxel_visible(2, 2, 2));
    // Carving a neighbor puts it on the frontier.
    v.set_voxel(1, 1, 2, Voxel::Carved);
    assert!(v.voxel_visible(1, 1, 1));
    assert!(!v.voxel_visible(2, 2, 2));
}

#[test]
fn color_channel_bytes() {
    // 612 / 765 == 0.8 exactly; scaled to bytes that is 204.
    let c = Color::new(612, 612, 612, 765);
    assert_eq!(c.channel_bytes(), (204, 204, 204));
    let c = Color::new(255, 0, 128, 255);
    assert_eq!(c.channel_bytes(), (255, 0, 128));
    // Rounding is downward.
    let c = Color::new(1, 1, 1, 3);
    assert_eq!(c.channel_bytes(), (85, 85, 85));
    let c = Color::new(1, 0, 0, 2);
    assert_eq!(c.channel_bytes(), (127, 0, 0));
}
