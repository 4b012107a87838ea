use voxel_carver::mesh::build_mesh;
use voxel_carver::volume::{Color, Pos3, Volume, Voxel};

fn unit_box() -> Volume {
    Volume::new(1, Pos3 { x: 0, y: 2, z: 0 }, Pos3 { x: 2, y: 0, z: -2 }, 1).unwrap()
}

#[test]
fn mesh_counts_eight_vertices_six_faces_per_kept_voxel() {
    let volume = unit_box();
    let (verts, faces) = build_mesh(&volume);
    assert_eq!(verts.len(), 8 * 8);
    assert_eq!(faces.len(), 6 * 8);
}

#[test]
fn carved_voxels_are_not_exported() {
    let mut volume = unit_box();
    volume.set_voxel(0, 0, 0, Voxel::Carved);
    volume.set_voxel(1, 1, 1, Voxel::Carved);
    let (verts, faces) = build_mesh(&volume);
    assert_eq!(verts.len(), 8 * 6);
    assert_eq!(faces.len(), 6 * 6);
}

#[test]
fn face_indices_are_in_range() {
    let mut volume = unit_box();
    volume.set_voxel(1, 0, 1, Voxel::Carved);
    let (verts, faces) = build_mesh(&volume);
    for f in &faces {
        assert!(f.a < verts.len());
        assert!(f.b < verts.len());
        assert!(f.c < verts.len());
        assert!(f.d < verts.len());
    }
}

#[test]
fn first_cube_geometry_and_sentinel_color() {
    // The scan visits voxel (0, 0, 0) first; its center is (1, 3, -1) in
    // half-units and the cube corners sit one size-numerator away.  An
    // untouched voxel is exported in the magenta sentinel color.
    let volume = unit_box();
    let (verts, faces) = build_mesh(&volume);
    let v0 = verts[0];
    assert_eq!((v0.x, v0.y, v0.z), (0, 2, -2));
    let v7 = verts[7];
    assert_eq!((v7.x, v7.y, v7.z), (2, 4, 0));
    for v in &verts[0..8] {
        assert_eq!((v.r, v.g, v.b), (255, 0, 255));
    }
    // Fixed cube topology for the first block.
    assert_eq!((faces[0].a, faces[0].b, faces[0].c, faces[0].d), (6, 7, 3, 2));
    assert_eq!((faces[1].a, faces[1].b, faces[1].c, faces[1].d), (4, 5, 1, 0));
    assert_eq!((faces[5].a, faces[5].b, faces[5].c, faces[5].d), (0, 1, 3, 2));
    // And for the second block, offset by one cube.
    assert_eq!((faces[6].a, faces[6].b, faces[6].c, faces[6].d), (14, 15, 11, 10));
}

#[test]
fn colored_voxel_keeps_its_color_bytes() {
    let mut volume = unit_box();
    // Carve everything except one voxel with an exact 0.8 gray.
    for x in 0..2 {
        for y in 0..2 {
            for z in 0..2 {
                volume.set_voxel(x, y, z, Voxel::Carved);
            }
        }
    }
    volume.set_voxel(1, 0, 1, Voxel::Colored(Color::new(4, 4, 4, 5)));
    let (verts, faces) = build_mesh(&volume);
    assert_eq!(verts.len(), 8);
    assert_eq!(faces.len(), 6);
    for v in &verts {
        assert_eq!((v.r, v.g, v.b), (204, 204, 204));
    }
    // Voxel (1, 0, 1) has center (3, 3, -3) in half-units.
    assert_eq!((verts[0].x, verts[0].y, verts[0].z), (2, 2, -4));
    assert_eq!((verts[7].x, verts[7].y, verts[7].z), (4, 4, -2));
}
