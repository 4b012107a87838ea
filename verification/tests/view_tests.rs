use voxel_carver::view::{project, CameraData, CameraView, Image, ProjMatrix, Rgb};
use voxel_carver::volume::Pos3;

fn identity_k() -> Vec<i64> {
    vec![1, 0, 0, 0, 1, 0, 0, 0, 1]
}

fn white_image(w: usize, h: usize) -> Image {
    Image::new(w, h, vec![Rgb { r: 255, g: 255, b: 255 }; w * h]).unwrap()
}

#[test]
fn camera_new_and_translation() {
    let cam = CameraData::new(
        &identity_k(),
        &vec![50, 0, 0, 0, 50, 0, 0, 0, -10],
        &vec![-10, -10, 5],
        1,
    );
    assert_eq!(cam.translation(), Pos3 { x: -10, y: -10, z: 5 });
    assert_eq!(cam.den, 1);
}

#[test]
fn projection_matrix_identity_k_is_rt() {
    // With K the identity, K * [R | t] is just [R | t].
    let cam = CameraData::new(
        &identity_k(),
        &vec![50, 0, 0, 0, 50, 0, 0, 0, -10],
        &vec![-10, -10, 5],
        1,
    );
    let pm = cam.projection_matrix();
    assert_eq!(
        (pm.e00, pm.e01, pm.e02, pm.e03),
        (50, 0, 0, -10)
    );
    assert_eq!(
        (pm.e10, pm.e11, pm.e12, pm.e13),
        (0, 50, 0, -10)
    );
    assert_eq!(
        (pm.e20, pm.e21, pm.e22, pm.e23),
        (0, 0, -10, 5)
    );
}

#[test]
fn projection_matrix_general() {
    // K = [[2,0,3],[0,2,4],[0,0,1]], R = I, t = (1,2,3):
    // K [R | t] = [[2,0,3,11],[0,2,4,16],[0,0,1,3]].
    let cam = CameraData::new(
        &vec![2, 0, 3, 0, 2, 4, 0, 0, 1],
        &identity_k(),
        &vec![1, 2, 3],
        1,
    );
    let pm = cam.projection_matrix();
    assert_eq!((pm.e00, pm.e01, pm.e02, pm.e03), (2, 0, 3, 11));
    assert_eq!((pm.e10, pm.e11, pm.e12, pm.e13), (0, 2, 4, 16));
    assert_eq!((pm.e20, pm.e21, pm.e22, pm.e23), (0, 0, 1, 3));
}

#[test]
fn project_in_frame() {
    // Homogeneous point (30, 130, 20): pixel (1, 6).
    let cam = CameraData::new(
        &identity_k(),
        &vec![50, 0, 0, 0, 50, 0, 0, 0, -10],
        &vec![-10, -10, 5],
        1,
    );
    let pm = cam.projection_matrix();
    let r = project(&pm, Pos3 { x: 1, y: 3, z: -1 }, 1, 100, 30);
    assert_eq!(r, Some((1, 6)));
}

#[test]
fn project_non_positive_depth_is_out_of_frame() {
    let cam = CameraData::new(
        &identity_k(),
        &vec![50, 0, 0, 0, 50, 0, 0, 0, -10],
        &vec![-10, -10, 5],
        1,
    );
    let pm = cam.projection_matrix();
    // Depth row gives -10 * 1 + 5 * 2 == 0: no projection.
    assert_eq!(project(&pm, Pos3 { x: 1, y: 3, z: 1 }, 1, 100, 30), None);
}

#[test]
fn project_floors_toward_negative_infinity() {
    // h0 / h2 == -2 / 4: the pixel floor is -1, which is out of frame, not 0.
    let pm = ProjMatrix {
        e00: 0, e01: 0, e02: 0, e03: -1,
        e10: 0, e11: 0, e12: 0, e13: 0,
        e20: 0, e21: 0, e22: 0, e23: 2,
    };
    assert_eq!(project(&pm, Pos3 { x: 0, y: 0, z: 0 }, 1, 10, 10), None);
    // 5 / 2 floors to pixel 2.
    let pm = ProjMatrix {
        e00: 5, e01: 0, e02: 0, e03: 0,
        e10: 0, e11: 0, e12: 0, e13: 0,
        e20: 0, e21: 0, e22: 0, e23: 1,
    };
    assert_eq!(project(&pm, Pos3 { x: 1, y: 0, z: 0 }, 1, 10, 10), Some((2, 0)));
}

#[test]
fn project_pixel_on_image_edge_is_out_of_frame() {
    // Pixel x == width is already outside [0, width).
    let pm = ProjMatrix {
        e00: 10, e01: 0, e02: 0, e03: 0,
        e10: 0, e11: 0, e12: 0, e13: 0,
        e20: 0, e21: 0, e22: 0, e23: 1,
    };
    assert_eq!(project(&pm, Pos3 { x: 2, y: 0, z: 0 }, 1, 10, 10), None);
    assert_eq!(project(&pm, Pos3 { x: 1, y: 0, z: 0 }, 1, 10, 10), Some((5, 0)));
}

#[test]
fn image_new_checks_buffer_length() {
    assert!(Image::new(3, 2, vec![Rgb { r: 0, g: 0, b: 0 }; 6]).is_some());
    assert!(Image::new(3, 2, vec![Rgb { r: 0, g: 0, b: 0 }; 5]).is_none());
}

#[test]
fn image_get_pixel_row_major() {
    let mut pix = vec![Rgb { r: 0, g: 0, b: 0 }; 6];
    pix[1 * 3 + 2] = Rgb { r: 9, g: 8, b: 7 };
    let img = Image::new(3, 2, pix).unwrap();
    assert_eq!(img.get_pixel(2, 1), Rgb { r: 9, g: 8, b: 7 });
    assert_eq!(img.get_pixel(0, 0), Rgb { r: 0, g: 0, b: 0 });
}

#[test]
fn mask_claim_and_reset() {
    let cam = CameraData::new(&identity_k(), &identity_k(), &vec![0, 0, 0], 1);
    let mut view = CameraView::new(cam, white_image(4, 3));
    assert!(!view.is_pixel_claimed(2, 1));
    view.claim_pixel(2, 1);
    assert!(view.is_pixel_claimed(2, 1));
    assert!(!view.is_pixel_claimed(1, 2));
    view.reset_mask();
    assert!(!view.is_pixel_claimed(2, 1));
}
