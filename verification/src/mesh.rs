//! Mesh generation for export: every voxel that survived carving becomes an
//! axis-aligned cube of 8 vertices and 6 quad faces, with per-vertex color
//! taken from the voxel (magenta as the sentinel for voxels that were never
//! evaluated).  The surrounding binary prints the result as an ASCII PLY
//! file; everything geometric is computed here.

use crate::volume::{count_uncarved, is_carved, Color, Volume, Voxel};
use vstd::prelude::*;

verus! {

/// One cube corner: world coordinates as numerators over `2 * den` of the
/// volume, and the vertex color as 8-bit samples.
#[derive(Clone, Copy, Debug, PartialEq, Eq, Structural)]
pub struct MeshVertex {
    pub x: i64,
    pub y: i64,
    pub z: i64,
    pub r: u8,
    pub g: u8,
    pub b: u8,
}

/// One quad face: four indices into the vertex list.
#[derive(Clone, Copy, Debug, PartialEq, Eq, Structural)]
pub struct MeshFace {
    pub a: usize,
    pub b: usize,
    pub c: usize,
    pub d: usize,
}

/// The color bytes a kept voxel is exported with: its representative color
/// scaled to 8 bits, or magenta for a voxel that was never evaluated.
pub open spec fn export_color(v: Voxel) -> (int, int, int) {
    match v {
        Voxel::Colored(c) => (
            Color::byte_of(c.r_num, c.den),
            Color::byte_of(c.g_num, c.den),
            Color::byte_of(c.b_num, c.den),
        ),
        _ => (255, 0, 255),
    }
}

/// Face `k` (0..6) of the cube whose 8 corners start at vertex index `base`,
/// in the order top, bottom, right, left, front, back.
pub open spec fn cube_face(base: int, k: int) -> MeshFace {
    if k == 0 {
        MeshFace { a: (base + 6) as usize, b: (base + 7) as usize, c: (base + 3) as usize, d: (
        base + 2) as usize }
    } else if k == 1 {
        MeshFace { a: (base + 4) as usize, b: (base + 5) as usize, c: (base + 1) as usize, d: (
        base + 0) as usize }
    } else if k == 2 {
        MeshFace { a: (base + 5) as usize, b: (base + 1) as usize, c: (base + 3) as usize, d: (
        base + 7) as usize }
    } else if k == 3 {
        MeshFace { a: (base + 4) as usize, b: (base + 0) as usize, c: (base + 2) as usize, d: (
        base + 6) as usize }
    } else if k == 4 {
        MeshFace { a: (base + 4) as usize, b: (base + 5) as usize, c: (base + 7) as usize, d: (
        base + 6) as usize }
    } else {
        MeshFace { a: (base + 0) as usize, b: (base + 1) as usize, c: (base + 3) as usize, d: (
        base + 2) as usize }
    }
}

/// `vs` holds the 8 corners of the cube of voxel `(x, y, z)`: the voxel
/// center offset by half the voxel size on each axis (the center is in
/// numerators over `2 * den`, so the offset is the size numerator itself),
/// each carrying the voxel's export color.  Corner order: z-near before
/// z-far, within that bottom before top, within that left before right.
pub open spec fn cube_at(v: Volume, x: int, y: int, z: int, vs: Seq<MeshVertex>) -> bool {
    let cx = v.center_x2(x);
    let cy = v.center_y2(y);
    let cz = v.center_z2(z);
    let s = v.voxel_size as int;
    let col = export_color(v.vox(x, y, z));
    let r = col.0 as u8;
    let g = col.1 as u8;
    let b = col.2 as u8;
    &&& vs.len() == 8
    &&& vs[0] == (MeshVertex { x: (cx - s) as i64, y: (cy - s) as i64, z: (cz - s) as i64, r, g, b })
    &&& vs[1] == (MeshVertex { x: (cx + s) as i64, y: (cy - s) as i64, z: (cz - s) as i64, r, g, b })
    &&& vs[2] == (MeshVertex { x: (cx - s) as i64, y: (cy + s) as i64, z: (cz - s) as i64, r, g, b })
    &&& vs[3] == (MeshVertex { x: (cx + s) as i64, y: (cy + s) as i64, z: (cz - s) as i64, r, g, b })
    &&& vs[4] == (MeshVertex { x: (cx - s) as i64, y: (cy - s) as i64, z: (cz + s) as i64, r, g, b })
    &&& vs[5] == (MeshVertex { x: (cx + s) as i64, y: (cy - s) as i64, z: (cz + s) as i64, r, g, b })
    &&& vs[6] == (MeshVertex { x: (cx - s) as i64, y: (cy + s) as i64, z: (cz + s) as i64, r, g, b })
    &&& vs[7] == (MeshVertex { x: (cx + s) as i64, y: (cy + s) as i64, z: (cz + s) as i64, r, g, b })
}

/// Position of the cube of voxel `(x, y, z)` in the mesh: one block of 8
/// vertices and 6 faces per kept voxel, in grid scan order.
pub open spec fn kept_index(v: Volume, x: int, y: int, z: int) -> int {
    count_uncarved(v.data@.take(v.flat(x, y, z)))
}

/// `vs` is the cube of some kept (non-carved) voxel, with that voxel's
/// color.
pub open spec fn cube_of_some_kept(v: Volume, vs: Seq<MeshVertex>) -> bool {
    exists|x: int, y: int, z: int|
        v.idx_ok(x, y, z) && !is_carved(v.vox(x, y, z)) && #[trigger] cube_at(v, x, y, z, vs)
}

/// Build the cube mesh of all voxels that survived carving: 8 vertices and
/// 6 faces per kept (non-carved) voxel.  Every face indexes only existing
/// vertices, the face topology is the fixed cube pattern, and every cube in
/// the mesh is the cube of some kept voxel with that voxel's color.
#[verifier::loop_isolation(false)]
pub fn build_mesh(volume: &Volume) -> (r: (Vec<MeshVertex>, Vec<MeshFace>))
    requires
        volume.wf(),
    ensures
        r.0.len() == 8 * count_uncarved(volume.data@),
        r.1.len() == 6 * count_uncarved(volume.data@),
        forall|j: int, k: int|
            0 <= j < count_uncarved(volume.data@) && 0 <= k < 6 ==> #[trigger] r.1@[6 * j + k]
                == cube_face(8 * j, k),
        forall|i: int|
            0 <= i < r.1.len() ==> {
                let f = #[trigger] r.1@[i];
                f.a < r.0.len() && f.b < r.0.len() && f.c < r.0.len() && f.d < r.0.len()
            },
        forall|j: int|
            0 <= j < count_uncarved(volume.data@) ==> #[trigger] cube_of_some_kept(
                *volume,
                r.0@.subrange(8 * j, 8 * j + 8),
            ),
        forall|x: int, y: int, z: int|
            #![trigger volume.vox(x, y, z)]
            volume.idx_ok(x, y, z) && !is_carved(volume.vox(x, y, z)) ==> {
                let k = kept_index(*volume, x, y, z);
                &&& 0 <= k
                &&& 8 * k + 8 <= r.0.len()
                &&& cube_at(*volume, x, y, z, r.0@.subrange(8 * k, 8 * k + 8))
            },
{
    let w = volume.width;
    let h = volume.height;
    let d = volume.depth;
    let mut verts: Vec<MeshVertex> = Vec::new();
    let mut faces: Vec<MeshFace> = Vec::new();
    let mut kept: usize = 0;
    let mut flat: usize = 0;
    let mut y: usize = 0;
    proof {
        assert(volume.data@.take(0) =~= Seq::<Voxel>::empty());
        assert(0int == 0 * (w as int) * (d as int)) by (nonlinear_arith);
        assert(0int == (0 * (w as int) + 0) * (d as int)) by (nonlinear_arith);
    }
    while y < h
        invariant
            y <= h,
            flat == y * w * d,
            mesh_inv(*volume, verts@, faces@, kept as int, flat as int),
        decreases h - y,
    {
        let mut x: usize = 0;
        while x < w
            invariant
                x <= w,
                y < h,
                flat == (y * w + x) * d,
                mesh_inv(*volume, verts@, faces@, kept as int, flat as int),
            decreases w - x,
        {
            let mut z: usize = 0;
            while z < d
                invariant
                    z <= d,
                    x < w,
                    y < h,
                    flat == (y * w + x) * d + z,
                    mesh_inv(*volume, verts@, faces@, kept as int, flat as int),
                decreases d - z,
            {
                let vox = volume.get_voxel(x, y, z);
                proof {
                    crate::volume::lemma_flat_bounds(*volume, x as int, y as int, z as int);
                    assert(flat as int == volume.flat(x as int, y as int, z as int));
                    assert(volume.data@[flat as int] == volume.vox(x as int, y as int, z as int));
                    lemma_count_take_bounds(volume.data@, flat as int);
                }
                if vox == Voxel::Carved {
                    proof {
                        assert(mesh_inv(*volume, verts@, faces@, kept as int, flat as int + 1));
                    }
                } else {
                    let ghost old_verts = verts@;
                    let ghost old_faces = faces@;
                    let ghost old_kept = kept as int;
                    proof {
                        lemma_total_bound(*volume);
                        assert(crate::volume::color_ok(
                            volume.data@[volume.flat(x as int, y as int, z as int)],
                        ));
                    }
                    let pos = volume.voxel_to_position(x, y, z);
                    let s = volume.voxel_size;
                    let (cr, cg, cb) = match vox {
                        Voxel::Colored(c) => c.channel_bytes(),
                        _ => (255u8, 0u8, 255u8),
                    };
                    let base = verts.len();
                    let m0 = MeshVertex { x: pos.x - s, y: pos.y - s, z: pos.z - s, r: cr, g: cg, b: cb };
                    let m1 = MeshVertex { x: pos.x + s, y: pos.y - s, z: pos.z - s, r: cr, g: cg, b: cb };
                    let m2 = MeshVertex { x: pos.x - s, y: pos.y + s, z: pos.z - s, r: cr, g: cg, b: cb };
                    let m3 = MeshVertex { x: pos.x + s, y: pos.y + s, z: pos.z - s, r: cr, g: cg, b: cb };
                    let m4 = MeshVertex { x: pos.x - s, y: pos.y - s, z: pos.z + s, r: cr, g: cg, b: cb };
                    let m5 = MeshVertex { x: pos.x + s, y: pos.y - s, z: pos.z + s, r: cr, g: cg, b: cb };
                    let m6 = MeshVertex { x: pos.x - s, y: pos.y + s, z: pos.z + s, r: cr, g: cg, b: cb };
                    let m7 = MeshVertex { x: pos.x + s, y: pos.y + s, z: pos.z + s, r: cr, g: cg, b: cb };
                    verts.push(m0);
                    verts.push(m1);
                    verts.push(m2);
                    verts.push(m3);
                    verts.push(m4);
                    verts.push(m5);
                    verts.push(m6);
                    verts.push(m7);
                    proof {
                        assert(verts@ =~= old_verts + seq![m0, m1, m2, m3, m4, m5, m6, m7]);
                    }
                    faces.push(MeshFace { a: base + 6, b: base + 7, c: base + 3, d: base + 2 });
                    faces.push(MeshFace { a: base + 4, b: base + 5, c: base + 1, d: base + 0 });
                    faces.push(MeshFace { a: base + 5, b: base + 1, c: base + 3, d: base + 7 });
                    faces.push(MeshFace { a: base + 4, b: base + 0, c: base + 2, d: base + 6 });
                    faces.push(MeshFace { a: base + 4, b: base + 5, c: base + 7, d: base + 6 });
                    faces.push(MeshFace { a: base + 0, b: base + 1, c: base + 3, d: base + 2 });
                    kept = kept + 1;
                    proof {
                        volume.lemma_center_bounds(x as int, y as int, z as int);
                        let sub = verts@.subrange(8 * old_kept, 8 * old_kept + 8);
                        assert(sub.len() == 8);
                        assert(sub[0] == verts@[8 * old_kept + 0]);
                        assert(sub[1] == verts@[8 * old_kept + 1]);
                        assert(sub[2] == verts@[8 * old_kept + 2]);
                        assert(sub[3] == verts@[8 * old_kept + 3]);
                        assert(sub[4] == verts@[8 * old_kept + 4]);
                        assert(sub[5] == verts@[8 * old_kept + 5]);
                        assert(sub[6] == verts@[8 * old_kept + 6]);
                        assert(sub[7] == verts@[8 * old_kept + 7]);
                        assert(cube_at(*volume, x as int, y as int, z as int, sub));
                        lemma_mesh_extend(
                            *volume,
                            old_verts,
                            old_faces,
                            verts@,
                            faces@,
                            old_kept,
                            flat as int,
                            x as int,
                            y as int,
                            z as int,
                        );
                    }
                }
                flat = flat + 1;
                z = z + 1;
                proof {
                    assert(((y * w + x) * d + (z - 1)) + 1 == (y * w + x) * d + z);
                }
            }
            x = x + 1;
            proof {
                let yi = y as int;
                let xi = x as int;
                let wi = w as int;
                let di = d as int;
                assert((yi * wi + (xi - 1)) * di + di == (yi * wi + xi) * di) by (nonlinear_arith);
            }
        }
        y = y + 1;
        proof {
            let yi = y as int;
            let wi = w as int;
            let di = d as int;
            assert(((yi - 1) * wi + wi) * di == yi * wi * di) by (nonlinear_arith);
        }
    }
    proof {
        assert(volume.data@.take(volume.data.len() as int) =~= volume.data@);
        let wi = w as int;
        let hi = h as int;
        let di = d as int;
        assert(hi * wi * di == wi * hi * di) by (nonlinear_arith);
        assert forall|x: int, y: int, z: int|
            volume.idx_ok(x, y, z) && !is_carved(volume.vox(x, y, z)) implies volume.flat(x, y, z)
            < flat by {
            crate::volume::lemma_flat_bounds(*volume, x, y, z);
        }
    }
    (verts, faces)
}

/// The loop invariant of `build_mesh`: after scanning the first `flat`
/// cells, the mesh holds one cube per kept cell scanned so far, with the
/// fixed face topology.
pub open spec fn mesh_inv(
    v: Volume,
    verts: Seq<MeshVertex>,
    faces: Seq<MeshFace>,
    kept: int,
    flat: int,
) -> bool {
    &&& 0 <= flat <= v.data.len()
    &&& kept == count_uncarved(v.data@.take(flat))
    &&& verts.len() == 8 * kept
    &&& faces.len() == 6 * kept
    &&& forall|j: int, k: int|
        0 <= j < kept && 0 <= k < 6 ==> #[trigger] faces[6 * j + k] == cube_face(8 * j, k)
    &&& forall|i: int|
        0 <= i < faces.len() ==> {
            let f = #[trigger] faces[i];
            f.a < verts.len() && f.b < verts.len() && f.c < verts.len() && f.d < verts.len()
        }
    &&& forall|j: int|
        0 <= j < kept ==> #[trigger] cube_of_some_kept(v, verts.subrange(8 * j, 8 * j + 8))
    &&& forall|x: int, y: int, z: int|
        #![trigger v.vox(x, y, z)]
        v.idx_ok(x, y, z) && v.flat(x, y, z) < flat && !is_carved(v.vox(x, y, z)) ==> {
            let k = kept_index(v, x, y, z);
            &&& 0 <= k
            &&& 8 * k + 8 <= verts.len()
            &&& cube_at(v, x, y, z, verts.subrange(8 * k, 8 * k + 8))
        }
}

proof fn lemma_total_bound(v: Volume)
    requires
        v.wf(),
    ensures
        v.data.len() <= 0x800_0000,
{
    let w = v.width as int;
    let h = v.height as int;
    let d = v.depth as int;
    assert(w * h * d <= 0x800_0000) by (nonlinear_arith)
        requires
            0 < w <= 512,
            0 < h <= 512,
            0 < d <= 512;
}

proof fn lemma_count_take_bounds(s: Seq<Voxel>, i: int)
    requires
        0 <= i < s.len(),
    ensures
        0 <= count_uncarved(s.take(i)) <= i,
        count_uncarved(s.take(i + 1)) == count_uncarved(s.take(i)) + (if is_carved(s[i]) {
            0int
        } else {
            1int
        }),
{
    crate::volume::lemma_count_uncarved_bounds(s.take(i));
    assert(s.take(i + 1).drop_last() =~= s.take(i));
    assert(s.take(i + 1).last() == s[i]);
}

/// Appending one kept voxel's cube extends the invariant by one cell.
proof fn lemma_mesh_extend(
    v: Volume,
    old_verts: Seq<MeshVertex>,
    old_faces: Seq<MeshFace>,
    verts: Seq<MeshVertex>,
    faces: Seq<MeshFace>,
    kept: int,
    flat: int,
    x: int,
    y: int,
    z: int,
)
    requires
        v.wf(),
        v.idx_ok(x, y, z),
        flat == v.flat(x, y, z),
        !is_carved(v.vox(x, y, z)),
        mesh_inv(v, old_verts, old_faces, kept, flat),
        verts.len() == old_verts.len() + 8,
        faces.len() == old_faces.len() + 6,
        forall|i: int| 0 <= i < old_verts.len() ==> verts[i] == old_verts[i],
        forall|i: int| 0 <= i < old_faces.len() ==> faces[i] == old_faces[i],
        cube_at(v, x, y, z, verts.subrange(8 * kept, 8 * kept + 8)),
        forall|k: int| 0 <= k < 6 ==> #[trigger] faces[6 * kept + k] == cube_face(8 * kept, k),
    ensures
        mesh_inv(v, verts, faces, kept + 1, flat + 1),
{
    crate::volume::lemma_flat_bounds(v, x, y, z);
    lemma_count_take_bounds(v.data@, flat);
    assert(v.data@[flat] == v.vox(x, y, z));
    assert forall|i: int| 0 <= i < faces.len() implies {
        let f = #[trigger] faces[i];
        f.a < verts.len() && f.b < verts.len() && f.c < verts.len() && f.d < verts.len()
    } by {
        if i < old_faces.len() {
            assert(faces[i] == old_faces[i]);
            let f = old_faces[i];
            assert(f.a < old_verts.len() && f.b < old_verts.len() && f.c < old_verts.len()
                && f.d < old_verts.len());
        } else {
            let k = i - 6 * kept;
            assert(faces[6 * kept + k] == cube_face(8 * kept, k));
            assert(6 * kept + k == i);
        }
    }
    assert forall|j: int| 0 <= j < kept + 1 implies #[trigger] cube_of_some_kept(
        v,
        verts.subrange(8 * j, 8 * j + 8),
    ) by {
        if j < kept {
            let os = old_verts.subrange(8 * j, 8 * j + 8);
            assert(verts.subrange(8 * j, 8 * j + 8) =~= os);
            assert(cube_of_some_kept(v, os));
        } else {
            assert(verts.subrange(8 * j, 8 * j + 8) =~= verts.subrange(8 * kept, 8 * kept + 8));
            assert(cube_at(v, x, y, z, verts.subrange(8 * j, 8 * j + 8)));
        }
    }
    assert forall|a: int, b: int, c: int|
        v.idx_ok(a, b, c) && v.flat(a, b, c) < flat + 1 && !is_carved(v.vox(a, b, c)) implies {
            let k = kept_index(v, a, b, c);
            &&& 0 <= k
            &&& 8 * k + 8 <= verts.len()
            &&& cube_at(v, a, b, c, verts.subrange(8 * k, 8 * k + 8))
        } by {
        crate::volume::lemma_count_uncarved_bounds(v.data@.take(v.flat(a, b, c)));
        let k = kept_index(v, a, b, c);
        if v.flat(a, b, c) < flat {
            let os = old_verts.subrange(8 * k, 8 * k + 8);
            assert(verts.subrange(8 * k, 8 * k + 8) =~= os);
            assert(cube_at(v, a, b, c, os));
        } else {
            assert(v.flat(a, b, c) == flat);
            crate::volume::lemma_flat_injective(v, a, b, c, x, y, z);
            assert(k == kept);
            assert(cube_at(v, a, b, c, verts.subrange(8 * k, 8 * k + 8)));
        }
    }
    assert forall|j: int, k: int| 0 <= j < kept + 1 && 0 <= k < 6 implies #[trigger] faces[6 * j
        + k] == cube_face(8 * j, k) by {
        if j < kept {
            assert(old_faces[6 * j + k] == cube_face(8 * j, k));
        }
    }
}

} // verus!
