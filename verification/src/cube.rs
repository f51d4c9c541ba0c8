//! The index buffer of the unit cube that the sky is drawn on.

use vstd::prelude::*;

verus! {

/// The corners of a face's two triangles, as offsets into the face's four vertices.
pub open spec fn face_corner(k: int) -> int {
    if k == 0 || k == 5 {
        0
    } else if k == 1 {
        1
    } else if k == 2 || k == 3 {
        2
    } else {
        3
    }
}

/// The vertex indices of the cube's triangles: two per face, six faces
/// (front, back, top, bottom, right, left), each face using its own four
/// vertices.
pub open spec fn cube_indices() -> Seq<u16> {
    seq![
        0u16, 1, 2, 2, 3, 0,
        4, 5, 6, 6, 7, 4,
        8, 9, 10, 10, 11, 8,
        12, 13, 14, 14, 15, 12,
        16, 17, 18, 18, 19, 16,
        20, 21, 22, 22, 23, 20,
    ]
}

/// The index buffer of the cube.
pub fn get_indices() -> (r: &'static [u16])
    ensures
        r@ == cube_indices(),
{
    let indices: &'static [u16] = &[
        0, 1, 2, 2, 3, 0,
        4, 5, 6, 6, 7, 4,
        8, 9, 10, 10, 11, 8,
        12, 13, 14, 14, 15, 12,
        16, 17, 18, 18, 19, 16,
        20, 21, 22, 22, 23, 20,
    ];
    assert(indices@ =~= cube_indices());
    indices
}

/// Each of the six faces is drawn as the triangles (0, 1, 2) and (2, 3, 0)
/// of its own four vertices, so every index names one of the 24 vertices.
pub proof fn lemma_cube_faces()
    ensures
        cube_indices().len() == 36,
        forall|f: int, k: int|
            0 <= f < 6 && 0 <= k < 6 ==> #[trigger] cube_indices()[6 * f + k] == 4 * f + face_corner(k),
        forall|i: int| 0 <= i < 36 ==> #[trigger] cube_indices()[i] < 24,
{
    assert(forall|f: int, k: int|
        0 <= f < 6 && 0 <= k < 6 ==> #[trigger] cube_indices()[6 * f + k] == 4 * f + face_corner(k)) by {
        assert forall|f: int, k: int| 0 <= f < 6 && 0 <= k < 6 implies #[trigger] cube_indices()[6 * f + k] == 4 * f
            + face_corner(k) by {
            assert(cube_indices() =~= seq![
                0u16, 1, 2, 2, 3, 0,
                4, 5, 6, 6, 7, 4,
                8, 9, 10, 10, 11, 8,
                12, 13, 14, 14, 15, 12,
                16, 17, 18, 18, 19, 16,
                20, 21, 22, 22, 23, 20,
            ]);
        }
    }
    assert forall|i: int| 0 <= i < 36 implies #[trigger] cube_indices()[i] < 24 by {
        let f = i / 6;
        let k = i % 6;
        assert(cube_indices()[6 * f + k] == 4 * f + face_corner(k));
    }
}

} // verus!
