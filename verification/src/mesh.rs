use vstd::prelude::*;

verus! {

/// A triangle as the indices of its three vertices.
pub type Face = (usize, usize, usize);

/// Face `f` of a triangulated index list: the `f`-th group of three consecutive indices.
pub open spec fn face_at(indices: Seq<u32>, f: int) -> Face {
    (indices[3 * f] as usize, indices[3 * f + 1] as usize, indices[3 * f + 2] as usize)
}

/// Every complete group of three indices, in order; a trailing incomplete group is no face.
pub open spec fn all_faces(indices: Seq<u32>) -> Seq<Face> {
    Seq::new(indices.len() / 3, |f: int| face_at(indices, f))
}

/// All three vertices of `face` are among the first `vertex_count`.
pub open spec fn face_in_bounds(face: Face, vertex_count: nat) -> bool {
    face.0 < vertex_count && face.1 < vertex_count && face.2 < vertex_count
}

/// The faces whose vertices all exist, in order.
pub open spec fn faces_in_bounds(indices: Seq<u32>, vertex_count: nat) -> Seq<Face> {
    all_faces(indices).filter(|face: Face| face_in_bounds(face, vertex_count))
}

/// The triangles of a triangulated mesh's index list: each complete group of three
/// indices, in order.
pub fn triangle_faces(indices: &Vec<u32>) -> (faces: Vec<Face>)
    ensures
        faces@ == all_faces(indices@),
{
    let n = indices.len();
    let count = n / 3;
    let mut faces: Vec<Face> = Vec::new();
    let mut f: usize = 0;
    while f < count
        invariant
            n == indices@.len(),
            count == n / 3,
            f <= count,
            faces@ == all_faces(indices@).take(f as int),
        decreases count - f,
    {
        assert(3 * f + 3 <= indices@.len()) by (nonlinear_arith)
            requires
                f < count,
                count == indices@.len() / 3,
        ;
        let face = (indices[3 * f] as usize, indices[3 * f + 1] as usize, indices[3 * f + 2] as usize);
        faces.push(face);
        f = f + 1;
        assert(faces@ =~= all_faces(indices@).take(f as int));
    }
    assert(all_faces(indices@).take(count as int) =~= all_faces(indices@));
    faces
}

/// The triangles of a triangulated mesh's index list whose three vertices are all
/// among the first `vertex_count`, in order; the others are skipped.
pub fn triangle_faces_in_bounds(indices: &Vec<u32>, vertex_count: usize) -> (faces: Vec<Face>)
    ensures
        faces@ == faces_in_bounds(indices@, vertex_count as nat),
        forall|k: int|
            0 <= k < faces@.len() ==> {
                &&& #[trigger] faces@[k].0 < vertex_count
                &&& faces@[k].1 < vertex_count
                &&& faces@[k].2 < vertex_count
                &&& exists|f: int|
                    0 <= f < indices@.len() / 3 && faces@[k] == #[trigger] face_at(indices@, f)
            },
        forall|f: int|
            0 <= f < indices@.len() / 3 && indices@[3 * f] < vertex_count && indices@[3 * f + 1]
                < vertex_count && indices@[3 * f + 2] < vertex_count ==> faces@.contains(
                #[trigger] face_at(indices@, f),
            ),
{
    let all = triangle_faces(indices);
    let ghost pred = |face: Face| face_in_bounds(face, vertex_count as nat);
    let mut faces: Vec<Face> = Vec::new();
    let mut f: usize = 0;
    while f < all.len()
        invariant
            all@ == all_faces(indices@),
            pred == (|face: Face| face_in_bounds(face, vertex_count as nat)),
            f <= all@.len(),
            faces@ == all@.take(f as int).filter(pred),
        decreases all@.len() - f,
    {
        let face = all[f];
        proof {
            reveal_with_fuel(Seq::<_>::filter, 1);
        }
        let ghost t = all@.take(f + 1);
        assert(t.drop_last() =~= all@.take(f as int));
        assert(t.last() == face);
        assert(t.filter(pred) == if pred(face) { all@.take(f as int).filter(pred).push(face) } else { all@.take(f as int).filter(pred) });
        if face.0 < vertex_count && face.1 < vertex_count && face.2 < vertex_count {
            faces.push(face);
        }
        f = f + 1;
    }
    assert(all@.take(all@.len() as int) =~= all@);
    proof {
        lemma_faces_in_bounds_exact(indices@, vertex_count as nat);
    }
    faces
}

proof fn lemma_filter_keeps_all<A>(s: Seq<A>, p: spec_fn(A) -> bool)
    requires
        forall|i: int| 0 <= i < s.len() ==> p(#[trigger] s[i]),
    ensures
        s.filter(p) == s,
    decreases s.len(),
{
    reveal_with_fuel(Seq::<_>::filter, 1);
    if s.len() > 0 {
        assert forall|i: int| 0 <= i < s.drop_last().len() implies p(#[trigger] s.drop_last()[i]) by {
            assert(s.drop_last()[i] == s[i]);
        }
        lemma_filter_keeps_all(s.drop_last(), p);
        assert(s.drop_last().push(s.last()) =~= s);
    }
}

/// When every index names an existing vertex, no face is skipped.
pub proof fn lemma_no_face_skipped(indices: Seq<u32>, vertex_count: nat)
    requires
        forall|i: int| 0 <= i < indices.len() ==> (#[trigger] indices[i] as nat) < vertex_count,
    ensures
        faces_in_bounds(indices, vertex_count) == all_faces(indices),
{
    let all = all_faces(indices);
    assert forall|f: int| 0 <= f < all.len() implies face_in_bounds(#[trigger] all[f], vertex_count) by {
        assert(3 * f + 2 < indices.len()) by (nonlinear_arith)
            requires
                0 <= f < indices.len() / 3,
        ;
        assert((indices[3 * f] as nat) < vertex_count);
        assert((indices[3 * f + 1] as nat) < vertex_count);
        assert((indices[3 * f + 2] as nat) < vertex_count);
    }
    lemma_filter_keeps_all(all, |face: Face| face_in_bounds(face, vertex_count));
}

/// Every face kept names existing vertices, and every face kept is a face of the list.
pub proof fn lemma_kept_faces_in_bounds(indices: Seq<u32>, vertex_count: nat, k: int)
    requires
        0 <= k < faces_in_bounds(indices, vertex_count).len(),
    ensures
        face_in_bounds(faces_in_bounds(indices, vertex_count)[k], vertex_count),
        all_faces(indices).contains(faces_in_bounds(indices, vertex_count)[k]),
{
    let p = |face: Face| face_in_bounds(face, vertex_count);
    all_faces(indices).lemma_filter_pred(p, k);
    let kept = all_faces(indices).filter(p);
    assert(kept.contains(kept[k]));
    all_faces(indices).lemma_filter_contains_rev(p, kept[k]);
}

/// Exactly the faces whose three vertex indices are all below `vertex_count` are kept:
/// each face kept has all three indices in range and is a complete group of three
/// consecutive indices of the list, and each such group whose indices are all in
/// range is among the faces kept.
pub proof fn lemma_faces_in_bounds_exact(indices: Seq<u32>, vertex_count: nat)
    ensures
        forall|k: int|
            0 <= k < faces_in_bounds(indices, vertex_count).len() ==> {
                &&& (#[trigger] faces_in_bounds(indices, vertex_count)[k].0 as nat) < vertex_count
                &&& (faces_in_bounds(indices, vertex_count)[k].1 as nat) < vertex_count
                &&& (faces_in_bounds(indices, vertex_count)[k].2 as nat) < vertex_count
                &&& exists|f: int|
                    0 <= f < indices.len() / 3 && faces_in_bounds(indices, vertex_count)[k]
                        == #[trigger] face_at(indices, f)
            },
        forall|f: int|
            0 <= f < indices.len() / 3 && (indices[3 * f] as nat) < vertex_count && (indices[3 * f
                + 1] as nat) < vertex_count && (indices[3 * f + 2] as nat) < vertex_count
                ==> faces_in_bounds(indices, vertex_count).contains(#[trigger] face_at(indices, f)),
{
    let all = all_faces(indices);
    let p = |face: Face| face_in_bounds(face, vertex_count);
    let kept = all.filter(p);
    assert(kept == faces_in_bounds(indices, vertex_count));
    assert forall|k: int| 0 <= k < kept.len() implies {
        &&& (#[trigger] kept[k].0 as nat) < vertex_count
        &&& (kept[k].1 as nat) < vertex_count
        &&& (kept[k].2 as nat) < vertex_count
        &&& exists|f: int| 0 <= f < indices.len() / 3 && kept[k] == #[trigger] face_at(indices, f)
    } by {
        all.lemma_filter_pred(p, k);
        assert(kept.contains(kept[k]));
        all.lemma_filter_contains_rev(p, kept[k]);
        let f = choose|f: int| 0 <= f < all.len() && all[f] == kept[k];
        assert(all[f] == face_at(indices, f));
    }
    assert forall|f: int|
        0 <= f < indices.len() / 3 && (indices[3 * f] as nat) < vertex_count && (indices[3 * f
            + 1] as nat) < vertex_count && (indices[3 * f + 2] as nat) < vertex_count
            implies faces_in_bounds(indices, vertex_count).contains(
        #[trigger] face_at(indices, f),
    ) by {
        assert(all[f] == face_at(indices, f));
        all.lemma_filter_contains(p, f);
    }
}

} // verus!
