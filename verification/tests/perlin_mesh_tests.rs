use raytracer::mesh::{triangle_faces, triangle_faces_in_bounds};
use raytracer::perlin::{generate_perm, lattice_hash, permute, shuffle_with, POINT_COUNT};

fn sorted(v: &[usize]) -> Vec<usize> {
    let mut s = v.to_vec();
    s.sort();
    s
}

#[test]
fn generated_tables_are_permutations() {
    for _ in 0..5 {
        let p = generate_perm();
        assert_eq!(p.len(), POINT_COUNT);
        assert_eq!(sorted(&p), (0..POINT_COUNT).collect::<Vec<_>>());
    }
}

#[test]
fn permute_keeps_every_entry() {
    let mut p = vec![4, 4, 9, 1, 0, 7];
    permute(&mut p);
    assert_eq!(sorted(&p), vec![0, 1, 4, 4, 7, 9]);
    let mut empty: Vec<usize> = vec![];
    permute(&mut empty);
    assert!(empty.is_empty());
    let mut one = vec![3];
    permute(&mut one);
    assert_eq!(one, vec![3]);
}

#[test]
fn lattice_hash_combines_the_low_bytes() {
    let id: Vec<usize> = (0..POINT_COUNT).collect();
    let rev: Vec<usize> = (0..POINT_COUNT).rev().collect();
    assert_eq!(lattice_hash(&id, &id, &id, 1, 2, 4), 1 ^ 2 ^ 4);
    assert_eq!(lattice_hash(&id, &id, &id, 257, 0, 0), 1);
    assert_eq!(lattice_hash(&id, &id, &id, -1, 0, 0), 255);
    assert_eq!(lattice_hash(&rev, &id, &id, 0, 3, 0), 255 ^ 3);
}

#[test]
fn lattice_hash_stays_inside_the_table() {
    let px = generate_perm();
    let py = generate_perm();
    let pz = generate_perm();
    for x in -300..300 {
        for y in [-7, 0, 13, 1000] {
            let h = lattice_hash(&px, &py, &pz, x, y, x / 3);
            assert!(h < POINT_COUNT);
            assert_eq!(h, px[(x & 255) as usize] ^ py[(y & 255) as usize] ^ pz[((x / 3) & 255) as usize]);
        }
    }
}

#[test]
fn faces_group_indices_by_three() {
    let indices = vec![0, 1, 2, 2, 3, 0, 4];
    assert_eq!(triangle_faces(&indices), vec![(0, 1, 2), (2, 3, 0)]);
    assert!(triangle_faces(&vec![0, 1]).is_empty());
}

#[test]
fn faces_out_of_bounds_are_skipped() {
    let indices = vec![0, 1, 2, 2, 3, 9, 1, 1, 3];
    assert_eq!(triangle_faces_in_bounds(&indices, 4), vec![(0, 1, 2), (1, 1, 3)]);
    assert_eq!(triangle_faces_in_bounds(&indices, 10), triangle_faces(&indices));
    assert!(triangle_faces_in_bounds(&indices, 0).is_empty());
}

#[test]
fn shuffle_with_follows_the_draws() {
    let mut p = vec![0, 1, 2, 3];
    shuffle_with(&mut p, &vec![0, 0, 0]);
    assert_eq!(p, vec![1, 2, 3, 0]);
    let mut q = vec![0, 1, 2, 3];
    shuffle_with(&mut q, &vec![3, 2, 1]);
    assert_eq!(q, vec![0, 1, 2, 3]);
    let mut r = vec![5, 6, 7];
    shuffle_with(&mut r, &vec![1, 0]);
    assert_eq!(r, vec![7, 5, 6]);
    let mut empty: Vec<usize> = vec![];
    shuffle_with(&mut empty, &vec![]);
    assert!(empty.is_empty());
}
