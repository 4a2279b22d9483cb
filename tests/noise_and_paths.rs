use raytrace_core::integrator::{next_bounce, Bounce, MAX_DEPTH};
use raytrace_core::perlin::{perlin_generate_perm, permute, PerlinTables, TABLE_SIZE};

fn is_permutation_of_bytes(t: &Vec<u8>) -> bool {
    let mut s = t.clone();
    s.sort();
    s == (0..=255u8).collect::<Vec<u8>>()
}

#[test]
fn generated_table_is_permutation() {
    let t = perlin_generate_perm();
    assert_eq!(t.len(), TABLE_SIZE);
    assert!(is_permutation_of_bytes(&t));
}

#[test]
fn permute_rearranges_prefix_only() {
    let original: Vec<u8> = (0..20).collect();
    let mut t = original.clone();
    permute(&mut t, 12);
    assert_eq!(&t[12..], &original[12..]);
    let mut prefix = t[..12].to_vec();
    prefix.sort();
    assert_eq!(prefix, (0..12).collect::<Vec<u8>>());
}

#[test]
fn permute_of_one_changes_nothing() {
    let mut t = vec![9u8, 4, 7];
    permute(&mut t, 1);
    assert_eq!(t, vec![9, 4, 7]);
    permute(&mut t, 0);
    assert_eq!(t, vec![9, 4, 7]);
}

#[test]
fn tables_are_permutations() {
    let p = PerlinTables::new();
    for a in 0..3 {
        assert!(is_permutation_of_bytes(p.table(a)));
    }
}

#[test]
fn corner_indices_hash_each_corner() {
    let p = PerlinTables::new();
    let (tx, ty, tz) = (p.table(0).clone(), p.table(1).clone(), p.table(2).clone());
    let r = p.corner_indices(3, 40, 255);
    assert_eq!(r.len(), 8);
    for di in 0..2usize {
        for dj in 0..2usize {
            for dk in 0..2usize {
                let expected = tx[(3 + di) % 256] ^ ty[(40 + dj) % 256] ^ tz[(255 + dk) % 256];
                assert_eq!(r[4 * di + 2 * dj + dk], expected as usize);
            }
        }
    }
    assert_eq!(r[1], (tx[3] ^ ty[40] ^ tz[0]) as usize);
}

#[test]
fn miss_gives_background() {
    assert_eq!(next_bounce(false, 0, true, true), Bounce::Background);
    assert_eq!(next_bounce(false, 70, false, false), Bounce::Background);
}

#[test]
fn depth_cutoff_returns_emission() {
    assert_eq!(MAX_DEPTH, 50);
    assert_eq!(next_bounce(true, 50, true, false), Bounce::Emitted);
    assert_eq!(next_bounce(true, 51, true, true), Bounce::Emitted);
    assert_eq!(next_bounce(true, 49, true, true), Bounce::Specular { next_depth: 50 });
}

#[test]
fn absorbed_ray_returns_emission() {
    assert_eq!(next_bounce(true, 0, false, false), Bounce::Emitted);
    assert_eq!(next_bounce(true, 3, false, true), Bounce::Emitted);
}

#[test]
fn specular_and_diffuse_go_one_deeper() {
    assert_eq!(next_bounce(true, 0, true, true), Bounce::Specular { next_depth: 1 });
    assert_eq!(next_bounce(true, 7, true, false), Bounce::Diffuse { next_depth: 8 });
}
