use rustpunk::map::GameMap;
use rustpunk::pos::Pos;
use rustpunk::rng::Rng;

fn open16() -> GameMap {
    GameMap::open_bordered(16).unwrap()
}

#[test]
fn out_of_bounds_reads_solid_and_opaque() {
    let m = open16();
    for p in [
        Pos::new(-1, 0),
        Pos::new(0, -1),
        Pos::new(16, 0),
        Pos::new(0, 16),
        Pos::new(-1000, -1000),
        Pos::new(2000000000, 5),
    ] {
        assert!(m.is_solid(p));
        assert!(m.is_opaque(p));
        assert!(!m.is_visible(p));
        assert!(!m.is_explored(p));
    }
}

#[test]
fn bordered_map_walls_and_floor() {
    let m = open16();
    for i in 0..16 {
        assert!(m.is_solid(Pos::new(i, 0)));
        assert!(m.is_solid(Pos::new(i, 15)));
        assert!(m.is_solid(Pos::new(0, i)));
        assert!(m.is_solid(Pos::new(15, i)));
    }
    for x in 1..15 {
        for y in 1..15 {
            assert!(!m.is_solid(Pos::new(x, y)));
            assert!(!m.is_opaque(Pos::new(x, y)));
        }
    }
}

#[test]
fn open_bordered_rejects_bad_sizes() {
    assert!(GameMap::open_bordered(2).is_none());
    assert!(GameMap::open_bordered(-5).is_none());
    assert!(GameMap::open_bordered(257).is_none());
    assert!(GameMap::open_bordered(3).is_some());
    assert!(GameMap::open_bordered(256).is_some());
}

#[test]
fn set_wall_changes_one_tile() {
    let mut m = open16();
    assert!(!m.is_solid(Pos::new(5, 5)));
    assert!(m.set_wall(Pos::new(5, 5)));
    assert!(m.is_solid(Pos::new(5, 5)));
    assert!(m.is_opaque(Pos::new(5, 5)));
    assert!(!m.is_solid(Pos::new(5, 6)));
    assert!(!m.set_wall(Pos::new(-1, 5)));
}

#[test]
fn radius_zero_sees_only_own_tile() {
    let mut m = open16();
    let v = Pos::new(8, 8);
    m.compute_visibility(v, 0);
    for x in 0..16 {
        for y in 0..16 {
            let p = Pos::new(x, y);
            assert_eq!(m.is_visible(p), p == v);
        }
    }
    m.compute_visibility(v, -3);
    for x in 0..16 {
        for y in 0..16 {
            let p = Pos::new(x, y);
            assert_eq!(m.is_visible(p), p == v);
        }
    }
}

#[test]
fn visibility_boundary_is_inclusive() {
    let mut m = GameMap::open_bordered(20).unwrap();
    let v = Pos::new(10, 10);
    m.compute_visibility(v, 5);
    // exactly at the radius along an axis
    assert!(m.is_visible(Pos::new(15, 10)));
    assert!(m.is_visible(Pos::new(10, 5)));
    // strictly beyond it
    assert!(!m.is_visible(Pos::new(16, 10)));
    assert!(!m.is_visible(Pos::new(14, 14)));
}

#[test]
fn open_map_visibility_is_symmetric() {
    let a = Pos::new(3, 4);
    let b = Pos::new(11, 9);
    let mut m = open16();
    m.compute_visibility(a, 12);
    assert!(m.is_visible(b));
    let mut m2 = open16();
    m2.compute_visibility(b, 12);
    assert!(m2.is_visible(a));
}

#[test]
fn walls_block_sight() {
    let mut m = open16();
    // a short wall between viewer and target
    m.set_wall(Pos::new(8, 8));
    m.compute_visibility(Pos::new(6, 8), 10);
    // the wall itself is lit, the cell right behind it is not
    assert!(m.is_visible(Pos::new(8, 8)));
    assert!(!m.is_visible(Pos::new(9, 8)));
    assert!(!m.is_visible(Pos::new(10, 8)));
}

#[test]
fn visible_tiles_become_explored_and_stay() {
    let mut m = open16();
    let a = Pos::new(3, 3);
    m.compute_visibility(a, 4);
    assert!(m.is_explored(Pos::new(3, 3)));
    assert!(m.is_explored(Pos::new(5, 3)));
    assert!(!m.is_explored(Pos::new(13, 13)));
    // recompute far away: old tiles stay explored though no longer visible
    m.compute_visibility(Pos::new(12, 12), 2);
    assert!(!m.is_visible(Pos::new(3, 3)));
    assert!(m.is_explored(Pos::new(3, 3)));
    assert!(m.is_explored(Pos::new(12, 12)));
}

#[test]
fn generate_has_border_and_clear_spawn() {
    let mut rng = Rng::new(7);
    let m = GameMap::generate(64, &mut rng).unwrap();
    for i in 0..64 {
        assert!(m.is_solid(Pos::new(i, 0)));
        assert!(m.is_solid(Pos::new(i, 63)));
        assert!(m.is_solid(Pos::new(0, i)));
        assert!(m.is_solid(Pos::new(63, i)));
    }
    for x in 1..=2 {
        for y in 1..=2 {
            assert!(!m.is_solid(Pos::new(x, y)));
            assert!(!m.is_opaque(Pos::new(x, y)));
        }
    }
    assert!(GameMap::generate(1, &mut rng).is_none());
}

#[test]
fn generate_is_deterministic_in_the_seed() {
    let mut r1 = Rng::new(99);
    let mut r2 = Rng::new(99);
    let m1 = GameMap::generate(32, &mut r1).unwrap();
    let m2 = GameMap::generate(32, &mut r2).unwrap();
    for x in 0..32 {
        for y in 0..32 {
            let p = Pos::new(x, y);
            assert_eq!(m1.is_solid(p), m2.is_solid(p));
        }
    }
}

#[test]
fn rng_range_bounds_and_determinism() {
    let mut a = Rng::new(123);
    let mut b = Rng::new(123);
    for _ in 0..200 {
        let x = a.gen_range(-5, 17);
        let y = b.gen_range(-5, 17);
        assert_eq!(x, y);
        assert!((-5..=17).contains(&x));
    }
    let mut c = Rng::new(1);
    for _ in 0..50 {
        assert_eq!(c.gen_range(4, 4), 4);
    }
}
