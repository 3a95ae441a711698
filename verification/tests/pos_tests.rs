use rustpunk::pos::{Dir, Pos};

#[test]
fn new_and_zero() {
    let p = Pos::new(3, -7);
    assert_eq!(p.x, 3);
    assert_eq!(p.y, -7);
    assert_eq!(Pos::zero(), Pos::new(0, 0));
}

#[test]
fn tup_roundtrip() {
    let p = Pos::new(11, 22);
    assert_eq!(p.tup(), (11, 22));
}

#[test]
fn add_and_sub() {
    let a = Pos::new(2, 3);
    let b = Pos::new(-1, 5);
    assert_eq!(a.add(b), Pos::new(1, 8));
    assert_eq!(b.add(a), Pos::new(1, 8));
    assert_eq!(a.sub(b), Pos::new(3, -2));
}

#[test]
fn to_dir_unit_displacements() {
    assert_eq!(Pos::new(0, -1).to_dir(), Some(Dir::N));
    assert_eq!(Pos::new(1, -1).to_dir(), Some(Dir::NE));
    assert_eq!(Pos::new(1, 0).to_dir(), Some(Dir::E));
    assert_eq!(Pos::new(1, 1).to_dir(), Some(Dir::SE));
    assert_eq!(Pos::new(0, 1).to_dir(), Some(Dir::S));
    assert_eq!(Pos::new(-1, 1).to_dir(), Some(Dir::SW));
    assert_eq!(Pos::new(-1, 0).to_dir(), Some(Dir::W));
    assert_eq!(Pos::new(-1, -1).to_dir(), Some(Dir::NW));
    assert_eq!(Pos::new(0, 0).to_dir(), None);
    assert_eq!(Pos::new(2, 0).to_dir(), None);
}

#[test]
fn to_pos_to_dir_roundtrip() {
    for d in [Dir::N, Dir::NE, Dir::E, Dir::SE, Dir::S, Dir::SW, Dir::W, Dir::NW] {
        assert_eq!(d.to_pos().to_dir(), Some(d));
    }
}

#[test]
fn dir_towards_octants() {
    let c = Pos::new(10, 10);
    assert_eq!(c.dir_towards(Pos::new(10, 2)), Some(Dir::N));
    assert_eq!(c.dir_towards(Pos::new(15, 3)), Some(Dir::NE));
    assert_eq!(c.dir_towards(Pos::new(20, 10)), Some(Dir::E));
    assert_eq!(c.dir_towards(Pos::new(11, 11)), Some(Dir::SE));
    assert_eq!(c.dir_towards(Pos::new(10, 30)), Some(Dir::S));
    assert_eq!(c.dir_towards(Pos::new(4, 12)), Some(Dir::SW));
    assert_eq!(c.dir_towards(Pos::new(0, 10)), Some(Dir::W));
    assert_eq!(c.dir_towards(Pos::new(9, 9)), Some(Dir::NW));
}

#[test]
fn dir_towards_none_only_when_equal() {
    let c = Pos::new(-4, 7);
    assert_eq!(c.dir_towards(c), None);
    assert!(c.dir_towards(Pos::new(-4, 8)).is_some());
}
