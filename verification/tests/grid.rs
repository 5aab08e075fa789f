use dungeon_core::rect::Rect;
use dungeon_core::tile::{Tile, TileGrid};

#[test]
fn tile_kinds() {
    assert!(Tile::wall().is_wall());
    assert!(!Tile::empty().is_wall());
    let overlay = Tile::entity();
    assert!(overlay.blocks_movement && !overlay.blocks_sight);
    assert!(!overlay.is_wall());
}

#[test]
fn rect_new_and_center() {
    let r = Rect::new(2, 3, 6, 8);
    assert_eq!((r.x1, r.y1, r.x2, r.y2), (2, 3, 8, 11));
    assert_eq!(r.center(), (5, 7));
}

#[test]
fn touching_rooms_count_as_intersecting() {
    let a = Rect::new(0, 0, 4, 4);
    let b = Rect::new(4, 0, 4, 4); // shares the x = 4 edge
    let c = Rect::new(5, 0, 4, 4); // one tile of daylight
    assert!(a.intersects_with(&b));
    assert!(b.intersects_with(&a));
    assert!(!a.intersects_with(&c));
    assert!(!c.intersects_with(&a));
}

#[test]
fn set_rect_exclusive_carves_the_interior_only() {
    let mut m = TileGrid::new(10, 10, Tile::wall());
    m.set_rect(Rect::new(2, 2, 4, 4), Tile::empty(), false);
    // interior (3..=5, 3..=5) is floor, the border of the rect stays wall
    for x in 3..6 {
        for y in 3..6 {
            assert!(!m.get(x, y).blocks_movement);
        }
    }
    assert!(m.get(2, 3).blocks_movement);
    assert!(m.get(6, 3).blocks_movement);
    assert!(m.get(3, 2).blocks_movement);
    assert!(m.get(3, 6).blocks_movement);
}

#[test]
fn set_rect_inclusive_covers_the_whole_rect() {
    let mut m = TileGrid::new(10, 10, Tile::wall());
    m.set_rect(Rect { x1: 2, y1: 5, x2: 6, y2: 5 }, Tile::empty(), true);
    for x in 2..7 {
        assert!(!m.get(x, 5).blocks_movement);
    }
    assert!(m.get(1, 5).blocks_movement);
    assert!(m.get(7, 5).blocks_movement);
}

#[test]
fn set_rect_never_writes_the_last_row_or_column() {
    let mut m = TileGrid::new(6, 6, Tile::wall());
    m.set_rect(Rect { x1: 0, y1: 0, x2: 9, y2: 9 }, Tile::empty(), true);
    for i in 0..6 {
        assert!(m.get(5, i).blocks_movement);
        assert!(m.get(i, 5).blocks_movement);
    }
    assert!(!m.get(4, 4).blocks_movement);
}

#[test]
fn tunnel_stamps_follow_the_line() {
    // a straight horizontal tunnel of radius 0 carves exactly the line from
    // start (included) toward end (excluded)
    let mut m = TileGrid::new(10, 10, Tile::wall());
    m.set_tunnel((2, 3), (6, 3), 0, Tile::empty());
    for x in 2..6 {
        assert!(!m.get(x, 3).blocks_movement, "({}, 3) should be carved", x);
    }
    assert!(m.get(6, 3).blocks_movement);
    assert!(m.get(1, 3).blocks_movement);
    assert!(m.get(3, 4).blocks_movement);
}

#[test]
fn tunnel_radius_widens_the_stamp() {
    let mut m = TileGrid::new(12, 12, Tile::wall());
    m.set_tunnel((4, 4), (7, 4), 1, Tile::empty());
    // the stamp around (4,4) covers a 3x3 square
    for x in 3..6 {
        for y in 3..6 {
            assert!(!m.get(x, y).blocks_movement);
        }
    }
    assert!(m.get(2, 4).blocks_movement);
}

#[test]
fn get_mut_writes_through() {
    let mut m = TileGrid::new(4, 4, Tile::empty());
    let t = m.get_mut(1, 2);
    t.explored = true;
    assert!(m.get(1, 2).explored);
    assert!(!m.get(2, 1).explored);
}
