use tds::grid::Grid;
use tds::material::Material;
use tds::geom::Vec2;

fn open_grid() -> Grid {
    Grid::new(32, 32)
}

#[test]
fn materials_round_trip_through_bytes() {
    let all = [
        Material::Grass,
        Material::Dirt,
        Material::Floor,
        Material::Wall,
        Material::Asphalt,
        Material::Sand,
        Material::Concrete,
        Material::WoodFloor,
        Material::Stairs,
        Material::Missing,
    ];
    for m in all {
        assert_eq!(Material::from_byte(m.to_byte()), m);
    }
    // unrecognized identifiers degrade to the fallback
    assert_eq!(Material::from_byte(9), Material::Missing);
    assert_eq!(Material::from_byte(200), Material::Missing);
}

#[test]
fn material_solidity_and_sprites() {
    assert!(Material::Wall.solid());
    assert!(Material::Missing.solid());
    assert!(!Material::Grass.solid());
    assert!(!Material::WoodFloor.solid());
    assert_eq!(Material::Grass.get_spr(), "materials/grass");
    assert_eq!(Material::Wall.get_spr(), "materials/wall");
}

#[test]
fn grid_get_insert_and_boundary() {
    let mut g = open_grid();
    assert_eq!(g.width(), 32);
    assert_eq!(g.height(), 32);
    assert_eq!(g.get(0, 0), Material::Grass);
    g.insert(3, 4, Material::Wall);
    assert_eq!(g.get(3, 4), Material::Wall);
    assert_eq!(g.get(4, 3), Material::Grass);
    // out-of-range queries see the boundary material
    assert_eq!(g.get(-1, 0), Material::Missing);
    assert_eq!(g.get(0, 32), Material::Missing);
    // out-of-range writes are ignored
    g.insert(-1, 0, Material::Wall);
    assert_eq!(g.get(-1, 0), Material::Missing);
}

#[test]
fn grid_resize_operations() {
    let mut g = Grid::new(2, 2);
    g.insert(1, 1, Material::Sand);
    g.widen();
    assert_eq!(g.width(), 3);
    assert_eq!(g.get(1, 1), Material::Sand);
    assert_eq!(g.get(2, 0), Material::Grass);
    g.heighten();
    assert_eq!(g.height(), 3);
    assert_eq!(g.get(0, 2), Material::Grass);
    assert_eq!(g.get(1, 1), Material::Sand);
    g.thin();
    assert_eq!(g.width(), 2);
    assert_eq!(g.get(1, 1), Material::Sand);
    g.shorten();
    assert_eq!(g.height(), 2);
    assert_eq!(g.get(1, 1), Material::Sand);
}

#[test]
fn snap_uses_floor_division() {
    assert_eq!(Grid::snap(Vec2 { x: 0, y: 31999 }), (0, 0));
    assert_eq!(Grid::snap(Vec2 { x: 32000, y: 64000 }), (1, 2));
    assert_eq!(Grid::snap(Vec2 { x: -1, y: -32001 }), (-1, -2));
}

#[test]
fn full_cast_through_open_grid() {
    let g = open_grid();
    let o = Vec2 { x: 500_000, y: 500_000 };
    let v = Vec2 { x: 100_000, y: -70_000 };
    let r = g.ray_cast(o, v, true);
    assert!(r.full());
    assert_eq!(r.point, Vec2 { x: 600_000, y: 430_000 });
    assert_eq!(r.clip, Vec2 { x: 0, y: 0 });
    assert_eq!(r.normal, None);
}

#[test]
fn zero_vector_cast_stays_at_origin() {
    let g = open_grid();
    let o = Vec2 { x: 500_000, y: 500_000 };
    let r = g.ray_cast(o, Vec2 { x: 0, y: 0 }, true);
    assert!(r.full());
    assert_eq!(r.into_point(), o);
    assert_eq!(r.clip, Vec2 { x: 0, y: 0 });
}

#[test]
fn blocked_cast_stops_at_cell_boundary() {
    let mut g = open_grid();
    // origin sits in cell (15, 15); its right neighbour is solid
    g.insert(16, 15, Material::Wall);
    let o = Vec2 { x: 500_000, y: 500_000 };
    let r = g.ray_cast(o, Vec2 { x: 32_000, y: 0 }, true);
    assert!(!r.full());
    assert_eq!(r.point, Vec2 { x: 512_000, y: 500_000 });
    assert_eq!(r.clip, Vec2 { x: 20_000, y: 0 });
    assert_eq!(r.normal, Some(Vec2 { x: -1, y: 0 }));
}

#[test]
fn longer_cast_is_pinned_by_the_same_obstruction() {
    let mut g = open_grid();
    g.insert(16, 15, Material::Wall);
    let o = Vec2 { x: 500_000, y: 500_000 };
    let short = g.ray_cast(o, Vec2 { x: 32_000, y: 0 }, true);
    let long = g.ray_cast(o, Vec2 { x: 64_000, y: 0 }, true);
    // the hit point does not move; the whole added length joins the clip
    assert_eq!(short.point, long.point);
    assert_eq!(short.clip, Vec2 { x: 20_000, y: 0 });
    assert_eq!(long.clip, Vec2 { x: 52_000, y: 0 });
}

#[test]
fn cast_from_inside_solid_blocks_at_distance_zero() {
    let mut g = open_grid();
    g.insert(15, 15, Material::Wall);
    let o = Vec2 { x: 500_000, y: 500_000 };
    let v = Vec2 { x: 10_000, y: 10_000 };
    let r = g.ray_cast(o, v, true);
    assert!(!r.full());
    assert_eq!(r.point, o);
    assert_eq!(r.clip, v);
    assert_eq!(r.normal, Some(Vec2 { x: 0, y: 0 }));
}

#[test]
fn far_mode_reports_last_obstruction() {
    let mut g = open_grid();
    g.insert(16, 15, Material::Wall);
    g.insert(18, 15, Material::Wall);
    let o = Vec2 { x: 500_000, y: 500_000 };
    let v = Vec2 { x: 100_000, y: 0 };
    let near = g.ray_cast(o, v, true);
    let far = g.ray_cast(o, v, false);
    assert_eq!(near.point, Vec2 { x: 512_000, y: 500_000 });
    assert_eq!(far.point, Vec2 { x: 576_000, y: 500_000 });
    assert!(!far.full());
    assert_eq!(far.normal, Some(Vec2 { x: -1, y: 0 }));
}

#[test]
fn cast_leaving_the_grid_hits_the_boundary_material() {
    let g = Grid::new(2, 2);
    // rightward past the grid's edge at x = 64000
    let o = Vec2 { x: 48_000, y: 16_000 };
    let r = g.ray_cast(o, Vec2 { x: 100_000, y: 0 }, true);
    assert!(!r.full());
    assert_eq!(r.point, Vec2 { x: 64_000, y: 16_000 });
}

#[test]
fn diagonal_cast_clips_on_the_first_crossing() {
    let mut g = open_grid();
    g.insert(15, 16, Material::Wall);
    let o = Vec2 { x: 500_000, y: 500_000 };
    // straight down (+y): the boundary of cell row 16 is at y = 512000
    let r = g.ray_cast(o, Vec2 { x: 0, y: 40_000 }, true);
    assert!(!r.full());
    assert_eq!(r.point, Vec2 { x: 500_000, y: 512_000 });
    assert_eq!(r.normal, Some(Vec2 { x: 0, y: -1 }));
}
