use tds::character::{Enemy, Health, Player};
use tds::geom::Vec2;
use tds::grenade::{Grenade, GrenadeMaker, GrenadeState, GrenadeUpdate, Utilities};
use tds::grid::Grid;
use tds::material::Material;
use tds::object::Object;

const DT: u32 = 100;

fn open_grid() -> Grid {
    Grid::new(32, 32)
}

fn player_at(x: i64, y: i64) -> Player {
    Player { obj: Object::new(Vec2 { x, y }), health: Health { hp: 500_000 } }
}

fn enemy_at(x: i64, y: i64) -> Enemy {
    Enemy { pl: player_at(x, y) }
}

fn flying(pos: Vec2, vel: Vec2, fuse: u32) -> Grenade {
    Grenade { obj: Object::new(pos), vel, state: GrenadeState::Fused { fuse } }
}

#[test]
fn damage_falloff_boundaries() {
    let mut g = open_grid();
    // a wall between the blast and the character 50 units below
    g.insert(15, 16, Material::Wall);
    let mut obj = Object::new(Vec2 { x: 500_000, y: 500_000 });
    let mut player = player_at(563_000, 500_000); // 63 units: lethal ring
    let mut enemies = vec![
        enemy_at(565_000, 500_000), // 65 units: low tier
        enemy_at(645_000, 500_000), // 145 units: out of range
        enemy_at(500_000, 550_000), // 50 units but behind the wall
        enemy_at(500_000, 450_000), // 50 units, clear line of sight
    ];
    let u = Grenade::explode(&mut obj, &g, &mut player, &mut enemies);
    assert_eq!(player.health.hp, 500_000 - 89_250);
    assert_eq!(enemies[0].pl.health.hp, 500_000 - 46_750);
    assert_eq!(enemies[1].pl.health.hp, 500_000);
    assert_eq!(enemies[2].pl.health.hp, 500_000);
    assert_eq!(enemies[3].pl.health.hp, 500_000 - 89_250);
    match u {
        GrenadeUpdate::Explosion { player_hit, enemy_hits } => {
            assert!(player_hit);
            assert_eq!(enemy_hits, vec![3, 0]);
        }
        _ => panic!("explode must report an explosion"),
    }
}

#[test]
fn projectile_bounces_off_character_instead_of_passing_through() {
    // a grenade 20 units from a stationary character, travelling toward it
    let g = open_grid();
    let mut player = player_at(520_000, 500_000);
    let mut enemies: Vec<Enemy> = Vec::new();
    let dirs: Vec<Vec2> = Vec::new();
    let mut nade = flying(Vec2 { x: 500_000, y: 500_000 }, Vec2 { x: 100, y: 0 }, 1300);
    let u = nade.update(&g, &mut player, &mut enemies, false, &dirs, DT);
    assert!(matches!(u, GrenadeUpdate::Nothing));
    // the velocity component along the approach direction has reversed
    assert_eq!(nade.vel, Vec2 { x: -86, y: 0 });
    assert_eq!(nade.obj.pos, Vec2 { x: 509_300, y: 500_000 });
    assert!(matches!(nade.state, GrenadeState::Fused { fuse: 1200 }));
    assert_eq!(player.health.hp, 500_000);
}

#[test]
fn player_is_checked_before_enemies() {
    let g = open_grid();
    // the enemy sits earlier along the flight path, but the player is
    // always collision-checked first
    let mut player = player_at(520_000, 500_000);
    let mut enemies = vec![enemy_at(505_000, 500_000)];
    let dirs: Vec<Vec2> = Vec::new();
    let mut nade = flying(Vec2 { x: 500_000, y: 500_000 }, Vec2 { x: 100, y: 0 }, 1300);
    let u = nade.update(&g, &mut player, &mut enemies, false, &dirs, DT);
    assert!(matches!(u, GrenadeUpdate::Nothing));
    // bounced off the player, not the enemy
    assert_eq!(nade.vel, Vec2 { x: -86, y: 0 });
    assert_eq!(nade.obj.pos, Vec2 { x: 509_300, y: 500_000 });
}

#[test]
fn first_grazed_character_wins_in_storage_order() {
    let g = open_grid();
    let mut player = player_at(900_000, 900_000); // far away
    let mut enemies = vec![
        enemy_at(520_000, 500_000), // grazed at the segment's end
        enemy_at(505_000, 490_000), // also grazed, but later in order
    ];
    let dirs: Vec<Vec2> = Vec::new();
    let mut nade = flying(Vec2 { x: 500_000, y: 500_000 }, Vec2 { x: 100, y: 0 }, 1300);
    let u = nade.update(&g, &mut player, &mut enemies, false, &dirs, DT);
    assert!(matches!(u, GrenadeUpdate::Nothing));
    // bounced off the first enemy: approach component reversed
    assert_eq!(nade.vel, Vec2 { x: -86, y: 0 });
}

#[test]
fn wall_bounce_reflects_and_keeps_the_fuse() {
    let mut g = open_grid();
    g.insert(16, 15, Material::Wall);
    let mut player = player_at(900_000, 900_000);
    let mut enemies: Vec<Enemy> = Vec::new();
    let dirs: Vec<Vec2> = Vec::new();
    let mut nade = flying(Vec2 { x: 500_000, y: 500_000 }, Vec2 { x: 620, y: 0 }, 1300);
    let u = nade.update(&g, &mut player, &mut enemies, false, &dirs, DT);
    // an impact never bypasses the fuse
    assert!(matches!(u, GrenadeUpdate::Nothing));
    assert!(matches!(nade.state, GrenadeState::Fused { fuse: 1200 }));
    assert_eq!(nade.vel, Vec2 { x: -534, y: 0 });
    assert_eq!(nade.obj.pos, Vec2 { x: 466_300, y: 500_000 });
}

#[test]
fn cocked_grenade_tracks_the_wielders_hand() {
    let g = open_grid();
    let mut player = player_at(500_000, 500_000);
    player.obj.heading = Vec2 { x: 0, y: 1000 };
    let mut enemies: Vec<Enemy> = Vec::new();
    let dirs: Vec<Vec2> = Vec::new();
    let mut nade = Grenade {
        obj: Object::new(Vec2 { x: 0, y: 0 }),
        vel: Vec2 { x: 0, y: 0 },
        state: GrenadeState::Cocked { fuse: 1500 },
    };
    let u = nade.update(&g, &mut player, &mut enemies, true, &dirs, DT);
    assert!(matches!(u, GrenadeUpdate::Nothing));
    // held 20 units ahead of the wielder along the heading
    assert_eq!(nade.obj.pos, Vec2 { x: 500_000, y: 520_000 });
    assert!(matches!(nade.state, GrenadeState::Cocked { fuse: 1400 }));
}

#[test]
fn held_grenade_detonates_at_exactly_the_fuse_time() {
    let g = open_grid();
    let mut player = player_at(500_000, 500_000);
    let mut enemies: Vec<Enemy> = Vec::new();
    let dirs: Vec<Vec2> = Vec::new();
    let mut util = Utilities { grenades: 1 };
    let maker = util.cock_grenade().expect("a grenade was available");
    assert_eq!(util.grenades, 0);
    let mut nade = maker.make(player.obj);
    assert!(matches!(nade.state, GrenadeState::Cocked { fuse: 1500 }));
    let mut last_fuse = 1500u32;
    for tick in 1..=15u32 {
        let u = nade.update(&g, &mut player, &mut enemies, true, &dirs, DT);
        match &nade.state {
            GrenadeState::Cocked { fuse } => {
                // the fuse only ever counts down
                assert!(*fuse < last_fuse);
                last_fuse = *fuse;
                assert!(tick < 15);
                assert!(matches!(u, GrenadeUpdate::Nothing));
            }
            GrenadeState::Explosion { alive_time, .. } => {
                // forced detonation exactly at t = 1.5 s
                assert_eq!(tick, 15);
                assert_eq!(*alive_time, 0);
                assert!(matches!(u, GrenadeUpdate::Explosion { .. }));
            }
            GrenadeState::Fused { .. } => panic!("never thrown in this scenario"),
        }
    }
}

#[test]
fn thrown_grenade_detonates_at_the_same_total_time() {
    let g = open_grid();
    let mut player = player_at(500_000, 500_000);
    let mut enemies: Vec<Enemy> = Vec::new();
    let dirs: Vec<Vec2> = Vec::new();
    let mut util = Utilities { grenades: 1 };
    let mut nade = util.cock_grenade().unwrap().make(player.obj);
    let mut detonated_at = 0u32;
    let mut last_fuse = 1500i64;
    for tick in 1..=15u32 {
        // held for the first two ticks, released on the third
        let held = tick <= 2;
        let u = nade.update(&g, &mut player, &mut enemies, held, &dirs, DT);
        if tick == 3 {
            assert!(matches!(u, GrenadeUpdate::Thrown { fuse: 1200 }));
            assert!(matches!(nade.state, GrenadeState::Fused { fuse: 1200 }));
        }
        match &nade.state {
            GrenadeState::Cocked { fuse } | GrenadeState::Fused { fuse } => {
                assert!((*fuse as i64) < last_fuse);
                last_fuse = *fuse as i64;
            }
            GrenadeState::Explosion { .. } => {
                if detonated_at == 0 {
                    detonated_at = tick;
                }
            }
        }
    }
    // released at t = 0.3 s with 1.2 s of fuse left: detonation at t = 1.5 s
    assert_eq!(detonated_at, 15);
}

#[test]
fn explosion_expires_after_its_lifetime() {
    let g = open_grid();
    let mut player = player_at(500_000, 500_000);
    let mut enemies: Vec<Enemy> = Vec::new();
    let dirs: Vec<Vec2> = Vec::new();
    let mut nade = Grenade {
        obj: Object::new(Vec2 { x: 400_000, y: 400_000 }),
        vel: Vec2 { x: 0, y: 0 },
        state: GrenadeState::Explosion { alive_time: 0, mesh: Vec::new() },
    };
    for tick in 1..=5u32 {
        let u = nade.update(&g, &mut player, &mut enemies, false, &dirs, DT);
        if tick < 5 {
            assert!(matches!(u, GrenadeUpdate::Nothing));
        } else {
            // age reaches 0.5 s: eligible for removal
            assert!(matches!(u, GrenadeUpdate::Dead));
        }
    }
    assert_eq!(player.health.hp, 500_000);
}

#[test]
fn cock_grenade_without_ammunition_yields_nothing() {
    let mut util = Utilities { grenades: 0 };
    assert!(util.cock_grenade().is_none());
    assert_eq!(util.grenades, 0);
    let mut util = Utilities { grenades: 2 };
    assert!(util.cock_grenade().is_some());
    assert_eq!(util.grenades, 1);
}

#[test]
fn maker_throws_along_the_heading() {
    let mut obj = Object::new(Vec2 { x: 100_000, y: 100_000 });
    obj.heading = Vec2 { x: 0, y: 1000 };
    let nade = GrenadeMaker(620).make(obj);
    assert_eq!(nade.vel, Vec2 { x: 0, y: 620 });
    assert_eq!(nade.obj.pos, Vec2 { x: 100_000, y: 100_000 });
    // the grenade's own rotation is reset
    assert_eq!(nade.obj.heading, Vec2 { x: 1000, y: 0 });
    assert!(matches!(nade.state, GrenadeState::Cocked { fuse: 1500 }));
}

#[test]
fn visibility_mesh_clips_rays_to_obstructions() {
    let mut g = open_grid();
    g.insert(16, 15, Material::Wall);
    let center = Vec2 { x: 500_000, y: 500_000 };
    let dirs = vec![Vec2 { x: 1000, y: 0 }, Vec2 { x: 0, y: -1000 }];
    let pts = Grenade::make_mesh(&g, center, &dirs);
    assert_eq!(pts.len(), 2);
    // the ray into the wall stops at the cell boundary
    assert_eq!(pts[0], Vec2 { x: 512_000, y: 500_000 });
    // the unobstructed ray runs the full blast radius (144 units)
    assert_eq!(pts[1], Vec2 { x: 500_000, y: 356_000 });
}

#[test]
fn movement_masks_components_into_walls() {
    let mut g = open_grid();
    g.insert(16, 15, Material::Wall);
    let mut obj = Object::new(Vec2 { x: 500_000, y: 500_000 });
    assert!(!obj.is_on_solid(&g));
    // blocked straight ahead: no movement
    obj.move_on_grid(Vec2 { x: 1000, y: 0 }, 175, &g, 16);
    assert_eq!(obj.pos, Vec2 { x: 500_000, y: 500_000 });
    // free along the other axis
    obj.move_on_grid(Vec2 { x: 0, y: 1000 }, 175, &g, 16);
    assert_eq!(obj.pos, Vec2 { x: 500_000, y: 502_800 });
}

#[test]
fn diagonal_movement_is_normalized() {
    let g = open_grid();
    let mut obj = Object::new(Vec2 { x: 500_000, y: 500_000 });
    obj.move_on_grid(Vec2 { x: 1000, y: 1000 }, 100, &g, 1000);
    // 100 units/s for one second, split by the integer norm 1414
    assert_eq!(obj.pos, Vec2 { x: 570_721, y: 570_721 });
}

#[test]
fn sprite_descriptor_follows_the_state() {
    let nade = Grenade {
        obj: Object::new(Vec2 { x: 0, y: 0 }),
        vel: Vec2 { x: 0, y: 0 },
        state: GrenadeState::Cocked { fuse: 1500 },
    };
    assert_eq!(nade.sprite(), Some("weapons/pineapple"));
    let nade = Grenade {
        obj: Object::new(Vec2 { x: 0, y: 0 }),
        vel: Vec2 { x: 0, y: 0 },
        state: GrenadeState::Explosion { alive_time: 0, mesh: Vec::new() },
    };
    assert_eq!(nade.sprite(), None);
}

#[test]
fn object_on_solid_cell() {
    let mut g = open_grid();
    g.insert(15, 15, Material::Wall);
    let obj = Object::new(Vec2 { x: 500_000, y: 500_000 });
    assert!(obj.is_on_solid(&g));
}
