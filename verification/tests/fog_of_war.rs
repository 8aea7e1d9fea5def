use fog_of_war::falloff::{alpha_milli, isqrt, MIN_FOG_OPACITY, OPACITY_SCALE};
use fog_of_war::fog::FogField;
use fog_of_war::game::{Command, Game};

#[test]
fn isqrt_exact_values() {
    assert_eq!(isqrt(0), 0);
    assert_eq!(isqrt(1), 1);
    assert_eq!(isqrt(24), 4);
    assert_eq!(isqrt(25), 5);
    assert_eq!(isqrt(640_000), 800);
    assert_eq!(isqrt(999_999), 999);
}

#[test]
fn falloff_boundary_values() {
    assert_eq!(alpha_milli(0), OPACITY_SCALE);
    assert_eq!(alpha_milli(25), MIN_FOG_OPACITY);
}

#[test]
fn falloff_intermediate_values() {
    // 1000 - floor(160 * sqrt(q)) in thousandths
    assert_eq!(alpha_milli(1), 840);
    assert_eq!(alpha_milli(2), 774);
    assert_eq!(alpha_milli(4), 680);
    assert_eq!(alpha_milli(9), 520);
    assert_eq!(alpha_milli(16), 360);
    assert_eq!(alpha_milli(18), 322);
}

#[test]
fn field_construction_rejected() {
    assert!(FogField::new(0, 5).is_none());
    assert!(FogField::new(5, 0).is_none());
    assert!(FogField::new(usize::MAX, 2).is_none());
}

#[test]
fn field_starts_fully_fogged() {
    let f = FogField::new(3, 2).unwrap();
    for y in 0..2usize {
        for x in 0..3usize {
            assert_eq!(f.opacity(x, y), 1000);
            assert!(!f.explored(x, y));
        }
    }
}

#[test]
fn frame_refresh_applies_falloff() {
    let mut f = FogField::new(7, 7).unwrap();
    f.refresh_frame(3, 3);
    assert_eq!(f.opacity(3, 3), 1000);
    assert!(f.explored(3, 3));
    assert_eq!(f.opacity(0, 0), 322);
    assert_eq!(f.opacity(3, 0), 520);
    assert_eq!(f.opacity(2, 2), 774);
}

#[test]
fn merge_policy_difference() {
    // Two fields with the same history: tile (0, 0) explored at the range
    // boundary retains opacity 200; the observer then stands at distance 1,
    // where the falloff value is 840.
    let mut a = FogField::new(8, 1).unwrap();
    a.refresh_frame(5, 0);
    assert_eq!(a.opacity(0, 0), 200);
    let mut b = FogField::new(8, 1).unwrap();
    b.refresh_frame(5, 0);
    // The per-frame path keeps the minimum of the retained opacity and the
    // falloff value ...
    a.refresh_frame(1, 0);
    assert_eq!(a.opacity(0, 0), 200);
    // ... while the post-move path overwrites with the falloff value.
    b.refresh_after_move(1, 0);
    assert_eq!(b.opacity(0, 0), 840);
    assert!(a.explored(0, 0) && b.explored(0, 0));
}

#[test]
fn memory_kept_out_of_range() {
    let mut f = FogField::new(12, 1).unwrap();
    f.refresh_frame(0, 0);
    assert_eq!(f.opacity(5, 0), 200);
    assert!(f.explored(5, 0));
    // The observer leaves range: the flag drops, the opacity is retained.
    f.refresh_after_move(11, 0);
    assert!(!f.explored(5, 0));
    assert_eq!(f.opacity(5, 0), 200);
    f.refresh_frame(11, 0);
    assert!(!f.explored(5, 0));
    assert_eq!(f.opacity(5, 0), 200);
}

#[test]
fn game_construction_rejected() {
    assert!(Game::new(0, 7, 0, 0, 0, 0).is_none());
    assert!(Game::new(7, 0, 0, 0, 0, 0).is_none());
    assert!(Game::new(7, 7, 7, 0, 0, 0).is_none());
    assert!(Game::new(7, 7, 0, 7, 0, 0).is_none());
    assert!(Game::new(7, 7, 0, 0, 7, 0).is_none());
    assert!(Game::new(7, 7, 0, 0, 0, 7).is_none());
}

#[test]
fn random_construction_places_on_grid() {
    let g = Game::new_random(7, 5).unwrap();
    let (ox, oy) = g.observer();
    let (bx, by) = g.object();
    assert!(ox < 7 && oy < 5);
    assert!(bx < 7 && by < 5);
    assert!(Game::new_random(0, 5).is_none());
    assert!(Game::new_random(5, 0).is_none());
}

#[test]
fn left_at_boundary_rejected() {
    let mut g = Game::new(7, 7, 0, 2, 6, 6).unwrap();
    let r = g.handle_command(Command::Left);
    assert!(r.is_none());
    assert_eq!(g.observer(), (0, 2));
    // No refresh ran: even the observer's own tile is still unexplored.
    assert!(!g.fog.explored(0, 2));
    assert_eq!(g.fog.opacity(0, 2), 1000);
}

#[test]
fn down_at_boundary_rejected() {
    let mut g = Game::new(7, 7, 3, 6, 6, 6).unwrap();
    let r = g.handle_command(Command::Down);
    assert!(r.is_none());
    assert_eq!(g.observer(), (3, 6));
    assert!(!g.fog.explored(3, 6));
}

#[test]
fn up_and_right_at_boundary_rejected() {
    let mut g = Game::new(7, 7, 3, 0, 6, 6).unwrap();
    assert!(g.handle_command(Command::Up).is_none());
    assert_eq!(g.observer(), (3, 0));
    let mut h = Game::new(7, 7, 0, 3, 6, 6).unwrap();
    assert!(h.handle_command(Command::Right).is_none());
    assert_eq!(h.observer(), (0, 3));
    let mut k = Game::new(7, 7, 6, 3, 6, 6).unwrap();
    assert!(k.handle_command(Command::Right).is_none());
    assert_eq!(k.observer(), (6, 3));
    assert!(!k.fog.explored(6, 3));
}

#[test]
fn valid_move_runs_post_move_refresh() {
    let mut g = Game::new(7, 7, 3, 3, 3, 3).unwrap();
    let r = g.handle_command(Command::Right);
    assert!(r.is_none());
    assert_eq!(g.observer(), (4, 3));
    assert!(g.fog.explored(4, 3));
    assert_eq!(g.fog.opacity(4, 3), 1000);
    assert_eq!(g.fog.opacity(3, 3), 840);
}

#[test]
fn interact_on_object_notifies() {
    let mut g = Game::new(7, 7, 3, 3, 3, 3).unwrap();
    assert_eq!(g.handle_command(Command::Interact), Some((3, 3)));
    // Interacting changes nothing and runs no refresh.
    assert!(!g.fog.explored(3, 3));
    assert_eq!(g.observer(), (3, 3));
}

#[test]
fn interact_elsewhere_is_silent() {
    let mut g = Game::new(7, 7, 2, 3, 3, 3).unwrap();
    assert_eq!(g.handle_command(Command::Interact), None);
}

#[test]
fn object_painted_only_when_explored() {
    let mut g = Game::new(7, 7, 0, 0, 6, 6).unwrap();
    assert!(!g.object_visible());
    g.refresh_frame();
    // (6, 6) lies at squared distance 72 from (0, 0): out of range, never
    // explored, so the object stays unpainted.
    assert!(!g.object_visible());
    let mut h = Game::new(7, 7, 3, 3, 6, 6).unwrap();
    h.refresh_frame();
    assert!(h.object_visible());
}

#[test]
fn shadow_overlay_decision() {
    let g = Game::new(7, 7, 3, 3, 3, 3).unwrap();
    assert_eq!(g.shadow_overlay(0, 0), Some(1000));
    assert_eq!(g.shadow_overlay(3, 3), None);
}

#[test]
fn terrain_flags_are_settable() {
    let mut g = Game::new(4, 3, 0, 0, 1, 1).unwrap();
    assert!(!g.terrain_at(2, 1));
    g.set_terrain(2, 1, true);
    assert!(g.terrain_at(2, 1));
    assert!(!g.terrain_at(1, 2));
    assert!(!g.terrain_at(2, 0));
}

#[test]
fn end_to_end_seven_by_seven() {
    // 7 by 7 grid, observer and object both at (3, 3): one frame refresh
    // brings the whole grid within range (the farthest corner is at squared
    // distance 18 <= 25), with opacity falling off by distance, and the
    // interact command notifies at the observer's tile.
    let mut g = Game::new(7, 7, 3, 3, 3, 3).unwrap();
    g.refresh_frame();
    for y in 0..7usize {
        for x in 0..7usize {
            assert!(g.fog.explored(x, y));
            assert!(g.shadow_overlay(x, y).is_none());
        }
    }
    assert_eq!(g.fog.opacity(3, 3), 1000);
    assert_eq!(g.fog.opacity(0, 0), 322);
    assert_eq!(g.fog.opacity(6, 6), 322);
    assert!(g.object_visible());
    assert_eq!(g.handle_command(Command::Interact), Some((3, 3)));
}
