use platformer_core::markers::{Markers, Tag};
use platformer_core::movement::{IVec2, Speed};
use platformer_core::objects::{interact_coin_with_player, interact_spring_with_player, Spring};
use platformer_core::player::{move_player, PlayerDirection, PlayerIntent, JUMP_IMPULSE, WALK_ACCEL};
use platformer_core::{DEFAULT_FRICTION, SPRUNG_MS};

fn speed(vx: i64, vy: i64) -> Speed {
    Speed {
        velocity: IVec2 { x: vx, y: vy },
        friction: DEFAULT_FRICTION,
    }
}

#[test]
fn new_marker_store_is_empty() {
    let m = Markers::new();
    assert!(!m.contains(Tag::OnGround, 0));
    assert!(!m.contains(Tag::Sprung, 0));
}

#[test]
fn marker_without_lifetime_never_expires() {
    let mut m = Markers::new();
    m.add(Tag::Sprung, None, 5);
    assert!(m.contains(Tag::Sprung, 5));
    assert!(m.contains(Tag::Sprung, u64::MAX));
    m.update(u64::MAX);
    assert!(m.contains(Tag::Sprung, u64::MAX));
}

#[test]
fn marker_with_lifetime_expires_live_at_query_time() {
    let mut m = Markers::new();
    m.add_marker_for(Tag::OnGround, 50, 100);
    assert!(m.contains(Tag::OnGround, 100));
    assert!(m.contains(Tag::OnGround, 149));
    // Live expiry: absent the moment the lifetime elapses, before any sweep.
    assert!(!m.contains(Tag::OnGround, 150));
    assert!(!m.contains(Tag::OnGround, 151));
}

#[test]
fn sweep_removes_expired_entries_only() {
    let mut m = Markers::new();
    m.add_marker_for(Tag::OnGround, 50, 0);
    m.add(Tag::Sprung, Some(1_000), 0);
    m.update(100);
    assert!(!m.contains(Tag::OnGround, 100));
    assert!(m.contains(Tag::Sprung, 100));
}

#[test]
fn readding_a_tag_overwrites_its_expiry() {
    let mut m = Markers::new();
    m.add_marker_for(Tag::OnGround, 100, 0);
    // Re-add with a shorter lifetime: expiry is now 20 + 30 = 50, not 100.
    m.add_marker_for(Tag::OnGround, 30, 20);
    assert!(m.contains(Tag::OnGround, 49));
    assert!(!m.contains(Tag::OnGround, 50));
    assert!(!m.contains(Tag::OnGround, 60));

    // Re-add with a later creation time: the clock restarts.
    let mut m2 = Markers::new();
    m2.add_marker_for(Tag::OnGround, 50, 0);
    m2.add_marker_for(Tag::OnGround, 50, 40);
    assert!(m2.contains(Tag::OnGround, 89));
    assert!(!m2.contains(Tag::OnGround, 90));
}

#[test]
fn walk_intent_accelerates_and_resets() {
    let markers = Markers::new();
    let mut s = speed(0, 0);
    let mut intent = PlayerIntent {
        direction: Some(PlayerDirection::Left),
        jump: false,
    };
    move_player(&mut s, &mut intent, &markers, 0);
    assert_eq!(s.velocity.x, -WALK_ACCEL);
    assert_eq!(intent.direction, None);
    assert!(!intent.jump);

    let mut intent2 = PlayerIntent {
        direction: Some(PlayerDirection::Right),
        jump: false,
    };
    move_player(&mut s, &mut intent2, &markers, 0);
    assert_eq!(s.velocity.x, 0);
}

#[test]
fn jump_requires_live_ground_marker() {
    let mut grounded = Markers::new();
    grounded.add_marker_for(Tag::OnGround, 50, 0);

    let mut s = speed(0, 0);
    let mut intent = PlayerIntent {
        direction: None,
        jump: true,
    };
    move_player(&mut s, &mut intent, &grounded, 10);
    assert_eq!(s.velocity.y, JUMP_IMPULSE);
    assert!(!intent.jump, "intent consumed");

    // The same request 60 ms later finds the marker expired: no jump.
    let mut s2 = speed(0, 0);
    let mut intent2 = PlayerIntent {
        direction: None,
        jump: true,
    };
    move_player(&mut s2, &mut intent2, &grounded, 60);
    assert_eq!(s2.velocity.y, 0);
    assert!(!intent2.jump, "intent still consumed");
}

#[test]
fn spring_fires_once_per_cooldown() {
    let spring = Spring { force: 15_000 };
    let cell = IVec2 { x: 3, y: 2 };
    let mut markers = Markers::new();
    let mut s = speed(0, 0);

    interact_spring_with_player(&mut s, cell, cell, &spring, &mut markers, 0);
    assert_eq!(s.velocity.y, 15_000);
    assert!(markers.contains(Tag::Sprung, 0));

    // Still on the spring within the cooldown: no second impulse.
    interact_spring_with_player(&mut s, cell, cell, &spring, &mut markers, SPRUNG_MS - 1);
    assert_eq!(s.velocity.y, 15_000);

    // After the cooldown elapses the spring fires again.
    interact_spring_with_player(&mut s, cell, cell, &spring, &mut markers, SPRUNG_MS);
    assert_eq!(s.velocity.y, 30_000);
}

#[test]
fn spring_ignores_entity_on_other_cell() {
    let spring = Spring { force: 15_000 };
    let mut markers = Markers::new();
    let mut s = speed(0, 0);
    interact_spring_with_player(
        &mut s,
        IVec2 { x: 3, y: 3 },
        IVec2 { x: 3, y: 2 },
        &spring,
        &mut markers,
        0,
    );
    assert_eq!(s.velocity.y, 0);
    assert!(!markers.contains(Tag::Sprung, 0));
}

#[test]
fn coins_on_player_cell_are_collected_in_order() {
    let player = IVec2 { x: 1, y: 1 };
    let coins = vec![
        IVec2 { x: 1, y: 1 },
        IVec2 { x: 2, y: 2 },
        IVec2 { x: 1, y: 1 },
        IVec2 { x: 0, y: 1 },
    ];
    let mut count: u32 = 7;
    let picked = interact_coin_with_player(player, &coins, &mut count);
    assert_eq!(picked, vec![0, 2]);
    assert_eq!(count, 9);
}

#[test]
fn no_coin_collected_away_from_player() {
    let player = IVec2 { x: 9, y: 9 };
    let coins = vec![IVec2 { x: 1, y: 1 }, IVec2 { x: 2, y: 2 }];
    let mut count: u32 = 0;
    let picked = interact_coin_with_player(player, &coins, &mut count);
    assert!(picked.is_empty());
    assert_eq!(count, 0);
}
