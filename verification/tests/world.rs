use tafels::difficulty::Difficulty;
use tafels::exercise::{ExerciseData, Operation};
use tafels::protocol::{AnimationState, BeaconInfo, ClientMessage, PlayerState, ServerMessage};
use tafels::world::{
    assign_beacons, default_player_name, make_beacon, sanitize_name, GameWorld, RoundState, SpawnClock,
    BEACON_LIFETIME_MS, FIRST_SPAWN_DELAY_MS, SPAWN_INTERVAL_MS,
};

fn beacon(beacon_id: u32, target: u32, lifetime_ms: u32) -> BeaconInfo {
    BeaconInfo {
        beacon_id,
        x_bits: 0,
        y_bits: 0,
        z_bits: 0,
        question_text: "7 x 8 = ?".to_string(),
        choices: [56, 48, 63, 54],
        correct_index: 0,
        lifetime_ms,
        target_player_id: target,
    }
}

fn lobby_names(msg: &ServerMessage) -> Vec<(u32, String, bool, bool)> {
    match msg {
        ServerMessage::LobbyState { players } => {
            let mut v: Vec<_> = players
                .iter()
                .map(|p| (p.player_id, p.name.clone(), p.ready, p.playing_solo))
                .collect();
            v.sort();
            v
        }
        other => panic!("expected a lobby listing, got {:?}", other),
    }
}

#[test]
fn joining_players_get_ids_colours_and_a_snapshot() {
    let mut w = GameWorld::new();
    let first = w.join();
    assert_eq!(first.player.player_id, 1);
    assert_eq!(first.player.color_index, 0);
    assert_eq!(first.player.animation, AnimationState::Idle);
    let second = w.join();
    assert_eq!(second.player.player_id, 2);
    assert_eq!(second.player.color_index, 1);
    match &second.snapshot {
        ServerMessage::WorldSnapshot { your_player_id, players, beacons } => {
            assert_eq!(*your_player_id, 2);
            let mut ids: Vec<u32> = players.iter().map(|p| p.player_id).collect();
            ids.sort();
            assert_eq!(ids, vec![1, 2]);
            assert!(beacons.is_empty());
        }
        other => panic!("expected a snapshot, got {:?}", other),
    }
    match &second.joined {
        ServerMessage::PlayerJoined(p) => assert_eq!(p.player_id, 2),
        other => panic!("expected a join, got {:?}", other),
    }
    assert_eq!(second.round_messages.len(), 1);
    assert!(matches!(second.round_messages[0], ServerMessage::LobbyState { .. }));
    assert_eq!(w.next_player_id, 3);
}

#[test]
fn colours_cycle_through_six() {
    let mut w = GameWorld::new();
    let mut colours = Vec::new();
    for _ in 0..8 {
        colours.push(w.join().player.color_index);
    }
    assert_eq!(colours, vec![0, 1, 2, 3, 4, 5, 0, 1]);
}

#[test]
fn names_are_trimmed_cut_and_defaulted() {
    assert_eq!(sanitize_name("  Ann  ", 3), "Ann");
    assert_eq!(sanitize_name("   ", 7), "Player 7");
    assert_eq!(sanitize_name("", 12), "Player 12");
    assert_eq!(sanitize_name("abcdefghijklmnopqrstuvwxyz", 1), "abcdefghijklmnopqrst");
    assert_eq!(default_player_name(42), "Player 42");
}

#[test]
fn set_name_relists_the_lobby() {
    let mut w = GameWorld::new();
    let p = w.join().player.player_id;
    let out = w.handle_client_message(p, ClientMessage::SetName { name: " Bo ".to_string() });
    assert_eq!(out.len(), 1);
    assert_eq!(lobby_names(&out[0]), vec![(p, "Bo".to_string(), false, false)]);
    assert_eq!(w.player_names.get(&p).map(|s| s.as_str()), Some("Bo"));
}

#[test]
fn countdown_starts_once_every_active_player_is_ready() {
    let mut w = GameWorld::new();
    let a = w.join().player.player_id;
    let b = w.join().player.player_id;
    w.handle_client_message(a, ClientMessage::SetName { name: "A".to_string() });
    w.handle_client_message(b, ClientMessage::SetName { name: "B".to_string() });
    let out = w.handle_client_message(a, ClientMessage::Ready);
    assert_eq!(out.len(), 1);
    assert_eq!(w.round_state, RoundState::Lobby);
    let out = w.handle_client_message(b, ClientMessage::Ready);
    assert_eq!(out.len(), 2);
    assert_eq!(
        lobby_names(&out[0]),
        vec![(a, "A".to_string(), true, false), (b, "B".to_string(), true, false)]
    );
    assert!(matches!(out[1], ServerMessage::CountdownStart { seconds: 3 }));
    assert_eq!(w.round_state, RoundState::Countdown(3000));
    // Outside the lobby a ready call does nothing.
    let out = w.handle_client_message(a, ClientMessage::Ready);
    assert!(out.is_empty());
}

#[test]
fn a_lone_player_cannot_start_a_round() {
    let mut w = GameWorld::new();
    let a = w.join().player.player_id;
    w.handle_client_message(a, ClientMessage::SetName { name: "A".to_string() });
    let out = w.handle_client_message(a, ClientMessage::Ready);
    assert_eq!(out.len(), 1);
    assert_eq!(w.round_state, RoundState::Lobby);
}

#[test]
fn solo_players_are_not_waited_for() {
    let mut w = GameWorld::new();
    let a = w.join().player.player_id;
    let b = w.join().player.player_id;
    let c = w.join().player.player_id;
    for (id, name) in [(a, "A"), (b, "B"), (c, "C")] {
        w.handle_client_message(id, ClientMessage::SetName { name: name.to_string() });
    }
    let out = w.handle_client_message(c, ClientMessage::EnterSolo);
    assert_eq!(lobby_names(&out[0])[2], (c, "C".to_string(), false, true));
    assert_eq!(w.count_active_players(), 2);
    w.handle_client_message(a, ClientMessage::Ready);
    let out = w.handle_client_message(b, ClientMessage::Ready);
    assert_eq!(out.len(), 2);
    assert_eq!(w.round_state, RoundState::Countdown(3000));
    let out = w.handle_client_message(c, ClientMessage::LeaveSolo);
    assert_eq!(lobby_names(&out[0])[2], (c, "C".to_string(), false, false));
}

#[test]
fn difficulty_is_chosen_only_in_the_lobby() {
    let mut w = GameWorld::new();
    let a = w.join().player.player_id;
    w.handle_client_message(a, ClientMessage::SetDifficulty { difficulty: Difficulty::Hard });
    assert_eq!(w.difficulty, Difficulty::Hard);
    assert_eq!(w.round_time(), 120);
    w.round_state = RoundState::Playing(60000);
    w.handle_client_message(a, ClientMessage::SetDifficulty { difficulty: Difficulty::Easy });
    assert_eq!(w.difficulty, Difficulty::Hard);
}

#[test]
fn a_beacon_is_claimed_once() {
    let mut w = GameWorld::new();
    let a = w.join().player.player_id;
    let b = w.join().player.player_id;
    let out = w.insert_beacons(vec![beacon(1, a, BEACON_LIFETIME_MS)], 2);
    assert_eq!(out.len(), 1);
    assert!(matches!(out[0], ServerMessage::BeaconSpawned(_)));
    assert_eq!(w.next_beacon_id, 2);
    // A wrong answer claims nothing.
    assert!(w.handle_client_message(b, ClientMessage::AnswerBeacon { beacon_id: 1, correct: false }).is_empty());
    let out = w.handle_client_message(a, ClientMessage::AnswerBeacon { beacon_id: 1, correct: true });
    assert_eq!(out.len(), 1);
    assert!(matches!(out[0], ServerMessage::BeaconResolved { beacon_id: 1, claimed_by } if claimed_by == a));
    let out = w.handle_client_message(b, ClientMessage::AnswerBeacon { beacon_id: 1, correct: true });
    assert!(out.is_empty());
    assert!(w.beacons.is_empty());
}

#[test]
fn a_beacon_is_activated_once() {
    let mut w = GameWorld::new();
    let a = w.join().player.player_id;
    let b = w.join().player.player_id;
    w.insert_beacons(vec![beacon(5, a, BEACON_LIFETIME_MS)], 6);
    let out = w.handle_client_message(b, ClientMessage::ActivateBeacon { beacon_id: 5 });
    assert!(matches!(out[0], ServerMessage::BeaconActivated { beacon_id: 5, activated_by } if activated_by == b));
    assert!(w.handle_client_message(a, ClientMessage::ActivateBeacon { beacon_id: 5 }).is_empty());
    assert!(w.handle_client_message(a, ClientMessage::ActivateBeacon { beacon_id: 9 }).is_empty());
}

#[test]
fn state_updates_keep_the_senders_id() {
    let mut w = GameWorld::new();
    let a = w.join().player.player_id;
    let forged = PlayerState {
        player_id: 77,
        color_index: 3,
        x_bits: 1.5f32.to_bits(),
        y_bits: 0,
        z_bits: 0,
        yaw_bits: 0,
        animation: AnimationState::Running,
    };
    let out = w.handle_client_message(a, ClientMessage::UpdateState(forged));
    assert!(out.is_empty());
    let stored = w.players.get(&a).copied().unwrap();
    assert_eq!(stored.player_id, a);
    assert_eq!(f32::from_bits(stored.x_bits), 1.5);
    assert_eq!(stored.animation, AnimationState::Running);
    assert!(!w.players.contains_key(&77));
}

#[test]
fn scores_shots_and_start_requests() {
    let mut w = GameWorld::new();
    let a = w.join().player.player_id;
    let out = w.handle_client_message(a, ClientMessage::UpdateScore { coins: 17 });
    assert!(matches!(out[0], ServerMessage::ScoreUpdate { player_id, coins: 17 } if player_id == a));
    assert_eq!(w.player_coins.get(&a).copied(), Some(17));
    let out = w.handle_client_message(
        a,
        ClientMessage::ShootBall { x_bits: 1, y_bits: 2, z_bits: 3, vx_bits: 4, vy_bits: 5, vz_bits: 6 },
    );
    assert!(matches!(
        out[0],
        ServerMessage::BallShot { player_id, x_bits: 1, y_bits: 2, z_bits: 3, vx_bits: 4, vy_bits: 5, vz_bits: 6 }
            if player_id == a
    ));
    assert!(w.handle_client_message(a, ClientMessage::StartRoundNow).is_empty());
}

#[test]
fn leaving_forgets_the_player() {
    let mut w = GameWorld::new();
    let a = w.join().player.player_id;
    let b = w.join().player.player_id;
    w.handle_client_message(a, ClientMessage::SetName { name: "A".to_string() });
    w.handle_client_message(b, ClientMessage::SetName { name: "B".to_string() });
    let out = w.leave(a);
    assert_eq!(out.len(), 2);
    assert!(matches!(out[0], ServerMessage::PlayerLeft { player_id } if player_id == a));
    assert_eq!(lobby_names(&out[1]), vec![(b, "B".to_string(), false, false)]);
    assert!(!w.players.contains_key(&a));
    assert!(!w.player_names.contains_key(&a));
    w.round_state = RoundState::Playing(1000);
    let out = w.leave(b);
    assert_eq!(out.len(), 1);
}

#[test]
fn round_messages_for_late_joiners() {
    let mut w = GameWorld::new();
    w.round_state = RoundState::Countdown(2001);
    let msgs = w.build_round_state_messages();
    assert_eq!(msgs.len(), 2);
    assert!(matches!(msgs[1], ServerMessage::CountdownStart { seconds: 3 }));
    w.round_state = RoundState::Countdown(2000);
    let msgs = w.build_round_state_messages();
    assert!(matches!(msgs[1], ServerMessage::CountdownStart { seconds: 2 }));
    w.round_state = RoundState::Playing(90000);
    let msgs = w.build_round_state_messages();
    assert!(matches!(msgs[0], ServerMessage::RoundStart { round_time_ms: 90000 }));
    let a = w.join().player.player_id;
    w.handle_client_message(a, ClientMessage::UpdateScore { coins: 4 });
    w.round_state = RoundState::RoundOver(5000);
    let msgs = w.build_round_state_messages();
    match &msgs[0] {
        ServerMessage::RoundOver { scores } => {
            assert_eq!(scores.len(), 1);
            assert_eq!(scores[0].player_id, a);
            assert_eq!(scores[0].name, format!("Player {}", a));
            assert_eq!(scores[0].coins, 4);
        }
        other => panic!("expected final scores, got {:?}", other),
    }
}

#[test]
fn beacons_age_and_expire() {
    let mut w = GameWorld::new();
    let a = w.join().player.player_id;
    w.insert_beacons(vec![beacon(1, a, 100), beacon(2, a, 5000)], 3);
    w.handle_client_message(a, ClientMessage::ActivateBeacon { beacon_id: 1 });
    let mut gone = w.expire_beacons(100);
    gone.sort();
    assert_eq!(gone, vec![1]);
    assert!(w.activated_beacons.is_empty());
    assert_eq!(w.beacons.get(&2).map(|b| b.lifetime_ms), Some(4900));
    assert!(w.expire_beacons(50).is_empty());
    assert_eq!(w.beacons.get(&2).map(|b| b.lifetime_ms), Some(4850));
}

#[test]
fn players_with_ten_beacons_get_no_more() {
    let mut w = GameWorld::new();
    let a = w.join().player.player_id;
    let b = w.join().player.player_id;
    let many: Vec<BeaconInfo> = (1..=10).map(|id| beacon(id, a, 1000)).collect();
    w.insert_beacons(many, 11);
    assert_eq!(w.count_targeting(a), 10);
    assert_eq!(w.count_targeting(b), 0);
    let needing = w.players_needing_beacons();
    assert_eq!(needing.len(), 1);
    assert_eq!(needing[0].player_id, b);
    let mut ids = w.beacon_ids();
    ids.sort();
    assert_eq!(ids, (1..=10).collect::<Vec<u32>>());
}

#[test]
fn beacons_carry_their_question() {
    let ex = ExerciseData {
        operation: Operation::Multiply,
        operand_a: 7,
        operand_b: 8,
        correct_answer: 56,
        choices: [48, 63, 56, 54],
        time_limit: 20,
    };
    let b = make_beacon(9, 2, 1, 2, 3, &ex);
    assert_eq!(b.beacon_id, 9);
    assert_eq!(b.target_player_id, 2);
    assert_eq!((b.x_bits, b.y_bits, b.z_bits), (1, 2, 3));
    assert_eq!(b.question_text, "7 x 8 = ?");
    assert_eq!(b.choices, [48, 63, 56, 54]);
    assert_eq!(b.correct_index, 2);
    assert_eq!(b.lifetime_ms, 45000);
}

#[test]
fn the_spawn_clock_paces_beacons() {
    let mut clock = SpawnClock::new();
    assert_eq!(clock.cooldown_ms, FIRST_SPAWN_DELAY_MS);
    for _ in 0..99 {
        assert!(!clock.tick(50));
    }
    assert!(clock.tick(50));
    assert!(clock.tick(50));
    clock.restart();
    assert_eq!(clock.cooldown_ms, SPAWN_INTERVAL_MS);
    assert!(!clock.tick(999));
    assert!(clock.tick(1));
}

#[test]
fn player_updates_only_with_players() {
    let mut w = GameWorld::new();
    assert!(w.player_update().is_none());
    let a = w.join().player.player_id;
    match w.player_update() {
        Some(ServerMessage::PlayerUpdate(ps)) => {
            assert_eq!(ps.len(), 1);
            assert_eq!(ps[0].player_id, a);
        }
        other => panic!("expected an update, got {:?}", other),
    }
}

#[test]
fn spawning_hands_out_consecutive_ids_one_per_placed_player() {
    let mut w = GameWorld::new();
    let a = w.join().player.player_id;
    let b = w.join().player.player_id;
    let c = w.join().player.player_id;
    let mut needing = w.players_needing_beacons();
    needing.sort_by_key(|p| p.player_id);
    assert_eq!(needing.iter().map(|p| p.player_id).collect::<Vec<_>>(), vec![a, b, c]);
    let ex = ExerciseData {
        operation: Operation::Divide,
        operand_a: 56,
        operand_b: 7,
        correct_answer: 8,
        choices: [9, 8, 7, 10],
        time_limit: 12,
    };
    let placed = vec![Some((1, 2, 3)), None, Some((4, 5, 6))];
    let (fresh, next_id) = assign_beacons(w.next_beacon_id, &needing, &placed, &vec![ex; 3]);
    assert_eq!(next_id, 3);
    assert_eq!(fresh.len(), 2);
    assert_eq!((fresh[0].beacon_id, fresh[0].target_player_id, fresh[0].x_bits, fresh[0].z_bits), (1, a, 1, 3));
    assert_eq!((fresh[1].beacon_id, fresh[1].target_player_id, fresh[1].y_bits), (2, c, 5));
    assert_eq!(fresh[1].question_text, "56 / 7 = ?");
    assert_eq!(fresh[1].correct_index, 1);
    let out = w.insert_beacons(fresh, next_id);
    assert_eq!(out.len(), 2);
    assert_eq!(w.next_beacon_id, 3);
    assert_eq!(w.count_targeting(a), 1);
    assert_eq!(w.count_targeting(b), 0);
    let (none, same) = assign_beacons(7, &needing, &vec![None, None, None], &vec![ex; 3]);
    assert!(none.is_empty());
    assert_eq!(same, 7);
}

#[test]
fn a_spawning_round_adds_and_announces_the_beacons() {
    let mut w = GameWorld::new();
    let a = w.join().player.player_id;
    let b = w.join().player.player_id;
    let mut needing = w.players_needing_beacons();
    needing.sort_by_key(|p| p.player_id);
    let ex = ExerciseData {
        operation: Operation::Multiply,
        operand_a: 6,
        operand_b: 7,
        correct_answer: 42,
        choices: [43, 42, 41, 48],
        time_limit: 20,
    };
    let out = w.spawn_round(&needing, &vec![None, Some((7, 8, 9))], &vec![ex; 2]);
    assert_eq!(out.len(), 1);
    match &out[0] {
        ServerMessage::BeaconSpawned(info) => {
            assert_eq!((info.beacon_id, info.target_player_id, info.y_bits), (1, b, 8));
            assert_eq!(info.question_text, "6 x 7 = ?");
        }
        other => panic!("expected a spawn, got {:?}", other),
    }
    assert_eq!(w.next_beacon_id, 2);
    assert_eq!((w.count_targeting(a), w.count_targeting(b)), (0, 1));
}
