use tafels::character_state::CharacterState;
use tafels::difficulty::Difficulty;
use tafels::effects::{bonus_texts, particles_to_spawn};
use tafels::exercise::{ExerciseState, Operation};
use tafels::leaderboard::{
    handle_round_events, leaderboard_line, leaderboard_visible, lobby_player_line, sort_by_coins,
    standing_line, Leaderboard, LeaderboardEntry, MultiplayerRoundState, RoundMessageBuffer,
};
use tafels::mode::GameMode;
use tafels::name_entry::{name_display, type_keys, type_soft_keys};
use tafels::network::{
    connection_lost, reconnect_failed, route_server_message, tick_reconnect, ClientEvent,
    ConnectionStatus, RepeatingTimer, SEND_INTERVAL_MS,
};
use tafels::notification::LobbyNotification;
use tafels::play::{
    activate_remote, answer_exercise, answer_message, place_local_beacon, engage_beacon, exercise_from_beacon, generate_exercise,
    local_spawn_due, remove_server_beacon, reset_for_solo, spawn_local_beacon, tick_exercises,
    tick_world_lifetime, track_server_beacon, ActiveExercise, ActiveExercises, BeaconState,
    TrackedBeacon,
};
use tafels::protocol::{AnimationState, BeaconInfo, ClientMessage, LobbyPlayer, PlayerScore, PlayerState, ServerMessage};
use tafels::roster::RemoteRoster;
use tafels::quality::{FpsBand, QualityLevel, QualitySettings};
use tafels::session::{
    combo_label, combo_multiplier, coin_label, progress_label, reconnect_backoff_secs, reward_for,
    round_timer_label, speed_bonus, speed_tier, timer_band, AnswerFeedback, GameSession, SpeedTier,
    TimerBand,
};

fn entry(player_id: u32, name: &str, coins: i32) -> LeaderboardEntry {
    LeaderboardEntry { player_id, name: name.to_string(), coins }
}

fn lobby_player(player_id: u32, name: &str, ready: bool, playing_solo: bool) -> LobbyPlayer {
    LobbyPlayer { player_id, name: name.to_string(), ready, playing_solo }
}

fn player(player_id: u32, color_index: u8) -> PlayerState {
    PlayerState {
        player_id,
        color_index,
        x_bits: 0,
        y_bits: 0,
        z_bits: 0,
        yaw_bits: 0,
        animation: AnimationState::Idle,
    }
}

fn server_beacon(beacon_id: u32, lifetime_ms: u32) -> BeaconInfo {
    BeaconInfo {
        beacon_id,
        x_bits: 0,
        y_bits: 0,
        z_bits: 0,
        question_text: "7 x 8 = ?".to_string(),
        choices: [48, 56, 63, 54],
        correct_index: 1,
        lifetime_ms,
        target_player_id: 1,
    }
}

fn beacon_at(exercise_id: u32, state: BeaconState, lifetime_ms: u32, remaining_ms: u32, ex_state: ExerciseState) -> TrackedBeacon {
    TrackedBeacon {
        exercise_id,
        server_beacon_id: None,
        state,
        lifetime_ms,
        exercise: ActiveExercise {
            operation: Operation::Multiply,
            operand_a: 3,
            operand_b: 4,
            correct_answer: 12,
            choices: [12, 13, 11, 15],
            time_remaining_ms: remaining_ms,
            time_limit_ms: 20000,
            state: ex_state,
        },
    }
}

#[test]
fn rewards_follow_speed_and_combo() {
    assert_eq!(combo_multiplier(0), 2);
    assert_eq!(combo_multiplier(1), 2);
    assert_eq!(combo_multiplier(2), 3);
    assert_eq!(combo_multiplier(7), 4);
    assert_eq!(speed_bonus(SpeedTier::Lightning), 3);
    assert_eq!(speed_bonus(SpeedTier::Fast), 1);
    assert_eq!(speed_bonus(SpeedTier::Normal), 0);
    assert_eq!(speed_tier(16000, 20000), SpeedTier::Lightning);
    assert_eq!(speed_tier(15000, 20000), SpeedTier::Fast);
    assert_eq!(speed_tier(10000, 20000), SpeedTier::Normal);
    assert_eq!(reward_for(1, SpeedTier::Normal), 3);
    assert_eq!(reward_for(2, SpeedTier::Normal), 5);
    assert_eq!(reward_for(2, SpeedTier::Fast), 6);
    assert_eq!(reward_for(2, SpeedTier::Lightning), 9);
    assert_eq!(reward_for(3, SpeedTier::Lightning), 12);
}

#[test]
fn answers_change_the_session() {
    let mut s = GameSession::default();
    assert_eq!(s.coins, 10);
    assert_eq!(s.round_time_remaining_ms, 240000);
    let f = s.process_answer(true, 19000, 20000);
    assert!(f.correct);
    assert_eq!(f.coins_delta, 6);
    assert_eq!(f.speed_tier, SpeedTier::Lightning);
    assert_eq!((s.combo, s.max_combo, s.correct_count, s.current_index, s.coins), (1, 1, 1, 1, 10));
    let f = s.process_answer(true, 1000, 20000);
    assert_eq!(f.coins_delta, 5);
    assert_eq!(f.combo, 2);
    let f = s.process_answer(false, 1000, 20000);
    assert_eq!(f.coins_delta, -2);
    assert_eq!((s.combo, s.max_combo, s.wrong_count, s.coins), (0, 2, 1, 8));
    s.time_out_exercise();
    assert_eq!((s.timeout_count, s.current_index, s.coins), (1, 4, 5));
    s.collect_coin(6);
    assert_eq!(s.coins, 11);
    assert!(!s.is_game_over());
    assert!(!s.is_round_complete(4, 0));
    assert_eq!(s.game_over_title(), "Game Over");
}

#[test]
fn the_round_clock_and_score_reports() {
    let mut s = GameSession::default();
    s.start_round(5000);
    assert!(!s.tick_round_timer(239000));
    assert!(s.tick_round_timer(5000));
    assert_eq!(s.round_time_remaining_ms, 0);
    assert_eq!(s.score_update_due(), None);
    s.coins = 14;
    assert_eq!(s.score_update_due(), Some(14));
    assert_eq!(s.score_update_due(), None);
    s.force_score_update();
    assert_eq!(s.score_update_due(), Some(14));
}

#[test]
fn hud_labels() {
    assert_eq!(coin_label(-3), "Coins: -3");
    assert_eq!(progress_label(4, 20), "4 / 20");
    assert_eq!(combo_label(1), "");
    assert_eq!(combo_label(2), "x1.5 Combo!");
    assert_eq!(combo_label(5), "x2 Combo!");
    assert_eq!(round_timer_label(125999), "2:05");
    assert_eq!(round_timer_label(0), "0:00");
    assert_eq!(timer_band(60000, 100000), TimerBand::Green);
    assert_eq!(timer_band(50000, 100000), TimerBand::Yellow);
    assert_eq!(timer_band(25000, 100000), TimerBand::Red);
}

#[test]
fn reconnect_backoff_doubles_to_thirty() {
    let waits: Vec<u32> = (0..8).map(reconnect_backoff_secs).collect();
    assert_eq!(waits, vec![1, 2, 4, 8, 16, 30, 30, 30]);
    assert_eq!(connection_lost(), ConnectionStatus::Reconnecting { attempt: 1, wait_ms: 1000 });
    assert_eq!(reconnect_failed(1), ConnectionStatus::Reconnecting { attempt: 2, wait_ms: 2000 });
    assert_eq!(reconnect_failed(6), ConnectionStatus::Reconnecting { attempt: 7, wait_ms: 30000 });
    let mut st = connection_lost();
    assert!(!tick_reconnect(&mut st, 600));
    assert!(tick_reconnect(&mut st, 400));
    let mut online = ConnectionStatus::Connected { my_player_id: 3, my_color_index: 2 };
    assert!(!tick_reconnect(&mut online, 5000));
    assert_eq!(online.indicator_label(), "Online");
    assert_eq!(online.enter_solo().indicator_label(), "Solo (Online)");
    assert_eq!(online.enter_solo().leave_solo(), online);
    assert_eq!(ConnectionStatus::Disconnected.indicator_label(), "Offline");
    assert_eq!(ConnectionStatus::Connecting.reading_as(), Some(None));
    assert_eq!(online.reading_as(), Some(Some(3)));
    assert_eq!(online.enter_solo().reading_as(), None);
}

#[test]
fn the_first_snapshot_connects_the_client() {
    let mut buf = RoundMessageBuffer::default();
    let snapshot = ServerMessage::WorldSnapshot {
        your_player_id: 2,
        players: vec![player(1, 0), player(2, 4), player(3, 1)],
        beacons: vec![server_beacon(10, 45000)],
    };
    match route_server_message(None, snapshot.clone(), "", &mut buf) {
        ClientEvent::Connected { my_player_id, my_color_index, others, beacons, name } => {
            assert_eq!(my_player_id, 2);
            assert_eq!(my_color_index, 4);
            assert_eq!(others.iter().map(|p| p.player_id).collect::<Vec<_>>(), vec![1, 3]);
            assert_eq!(beacons.len(), 1);
            assert_eq!(name, "Player");
        }
        other => panic!("expected a connection, got {:?}", other),
    }
    match route_server_message(None, snapshot.clone(), "Ann", &mut buf) {
        ClientEvent::Connected { name, .. } => assert_eq!(name, "Ann"),
        other => panic!("expected a connection, got {:?}", other),
    }
    assert!(matches!(route_server_message(Some(2), snapshot, "Ann", &mut buf), ClientEvent::Ignored));
}

#[test]
fn messages_are_routed() {
    let mut buf = RoundMessageBuffer::default();
    let me = Some(5);
    assert!(matches!(
        route_server_message(me, ServerMessage::PlayerJoined(player(5, 0)), "", &mut buf),
        ClientEvent::Ignored
    ));
    assert!(matches!(
        route_server_message(me, ServerMessage::PlayerJoined(player(6, 0)), "", &mut buf),
        ClientEvent::RemoteJoined(p) if p.player_id == 6
    ));
    assert!(matches!(
        route_server_message(me, ServerMessage::BeaconResolved { beacon_id: 1, claimed_by: 6 }, "", &mut buf),
        ClientEvent::BeaconResolved { beacon_id: 1, claimed_by: 6 }
    ));
    let shot = |player_id| ServerMessage::BallShot { player_id, x_bits: 1, y_bits: 2, z_bits: 3, vx_bits: 4, vy_bits: 5, vz_bits: 6 };
    assert!(matches!(route_server_message(me, shot(5), "", &mut buf), ClientEvent::Ignored));
    assert!(matches!(route_server_message(me, shot(6), "", &mut buf), ClientEvent::RemoteBallShot { player_id: 6, .. }));
    assert!(matches!(
        route_server_message(me, ServerMessage::ScoreUpdate { player_id: 5, coins: 9 }, "", &mut buf),
        ClientEvent::Ignored
    ));
    assert!(matches!(
        route_server_message(me, ServerMessage::ScoreUpdate { player_id: 6, coins: 9 }, "", &mut buf),
        ClientEvent::Buffered
    ));
    assert_eq!(buf.score_updates, vec![(6, 9)]);
    route_server_message(me, ServerMessage::LobbyState { players: vec![lobby_player(6, "Six", false, false)] }, "", &mut buf);
    assert!(buf.lobby_dirty);
    route_server_message(me, ServerMessage::CountdownStart { seconds: 3 }, "", &mut buf);
    assert_eq!(buf.countdown, Some(3));
    route_server_message(me, ServerMessage::RoundStart { round_time_ms: 240000 }, "", &mut buf);
    assert_eq!(buf.round_start, Some(240000));
}

#[test]
fn round_events_drive_the_leaderboard() {
    let mut state = MultiplayerRoundState::default();
    assert_eq!(state, MultiplayerRoundState::Inactive);
    let mut lb = Leaderboard::default();
    let mut session = GameSession::default();
    let mut buf = RoundMessageBuffer::default();
    buf.lobby_states = vec![lobby_player(1, "Ann", true, false), lobby_player(2, "Bo", false, false)];
    buf.lobby_dirty = true;
    buf.countdown = Some(3);
    handle_round_events(&mut state, &mut lb, &mut buf, &mut session, Some(1));
    assert_eq!(state, MultiplayerRoundState::Countdown(3000));
    assert_eq!(lb.entries.iter().map(|e| (e.player_id, e.coins)).collect::<Vec<_>>(), vec![(1, 10), (2, 0)]);
    assert!(!buf.lobby_dirty && buf.countdown.is_none());
    assert_eq!(state.countdown_display(), Some(3));
    state.tick_countdown(1500);
    assert_eq!(state.countdown_display(), Some(2));

    buf.round_start = Some(240000);
    buf.score_updates = vec![(2, 7), (9, 1)];
    handle_round_events(&mut state, &mut lb, &mut buf, &mut session, Some(1));
    assert_eq!(state, MultiplayerRoundState::Playing);
    assert_eq!(session.prev_coins, i32::MIN);
    assert_eq!(lb.entries[1].coins, 7);
    assert!(buf.score_updates.is_empty());

    buf.round_over = Some(vec![
        PlayerScore { player_id: 1, name: "Ann".to_string(), coins: 4 },
        PlayerScore { player_id: 2, name: "Bo".to_string(), coins: 9 },
        PlayerScore { player_id: 3, name: "Cy".to_string(), coins: 4 },
    ]);
    session.coins = 4;
    handle_round_events(&mut state, &mut lb, &mut buf, &mut session, Some(1));
    assert_eq!(state, MultiplayerRoundState::RoundOver);
    assert_eq!(lb.entries.iter().map(|e| e.player_id).collect::<Vec<_>>(), vec![2, 1, 3]);
    assert!(leaderboard_visible(&ConnectionStatus::Connected { my_player_id: 1, my_color_index: 0 }, state, lb.entries.len()));
    assert!(!leaderboard_visible(&ConnectionStatus::Disconnected, state, lb.entries.len()));
}

#[test]
fn sorting_by_coins_is_stable() {
    let sorted = sort_by_coins(vec![entry(1, "a", 3), entry(2, "b", 8), entry(3, "c", 3), entry(4, "d", -1), entry(5, "e", 8)]);
    assert_eq!(sorted.iter().map(|e| e.player_id).collect::<Vec<_>>(), vec![2, 5, 1, 3, 4]);
    let mut lb = Leaderboard { entries: vec![entry(1, "a", 3), entry(1, "dup", 3), entry(2, "b", 1)] };
    lb.set_coins(1, 20);
    assert_eq!(lb.entries.iter().map(|e| e.coins).collect::<Vec<_>>(), vec![20, 3, 1]);
    lb.set_coins(7, 99);
    assert_eq!(lb.sorted().iter().map(|e| e.name.as_str()).collect::<Vec<_>>(), vec!["a", "dup", "b"]);
}

#[test]
fn leaderboard_and_lobby_lines() {
    assert_eq!(leaderboard_line(1, "Ann", 12), "1. Ann - 12");
    assert_eq!(leaderboard_line(10, "Bo", -2), "10. Bo - -2");
    assert_eq!(standing_line(1, "Ann", 12), "1st Ann - 12 coins");
    assert_eq!(standing_line(3, "Cy", 0), "3rd Cy - 0 coins");
    assert_eq!(standing_line(4, "Di", 5), "4. Di - 5 coins");
    assert_eq!(lobby_player_line(&lobby_player(1, "Ann", true, false)), "Ann Ready");
    assert_eq!(lobby_player_line(&lobby_player(1, "Bo", true, true)), "Bo (playing solo)");
    assert_eq!(lobby_player_line(&lobby_player(1, "Cy", false, false)), "Cy ---");
}

#[test]
fn the_lobby_banner_counts_waiting_players() {
    let solo = ConnectionStatus::ConnectedSolo { my_player_id: 1, my_color_index: 0 };
    let lobby = vec![
        lobby_player(1, "me", false, false),
        lobby_player(2, "b", false, false),
        lobby_player(3, "c", true, false),
        lobby_player(4, "d", false, true),
        lobby_player(5, "e", false, false),
    ];
    let mut n = LobbyNotification::default();
    n.update(&solo, MultiplayerRoundState::Inactive, &lobby);
    assert_eq!((n.waiting_count, n.last_count), (2, 2));
    assert!(n.should_show());
    assert_eq!(n.label(), "2 players waiting in lobby");
    n.dismiss();
    assert!(!n.should_show());
    n.update(&solo, MultiplayerRoundState::Inactive, &lobby);
    assert!(!n.should_show());
    n.update(&solo, MultiplayerRoundState::Inactive, &lobby[..2].to_vec());
    assert!(n.should_show());
    assert_eq!(n.label(), "1 player waiting in lobby");
    let online = ConnectionStatus::Connected { my_player_id: 1, my_color_index: 0 };
    n.update(&online, MultiplayerRoundState::Lobby, &lobby);
    assert_eq!(n, LobbyNotification::default());
}

#[test]
fn typing_a_name() {
    let (name, changed) = type_keys("", &vec!['a', 'B', '1'], false);
    assert_eq!((name.as_str(), changed), ("aB1", true));
    let (name, changed) = type_keys("abc", &vec![], true);
    assert_eq!((name.as_str(), changed), ("ab", true));
    let (name, changed) = type_keys("", &vec![], true);
    assert_eq!((name.as_str(), changed), ("", true));
    let full = "abcdefghijklmnopqrs";
    let (name, _) = type_keys(full, &vec!['t', 'u'], false);
    assert_eq!(name, "abcdefghijklmnopqrst");
    let (name, changed) = type_keys(&name, &vec!['v'], false);
    assert_eq!((name.as_str(), changed), ("abcdefghijklmnopqrst", false));
    let (name, changed) = type_soft_keys("Jo", &vec!['é', '!', ' ', '-', '\x08', '7']);
    assert_eq!((name.as_str(), changed), ("Joé 7", true));
    let (name, changed) = type_soft_keys("Jo", &vec!['!', '?']);
    assert_eq!((name.as_str(), changed), ("Jo", false));
    assert_eq!(name_display(""), "_");
    assert_eq!(name_display("Ann"), "Ann_");
}

#[test]
fn quality_needs_two_readings_in_a_row() {
    let mut q = QualitySettings::default();
    assert!(!q.record(FpsBand::Slow));
    assert!(!q.record(FpsBand::Steady));
    assert!(!q.record(FpsBand::Slow));
    assert!(q.record(FpsBand::Slow));
    assert_eq!(q.level, QualityLevel::Low);
    assert!(!q.record(FpsBand::Smooth));
    assert!(q.record(FpsBand::Smooth));
    assert_eq!(q.level, QualityLevel::High);
    assert_eq!((q.consecutive_low, q.consecutive_high), (0, 0));
}

#[test]
fn server_beacons_become_questions() {
    let info = server_beacon(10, 45000);
    let ex = exercise_from_beacon(&info);
    assert_eq!((ex.operation, ex.operand_a, ex.operand_b), (Operation::Multiply, 7, 8));
    assert_eq!(ex.correct_answer, 56);
    assert_eq!(ex.time_limit_ms, 45000);
    assert_eq!(ex.state, ExerciseState::Pending);
    assert_eq!(ex.question_text(), "7 x 8 = ?");
    let mut active = ActiveExercises::default();
    let b = track_server_beacon(&mut active, &info);
    assert_eq!((b.exercise_id, b.server_beacon_id, b.state), (0, Some(10), BeaconState::Dormant));
    assert_eq!(active.next_exercise_id, 1);
}

#[test]
fn local_beacons_and_their_cooldown() {
    let mut active = ActiveExercises::default();
    assert!(!local_spawn_due(&ConnectionStatus::Connecting, &mut active, 0, 20, 50));
    assert!(local_spawn_due(&ConnectionStatus::Disconnected, &mut active, 0, 20, 50));
    let b = spawn_local_beacon(&mut active, GameMode::Tables, &Difficulty::Medium);
    assert_eq!(b.state, BeaconState::Dormant);
    assert!(b.server_beacon_id.is_none());
    assert!((30000..=59999).contains(&b.lifetime_ms));
    assert_eq!(b.exercise.time_limit_ms, 12000);
    assert_eq!((active.total_spawned, active.next_exercise_id, active.cooldown_ms), (1, 1, 500));
    assert!(!local_spawn_due(&ConnectionStatus::Disconnected, &mut active, 1, 20, 300));
    assert!(local_spawn_due(&ConnectionStatus::Disconnected, &mut active, 1, 20, 300));
    assert!(!local_spawn_due(&ConnectionStatus::Disconnected, &mut active, 6, 20, 300));
    let ex = generate_exercise(GameMode::Arithmetic, &Difficulty::Hard);
    assert_eq!(ex.time_remaining_ms, 7000);
}

#[test]
fn beacons_engage_answer_and_time_out() {
    let mut active = ActiveExercises::default();
    let mut session = GameSession::default();
    let mut beacons = vec![
        beacon_at(0, BeaconState::Dormant, 30000, 20000, ExerciseState::Pending),
        beacon_at(1, BeaconState::Dormant, 30000, 20000, ExerciseState::Pending),
    ];
    assert!(engage_beacon(&mut active, 20, &mut beacons, 0));
    assert!(!engage_beacon(&mut active, 20, &mut beacons, 0));
    assert_eq!(beacons[0].state, BeaconState::Activated);
    assert_eq!(beacons[0].exercise.state, ExerciseState::Active);
    assert_eq!(active.total_engaged, 1);
    assert!(answer_exercise(&mut session, &mut beacons, 1, true).is_none());
    let f = answer_exercise(&mut session, &mut beacons, 0, true).unwrap();
    assert_eq!(f.coins_delta, 6);
    assert_eq!(beacons.len(), 1);
    assert!(answer_exercise(&mut session, &mut beacons, 0, true).is_none());
    assert!(engage_beacon(&mut active, 20, &mut beacons, 0));
    assert!(tick_exercises(&mut session, &mut beacons, 19999).is_empty());
    assert_eq!(beacons[0].exercise.time_remaining_ms, 1);
    assert_eq!(tick_exercises(&mut session, &mut beacons, 1), vec![1]);
    assert!(beacons.is_empty());
    assert_eq!((session.timeout_count, session.coins, session.combo), (1, 7, 0));
    let mut full = ActiveExercises { total_engaged: 20, ..ActiveExercises::default() };
    let mut more = vec![beacon_at(2, BeaconState::Dormant, 30000, 20000, ExerciseState::Pending)];
    assert!(!engage_beacon(&mut full, 20, &mut more, 0));
}

#[test]
fn dormant_beacons_fade_and_server_beacons_go() {
    let mut beacons = vec![
        beacon_at(0, BeaconState::Dormant, 100, 20000, ExerciseState::Pending),
        beacon_at(1, BeaconState::Activated, 100, 20000, ExerciseState::Active),
        beacon_at(2, BeaconState::Dormant, 500, 20000, ExerciseState::Pending),
    ];
    assert_eq!(tick_world_lifetime(&mut beacons, 100), vec![0]);
    assert_eq!(beacons.iter().map(|b| (b.exercise_id, b.lifetime_ms)).collect::<Vec<_>>(), vec![(1, 100), (2, 400)]);
    beacons[1].server_beacon_id = Some(40);
    activate_remote(&mut beacons, 40, 3, 3);
    assert_eq!(beacons[1].state, BeaconState::Dormant);
    activate_remote(&mut beacons, 40, 4, 3);
    assert_eq!(beacons[1].state, BeaconState::Activated);
    assert_eq!(remove_server_beacon(&mut beacons, 40), vec![2]);
    assert_eq!(beacons.len(), 1);
    let mut session = GameSession::default();
    let mut active = ActiveExercises { total_engaged: 5, cooldown_ms: 200, ..ActiveExercises::default() };
    reset_for_solo(&mut session, &mut active);
    assert_eq!((session.coins, session.prev_coins, active.total_engaged, active.cooldown_ms), (0, 0, 0, 0));
}

#[test]
fn the_roster_shows_each_other_player_once() {
    let mut roster = RemoteRoster::new();
    assert!(roster.joined(false, &player(4, 2)));
    assert!(!roster.joined(false, &player(4, 2)));
    assert!(!roster.joined(true, &player(5, 1)));
    assert!(roster.joined(false, &player(6, 3)));
    assert_eq!(roster.players.iter().map(|p| (p.player_id, p.color_index)).collect::<Vec<_>>(), vec![(4, 2), (6, 3)]);
    let update = vec![player(1, 0), player(6, 3), player(9, 0), player(4, 2)];
    let moved: Vec<u32> = roster.moves(Some(6), &update).iter().map(|p| p.player_id).collect();
    assert_eq!(moved, vec![4]);
    let moved: Vec<u32> = roster.moves(None, &update).iter().map(|p| p.player_id).collect();
    assert_eq!(moved, vec![6, 4]);
    roster.left(4);
    assert_eq!(roster.players.len(), 1);
    roster.clear();
    assert!(roster.players.is_empty());
}

#[test]
fn position_reports_every_tenth_of_a_second() {
    let mut t = RepeatingTimer::new(SEND_INTERVAL_MS);
    assert!(!t.tick(60));
    assert!(t.tick(60));
    assert_eq!(t.elapsed_ms, 20);
    assert!(t.tick(250));
    assert_eq!(t.elapsed_ms, 70);
    assert_eq!(CharacterState::Running.animation(), AnimationState::Running);
    assert_eq!(CharacterState::default().animation(), AnimationState::Idle);
    assert_eq!(CharacterState::Walking.animation(), AnimationState::Walking);
}

#[test]
fn a_client_reads_back_the_servers_question() {
    for _ in 0..100 {
        let ex = tafels::exercise::generate_exercise(GameMode::Tables, &Difficulty::Medium);
        let info = tafels::world::make_beacon(3, 1, 0, 0, 0, &ex);
        let back = exercise_from_beacon(&info);
        assert_eq!((back.operation, back.operand_a, back.operand_b), (ex.operation, ex.operand_a, ex.operand_b));
        assert_eq!(back.correct_answer, ex.correct_answer);
        assert_eq!(back.choices, ex.choices);
    }
    // An addition does not read back: only tables questions do.
    let sum = tafels::exercise::ExerciseData {
        operation: Operation::Add,
        operand_a: 8,
        operand_b: 6,
        correct_answer: 14,
        choices: [14, 15, 13, 16],
        time_limit: 20,
    };
    let back = exercise_from_beacon(&tafels::world::make_beacon(4, 1, 0, 0, 0, &sum));
    assert_eq!((back.operation, back.operand_a, back.operand_b), (Operation::Multiply, 0, 0));
    assert_eq!(back.correct_answer, 14);
}

#[test]
fn particle_bursts_share_a_budget_of_five_hundred() {
    assert_eq!(particles_to_spawn(0, &vec![60, 40]), vec![60, 40]);
    assert_eq!(particles_to_spawn(450, &vec![30, 40, 10]), vec![30, 20]);
    assert_eq!(particles_to_spawn(490, &vec![0, 5]), Vec::<usize>::new());
    assert_eq!(particles_to_spawn(500, &vec![10]), Vec::<usize>::new());
    assert_eq!(particles_to_spawn(700, &vec![10]), Vec::<usize>::new());
}

#[test]
fn a_correct_answer_shows_its_coins_and_streak() {
    let fb = |correct, coins_delta, combo| AnswerFeedback { correct, coins_delta, combo, speed_tier: SpeedTier::Fast };
    assert_eq!(bonus_texts(&fb(true, 6, 1)), vec!["+6".to_string()]);
    assert_eq!(bonus_texts(&fb(true, 9, 2)), vec!["+9".to_string(), "x1.5".to_string()]);
    assert_eq!(bonus_texts(&fb(true, 12, 5)), vec!["+12".to_string(), "x2".to_string()]);
    assert!(bonus_texts(&fb(false, -2, 0)).is_empty());
}

#[test]
fn answers_to_server_beacons_are_reported() {
    let mut own = beacon_at(1, BeaconState::Activated, 100, 100, ExerciseState::Active);
    let mut served = beacon_at(2, BeaconState::Activated, 100, 100, ExerciseState::Active);
    served.server_beacon_id = Some(40);
    own.server_beacon_id = None;
    let beacons = vec![own, served];
    assert!(matches!(answer_message(&beacons, 2, true), Some(ClientMessage::AnswerBeacon { beacon_id: 40, correct: true })));
    assert!(answer_message(&beacons, 1, true).is_none());
    assert!(answer_message(&beacons, 9, false).is_none());
    let mut active = ActiveExercises::default();
    let b = place_local_beacon(&mut active, beacons[0].exercise, 42000);
    assert_eq!((b.exercise_id, b.lifetime_ms, b.state), (0, 42000, BeaconState::Dormant));
    assert_eq!((active.next_exercise_id, active.total_spawned, active.cooldown_ms), (1, 1, 500));
}
