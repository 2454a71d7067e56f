use tafels::classic::{generate_exercise, reward_for, ActiveExercise, Difficulty, GameSession};
use tafels::exercise::{ExerciseState, Operation};
use tafels::text::{decimal_string, parse_u32, trim_chars};

fn running(remaining_ms: u32) -> ActiveExercise {
    ActiveExercise {
        operation: Operation::Divide,
        operand_a: 12,
        operand_b: 3,
        correct_answer: 4,
        choices: [4, 5, 3, 7],
        time_remaining_ms: remaining_ms,
        time_limit_ms: 10000,
        state: ExerciseState::Active,
    }
}

#[test]
fn classic_difficulty_settings() {
    let easy = Difficulty::Easy.config();
    assert_eq!((easy.table_min, easy.table_max, easy.seconds_per_question), (2, 5, 12));
    let hard = Difficulty::Hard.config();
    assert_eq!((hard.table_min, hard.table_max, hard.seconds_per_question), (2, 12, 7));
    assert_eq!(Difficulty::Easy.round_time(), 180);
    assert_eq!(Difficulty::Medium.description(), "Tables 2-9, 2.5 min round");
    assert_eq!(Difficulty::Hard.label(), "Hard");
    assert_eq!(Difficulty::default(), Difficulty::Easy);
}

#[test]
fn classic_exercises_use_the_difficulty_tables() {
    for difficulty in [Difficulty::Easy, Difficulty::Medium, Difficulty::Hard] {
        let cfg = difficulty.config();
        for _ in 0..200 {
            let ex = generate_exercise(&difficulty);
            let (a, b) = match ex.operation {
                Operation::Multiply => (ex.operand_a, ex.operand_b),
                Operation::Divide => (ex.operand_b, ex.correct_answer),
                _ => panic!("unexpected operation"),
            };
            assert!(cfg.table_min <= a && a <= cfg.table_max);
            assert!(cfg.table_min <= b && b <= cfg.table_max);
            assert_eq!(ex.time_limit_ms, cfg.seconds_per_question * 1000);
            assert_eq!(ex.time_remaining_ms, ex.time_limit_ms);
            assert_eq!(ex.state, ExerciseState::Active);
            assert!(ex.choices.contains(&ex.correct_answer));
        }
    }
}

#[test]
fn classic_rewards_and_penalties() {
    assert_eq!(reward_for(8000, 10000), 5);
    assert_eq!(reward_for(7500, 10000), 4);
    assert_eq!(reward_for(5000, 10000), 3);
    let mut s = GameSession::default();
    assert_eq!(s.coins, 10);
    let mut ex = running(9000);
    let f = s.process_answer(&mut ex, true).unwrap();
    assert_eq!((f.correct, f.coins_delta), (true, 5));
    assert_eq!((s.coins, s.correct_count, s.current_index), (15, 1, 1));
    assert_eq!(ex.state, ExerciseState::Answered);
    assert!(s.process_answer(&mut ex, false).is_none());
    let mut ex = running(1000);
    let f = s.process_answer(&mut ex, false).unwrap();
    assert_eq!(f.coins_delta, -2);
    assert_eq!((s.coins, s.wrong_count), (13, 1));
    let mut ex = running(300);
    assert!(!s.tick_exercise(&mut ex, 299));
    assert_eq!(ex.time_remaining_ms, 1);
    assert!(s.tick_exercise(&mut ex, 1));
    assert_eq!(ex.state, ExerciseState::TimedOut);
    assert_eq!((s.coins, s.timeout_count, s.current_index), (10, 1, 3));
    assert!(!s.tick_exercise(&mut ex, 1));
    assert_eq!(ex.question_text(), "12 / 3 = ?");
}

#[test]
fn classic_round_end() {
    let mut s = GameSession::default();
    s.start(1234);
    assert_eq!(s.start_time_ms, 1234);
    assert!(!s.is_game_over());
    s.current_index = 20;
    assert!(s.is_round_complete(false));
    assert!(!s.is_round_complete(true));
    assert!(!s.exercise_due(false, -5, false, false));
    s.current_index = 3;
    assert!(s.exercise_due(false, 0, false, false));
    assert!(!s.exercise_due(false, 100, true, false));
    assert!(s.exercise_due(false, 100, true, true));
    assert!(!s.exercise_due(true, 0, true, true));
    s.coins = 0;
    assert!(s.is_game_over());
    assert!(!s.is_round_complete(false));
}

#[test]
fn numbers_print_and_parse() {
    assert_eq!(decimal_string(0), "0");
    assert_eq!(decimal_string(4294967295), "4294967295");
    let digits: Vec<char> = "0042".chars().collect();
    assert_eq!(parse_u32(&digits), Some(42));
    let too_big: Vec<char> = "4294967296".chars().collect();
    assert_eq!(parse_u32(&too_big), None);
    let empty: Vec<char> = Vec::new();
    assert_eq!(parse_u32(&empty), None);
    let padded: Vec<char> = " \t 12 \n".chars().collect();
    assert_eq!(trim_chars(&padded).into_iter().collect::<String>(), "12");
}
