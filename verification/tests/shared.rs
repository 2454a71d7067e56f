use tafels::difficulty::Difficulty;
use tafels::exercise::{
    arithmetic_exercise_from, arithmetic_question, choices_with, generate_exercise,
    parse_question_text, select_distractors, shuffle_choices, tables_exercise_from,
    tables_question, ExerciseData, Operation,
};
use tafels::mode::GameMode;

#[test]
fn description_depends_on_mode() {
    let d = Difficulty::Easy;
    assert!(d.description(GameMode::Tables).contains("Tables"));
    assert!(d.description(GameMode::Arithmetic).contains("20"));
    assert_ne!(d.description(GameMode::Tables), d.description(GameMode::Arithmetic));
}

#[test]
fn game_mode_all_lists_every_variant_with_labels() {
    assert_eq!(GameMode::ALL, [GameMode::Tables, GameMode::Arithmetic]);
    assert_eq!(GameMode::Tables.label(), "Tables");
    assert_eq!(GameMode::Arithmetic.label(), "Arithmetic");
    assert_eq!(GameMode::default(), GameMode::Tables);
}

fn crosses_ten(op: Operation, a: u32, b: u32) -> bool {
    match op {
        Operation::Add => (a % 10) + (b % 10) > 10,
        Operation::Subtract => (a % 10) < (b % 10),
        _ => false,
    }
}

fn check_arithmetic(difficulty: Difficulty, max_result: u32, both_two_digit: bool) {
    for _ in 0..500 {
        let ex = generate_exercise(GameMode::Arithmetic, &difficulty);
        assert!(
            matches!(ex.operation, Operation::Add | Operation::Subtract),
            "arithmetic mode must only produce +/-"
        );
        let (a, b) = (ex.operand_a, ex.operand_b);
        match ex.operation {
            Operation::Add => assert_eq!(ex.correct_answer, a + b),
            Operation::Subtract => assert_eq!(ex.correct_answer, a - b),
            _ => unreachable!(),
        }
        assert!(a <= max_result && ex.correct_answer <= max_result, "{:?}", ex);
        assert!(crosses_ten(ex.operation, a, b), "must cross a ten: {:?}", ex);
        if both_two_digit {
            assert!(b >= 10, "hard: both operands two-digit: {:?}", ex);
        } else if difficulty == Difficulty::Medium {
            assert!(b < 10, "medium: second operand one-digit: {:?}", ex);
        }
        assert!(ex.choices.contains(&ex.correct_answer));
        for &c in &ex.choices {
            assert!(c > 0, "choices must be positive: {:?}", ex);
            let d = c.abs_diff(ex.correct_answer);
            assert!(d <= 3, "distractors must be close to answer: {:?}", ex);
        }
        let mut sorted = ex.choices.to_vec();
        sorted.sort();
        sorted.dedup();
        assert_eq!(sorted.len(), 4, "choices must be distinct: {:?}", ex);
    }
}

#[test]
fn arithmetic_easy_sums_to_20_crossing_ten() {
    check_arithmetic(Difficulty::Easy, 20, false);
}

#[test]
fn arithmetic_medium_one_digit_operand_crossing_ten_within_100() {
    check_arithmetic(Difficulty::Medium, 100, false);
}

#[test]
fn arithmetic_hard_two_digit_operands_crossing_ten_within_100() {
    check_arithmetic(Difficulty::Hard, 100, true);
}

#[test]
fn tables_mode_only_multiplies_or_divides() {
    for _ in 0..200 {
        let ex = generate_exercise(GameMode::Tables, &Difficulty::Easy);
        assert!(matches!(ex.operation, Operation::Multiply | Operation::Divide));
    }
}

#[test]
fn question_text_for_add_and_subtract() {
    let mk = |operation, a, b| ExerciseData {
        operation,
        operand_a: a,
        operand_b: b,
        correct_answer: 0,
        choices: [1, 2, 3, 4],
        time_limit: 1,
    };
    assert_eq!(mk(Operation::Add, 8, 6).question_text(), "8 + 6 = ?");
    assert_eq!(mk(Operation::Subtract, 12, 7).question_text(), "12 - 7 = ?");
}

#[test]
fn question_text_for_multiply_and_divide() {
    let mk = |operation, a, b| ExerciseData {
        operation,
        operand_a: a,
        operand_b: b,
        correct_answer: 0,
        choices: [1, 2, 3, 4],
        time_limit: 1,
    };
    assert_eq!(mk(Operation::Multiply, 7, 8).question_text(), "7 x 8 = ?");
    assert_eq!(mk(Operation::Divide, 56, 7).question_text(), "56 / 7 = ?");
    assert_eq!(mk(Operation::Multiply, 0, 10).question_text(), "0 x 10 = ?");
}

#[test]
fn tables_exercises_stay_in_the_table_range() {
    for difficulty in [Difficulty::Easy, Difficulty::Medium, Difficulty::Hard] {
        let cfg = difficulty.config();
        for _ in 0..300 {
            let ex = generate_exercise(GameMode::Tables, &difficulty);
            let (a, b) = match ex.operation {
                Operation::Multiply => {
                    assert_eq!(ex.correct_answer, ex.operand_a * ex.operand_b);
                    (ex.operand_a, ex.operand_b)
                }
                Operation::Divide => {
                    assert_eq!(ex.operand_a, ex.operand_b * ex.correct_answer);
                    (ex.operand_b, ex.correct_answer)
                }
                _ => panic!("tables mode gave {:?}", ex),
            };
            assert!(cfg.table_min <= a && a <= cfg.table_max);
            assert!(cfg.table_min <= b && b <= cfg.table_max);
            assert_eq!(ex.time_limit, cfg.seconds_per_question);
            assert!(ex.choices.contains(&ex.correct_answer));
            let mut sorted = ex.choices.to_vec();
            sorted.sort();
            sorted.dedup();
            assert_eq!(sorted.len(), 4);
            assert!(ex.choices.iter().all(|&c| c > 0));
        }
    }
}

#[test]
fn difficulty_settings() {
    let easy = Difficulty::Easy.config();
    assert_eq!((easy.table_min, easy.table_max, easy.seconds_per_question), (2, 9, 20));
    let medium = Difficulty::Medium.config();
    assert_eq!((medium.table_min, medium.table_max, medium.seconds_per_question), (2, 9, 12));
    let hard = Difficulty::Hard.config();
    assert_eq!((hard.table_min, hard.table_max, hard.seconds_per_question), (2, 9, 7));
    assert_eq!(Difficulty::Easy.round_time(), 240);
    assert_eq!(Difficulty::Medium.round_time(), 150);
    assert_eq!(Difficulty::Hard.round_time(), 120);
    assert_eq!(Difficulty::Medium.label(), "Medium");
    assert_eq!(
        Difficulty::Hard.description(GameMode::Arithmetic),
        "Two-digit up to 100, 2 min, 7s per question"
    );
    assert_eq!(Difficulty::default(), Difficulty::Easy);
    assert_eq!(GameMode::Arithmetic.description(), "Addition & subtraction over 10");
}

#[test]
fn distractors_skip_the_answer_duplicates_and_zero() {
    // answer 1: candidates 2, 0 (skipped), 2 (duplicate), 5
    let ds = select_distractors(1, &[2, 0, 2, 1, 5]);
    assert_eq!(ds, vec![2, 5, 4]);
    let ds = select_distractors(10, &[11, 9, 12, 8]);
    assert_eq!(ds, vec![11, 9, 12]);
    let ds = select_distractors(6, &[]);
    assert_eq!(ds, vec![9, 10, 11]);
    // Near the top of the range only the fallback values looked at must fit.
    let top = u32::MAX - 5;
    let ds = select_distractors(top, &[top + 1, top + 2, 1]);
    assert_eq!(ds, vec![top + 1, top + 2, 1]);
    let ds = select_distractors(u32::MAX - 7, &[]);
    assert_eq!(ds, vec![u32::MAX - 4, u32::MAX - 3, u32::MAX - 2]);
}

#[test]
fn shuffling_swaps_from_the_back() {
    assert_eq!(shuffle_choices([1, 2, 3, 4], 3, 2, 1), [1, 2, 3, 4]);
    assert_eq!(shuffle_choices([1, 2, 3, 4], 0, 2, 1), [4, 2, 3, 1]);
    assert_eq!(shuffle_choices([1, 2, 3, 4], 3, 0, 0), [2, 3, 1, 4]);
}

#[test]
fn question_text_reads_back() {
    assert_eq!(parse_question_text("12 x 3 = ?"), (Operation::Multiply, 12, 3));
    assert_eq!(parse_question_text("56 / 7 = ?"), (Operation::Divide, 56, 7));
    assert_eq!(parse_question_text("8 + 6 = ?"), (Operation::Multiply, 0, 0));
    assert_eq!(parse_question_text("nonsense"), (Operation::Multiply, 0, 0));
    let ex = generate_exercise(GameMode::Tables, &Difficulty::Hard);
    let text = ex.question_text();
    assert_eq!(parse_question_text(&text), (ex.operation, ex.operand_a, ex.operand_b));
}

#[test]
fn questions_are_built_from_the_drawn_values() {
    assert_eq!(tables_question(7, 8, true), (Operation::Multiply, 7, 8, 56));
    assert_eq!(tables_question(7, 8, false), (Operation::Divide, 56, 7, 8));
    assert_eq!(arithmetic_question(47, 6, true), (Operation::Add, 47, 6, 53));
    assert_eq!(arithmetic_question(47, 6, false), (Operation::Subtract, 53, 6, 47));
    // 3 x 4: candidates 13, 11, 15, 9, 16, 8, ... -> distractors 13, 11, 15.
    assert_eq!(choices_with(12, &[13, 11, 15, 9], 3, 2, 1), [12, 13, 11, 15]);
    assert_eq!(choices_with(12, &[13, 11, 15, 9], 0, 2, 1), [15, 13, 11, 12]);
    let ex = tables_exercise_from(3, 4, true, 3, 2, 1, 20);
    assert_eq!((ex.operation, ex.operand_a, ex.operand_b, ex.correct_answer), (Operation::Multiply, 3, 4, 12));
    assert_eq!(ex.choices, [12, 13, 11, 15]);
    assert_eq!(ex.time_limit, 20);
    let ex = tables_exercise_from(3, 4, false, 3, 2, 1, 7);
    assert_eq!((ex.operation, ex.operand_a, ex.operand_b, ex.correct_answer), (Operation::Divide, 12, 3, 4));
    assert_eq!(ex.choices, [4, 5, 3, 7]);
    let ex = arithmetic_exercise_from(8, 4, true, 3, 2, 1, 20);
    assert_eq!((ex.operation, ex.operand_a, ex.operand_b, ex.correct_answer), (Operation::Add, 8, 4, 12));
    assert_eq!(ex.choices, [12, 13, 11, 14]);
    let ex = arithmetic_exercise_from(8, 4, false, 3, 2, 1, 12);
    assert_eq!((ex.operation, ex.operand_a, ex.operand_b, ex.correct_answer), (Operation::Subtract, 12, 4, 8));
    assert_eq!(ex.choices, [8, 9, 7, 10]);
}
