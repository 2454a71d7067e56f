use vstd::prelude::*;

use crate::difficulty::ExerciseConfig;
use crate::exercise::{
    is_tables_exercise_in, question_text_spec, tables_exercise, well_formed_choices, ExerciseData,
    ExerciseState, Operation,
};

verus! {

// The single-player game: tables only, a fixed number of questions, and
// coins paid straight into the purse.

/// How hard a single-player round is.
#[derive(Debug, Clone, Copy, PartialEq, Eq, Structural, Hash)]
pub enum Difficulty {
    Easy,
    Medium,
    Hard,
}

impl Difficulty {
    pub open spec fn config_spec(self) -> ExerciseConfig {
        match self {
            Difficulty::Easy => ExerciseConfig { table_min: 2, table_max: 5, seconds_per_question: 12 },
            Difficulty::Medium => ExerciseConfig {
                table_min: 2,
                table_max: 9,
                seconds_per_question: 10,
            },
            Difficulty::Hard => ExerciseConfig { table_min: 2, table_max: 12, seconds_per_question: 7 },
        }
    }

    pub open spec fn round_time_spec(self) -> u32 {
        match self {
            Difficulty::Easy => 180,
            Difficulty::Medium => 150,
            Difficulty::Hard => 120,
        }
    }

    pub open spec fn label_text(self) -> Seq<char> {
        match self {
            Difficulty::Easy => "Easy"@,
            Difficulty::Medium => "Medium"@,
            Difficulty::Hard => "Hard"@,
        }
    }

    pub open spec fn description_text(self) -> Seq<char> {
        match self {
            Difficulty::Easy => "Tables 2-5, 3 min round"@,
            Difficulty::Medium => "Tables 2-9, 2.5 min round"@,
            Difficulty::Hard => "Tables 2-12, 2 min round"@,
        }
    }

    /// The table range and the seconds allowed per question.
    pub fn config(&self) -> (r: ExerciseConfig)
        ensures
            r == self.config_spec(),
    {
        match self {
            Difficulty::Easy => ExerciseConfig { table_min: 2, table_max: 5, seconds_per_question: 12 },
            Difficulty::Medium => ExerciseConfig {
                table_min: 2,
                table_max: 9,
                seconds_per_question: 10,
            },
            Difficulty::Hard => ExerciseConfig { table_min: 2, table_max: 12, seconds_per_question: 7 },
        }
    }

    /// The round time limit in seconds.
    pub fn round_time(&self) -> (r: u32)
        ensures
            r == self.round_time_spec(),
    {
        match self {
            Difficulty::Easy => 180,
            Difficulty::Medium => 150,
            Difficulty::Hard => 120,
        }
    }

    pub fn label(&self) -> (r: &'static str)
        ensures
            r@ == self.label_text(),
    {
        match self {
            Difficulty::Easy => "Easy",
            Difficulty::Medium => "Medium",
            Difficulty::Hard => "Hard",
        }
    }

    pub fn description(&self) -> (r: &'static str)
        ensures
            r@ == self.description_text(),
    {
        match self {
            Difficulty::Easy => "Tables 2-5, 3 min round",
            Difficulty::Medium => "Tables 2-9, 2.5 min round",
            Difficulty::Hard => "Tables 2-12, 2 min round",
        }
    }
}

impl Default for Difficulty {
    fn default() -> (r: Difficulty)
        ensures
            r == Difficulty::Easy,
    {
        Difficulty::Easy
    }
}

/// The question on screen, with its clock in milliseconds.
#[derive(Debug, Clone, Copy)]
pub struct ActiveExercise {
    pub operation: Operation,
    pub operand_a: u32,
    pub operand_b: u32,
    pub correct_answer: u32,
    pub choices: [u32; 4],
    pub time_remaining_ms: u32,
    pub time_limit_ms: u32,
    pub state: ExerciseState,
}

impl ActiveExercise {
    /// The question without its clock.
    pub open spec fn data(self) -> ExerciseData {
        ExerciseData {
            operation: self.operation,
            operand_a: self.operand_a,
            operand_b: self.operand_b,
            correct_answer: self.correct_answer,
            choices: self.choices,
            time_limit: self.time_limit_ms / 1000,
        }
    }

    /// `"<a> x <b> = ?"` or `"<a> / <b> = ?"`.
    pub fn question_text(&self) -> (r: String)
        ensures
            r@ == question_text_spec(self.operation, self.operand_a, self.operand_b),
    {
        let data = ExerciseData {
            operation: self.operation,
            operand_a: self.operand_a,
            operand_b: self.operand_b,
            correct_answer: self.correct_answer,
            choices: self.choices,
            time_limit: self.time_limit_ms / 1000,
        };
        data.question_text()
    }
}

/// A fresh tables question of the difficulty, its clock full and running.
pub fn generate_exercise(difficulty: &Difficulty) -> (ex: ActiveExercise)
    ensures
        is_tables_exercise_in(ex.data(), difficulty.config_spec()),
        well_formed_choices(ex.data()),
        ex.time_limit_ms == difficulty.config_spec().seconds_per_question * 1000,
        ex.time_remaining_ms == ex.time_limit_ms,
        ex.state == ExerciseState::Active,
{
    let cfg = difficulty.config();
    let data = tables_exercise(cfg);
    let limit_ms: u32 = cfg.seconds_per_question * 1000;
    let ex = ActiveExercise {
        operation: data.operation,
        operand_a: data.operand_a,
        operand_b: data.operand_b,
        correct_answer: data.correct_answer,
        choices: data.choices,
        time_remaining_ms: limit_ms,
        time_limit_ms: limit_ms,
        state: ExerciseState::Active,
    };
    assert(ex.data() == data);
    ex
}

/// What the player is shown after an answer.
#[derive(Debug, Clone, Copy, PartialEq, Eq, Structural)]
pub struct AnswerFeedback {
    pub correct: bool,
    pub coins_delta: i32,
}

/// The reward of a correct answer: three coins, two more with over three
/// quarters of the time left, one more with over half of it left.
pub open spec fn reward_spec(time_remaining_ms: u32, time_limit_ms: u32) -> int {
    if 4 * time_remaining_ms > 3 * time_limit_ms {
        5
    } else if 2 * time_remaining_ms > time_limit_ms {
        4
    } else {
        3
    }
}

/// The reward of a correct answer given the time left on its clock.
pub fn reward_for(time_remaining_ms: u32, time_limit_ms: u32) -> (r: i32)
    ensures
        r == reward_spec(time_remaining_ms, time_limit_ms),
{
    let mut reward: i32 = 3;
    let remaining = time_remaining_ms as u64;
    let limit = time_limit_ms as u64;
    if 4 * remaining > 3 * limit {
        reward = reward + 2;
    } else if 2 * remaining > limit {
        reward = reward + 1;
    }
    reward
}

/// The single-player round: progress and coins.
#[derive(Debug, Clone, Copy, PartialEq, Eq, Structural)]
pub struct GameSession {
    pub difficulty: Difficulty,
    pub total_exercises: u32,
    pub current_index: u32,
    pub coins: i32,
    pub correct_count: u32,
    pub wrong_count: u32,
    pub timeout_count: u32,
    pub start_time_ms: u64,
}

impl Default for GameSession {
    fn default() -> (s: GameSession)
        ensures
            s == (GameSession {
                difficulty: Difficulty::Easy,
                total_exercises: 20,
                current_index: 0,
                coins: 10,
                correct_count: 0,
                wrong_count: 0,
                timeout_count: 0,
                start_time_ms: 0,
            }),
    {
        GameSession {
            difficulty: Difficulty::Easy,
            total_exercises: 20,
            current_index: 0,
            coins: 10,
            correct_count: 0,
            wrong_count: 0,
            timeout_count: 0,
            start_time_ms: 0,
        }
    }
}

impl GameSession {
    /// Starts a round at `now_ms`: no questions done, ten coins.
    pub fn start(&mut self, now_ms: u64)
        ensures
            *final(self) == (GameSession {
                current_index: 0,
                coins: 10,
                correct_count: 0,
                wrong_count: 0,
                timeout_count: 0,
                start_time_ms: now_ms,
                ..*old(self)
            }),
    {
        self.current_index = 0;
        self.coins = 10;
        self.correct_count = 0;
        self.wrong_count = 0;
        self.timeout_count = 0;
        self.start_time_ms = now_ms;
    }

    /// Scores a hit on an answer panel. Only a question still running takes
    /// an answer: it is then marked answered, and a correct answer earns its
    /// reward while a wrong one costs two coins. Gives back the feedback, or
    /// `None` when the question took no answer.
    pub fn process_answer(&mut self, exercise: &mut ActiveExercise, is_correct: bool) -> (r: Option<
        AnswerFeedback,
    >)
        requires
            old(exercise).state == ExerciseState::Active ==> {
                &&& old(self).current_index < u32::MAX
                &&& is_correct ==> old(self).correct_count < u32::MAX && old(self).coins <= i32::MAX - 5
                &&& !is_correct ==> old(self).wrong_count < u32::MAX && old(self).coins >= i32::MIN + 2
            },
        ensures
            old(exercise).state != ExerciseState::Active ==> {
                &&& r is None
                &&& *final(self) == *old(self)
                &&& *final(exercise) == *old(exercise)
            },
            old(exercise).state == ExerciseState::Active ==> {
                let delta = if is_correct {
                    reward_spec(old(exercise).time_remaining_ms, old(exercise).time_limit_ms)
                } else {
                    -2
                };
                &&& r == Some(AnswerFeedback { correct: is_correct, coins_delta: delta as i32 })
                &&& *final(exercise) == ActiveExercise {
                    state: ExerciseState::Answered,
                    ..*old(exercise)
                }
                &&& *final(self) == GameSession {
                    current_index: (old(self).current_index + 1) as u32,
                    coins: (old(self).coins + delta) as i32,
                    correct_count: if is_correct {
                        (old(self).correct_count + 1) as u32
                    } else {
                        old(self).correct_count
                    },
                    wrong_count: if is_correct {
                        old(self).wrong_count
                    } else {
                        (old(self).wrong_count + 1) as u32
                    },
                    ..*old(self)
                }
            },
    {
        if exercise.state != ExerciseState::Active {
            return None;
        }
        exercise.state = ExerciseState::Answered;
        self.current_index = self.current_index + 1;
        if is_correct {
            self.correct_count = self.correct_count + 1;
            let reward = reward_for(exercise.time_remaining_ms, exercise.time_limit_ms);
            self.coins = self.coins + reward;
            Some(AnswerFeedback { correct: true, coins_delta: reward })
        } else {
            self.wrong_count = self.wrong_count + 1;
            self.coins = self.coins - 2;
            Some(AnswerFeedback { correct: false, coins_delta: -2 })
        }
    }

    /// Lets the question's clock run. A running question whose time is up
    /// times out: it counts as done and costs three coins. Gives back whether
    /// it timed out now.
    pub fn tick_exercise(&mut self, exercise: &mut ActiveExercise, dt_ms: u32) -> (timed_out: bool)
        requires
            old(exercise).state == ExerciseState::Active && old(exercise).time_remaining_ms <= dt_ms
                ==> {
                &&& old(self).current_index < u32::MAX
                &&& old(self).timeout_count < u32::MAX
                &&& old(self).coins >= i32::MIN + 3
            },
        ensures
            old(exercise).state != ExerciseState::Active ==> !timed_out && *final(self) == *old(
                self,
            ) && *final(exercise) == *old(exercise),
            old(exercise).state == ExerciseState::Active ==> {
                &&& timed_out == (old(exercise).time_remaining_ms <= dt_ms)
                &&& final(exercise).time_remaining_ms == if timed_out {
                    0
                } else {
                    (old(exercise).time_remaining_ms - dt_ms) as u32
                }
                &&& final(exercise).state == if timed_out {
                    ExerciseState::TimedOut
                } else {
                    ExerciseState::Active
                }
                &&& *final(exercise) == ActiveExercise {
                    time_remaining_ms: final(exercise).time_remaining_ms,
                    state: final(exercise).state,
                    ..*old(exercise)
                }
                &&& *final(self) == if timed_out {
                    GameSession {
                        timeout_count: (old(self).timeout_count + 1) as u32,
                        current_index: (old(self).current_index + 1) as u32,
                        coins: (old(self).coins - 3) as i32,
                        ..*old(self)
                    }
                } else {
                    *old(self)
                }
            },
    {
        if exercise.state != ExerciseState::Active {
            return false;
        }
        if exercise.time_remaining_ms <= dt_ms {
            exercise.time_remaining_ms = 0;
            exercise.state = ExerciseState::TimedOut;
            self.timeout_count = self.timeout_count + 1;
            self.current_index = self.current_index + 1;
            self.coins = self.coins - 3;
            true
        } else {
            exercise.time_remaining_ms = exercise.time_remaining_ms - dt_ms;
            false
        }
    }

    /// The game is lost once the coins run out.
    pub fn is_game_over(&self) -> (r: bool)
        ensures
            r == (self.coins <= 0),
    {
        self.coins <= 0
    }

    /// The round is won once every question is done, none is on screen, and
    /// coins are left.
    pub fn is_round_complete(&self, exercise_active: bool) -> (r: bool)
        ensures
            r == (!exercise_active && self.current_index >= self.total_exercises && self.coins > 0),
    {
        if exercise_active {
            return false;
        }
        self.current_index >= self.total_exercises && self.coins > 0
    }

    /// Whether a new question is due: none on screen, questions left, and
    /// either the cooldown ran out or the player walked away from the last
    /// one after the first had appeared.
    pub fn exercise_due(
        &self,
        exercise_active: bool,
        cooldown_ms: i64,
        walked_far: bool,
        exercises_started: bool,
    ) -> (r: bool)
        ensures
            r == (!exercise_active && self.current_index < self.total_exercises && (cooldown_ms
                <= 0 || (walked_far && exercises_started))),
    {
        if exercise_active || self.current_index >= self.total_exercises {
            return false;
        }
        cooldown_ms <= 0 || (walked_far && exercises_started)
    }
}

/// A correct single-player answer earns three to five coins.
pub proof fn lemma_classic_reward_bounds(time_remaining_ms: u32, time_limit_ms: u32)
    ensures
        3 <= reward_spec(time_remaining_ms, time_limit_ms) <= 5,
{
}

/// A correct single-player answer earns five coins with more than three
/// quarters of its time left, four with more than half (but not three
/// quarters), three with half or less.
pub proof fn lemma_classic_reward_thresholds(time_remaining_ms: u32, time_limit_ms: u32)
    ensures
        4 * time_remaining_ms > 3 * time_limit_ms ==> reward_spec(time_remaining_ms, time_limit_ms)
            == 5,
        2 * time_remaining_ms > time_limit_ms && 4 * time_remaining_ms <= 3 * time_limit_ms
            ==> reward_spec(time_remaining_ms, time_limit_ms) == 4,
        2 * time_remaining_ms <= time_limit_ms ==> reward_spec(time_remaining_ms, time_limit_ms)
            == 3,
{
}

/// More time left never earns fewer coins.
pub proof fn lemma_classic_reward_monotone(r1: u32, r2: u32, time_limit_ms: u32)
    requires
        r1 <= r2,
    ensures
        reward_spec(r1, time_limit_ms) <= reward_spec(r2, time_limit_ms),
{
}

} // verus!
