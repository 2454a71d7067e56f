use vstd::prelude::*;

use crate::mode::GameMode;
use crate::text::decimal;

verus! {

/// How hard a round is: the time per question and the length of the round.
#[derive(Debug, Clone, Copy, PartialEq, Eq, Structural, Hash)]
pub enum Difficulty {
    Easy,
    Medium,
    Hard,
}

/// The exercise settings of a difficulty: the inclusive range the table
/// factors are drawn from, and the seconds allowed per question.
#[derive(Debug, Clone, Copy, PartialEq, Eq, Structural)]
pub struct ExerciseConfig {
    pub table_min: u32,
    pub table_max: u32,
    pub seconds_per_question: u32,
}

impl Difficulty {
    pub open spec fn config_spec(self) -> ExerciseConfig {
        match self {
            Difficulty::Easy => ExerciseConfig { table_min: 2, table_max: 9, seconds_per_question: 20 },
            Difficulty::Medium => ExerciseConfig {
                table_min: 2,
                table_max: 9,
                seconds_per_question: 12,
            },
            Difficulty::Hard => ExerciseConfig { table_min: 2, table_max: 9, seconds_per_question: 7 },
        }
    }

    pub open spec fn round_time_spec(self) -> u32 {
        match self {
            Difficulty::Easy => 240,
            Difficulty::Medium => 150,
            Difficulty::Hard => 120,
        }
    }

    pub open spec fn label_text(self) -> Seq<char> {
        match self {
            Difficulty::Easy => "Easy"@,
            Difficulty::Medium => "Medium"@,
            Difficulty::Hard => "Hard"@,
        }
    }

    pub open spec fn description_text(self, mode: GameMode) -> Seq<char> {
        match (mode, self) {
            (GameMode::Tables, Difficulty::Easy) => "Tables 2-9, 4 min, 20s per question"@,
            (GameMode::Tables, Difficulty::Medium) => "Tables 2-9, 2.5 min, 12s per question"@,
            (GameMode::Tables, Difficulty::Hard) => "Tables 2-9, 2 min, 7s per question"@,
            (GameMode::Arithmetic, Difficulty::Easy) => "Up to 20, 4 min, 20s per question"@,
            (GameMode::Arithmetic, Difficulty::Medium) => "Up to 100, 2.5 min, 12s per question"@,
            (GameMode::Arithmetic, Difficulty::Hard) => "Two-digit up to 100, 2 min, 7s per question"@,
        }
    }

    /// The table range and the seconds allowed per question.
    pub fn config(&self) -> (r: ExerciseConfig)
        ensures
            r == self.config_spec(),
    {
        match self {
            Difficulty::Easy => ExerciseConfig { table_min: 2, table_max: 9, seconds_per_question: 20 },
            Difficulty::Medium => ExerciseConfig {
                table_min: 2,
                table_max: 9,
                seconds_per_question: 12,
            },
            Difficulty::Hard => ExerciseConfig { table_min: 2, table_max: 9, seconds_per_question: 7 },
        }
    }

    /// The round time limit in seconds.
    pub fn round_time(&self) -> (r: u32)
        ensures
            r == self.round_time_spec(),
    {
        match self {
            Difficulty::Easy => 240,
            Difficulty::Medium => 150,
            Difficulty::Hard => 120,
        }
    }

    pub fn label(&self) -> (r: &'static str)
        ensures
            r@ == self.label_text(),
    {
        match self {
            Difficulty::Easy => "Easy",
            Difficulty::Medium => "Medium",
            Difficulty::Hard => "Hard",
        }
    }

    pub fn description(&self, mode: GameMode) -> (r: &'static str)
        ensures
            r@ == self.description_text(mode),
    {
        match (mode, self) {
            (GameMode::Tables, Difficulty::Easy) => "Tables 2-9, 4 min, 20s per question",
            (GameMode::Tables, Difficulty::Medium) => "Tables 2-9, 2.5 min, 12s per question",
            (GameMode::Tables, Difficulty::Hard) => "Tables 2-9, 2 min, 7s per question",
            (GameMode::Arithmetic, Difficulty::Easy) => "Up to 20, 4 min, 20s per question",
            (GameMode::Arithmetic, Difficulty::Medium) => "Up to 100, 2.5 min, 12s per question",
            (GameMode::Arithmetic, Difficulty::Hard) => "Two-digit up to 100, 2 min, 7s per question",
        }
    }
}

impl Default for Difficulty {
    fn default() -> (r: Difficulty)
        ensures
            r == Difficulty::Easy,
    {
        Difficulty::Easy
    }
}

/// A round time of whole or half minutes, in minutes as the menu writes
/// them: `"4"`, `"2.5"`.
pub open spec fn minutes_text(secs: u32) -> Seq<char> {
    decimal((secs / 60) as nat) + if secs % 60 == 0 {
        Seq::empty()
    } else {
        ".5"@
    }
}

/// The clock part of a description: `"<minutes> min, <seconds>s per
/// question"`, from the round time and the time per question.
pub open spec fn clock_text(d: Difficulty) -> Seq<char> {
    minutes_text(d.round_time_spec()) + " min, "@ + decimal(
        d.config_spec().seconds_per_question as nat,
    ) + "s per question"@
}

/// Every description ends with the difficulty's round time and time per
/// question, as the settings give them.
pub proof fn lemma_description_states_the_clock(d: Difficulty, m: GameMode)
    ensures
        d.description_text(m).len() >= clock_text(d).len(),
        d.description_text(m).subrange(
            d.description_text(m).len() - clock_text(d).len(),
            d.description_text(m).len() as int,
        ) == clock_text(d),
{
    reveal_strlit(".5");
    reveal_strlit(" min, ");
    reveal_strlit("s per question");
    reveal_strlit("Tables 2-9, 4 min, 20s per question");
    reveal_strlit("Tables 2-9, 2.5 min, 12s per question");
    reveal_strlit("Tables 2-9, 2 min, 7s per question");
    reveal_strlit("Up to 20, 4 min, 20s per question");
    reveal_strlit("Up to 100, 2.5 min, 12s per question");
    reveal_strlit("Two-digit up to 100, 2 min, 7s per question");
    reveal_with_fuel(decimal, 2);
    let t = d.description_text(m);
    let c = clock_text(d);
    assert(t.subrange(t.len() - c.len(), t.len() as int) =~= c);
}

/// The six descriptions differ from one another.
pub proof fn lemma_descriptions_distinct(d1: Difficulty, m1: GameMode, d2: Difficulty, m2: GameMode)
    requires
        d1 != d2 || m1 != m2,
    ensures
        d1.description_text(m1) != d2.description_text(m2),
{
    reveal_strlit("Tables 2-9, 4 min, 20s per question");
    reveal_strlit("Tables 2-9, 2.5 min, 12s per question");
    reveal_strlit("Tables 2-9, 2 min, 7s per question");
    reveal_strlit("Up to 20, 4 min, 20s per question");
    reveal_strlit("Up to 100, 2.5 min, 12s per question");
    reveal_strlit("Two-digit up to 100, 2 min, 7s per question");
    let t1 = d1.description_text(m1);
    let t2 = d2.description_text(m2);
    if t1.len() == t2.len() {
        assert(t1[11] != t2[11] || t1[3] != t2[3] || t1[7] != t2[7]);
    }
}

} // verus!
