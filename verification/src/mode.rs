use vstd::prelude::*;

verus! {

/// What kind of exercises a round contains.
#[derive(Debug, Clone, Copy, PartialEq, Eq, Structural, Hash)]
pub enum GameMode {
    Tables,
    Arithmetic,
}

impl GameMode {
    /// Every game mode, in menu order.
    pub const ALL: [GameMode; 2] = [GameMode::Tables, GameMode::Arithmetic];

    /// The text of the mode's menu label.
    pub open spec fn label_text(self) -> Seq<char> {
        match self {
            GameMode::Tables => "Tables"@,
            GameMode::Arithmetic => "Arithmetic"@,
        }
    }

    /// The text of the mode's one-line description.
    pub open spec fn description_text(self) -> Seq<char> {
        match self {
            GameMode::Tables => "Multiplication & division"@,
            GameMode::Arithmetic => "Addition & subtraction over 10"@,
        }
    }

    pub fn label(&self) -> (r: &'static str)
        ensures
            r@ == self.label_text(),
    {
        match self {
            GameMode::Tables => "Tables",
            GameMode::Arithmetic => "Arithmetic",
        }
    }

    pub fn description(&self) -> (r: &'static str)
        ensures
            r@ == self.description_text(),
    {
        match self {
            GameMode::Tables => "Multiplication & division",
            GameMode::Arithmetic => "Addition & subtraction over 10",
        }
    }
}

impl Default for GameMode {
    fn default() -> (r: GameMode)
        ensures
            r == GameMode::Tables,
    {
        GameMode::Tables
    }
}

} // verus!
