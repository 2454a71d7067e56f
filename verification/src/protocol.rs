use vstd::prelude::*;

use crate::difficulty::Difficulty;

verus! {

// Messages exchanged between the game server and its clients. Positions,
// angles and velocities travel as the IEEE-754 bit patterns of their `f32`
// values (fields ending in `_bits`), which the rules here only carry; times
// travel in milliseconds.

#[derive(Debug, Clone, Copy, PartialEq, Eq, Structural)]
pub enum AnimationState {
    Idle,
    Walking,
    Running,
}

/// A player as the lobby shows them.
#[derive(Debug, Clone)]
pub struct LobbyPlayer {
    pub player_id: u32,
    pub name: String,
    pub ready: bool,
    pub playing_solo: bool,
}

/// A player's final score.
#[derive(Debug, Clone)]
pub struct PlayerScore {
    pub player_id: u32,
    pub name: String,
    pub coins: i32,
}

/// Where a player stands and how they move.
#[derive(Debug, Clone, Copy, PartialEq, Eq, Structural)]
pub struct PlayerState {
    pub player_id: u32,
    pub color_index: u8,
    pub x_bits: u32,
    pub y_bits: u32,
    pub z_bits: u32,
    pub yaw_bits: u32,
    pub animation: AnimationState,
}

/// A beacon in the world: its place, its question and the player it was
/// spawned for.
#[derive(Debug, Clone)]
pub struct BeaconInfo {
    pub beacon_id: u32,
    pub x_bits: u32,
    pub y_bits: u32,
    pub z_bits: u32,
    pub question_text: String,
    pub choices: [u32; 4],
    pub correct_index: u8,
    pub lifetime_ms: u32,
    pub target_player_id: u32,
}

impl BeaconInfo {
    /// A field-by-field copy of the beacon.
    pub fn duplicate(&self) -> (r: BeaconInfo)
        ensures
            r == *self,
    {
        BeaconInfo {
            beacon_id: self.beacon_id,
            x_bits: self.x_bits,
            y_bits: self.y_bits,
            z_bits: self.z_bits,
            question_text: self.question_text.clone(),
            choices: self.choices,
            correct_index: self.correct_index,
            lifetime_ms: self.lifetime_ms,
            target_player_id: self.target_player_id,
        }
    }
}

#[derive(Debug, Clone)]
pub enum ServerMessage {
    WorldSnapshot { your_player_id: u32, players: Vec<PlayerState>, beacons: Vec<BeaconInfo> },
    PlayerJoined(PlayerState),
    PlayerUpdate(Vec<PlayerState>),
    PlayerLeft { player_id: u32 },
    BeaconSpawned(BeaconInfo),
    BeaconResolved { beacon_id: u32, claimed_by: u32 },
    BeaconExpired { beacon_id: u32 },
    BeaconActivated { beacon_id: u32, activated_by: u32 },
    BallShot {
        player_id: u32,
        x_bits: u32,
        y_bits: u32,
        z_bits: u32,
        vx_bits: u32,
        vy_bits: u32,
        vz_bits: u32,
    },
    LobbyState { players: Vec<LobbyPlayer> },
    CountdownStart { seconds: u8 },
    RoundStart { round_time_ms: u32 },
    RoundOver { scores: Vec<PlayerScore> },
    ScoreUpdate { player_id: u32, coins: i32 },
}

#[derive(Debug, Clone)]
pub enum ClientMessage {
    UpdateState(PlayerState),
    AnswerBeacon { beacon_id: u32, correct: bool },
    ActivateBeacon { beacon_id: u32 },
    ShootBall { x_bits: u32, y_bits: u32, z_bits: u32, vx_bits: u32, vy_bits: u32, vz_bits: u32 },
    SetName { name: String },
    SetDifficulty { difficulty: Difficulty },
    Ready,
    UpdateScore { coins: i32 },
    EnterSolo,
    LeaveSolo,
    StartRoundNow,
}

} // verus!
