use vstd::prelude::*;

use crate::leaderboard::RoundMessageBuffer;
use crate::protocol::{BeaconInfo, PlayerState, ServerMessage};
use crate::session::{backoff_spec, reconnect_backoff_secs};

verus! {

/// The client's link to the game server. Waits are in milliseconds.
#[derive(Debug, Clone, Copy, PartialEq, Eq, Structural)]
pub enum ConnectionStatus {
    Disconnected,
    Connecting,
    Connected { my_player_id: u32, my_color_index: u8 },
    ConnectedSolo { my_player_id: u32, my_color_index: u8 },
    Reconnecting { attempt: u32, wait_ms: u32 },
}

impl ConnectionStatus {
    /// Online once the server has told the client who it is.
    pub fn is_online(&self) -> (r: bool)
        ensures
            r == (*self is Connected),
    {
        match self {
            ConnectionStatus::Connected { .. } => true,
            _ => false,
        }
    }

    /// The client's own player id, known once connected.
    pub open spec fn my_player_id_spec(self) -> Option<u32> {
        match self {
            ConnectionStatus::Connected { my_player_id, .. } => Some(my_player_id),
            ConnectionStatus::ConnectedSolo { my_player_id, .. } => Some(my_player_id),
            _ => None,
        }
    }

    pub fn my_player_id(&self) -> (r: Option<u32>)
        ensures
            r == self.my_player_id_spec(),
    {
        match self {
            ConnectionStatus::Connected { my_player_id, .. } => Some(*my_player_id),
            ConnectionStatus::ConnectedSolo { my_player_id, .. } => Some(*my_player_id),
            _ => None,
        }
    }

    /// What the connection indicator says.
    pub open spec fn indicator_text(self) -> Seq<char> {
        match self {
            ConnectionStatus::ConnectedSolo { .. } => "Solo (Online)"@,
            ConnectionStatus::Connected { .. } => "Online"@,
            _ => "Offline"@,
        }
    }

    pub fn indicator_label(&self) -> (r: &'static str)
        ensures
            r@ == self.indicator_text(),
    {
        match self {
            ConnectionStatus::ConnectedSolo { .. } => "Solo (Online)",
            ConnectionStatus::Connected { .. } => "Online",
            _ => "Offline",
        }
    }

    /// Playing alone while connected.
    pub fn is_solo(&self) -> (r: bool)
        ensures
            r == (*self is ConnectedSolo),
    {
        match self {
            ConnectionStatus::ConnectedSolo { .. } => true,
            _ => false,
        }
    }

    /// Whether server messages are read now, and as whom: while connecting
    /// the client does not know its id yet, once connected it does; alone,
    /// reconnecting or disconnected it reads nothing.
    pub fn reading_as(&self) -> (r: Option<Option<u32>>)
        ensures
            r == match *self {
                ConnectionStatus::Connecting => Some(None),
                ConnectionStatus::Connected { my_player_id, .. } => Some(Some(my_player_id)),
                _ => None::<Option<u32>>,
            },
    {
        match self {
            ConnectionStatus::Connecting => Some(None),
            ConnectionStatus::Connected { my_player_id, .. } => Some(Some(*my_player_id)),
            _ => None,
        }
    }

    /// Leaving the lobby to play alone: a connected client goes solo; any
    /// other status stays.
    pub fn enter_solo(&self) -> (r: ConnectionStatus)
        ensures
            r == match *self {
                ConnectionStatus::Connected { my_player_id, my_color_index } => {
                    ConnectionStatus::ConnectedSolo { my_player_id, my_color_index }
                },
                other => other,
            },
    {
        match *self {
            ConnectionStatus::Connected { my_player_id, my_color_index } => {
                ConnectionStatus::ConnectedSolo { my_player_id, my_color_index }
            },
            other => other,
        }
    }

    /// Back from playing alone: a solo client is connected again; any other
    /// status stays.
    pub fn leave_solo(&self) -> (r: ConnectionStatus)
        ensures
            r == match *self {
                ConnectionStatus::ConnectedSolo { my_player_id, my_color_index } => {
                    ConnectionStatus::Connected { my_player_id, my_color_index }
                },
                other => other,
            },
    {
        match *self {
            ConnectionStatus::ConnectedSolo { my_player_id, my_color_index } => {
                ConnectionStatus::Connected { my_player_id, my_color_index }
            },
            other => other,
        }
    }
}

/// The wait before the first reconnect attempt after the link was lost.
pub const FIRST_RECONNECT_WAIT_MS: u32 = 1000;

/// The link was lost: try again after a second.
pub fn connection_lost() -> (r: ConnectionStatus)
    ensures
        r == (ConnectionStatus::Reconnecting { attempt: 1, wait_ms: FIRST_RECONNECT_WAIT_MS }),
{
    ConnectionStatus::Reconnecting { attempt: 1, wait_ms: FIRST_RECONNECT_WAIT_MS }
}

/// Reconnect attempt `attempt` failed: the next one comes after the backoff
/// of this one.
pub fn reconnect_failed(attempt: u32) -> (r: ConnectionStatus)
    requires
        attempt < u32::MAX,
    ensures
        r == (ConnectionStatus::Reconnecting {
            attempt: (attempt + 1) as u32,
            wait_ms: (backoff_spec(attempt) * 1000) as u32,
        }),
{
    let secs = reconnect_backoff_secs(attempt);
    ConnectionStatus::Reconnecting { attempt: attempt + 1, wait_ms: secs * 1000 }
}

/// Lets the reconnect wait run; gives back whether an attempt is due now.
/// Any other status is left alone.
pub fn tick_reconnect(status: &mut ConnectionStatus, dt_ms: u32) -> (due: bool)
    ensures
        match *old(status) {
            ConnectionStatus::Reconnecting { attempt, wait_ms } => {
                &&& due == (wait_ms <= dt_ms)
                &&& *final(status) == ConnectionStatus::Reconnecting {
                    attempt,
                    wait_ms: if wait_ms <= dt_ms {
                        0
                    } else {
                        (wait_ms - dt_ms) as u32
                    },
                }
            },
            _ => !due && *final(status) == *old(status),
        },
{
    match status {
        ConnectionStatus::Reconnecting { attempt, wait_ms } => {
            let a = *attempt;
            let w = *wait_ms;
            let (left, due) = if w <= dt_ms {
                (0, true)
            } else {
                (w - dt_ms, false)
            };
            *status = ConnectionStatus::Reconnecting { attempt: a, wait_ms: left };
            due
        },
        _ => false,
    }
}

/// What the client does with one message from the server.
#[derive(Debug, Clone)]
pub enum ClientEvent {
    /// The first snapshot: the client now knows its id and colour, shows
    /// the other players and the beacons, and sends its name.
    Connected {
        my_player_id: u32,
        my_color_index: u8,
        others: Vec<PlayerState>,
        beacons: Vec<BeaconInfo>,
        name: String,
    },
    RemoteJoined(PlayerState),
    RemoteUpdated(Vec<PlayerState>),
    RemoteLeft { player_id: u32 },
    BeaconSpawned(BeaconInfo),
    BeaconResolved { beacon_id: u32, claimed_by: u32 },
    BeaconExpired { beacon_id: u32 },
    BeaconActivated { beacon_id: u32, activated_by: u32 },
    RemoteBallShot {
        player_id: u32,
        x_bits: u32,
        y_bits: u32,
        z_bits: u32,
        vx_bits: u32,
        vy_bits: u32,
        vz_bits: u32,
    },
    /// A round message, kept in the buffer for the round logic.
    Buffered,
    /// Nothing to do.
    Ignored,
}

/// The colour of the first listed player with the id, or 0.
pub open spec fn color_of(players: Seq<PlayerState>, player_id: u32) -> u8
    decreases players.len(),
{
    if players.len() == 0 {
        0
    } else if players[0].player_id == player_id {
        players[0].color_index
    } else {
        color_of(players.drop_first(), player_id)
    }
}

/// The listed players other than the one with the id, in order.
pub open spec fn others_of(players: Seq<PlayerState>, player_id: u32) -> Seq<PlayerState> {
    players.filter(|p: PlayerState| p.player_id != player_id)
}

/// The name the client announces: its own, or `"Player"` when it has none.
pub open spec fn announced_name(name: Seq<char>) -> Seq<char> {
    if name.len() == 0 {
        "Player"@
    } else {
        name
    }
}

fn color_in(players: &Vec<PlayerState>, player_id: u32) -> (r: u8)
    ensures
        r == color_of(players@, player_id),
{
    let mut i: usize = 0;
    assert(players@.skip(0) =~= players@);
    while i < players.len()
        invariant
            i <= players@.len(),
            color_of(players@, player_id) == color_of(players@.skip(i as int), player_id),
        decreases players@.len() - i,
    {
        assert(players@.skip(i as int).drop_first() =~= players@.skip(i + 1));
        if players[i].player_id == player_id {
            return players[i].color_index;
        }
        i = i + 1;
    }
    0
}

fn others_in(players: &Vec<PlayerState>, player_id: u32) -> (r: Vec<PlayerState>)
    ensures
        r@ == others_of(players@, player_id),
{
    let mut out: Vec<PlayerState> = Vec::new();
    let mut i: usize = 0;
    assert(players@.take(0) =~= Seq::<PlayerState>::empty());
    proof {
        reveal(Seq::filter);
    }
    while i < players.len()
        invariant
            i <= players@.len(),
            out@ == others_of(players@.take(i as int), player_id),
        decreases players@.len() - i,
    {
        proof {
            reveal(Seq::filter);
            assert(players@.take(i + 1).drop_last() =~= players@.take(i as int));
        }
        if players[i].player_id != player_id {
            out.push(players[i]);
        }
        i = i + 1;
    }
    assert(players@.take(i as int) =~= players@);
    out
}

/// Routes one decoded server message. Round messages go to the buffer (a
/// lobby marks it dirty; a score update of the client's own is dropped);
/// a snapshot only matters while the client does not know its id yet; the
/// client's own join and own shots are not shown again.
pub fn route_server_message(
    my_player_id: Option<u32>,
    msg: ServerMessage,
    player_name: &str,
    buffer: &mut RoundMessageBuffer,
) -> (r: ClientEvent)
    ensures
        match msg {
            ServerMessage::WorldSnapshot { your_player_id, players, beacons } => {
                &&& *final(buffer) == *old(buffer)
                &&& match my_player_id {
                    None => r matches ClientEvent::Connected {
                        my_player_id: id,
                        my_color_index,
                        others,
                        beacons: bs,
                        name,
                    } && id == your_player_id && my_color_index == color_of(
                        players@,
                        your_player_id,
                    ) && others@ == others_of(players@, your_player_id) && bs@ == beacons@
                        && name@ == announced_name(player_name@),
                    Some(_) => r is Ignored,
                }
            },
            ServerMessage::PlayerJoined(ps) => {
                &&& *final(buffer) == *old(buffer)
                &&& if my_player_id == Some(ps.player_id) {
                    r is Ignored
                } else {
                    r == ClientEvent::RemoteJoined(ps)
                }
            },
            ServerMessage::PlayerUpdate(players) => {
                &&& *final(buffer) == *old(buffer)
                &&& r matches ClientEvent::RemoteUpdated(ps) && ps@ == players@
            },
            ServerMessage::PlayerLeft { player_id } => {
                &&& *final(buffer) == *old(buffer)
                &&& r == ClientEvent::RemoteLeft { player_id }
            },
            ServerMessage::BeaconSpawned(info) => {
                &&& *final(buffer) == *old(buffer)
                &&& r == ClientEvent::BeaconSpawned(info)
            },
            ServerMessage::BeaconResolved { beacon_id, claimed_by } => {
                &&& *final(buffer) == *old(buffer)
                &&& r == ClientEvent::BeaconResolved { beacon_id, claimed_by }
            },
            ServerMessage::BeaconExpired { beacon_id } => {
                &&& *final(buffer) == *old(buffer)
                &&& r == ClientEvent::BeaconExpired { beacon_id }
            },
            ServerMessage::BeaconActivated { beacon_id, activated_by } => {
                &&& *final(buffer) == *old(buffer)
                &&& r == ClientEvent::BeaconActivated { beacon_id, activated_by }
            },
            ServerMessage::BallShot { player_id, x_bits, y_bits, z_bits, vx_bits, vy_bits, vz_bits } => {
                &&& *final(buffer) == *old(buffer)
                &&& if my_player_id == Some(player_id) {
                    r is Ignored
                } else {
                    r == ClientEvent::RemoteBallShot {
                        player_id,
                        x_bits,
                        y_bits,
                        z_bits,
                        vx_bits,
                        vy_bits,
                        vz_bits,
                    }
                }
            },
            ServerMessage::LobbyState { players } => {
                &&& r is Buffered
                &&& *final(buffer) == RoundMessageBuffer {
                    lobby_states: players,
                    lobby_dirty: true,
                    ..*old(buffer)
                }
            },
            ServerMessage::CountdownStart { seconds } => {
                &&& r is Buffered
                &&& *final(buffer) == RoundMessageBuffer { countdown: Some(seconds), ..*old(buffer) }
            },
            ServerMessage::RoundStart { round_time_ms } => {
                &&& r is Buffered
                &&& *final(buffer) == RoundMessageBuffer {
                    round_start: Some(round_time_ms),
                    ..*old(buffer)
                }
            },
            ServerMessage::RoundOver { scores } => {
                &&& r is Buffered
                &&& *final(buffer) == RoundMessageBuffer { round_over: Some(scores), ..*old(buffer) }
            },
            ServerMessage::ScoreUpdate { player_id, coins } => {
                if my_player_id == Some(player_id) {
                    &&& r is Ignored
                    &&& *final(buffer) == *old(buffer)
                } else {
                    &&& r is Buffered
                    &&& final(buffer).score_updates@ == old(buffer).score_updates@.push(
                        (player_id, coins),
                    )
                    &&& final(buffer).lobby_states == old(buffer).lobby_states
                    &&& final(buffer).lobby_dirty == old(buffer).lobby_dirty
                    &&& final(buffer).countdown == old(buffer).countdown
                    &&& final(buffer).round_start == old(buffer).round_start
                    &&& final(buffer).round_over == old(buffer).round_over
                }
            },
        },
{
    match msg {
        ServerMessage::WorldSnapshot { your_player_id, players, beacons } => {
            match my_player_id {
                None => {
                    let my_color_index = color_in(&players, your_player_id);
                    let others = others_in(&players, your_player_id);
                    let name = if player_name.is_empty() {
                        "Player".to_owned()
                    } else {
                        player_name.to_owned()
                    };
                    ClientEvent::Connected {
                        my_player_id: your_player_id,
                        my_color_index,
                        others,
                        beacons,
                        name,
                    }
                },
                Some(_) => ClientEvent::Ignored,
            }
        },
        ServerMessage::PlayerJoined(ps) => {
            if my_player_id == Some(ps.player_id) {
                ClientEvent::Ignored
            } else {
                ClientEvent::RemoteJoined(ps)
            }
        },
        ServerMessage::PlayerUpdate(players) => ClientEvent::RemoteUpdated(players),
        ServerMessage::PlayerLeft { player_id } => ClientEvent::RemoteLeft { player_id },
        ServerMessage::BeaconSpawned(info) => ClientEvent::BeaconSpawned(info),
        ServerMessage::BeaconResolved { beacon_id, claimed_by } => ClientEvent::BeaconResolved {
            beacon_id,
            claimed_by,
        },
        ServerMessage::BeaconExpired { beacon_id } => ClientEvent::BeaconExpired { beacon_id },
        ServerMessage::BeaconActivated { beacon_id, activated_by } => ClientEvent::BeaconActivated {
            beacon_id,
            activated_by,
        },
        ServerMessage::BallShot { player_id, x_bits, y_bits, z_bits, vx_bits, vy_bits, vz_bits } => {
            if my_player_id == Some(player_id) {
                ClientEvent::Ignored
            } else {
                ClientEvent::RemoteBallShot {
                    player_id,
                    x_bits,
                    y_bits,
                    z_bits,
                    vx_bits,
                    vy_bits,
                    vz_bits,
                }
            }
        },
        ServerMessage::LobbyState { players } => {
            buffer.lobby_states = players;
            buffer.lobby_dirty = true;
            ClientEvent::Buffered
        },
        ServerMessage::CountdownStart { seconds } => {
            buffer.countdown = Some(seconds);
            ClientEvent::Buffered
        },
        ServerMessage::RoundStart { round_time_ms } => {
            buffer.round_start = Some(round_time_ms);
            ClientEvent::Buffered
        },
        ServerMessage::RoundOver { scores } => {
            buffer.round_over = Some(scores);
            ClientEvent::Buffered
        },
        ServerMessage::ScoreUpdate { player_id, coins } => {
            if my_player_id == Some(player_id) {
                ClientEvent::Ignored
            } else {
                buffer.score_updates.push((player_id, coins));
                ClientEvent::Buffered
            }
        },
    }
}

/// The interval between position reports while connected, in
/// milliseconds.
pub const SEND_INTERVAL_MS: u32 = 100;

/// A clock that fires every period: time past a firing carries over to the
/// next period.
#[derive(Debug, Clone, Copy, PartialEq, Eq, Structural)]
pub struct RepeatingTimer {
    pub period_ms: u32,
    pub elapsed_ms: u32,
}

impl RepeatingTimer {
    pub fn new(period_ms: u32) -> (r: RepeatingTimer)
        requires
            period_ms > 0,
        ensures
            r == (RepeatingTimer { period_ms, elapsed_ms: 0 }),
    {
        RepeatingTimer { period_ms, elapsed_ms: 0 }
    }

    /// Lets the clock run; gives back whether it fired.
    pub fn tick(&mut self, dt_ms: u32) -> (fired: bool)
        requires
            old(self).period_ms > 0,
            old(self).elapsed_ms < old(self).period_ms,
        ensures
            final(self).period_ms == old(self).period_ms,
            fired == (old(self).elapsed_ms + dt_ms >= old(self).period_ms),
            final(self).elapsed_ms == (old(self).elapsed_ms + dt_ms) % (old(self).period_ms as int),
            final(self).elapsed_ms < final(self).period_ms,
    {
        let total: u64 = self.elapsed_ms as u64 + dt_ms as u64;
        let period: u64 = self.period_ms as u64;
        self.elapsed_ms = (total % period) as u32;
        total >= period
    }
}

} // verus!
