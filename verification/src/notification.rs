use vstd::prelude::*;

use crate::leaderboard::MultiplayerRoundState;
use crate::network::ConnectionStatus;
use crate::protocol::LobbyPlayer;
use crate::text::{decimal, push_decimal, push_str, string_from_chars};

verus! {

/// The banner that tells a player busy elsewhere how many others wait in
/// the lobby.
#[derive(Debug, Clone, Copy, PartialEq, Eq, Structural)]
pub struct LobbyNotification {
    pub waiting_count: u32,
    pub dismissed: bool,
    pub last_count: u32,
}

impl Default for LobbyNotification {
    fn default() -> (r: LobbyNotification)
        ensures
            r == (LobbyNotification { waiting_count: 0, dismissed: false, last_count: 0 }),
    {
        LobbyNotification { waiting_count: 0, dismissed: false, last_count: 0 }
    }
}

/// The lobby players waiting for a round: neither ready nor playing alone,
/// and not the client itself.
pub open spec fn waiting_players(players: Seq<LobbyPlayer>, my_id: Option<u32>) -> Seq<LobbyPlayer> {
    players.filter(
        |p: LobbyPlayer| !p.playing_solo && !p.ready && Some(p.player_id) != my_id,
    )
}

/// The banner is kept up to date only while the player is away from the
/// lobby: alone, or in a shared round or its end.
pub open spec fn tracks_lobby(status: ConnectionStatus, round: MultiplayerRoundState) -> bool {
    status is ConnectedSolo || (status is Connected && (round is Playing || round is RoundOver))
}

/// `"1 player waiting in lobby"` or `"<n> players waiting in lobby"`.
pub open spec fn waiting_label_spec(n: u32) -> Seq<char> {
    if n == 1 {
        "1 player waiting in lobby"@
    } else {
        decimal(n as nat) + " players waiting in lobby"@
    }
}

fn count_waiting(players: &Vec<LobbyPlayer>, my_id: Option<u32>) -> (r: usize)
    ensures
        r == waiting_players(players@, my_id).len(),
{
    let mut n: usize = 0;
    let mut i: usize = 0;
    assert(players@.take(0) =~= Seq::<LobbyPlayer>::empty());
    proof {
        reveal(Seq::filter);
    }
    while i < players.len()
        invariant
            i <= players@.len(),
            n == waiting_players(players@.take(i as int), my_id).len(),
            n <= i,
        decreases players@.len() - i,
    {
        proof {
            reveal(Seq::filter);
            assert(players@.take(i + 1).drop_last() =~= players@.take(i as int));
        }
        let p = &players[i];
        if !p.playing_solo && !p.ready && Some(p.player_id) != my_id {
            n = n + 1;
        }
        i = i + 1;
    }
    assert(players@.take(i as int) =~= players@);
    n
}

impl LobbyNotification {
    /// Recounts the waiting players. Away from the lobby the banner follows
    /// the count, and comes back whenever the count changes; otherwise it
    /// is cleared.
    pub fn update(
        &mut self,
        status: &ConnectionStatus,
        round: MultiplayerRoundState,
        lobby: &Vec<LobbyPlayer>,
    )
        ensures
            !tracks_lobby(*status, round) ==> *final(self) == (LobbyNotification {
                waiting_count: 0,
                dismissed: false,
                last_count: 0,
            }),
            tracks_lobby(*status, round) ==> {
                let n = waiting_players(lobby@, status.my_player_id_spec()).len() as u32;
                &&& final(self).waiting_count == n
                &&& final(self).last_count == n
                &&& final(self).dismissed == (old(self).dismissed && n == old(self).last_count)
            },
    {
        let tracking = match status {
            ConnectionStatus::ConnectedSolo { .. } => true,
            ConnectionStatus::Connected { .. } => match round {
                MultiplayerRoundState::Playing | MultiplayerRoundState::RoundOver => true,
                _ => false,
            },
            _ => false,
        };
        if !tracking {
            self.waiting_count = 0;
            self.dismissed = false;
            self.last_count = 0;
            return;
        }
        let waiting = count_waiting(lobby, status.my_player_id()) as u32;
        if waiting != self.last_count {
            self.dismissed = false;
            self.last_count = waiting;
        }
        self.waiting_count = waiting;
    }

    /// The banner shows while someone waits and it was not dismissed.
    pub fn should_show(&self) -> (r: bool)
        ensures
            r == (self.waiting_count > 0 && !self.dismissed),
    {
        self.waiting_count > 0 && !self.dismissed
    }

    /// The player closed the banner.
    pub fn dismiss(&mut self)
        ensures
            *final(self) == (LobbyNotification { dismissed: true, ..*old(self) }),
    {
        self.dismissed = true;
    }

    /// The banner's text.
    pub fn label(&self) -> (r: String)
        ensures
            r@ == waiting_label_spec(self.waiting_count),
    {
        if self.waiting_count == 1 {
            return "1 player waiting in lobby".to_owned();
        }
        let mut v: Vec<char> = Vec::new();
        push_decimal(&mut v, self.waiting_count);
        push_str(&mut v, " players waiting in lobby");
        string_from_chars(&v)
    }
}

} // verus!
