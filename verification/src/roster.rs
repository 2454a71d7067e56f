use vstd::prelude::*;

use crate::protocol::PlayerState;

verus! {

// The other players the client shows, kept in the order they appeared.

/// Another player in the client's world.
#[derive(Debug, Clone, Copy, PartialEq, Eq, Structural)]
pub struct RemotePlayer {
    pub player_id: u32,
    pub color_index: u8,
    pub tinted: bool,
}

/// The other players the client shows; each id at most once.
pub struct RemoteRoster {
    pub players: Vec<RemotePlayer>,
}

/// Whether the roster holds a player with the id.
pub open spec fn holds(s: Seq<RemotePlayer>, player_id: u32) -> bool {
    exists|i: int| 0 <= i < s.len() && #[trigger] s[i].player_id == player_id
}

/// Each id at most once.
pub open spec fn distinct_ids(s: Seq<RemotePlayer>) -> bool {
    forall|i: int, j: int|
        0 <= i < s.len() && 0 <= j < s.len() && i != j ==> #[trigger] s[i].player_id
            != #[trigger] s[j].player_id
}

impl RemoteRoster {
    pub fn new() -> (r: RemoteRoster)
        ensures
            r.players@.len() == 0,
    {
        RemoteRoster { players: Vec::new() }
    }

    fn position(&self, player_id: u32) -> (r: Option<usize>)
        ensures
            match r {
                Some(i) => i < self.players@.len() && self.players@[i as int].player_id == player_id,
                None => !holds(self.players@, player_id),
            },
    {
        let mut i: usize = 0;
        while i < self.players.len()
            invariant
                i <= self.players@.len(),
                forall|k: int| 0 <= k < i ==> #[trigger] self.players@[k].player_id != player_id,
            decreases self.players@.len() - i,
        {
            if self.players[i].player_id == player_id {
                return Some(i);
            }
            i = i + 1;
        }
        None
    }

    /// A player joined. While playing alone the client shows nobody; a
    /// player already shown is not added again. Gives back whether the
    /// player was added.
    pub fn joined(&mut self, playing_solo: bool, ps: &PlayerState) -> (added: bool)
        ensures
            added == (!playing_solo && !holds(old(self).players@, ps.player_id)),
            added ==> final(self).players@ == old(self).players@.push(
                RemotePlayer { player_id: ps.player_id, color_index: ps.color_index, tinted: false },
            ),
            !added ==> final(self).players@ == old(self).players@,
            distinct_ids(old(self).players@) ==> distinct_ids(final(self).players@),
    {
        if playing_solo {
            return false;
        }
        match self.position(ps.player_id) {
            Some(_) => false,
            None => {
                let ghost before = self.players@;
                self.players.push(
                    RemotePlayer { player_id: ps.player_id, color_index: ps.color_index, tinted: false },
                );
                proof {
                    let after = self.players@;
                    assert forall|i: int, j: int|
                        distinct_ids(before) && 0 <= i < after.len() && 0 <= j < after.len() && i
                            != j implies #[trigger] after[i].player_id
                        != #[trigger] after[j].player_id by {
                        if i == before.len() {
                            assert(before[j].player_id == after[j].player_id);
                        } else if j == before.len() {
                            assert(before[i].player_id == after[i].player_id);
                        }
                    }
                }
                true
            },
        }
    }

    /// A player left: they are no longer shown.
    pub fn left(&mut self, player_id: u32)
        ensures
            final(self).players@ == old(self).players@.filter(
                |p: RemotePlayer| p.player_id != player_id,
            ),
            !holds(final(self).players@, player_id),
    {
        let ghost start = self.players@;
        let mut kept: Vec<RemotePlayer> = Vec::new();
        let mut i: usize = 0;
        assert(start.take(0) =~= Seq::<RemotePlayer>::empty());
        proof {
            reveal(Seq::filter);
        }
        while i < self.players.len()
            invariant
                i <= self.players@.len(),
                self.players@ == start,
                kept@ == start.take(i as int).filter(|p: RemotePlayer| p.player_id != player_id),
                forall|k: int| 0 <= k < kept@.len() ==> #[trigger] kept@[k].player_id != player_id,
            decreases self.players@.len() - i,
        {
            proof {
                reveal(Seq::filter);
                assert(start.take(i + 1).drop_last() =~= start.take(i as int));
            }
            let p = self.players[i];
            if p.player_id != player_id {
                kept.push(p);
            }
            i = i + 1;
        }
        assert(start.take(i as int) =~= start);
        self.players = kept;
    }

    /// Going solo hides everyone.
    pub fn clear(&mut self)
        ensures
            final(self).players@.len() == 0,
    {
        self.players = Vec::new();
    }

    /// The states of a position update that move shown players: not the
    /// client's own, and only of players it shows, in the update's order.
    pub fn moves(&self, my_player_id: Option<u32>, states: &Vec<PlayerState>) -> (r: Vec<PlayerState>)
        ensures
            r@ == states@.filter(
                |ps: PlayerState|
                    Some(ps.player_id) != my_player_id && holds(self.players@, ps.player_id),
            ),
    {
        let mut out: Vec<PlayerState> = Vec::new();
        let mut i: usize = 0;
        assert(states@.take(0) =~= Seq::<PlayerState>::empty());
        proof {
            reveal(Seq::filter);
        }
        while i < states.len()
            invariant
                i <= states@.len(),
                out@ == states@.take(i as int).filter(
                    |ps: PlayerState|
                        Some(ps.player_id) != my_player_id && holds(self.players@, ps.player_id),
                ),
            decreases states@.len() - i,
        {
            proof {
                reveal(Seq::filter);
                assert(states@.take(i + 1).drop_last() =~= states@.take(i as int));
            }
            let ps = states[i];
            if Some(ps.player_id) != my_player_id {
                if self.position(ps.player_id).is_some() {
                    out.push(ps);
                }
            }
            i = i + 1;
        }
        assert(states@.take(i as int) =~= states@);
        out
    }
}

} // verus!
