use std::collections::{HashMap, HashSet};

use vstd::prelude::*;

use crate::difficulty::Difficulty;
use crate::exercise::{
    lemma_question_text_round_trip, parse_question_spec, question_text_spec, well_formed_choices,
    ExerciseData, Operation,
};
use crate::protocol::{
    AnimationState, BeaconInfo, ClientMessage, LobbyPlayer, PlayerScore, PlayerState, ServerMessage,
};
use crate::text::{
    chars_of, decimal, lemma_decimal_digits, push_decimal, slice_chars, string_from_chars, trim_chars, trim_spec,
};

verus! {

broadcast use vstd::std_specs::hash::group_hash_axioms;

/// Where the shared round stands; the times left are in milliseconds.
#[derive(Debug, Clone, Copy, PartialEq, Eq, Structural)]
pub enum RoundState {
    Lobby,
    Countdown(u32),
    Playing(u32),
    RoundOver(u32),
}

impl RoundState {
    pub fn is_playing(&self) -> (r: bool)
        ensures
            r == (*self is Playing),
    {
        match self {
            RoundState::Playing(_) => true,
            _ => false,
        }
    }
}

/// The state the server keeps of the shared world.
pub struct GameWorld {
    pub players: HashMap<u32, PlayerState>,
    pub beacons: HashMap<u32, BeaconInfo>,
    pub activated_beacons: HashSet<u32>,
    pub next_player_id: u32,
    pub next_beacon_id: u32,
    pub player_names: HashMap<u32, String>,
    pub player_ready: HashSet<u32>,
    pub player_coins: HashMap<u32, i32>,
    pub player_solo: HashSet<u32>,
    pub round_state: RoundState,
    pub difficulty: Difficulty,
}

/// The world as maps and sets.
pub struct WorldView {
    pub players: Map<u32, PlayerState>,
    pub beacons: Map<u32, BeaconInfo>,
    pub activated: Set<u32>,
    pub next_player_id: u32,
    pub next_beacon_id: u32,
    pub names: Map<u32, String>,
    pub ready: Set<u32>,
    pub coins: Map<u32, i32>,
    pub solo: Set<u32>,
    pub round_state: RoundState,
    pub difficulty: Difficulty,
}

impl View for GameWorld {
    type V = WorldView;

    open spec fn view(&self) -> WorldView {
        WorldView {
            players: self.players@,
            beacons: self.beacons@,
            activated: self.activated_beacons@,
            next_player_id: self.next_player_id,
            next_beacon_id: self.next_beacon_id,
            names: self.player_names@,
            ready: self.player_ready@,
            coins: self.player_coins@,
            solo: self.player_solo@,
            round_state: self.round_state,
            difficulty: self.difficulty,
        }
    }
}

impl WorldView {
    /// Every player and beacon id was handed out before and is the key it is
    /// stored under, and only present beacons can be activated.
    pub open spec fn wf(self) -> bool {
        &&& self.next_player_id >= 1
        &&& forall|id: u32| #[trigger]
            self.players.contains_key(id) ==> 1 <= id < self.next_player_id
                && self.players[id].player_id == id
        &&& forall|id: u32| #[trigger]
            self.beacons.contains_key(id) ==> id < self.next_beacon_id && self.beacons[id].beacon_id
                == id
        &&& forall|id: u32| #[trigger] self.activated.contains(id) ==> self.beacons.contains_key(id)
    }

    /// The named players who are not playing solo: those the round waits for.
    pub open spec fn active_players(self) -> Set<u32> {
        self.names.dom().filter(|id: u32| !self.solo.contains(id))
    }

    /// Whether a ready call from the lobby starts the countdown: at least two
    /// active players, and as many ready players as active ones.
    pub open spec fn all_ready(self) -> bool {
        &&& self.active_players().len() >= 2
        &&& self.ready.len() == self.active_players().len()
    }
}

/// `"Player <id>"`, the name of a player who has not given one.
pub open spec fn default_name(player_id: u32) -> Seq<char> {
    seq!['P', 'l', 'a', 'y', 'e', 'r', ' '] + decimal(player_id as nat)
}

/// The name shown for a player who has not given one.
pub fn default_player_name(player_id: u32) -> (r: String)
    ensures
        r@ == default_name(player_id),
{
    let mut v: Vec<char> = Vec::new();
    v.push('P');
    v.push('l');
    v.push('a');
    v.push('y');
    v.push('e');
    v.push('r');
    v.push(' ');
    push_decimal(&mut v, player_id);
    assert(v@ =~= default_name(player_id));
    string_from_chars(&v)
}

/// The colour slot a player id gets: ids 1, 2, ... cycle through six colours.
pub open spec fn color_for(player_id: u32) -> u8 {
    ((player_id - 1) % 6) as u8
}

/// A lobby entry shows a named player with their ready and solo flags.
pub open spec fn lobby_entry_of(w: WorldView, p: LobbyPlayer) -> bool {
    &&& w.names.contains_key(p.player_id)
    &&& p.name == w.names[p.player_id]
    &&& p.ready == w.ready.contains(p.player_id)
    &&& p.playing_solo == w.solo.contains(p.player_id)
}

/// The lobby listing: one entry for each named player, in some order.
pub open spec fn is_lobby_listing(w: WorldView, ps: Seq<LobbyPlayer>) -> bool {
    &&& ps.len() == w.names.dom().len()
    &&& forall|i: int| 0 <= i < ps.len() ==> lobby_entry_of(w, #[trigger] ps[i])
    &&& forall|i: int, j: int|
        0 <= i < ps.len() && 0 <= j < ps.len() && i != j ==> #[trigger] ps[i].player_id
            != #[trigger] ps[j].player_id
    &&& forall|id: u32|
        #[trigger] w.names.contains_key(id) ==> exists|i: int|
            0 <= i < ps.len() && #[trigger] ps[i].player_id == id
}

/// A final score shows a present player with their name (or the default
/// name) and their coins (or 0).
pub open spec fn score_entry_of(w: WorldView, s: PlayerScore) -> bool {
    &&& w.players.contains_key(s.player_id)
    &&& s.name@ == (if w.names.contains_key(s.player_id) {
        w.names[s.player_id]@
    } else {
        default_name(s.player_id)
    })
    &&& s.coins == (if w.coins.contains_key(s.player_id) {
        w.coins[s.player_id]
    } else {
        0
    })
}

/// The score listing: one entry for each player present, in some order.
pub open spec fn is_score_listing(w: WorldView, ss: Seq<PlayerScore>) -> bool {
    &&& ss.len() == w.players.dom().len()
    &&& forall|i: int| 0 <= i < ss.len() ==> score_entry_of(w, #[trigger] ss[i])
    &&& forall|i: int, j: int|
        0 <= i < ss.len() && 0 <= j < ss.len() && i != j ==> #[trigger] ss[i].player_id
            != #[trigger] ss[j].player_id
    &&& forall|id: u32|
        #[trigger] w.players.contains_key(id) ==> exists|i: int|
            0 <= i < ss.len() && #[trigger] ss[i].player_id == id
}

/// A listing of every value of a map whose values carry their own key.
pub open spec fn is_player_listing(m: Map<u32, PlayerState>, ps: Seq<PlayerState>) -> bool {
    &&& ps.len() == m.dom().len()
    &&& forall|i: int|
        0 <= i < ps.len() ==> m.contains_key(#[trigger] ps[i].player_id) && m[ps[i].player_id]
            == ps[i]
    &&& forall|id: u32|
        #[trigger] m.contains_key(id) ==> exists|i: int|
            0 <= i < ps.len() && #[trigger] ps[i].player_id == id
}

/// Two places of an iteration over a map's entries hold different keys.
pub proof fn lemma_iteration_keys_distinct<V>(m: Map<u32, V>, s: Seq<(&u32, &V)>, i: int, j: int)
    requires
        m.dom().finite(),
        s.len() == m.dom().len(),
        forall|k: int|
            #![trigger s[k]]
            0 <= k < s.len() ==> m.contains_key(*s[k].0) && m[*s[k].0] == *s[k].1,
        forall|k: u32| #[trigger] m.contains_key(k) ==> s.contains((&k, &m[k])),
        0 <= i < s.len(),
        0 <= j < s.len(),
        i != j,
    ensures
        *s[i].0 != *s[j].0,
{
    let ks = s.map_values(|p: (&u32, &V)| *p.0);
    assert forall|k: u32| #[trigger] ks.to_set().contains(k) <==> m.dom().contains(k) by {
        if m.dom().contains(k) {
            assert(s.contains((&k, &m[k])));
            let x = choose|x: int| 0 <= x < s.len() && s[x] == (&k, &m[k]);
            assert(ks[x] == k);
        }
        if ks.to_set().contains(k) {
            let x = choose|x: int| 0 <= x < ks.len() && ks[x] == k;
            assert(m.contains_key(*s[x].0));
        }
    }
    assert(ks.to_set() =~= m.dom());
    ks.lemma_no_dup_set_cardinality();
    assert(ks[i] == *s[i].0 && ks[j] == *s[j].0);
}

impl GameWorld {
    /// An empty world in the lobby, on Easy, handing out ids from 1.
    pub fn new() -> (w: GameWorld)
        ensures
            w@.wf(),
            w@.players == Map::<u32, PlayerState>::empty(),
            w@.beacons == Map::<u32, BeaconInfo>::empty(),
            w@.activated == Set::<u32>::empty(),
            w@.next_player_id == 1,
            w@.next_beacon_id == 1,
            w@.names == Map::<u32, String>::empty(),
            w@.ready == Set::<u32>::empty(),
            w@.coins == Map::<u32, i32>::empty(),
            w@.solo == Set::<u32>::empty(),
            w@.round_state == RoundState::Lobby,
            w@.difficulty == Difficulty::Easy,
    {
        GameWorld {
            players: HashMap::new(),
            beacons: HashMap::new(),
            activated_beacons: HashSet::new(),
            next_player_id: 1,
            next_beacon_id: 1,
            player_names: HashMap::new(),
            player_ready: HashSet::new(),
            player_coins: HashMap::new(),
            player_solo: HashSet::new(),
            round_state: RoundState::Lobby,
            difficulty: Difficulty::Easy,
        }
    }

    /// Adds a player with the next free id, standing idle at the origin.
    pub fn add_player(&mut self) -> (state: PlayerState)
        requires
            old(self)@.wf(),
            old(self).next_player_id < u32::MAX,
        ensures
            final(self)@.wf(),
            state.player_id == old(self).next_player_id,
            !old(self)@.players.contains_key(state.player_id),
            state == (PlayerState {
                player_id: state.player_id,
                color_index: color_for(state.player_id),
                x_bits: 0,
                y_bits: 0,
                z_bits: 0,
                yaw_bits: 0,
                animation: AnimationState::Idle,
            }),
            final(self)@ == (WorldView {
                players: old(self)@.players.insert(state.player_id, state),
                next_player_id: (old(self).next_player_id + 1) as u32,
                ..old(self)@
            }),
    {
        let id = self.next_player_id;
        self.next_player_id = self.next_player_id + 1;
        let state = PlayerState {
            player_id: id,
            color_index: ((id - 1) % 6) as u8,
            x_bits: 0,
            y_bits: 0,
            z_bits: 0,
            yaw_bits: 0,
            animation: AnimationState::Idle,
        };
        self.players.insert(id, state);
        state
    }

    /// Forgets a player: their state, name, ready and solo flags and coins.
    pub fn remove_player(&mut self, player_id: u32)
        requires
            old(self)@.wf(),
        ensures
            final(self)@.wf(),
            final(self)@ == (WorldView {
                players: old(self)@.players.remove(player_id),
                names: old(self)@.names.remove(player_id),
                ready: old(self)@.ready.remove(player_id),
                solo: old(self)@.solo.remove(player_id),
                coins: old(self)@.coins.remove(player_id),
                ..old(self)@
            }),
    {
        self.players.remove(&player_id);
        self.player_names.remove(&player_id);
        self.player_ready.remove(&player_id);
        self.player_solo.remove(&player_id);
        self.player_coins.remove(&player_id);
    }

    /// The round time limit of the chosen difficulty, in seconds.
    pub fn round_time(&self) -> (r: u32)
        ensures
            r == self.difficulty.round_time_spec(),
    {
        self.difficulty.round_time()
    }
}


impl GameWorld {
    /// The lobby as the clients are shown it.
    pub fn build_lobby_players(&self) -> (r: Vec<LobbyPlayer>)
        ensures
            is_lobby_listing(self@, r@),
    {
        let mut out: Vec<LobbyPlayer> = Vec::new();
        let ghost m = self.player_names@;
        for pair in it: self.player_names.iter()
            invariant
                out@.len() == it.index(),
                m == self.player_names@,
                it.seq().len() == m.dom().len(),
                forall|i: int|
                    #![trigger it.seq()[i]]
                    0 <= i < it.seq().len() ==> m.contains_key(*it.seq()[i].0) && m[*it.seq()[i].0]
                        == *it.seq()[i].1,
                forall|k: u32| #[trigger] m.contains_key(k) ==> it.seq().contains((&k, &m[k])),
                forall|i: int|
                    0 <= i < out@.len() ==> out@[i].player_id == *it.seq()[i].0 && lobby_entry_of(
                        self@,
                        #[trigger] out@[i],
                    ),
                forall|i: int, j: int|
                    0 <= i < out@.len() && 0 <= j < out@.len() && i != j ==> #[trigger] out@[i].player_id
                        != #[trigger] out@[j].player_id,
                forall|k: u32|
                    #[trigger] m.contains_key(k) ==> (exists|i: int|
                        0 <= i < out@.len() && #[trigger] out@[i].player_id == k) || (exists|i: int|
                        out@.len() <= i < it.seq().len() && #[trigger] it.seq()[i] == (&k, &m[k])),
        {
            let id: u32 = *pair.0;
            let entry = LobbyPlayer {
                player_id: id,
                name: pair.1.clone(),
                ready: self.player_ready.contains(&id),
                playing_solo: self.player_solo.contains(&id),
            };
            proof {
                let n = out@.len() as int;
                assert forall|j: int| 0 <= j < n implies out@[j].player_id != id by {
                    lemma_iteration_keys_distinct(m, it.seq(), n, j);
                }
            }
            let ghost before = out@;
            out.push(entry);
            proof {
                assert forall|k: u32| #[trigger] m.contains_key(k) implies (exists|i: int|
                    0 <= i < out@.len() && #[trigger] out@[i].player_id == k) || (exists|i: int|
                    out@.len() <= i < it.seq().len() && #[trigger] it.seq()[i] == (&k, &m[k])) by {
                    if exists|i: int| 0 <= i < before.len() && #[trigger] before[i].player_id == k {
                        let i = choose|i: int|
                            0 <= i < before.len() && #[trigger] before[i].player_id == k;
                        assert(out@[i].player_id == k);
                    } else {
                        let i = choose|i: int|
                            before.len() <= i < it.seq().len() && #[trigger] it.seq()[i] == (&k, &m[k]);
                        if i == before.len() {
                            assert(out@[i].player_id == k);
                        }
                    }
                }
            }
        }
        out
    }

    /// The final scores, one for each player present.
    pub fn build_scores(&self) -> (r: Vec<PlayerScore>)
        ensures
            is_score_listing(self@, r@),
    {
        let mut out: Vec<PlayerScore> = Vec::new();
        let ghost m = self.players@;
        for pair in it: self.players.iter()
            invariant
                out@.len() == it.index(),
                m == self.players@,
                it.seq().len() == m.dom().len(),
                forall|i: int|
                    #![trigger it.seq()[i]]
                    0 <= i < it.seq().len() ==> m.contains_key(*it.seq()[i].0) && m[*it.seq()[i].0]
                        == *it.seq()[i].1,
                forall|k: u32| #[trigger] m.contains_key(k) ==> it.seq().contains((&k, &m[k])),
                forall|i: int|
                    0 <= i < out@.len() ==> out@[i].player_id == *it.seq()[i].0 && score_entry_of(
                        self@,
                        #[trigger] out@[i],
                    ),
                forall|i: int, j: int|
                    0 <= i < out@.len() && 0 <= j < out@.len() && i != j ==> #[trigger] out@[i].player_id
                        != #[trigger] out@[j].player_id,
                forall|k: u32|
                    #[trigger] m.contains_key(k) ==> (exists|i: int|
                        0 <= i < out@.len() && #[trigger] out@[i].player_id == k) || (exists|i: int|
                        out@.len() <= i < it.seq().len() && #[trigger] it.seq()[i] == (&k, &m[k])),
        {
            let id: u32 = *pair.0;
            let name = match self.player_names.get(&id) {
                Some(n) => n.clone(),
                None => default_player_name(id),
            };
            let coins = match self.player_coins.get(&id) {
                Some(c) => *c,
                None => 0,
            };
            let entry = PlayerScore { player_id: id, name, coins };
            proof {
                let n = out@.len() as int;
                assert forall|j: int| 0 <= j < n implies out@[j].player_id != id by {
                    lemma_iteration_keys_distinct(m, it.seq(), n, j);
                }
            }
            let ghost before = out@;
            out.push(entry);
            proof {
                assert forall|k: u32| #[trigger] m.contains_key(k) implies (exists|i: int|
                    0 <= i < out@.len() && #[trigger] out@[i].player_id == k) || (exists|i: int|
                    out@.len() <= i < it.seq().len() && #[trigger] it.seq()[i] == (&k, &m[k])) by {
                    if exists|i: int| 0 <= i < before.len() && #[trigger] before[i].player_id == k {
                        let i = choose|i: int|
                            0 <= i < before.len() && #[trigger] before[i].player_id == k;
                        assert(out@[i].player_id == k);
                    } else {
                        let i = choose|i: int|
                            before.len() <= i < it.seq().len() && #[trigger] it.seq()[i] == (&k, &m[k]);
                        if i == before.len() {
                            assert(out@[i].player_id == k);
                        }
                    }
                }
            }
        }
        out
    }

    /// The states of all players present.
    pub fn player_states(&self) -> (r: Vec<PlayerState>)
        requires
            self@.wf(),
        ensures
            is_player_listing(self@.players, r@),
    {
        let mut out: Vec<PlayerState> = Vec::new();
        let ghost m = self.players@;
        for pair in it: self.players.iter()
            invariant
                out@.len() == it.index(),
                m == self.players@,
                self@.wf(),
                it.seq().len() == m.dom().len(),
                forall|i: int|
                    #![trigger it.seq()[i]]
                    0 <= i < it.seq().len() ==> m.contains_key(*it.seq()[i].0) && m[*it.seq()[i].0]
                        == *it.seq()[i].1,
                forall|k: u32| #[trigger] m.contains_key(k) ==> it.seq().contains((&k, &m[k])),
                forall|i: int|
                    0 <= i < out@.len() ==> out@[i].player_id == *it.seq()[i].0 && m.contains_key(
                        #[trigger] out@[i].player_id,
                    ) && m[out@[i].player_id] == out@[i],
                forall|k: u32|
                    #[trigger] m.contains_key(k) ==> (exists|i: int|
                        0 <= i < out@.len() && #[trigger] out@[i].player_id == k) || (exists|i: int|
                        out@.len() <= i < it.seq().len() && #[trigger] it.seq()[i] == (&k, &m[k])),
        {
            let state: PlayerState = *pair.1;
            let ghost before = out@;
            out.push(state);
            proof {
                assert forall|k: u32| #[trigger] m.contains_key(k) implies (exists|i: int|
                    0 <= i < out@.len() && #[trigger] out@[i].player_id == k) || (exists|i: int|
                    out@.len() <= i < it.seq().len() && #[trigger] it.seq()[i] == (&k, &m[k])) by {
                    if exists|i: int| 0 <= i < before.len() && #[trigger] before[i].player_id == k {
                        let i = choose|i: int|
                            0 <= i < before.len() && #[trigger] before[i].player_id == k;
                        assert(out@[i].player_id == k);
                    } else {
                        let i = choose|i: int|
                            before.len() <= i < it.seq().len() && #[trigger] it.seq()[i] == (&k, &m[k]);
                        if i == before.len() {
                            assert(out@[i].player_id == k);
                        }
                    }
                }
            }
        }
        out
    }

    /// How many named players are not playing solo.
    pub fn count_active_players(&self) -> (r: usize)
        ensures
            r == self@.active_players().len(),
    {
        let mut count: usize = 0;
        let total = self.player_names.len();
        let ghost m = self.player_names@;
        let ghost pred = |id: u32| !self.player_solo@.contains(id);
        let ghost mut seen: Set<u32> = Set::empty();
        for pair in it: self.player_names.iter()
            invariant
                m == self.player_names@,
                pred == (|id: u32| !self.player_solo@.contains(id)),
                it.seq().len() == m.dom().len(),
                total == m.dom().len(),
                forall|i: int|
                    #![trigger it.seq()[i]]
                    0 <= i < it.seq().len() ==> m.contains_key(*it.seq()[i].0) && m[*it.seq()[i].0]
                        == *it.seq()[i].1,
                forall|k: u32| #[trigger] m.contains_key(k) ==> it.seq().contains((&k, &m[k])),
                seen.finite(),
                count == seen.len(),
                count <= it.index(),
                forall|k: u32|
                    #[trigger] seen.contains(k) <==> (pred(k) && exists|i: int|
                        0 <= i < it.index() && #[trigger] it.seq()[i].0 == k),
                forall|k: u32| #[trigger] seen.contains(k) ==> pred(k) && m.contains_key(k),
                forall|k: u32|
                    #[trigger] m.contains_key(k) && pred(k) ==> seen.contains(k) || (exists|i: int|
                        it.index() <= i < it.seq().len() && #[trigger] it.seq()[i] == (&k, &m[k])),
        {
            let id: u32 = *pair.0;
            let ghost n = it.index();
            if !self.player_solo.contains(&id) {
                proof {
                    assert(!seen.contains(id)) by {
                        if seen.contains(id) {
                            let i = choose|i: int| 0 <= i < n && #[trigger] it.seq()[i].0 == id;
                            lemma_iteration_keys_distinct(m, it.seq(), n as int, i);
                        }
                    }
                    seen = seen.insert(id);
                }
                count = count + 1;
            }
            proof {
                assert forall|k: u32| #[trigger] seen.contains(k) <==> (pred(k) && exists|i: int|
                    0 <= i < n + 1 && #[trigger] it.seq()[i].0 == k) by {
                    if k == id {
                        assert(it.seq()[n].0 == k);
                    }
                }
                assert forall|k: u32| #[trigger] m.contains_key(k) && pred(k) implies seen.contains(k)
                    || (exists|i: int|
                    n + 1 <= i < it.seq().len() && #[trigger] it.seq()[i] == (&k, &m[k])) by {
                    if !seen.contains(k) {
                        let i = choose|i: int|
                            n <= i < it.seq().len() && #[trigger] it.seq()[i] == (&k, &m[k]);
                        if i == n {
                            assert(it.seq()[n].0 == k);
                        }
                    }
                }
            }
        }
        assert(seen =~= self@.active_players());
        count
    }
}


/// What answering a beacon does: a correct answer to a beacon still in the
/// world claims it for the player, removes it and tells everyone; anything
/// else changes nothing and says nothing.
pub open spec fn answer_outcome(w: WorldView, player_id: u32, beacon_id: u32, correct: bool) -> (
    WorldView,
    Seq<ServerMessage>,
) {
    if correct && w.beacons.contains_key(beacon_id) {
        (
            WorldView {
                beacons: w.beacons.remove(beacon_id),
                activated: w.activated.remove(beacon_id),
                ..w
            },
            seq![ServerMessage::BeaconResolved { beacon_id, claimed_by: player_id }],
        )
    } else {
        (w, Seq::empty())
    }
}

/// What activating a beacon does: the first activation of a beacon still in
/// the world marks it and tells everyone who activated it; any other
/// activation changes nothing and says nothing.
pub open spec fn activate_outcome(w: WorldView, player_id: u32, beacon_id: u32) -> (
    WorldView,
    Seq<ServerMessage>,
) {
    if w.beacons.contains_key(beacon_id) && !w.activated.contains(beacon_id) {
        (
            WorldView { activated: w.activated.insert(beacon_id), ..w },
            seq![ServerMessage::BeaconActivated { beacon_id, activated_by: player_id }],
        )
    } else {
        (w, Seq::empty())
    }
}

/// What a state update does: a present player's state is replaced, under
/// their own id whatever id the update claims.
pub open spec fn update_state_outcome(w: WorldView, player_id: u32, state: PlayerState) -> WorldView {
    if w.players.contains_key(player_id) {
        WorldView {
            players: w.players.insert(player_id, PlayerState { player_id, ..state }),
            ..w
        }
    } else {
        w
    }
}

/// The difficulty can only be chosen in the lobby.
pub open spec fn difficulty_outcome(w: WorldView, difficulty: Difficulty) -> WorldView {
    if w.round_state is Lobby {
        WorldView { difficulty, ..w }
    } else {
        w
    }
}

/// The world after a ready call: in the lobby the player is marked ready,
/// and the countdown of three seconds starts once every active player is
/// ready and there are at least two of them; outside the lobby nothing
/// changes.
pub open spec fn ready_world(w: WorldView, player_id: u32) -> WorldView {
    if w.round_state is Lobby {
        let marked = WorldView { ready: w.ready.insert(player_id), ..w };
        if marked.all_ready() {
            WorldView { round_state: RoundState::Countdown(3000), ..marked }
        } else {
            marked
        }
    } else {
        w
    }
}

/// The messages of a ready call: outside the lobby none; in the lobby the
/// new lobby listing, followed by the countdown start when it starts.
pub open spec fn ready_messages(w: WorldView, player_id: u32, out: Seq<ServerMessage>) -> bool {
    if w.round_state is Lobby {
        let marked = WorldView { ready: w.ready.insert(player_id), ..w };
        &&& out.len() == (if marked.all_ready() {
            2int
        } else {
            1int
        })
        &&& out[0] matches ServerMessage::LobbyState { players } && is_lobby_listing(
            marked,
            players@,
        )
        &&& marked.all_ready() ==> out[1] == (ServerMessage::CountdownStart { seconds: 3 })
    } else {
        out.len() == 0
    }
}

/// The world after a player goes solo: marked solo and no longer ready.
pub open spec fn enter_solo_world(w: WorldView, player_id: u32) -> WorldView {
    WorldView { solo: w.solo.insert(player_id), ready: w.ready.remove(player_id), ..w }
}

/// The world after a player stops playing solo.
pub open spec fn leave_solo_world(w: WorldView, player_id: u32) -> WorldView {
    WorldView { solo: w.solo.remove(player_id), ..w }
}

/// A single lobby listing of the given world.
pub open spec fn lobby_message(w: WorldView, out: Seq<ServerMessage>) -> bool {
    &&& out.len() == 1
    &&& out[0] matches ServerMessage::LobbyState { players } && is_lobby_listing(w, players@)
}

/// A player name as the server keeps it: trimmed and cut to 20 characters,
/// or `"Player <id>"` when nothing is left.
pub open spec fn sanitized_name(name: Seq<char>, player_id: u32) -> Seq<char> {
    let t = trim_spec(name);
    let kept = if t.len() > 20 {
        t.take(20)
    } else {
        t
    };
    if kept.len() == 0 {
        default_name(player_id)
    } else {
        kept
    }
}

/// Trims a name and keeps its first 20 characters, falling back to
/// `"Player <id>"` when nothing is left.
pub fn sanitize_name(name: &str, player_id: u32) -> (r: String)
    ensures
        r@ == sanitized_name(name@, player_id),
{
    let chars = chars_of(name);
    let trimmed = trim_chars(&chars);
    let n = trimmed.len();
    let keep = if n > 20 {
        20
    } else {
        n
    };
    if keep == 0 {
        default_player_name(player_id)
    } else {
        let kept = slice_chars(&trimmed, 0, keep);
        assert(kept@ =~= (if trimmed@.len() > 20 {
            trimmed@.take(20)
        } else {
            trimmed@
        }));
        string_from_chars(&kept)
    }
}

/// What a client message does to the world and what the server broadcasts
/// in answer.
pub open spec fn client_message_effect(
    w: WorldView,
    w2: WorldView,
    player_id: u32,
    msg: ClientMessage,
    out: Seq<ServerMessage>,
) -> bool {
    match msg {
        ClientMessage::UpdateState(state) => w2 == update_state_outcome(w, player_id, state)
            && out.len() == 0,
        ClientMessage::AnswerBeacon { beacon_id, correct } => (w2, out) == answer_outcome(
            w,
            player_id,
            beacon_id,
            correct,
        ),
        ClientMessage::ActivateBeacon { beacon_id } => (w2, out) == activate_outcome(
            w,
            player_id,
            beacon_id,
        ),
        ClientMessage::ShootBall { x_bits, y_bits, z_bits, vx_bits, vy_bits, vz_bits } => w2 == w
            && out == seq![
            ServerMessage::BallShot {
                player_id,
                x_bits,
                y_bits,
                z_bits,
                vx_bits,
                vy_bits,
                vz_bits,
            },
        ],
        ClientMessage::SetName { name } => {
            &&& w2.names.contains_key(player_id)
            &&& w2.names[player_id]@ == sanitized_name(name@, player_id)
            &&& w2 == (WorldView { names: w.names.insert(player_id, w2.names[player_id]), ..w })
            &&& lobby_message(w2, out)
        },
        ClientMessage::SetDifficulty { difficulty } => w2 == difficulty_outcome(w, difficulty)
            && out.len() == 0,
        ClientMessage::Ready => w2 == ready_world(w, player_id) && ready_messages(
            w,
            player_id,
            out,
        ),
        ClientMessage::UpdateScore { coins } => w2 == (WorldView {
            coins: w.coins.insert(player_id, coins),
            ..w
        }) && out == seq![ServerMessage::ScoreUpdate { player_id, coins }],
        ClientMessage::EnterSolo => w2 == enter_solo_world(w, player_id) && lobby_message(w2, out),
        ClientMessage::LeaveSolo => w2 == leave_solo_world(w, player_id) && lobby_message(w2, out),
        ClientMessage::StartRoundNow => w2 == w && out.len() == 0,
    }
}

impl GameWorld {
    /// Replaces a present player's state, keeping their own id.
    pub fn update_state(&mut self, player_id: u32, state: PlayerState)
        requires
            old(self)@.wf(),
        ensures
            final(self)@.wf(),
            final(self)@ == update_state_outcome(old(self)@, player_id, state),
    {
        if self.players.contains_key(&player_id) {
            let fixed = PlayerState { player_id, ..state };
            self.players.insert(player_id, fixed);
        }
    }

    /// Claims a beacon for the player who answered it correctly.
    pub fn answer_beacon(&mut self, player_id: u32, beacon_id: u32, correct: bool) -> (r: Vec<
        ServerMessage,
    >)
        requires
            old(self)@.wf(),
        ensures
            final(self)@.wf(),
            (final(self)@, r@) == answer_outcome(old(self)@, player_id, beacon_id, correct),
    {
        let mut out: Vec<ServerMessage> = Vec::new();
        if correct {
            let removed = self.beacons.remove(&beacon_id);
            if removed.is_some() {
                self.activated_beacons.remove(&beacon_id);
                out.push(ServerMessage::BeaconResolved { beacon_id, claimed_by: player_id });
            }
            proof {
                let w = old(self)@;
                assert(removed.is_some() == w.beacons.contains_key(beacon_id));
                assert(self.beacons@ =~= w.beacons.remove(beacon_id));
                if removed.is_some() {
                    assert(self.activated_beacons@ =~= w.activated.remove(beacon_id));
                } else {
                    assert(self.activated_beacons@ =~= w.activated);
                    assert(self.beacons@ =~= w.beacons);
                }
                assert forall|id: u32| #[trigger] self@.activated.contains(id) implies self@.beacons.contains_key(id) by {
                    assert(w.activated.contains(id));
                    assert(w.beacons.contains_key(id));
                }
                assert forall|id: u32| #[trigger] self@.beacons.contains_key(id) implies id < self@.next_beacon_id && self@.beacons[id].beacon_id == id by {
                    assert(w.beacons.contains_key(id));
                }
            }
        }
        out
    }

    /// Marks a beacon as activated by the player, if nobody activated it yet.
    pub fn activate_beacon(&mut self, player_id: u32, beacon_id: u32) -> (r: Vec<ServerMessage>)
        requires
            old(self)@.wf(),
        ensures
            final(self)@.wf(),
            (final(self)@, r@) == activate_outcome(old(self)@, player_id, beacon_id),
    {
        let mut out: Vec<ServerMessage> = Vec::new();
        if self.beacons.contains_key(&beacon_id) && !self.activated_beacons.contains(&beacon_id) {
            self.activated_beacons.insert(beacon_id);
            out.push(ServerMessage::BeaconActivated { beacon_id, activated_by: player_id });
            proof {
                let w = old(self)@;
                assert(self.activated_beacons@ =~= w.activated.insert(beacon_id));
                assert forall|id: u32| #[trigger] self@.activated.contains(id) implies self@.beacons.contains_key(id) by {
                    if id != beacon_id {
                        assert(w.activated.contains(id));
                    }
                }
            }
        }
        out
    }

    /// Records the player's (sanitized) name and lists the lobby.
    pub fn set_name(&mut self, player_id: u32, name: &str) -> (r: Vec<ServerMessage>)
        requires
            old(self)@.wf(),
        ensures
            final(self)@.wf(),
            final(self)@.names.contains_key(player_id),
            final(self)@.names[player_id]@ == sanitized_name(name@, player_id),
            final(self)@ == (WorldView {
                names: old(self)@.names.insert(player_id, final(self)@.names[player_id]),
                ..old(self)@
            }),
            lobby_message(final(self)@, r@),
    {
        let clean = sanitize_name(name, player_id);
        self.player_names.insert(player_id, clean);
        let players = self.build_lobby_players();
        let mut out: Vec<ServerMessage> = Vec::new();
        out.push(ServerMessage::LobbyState { players });
        out
    }

    /// Chooses the difficulty, which only the lobby allows.
    pub fn set_difficulty(&mut self, difficulty: Difficulty)
        requires
            old(self)@.wf(),
        ensures
            final(self)@.wf(),
            final(self)@ == difficulty_outcome(old(self)@, difficulty),
    {
        if self.round_state == RoundState::Lobby {
            self.difficulty = difficulty;
        }
    }

    /// Marks the player ready and starts the countdown once everyone is.
    pub fn mark_ready(&mut self, player_id: u32) -> (r: Vec<ServerMessage>)
        requires
            old(self)@.wf(),
        ensures
            final(self)@.wf(),
            final(self)@ == ready_world(old(self)@, player_id),
            ready_messages(old(self)@, player_id, r@),
    {
        let mut out: Vec<ServerMessage> = Vec::new();
        if self.round_state != RoundState::Lobby {
            return out;
        }
        self.player_ready.insert(player_id);
        let players = self.build_lobby_players();
        out.push(ServerMessage::LobbyState { players });
        let total_active = self.count_active_players();
        let total_ready = self.player_ready.len();
        if total_active >= 2 && total_ready == total_active {
            self.round_state = RoundState::Countdown(3000);
            out.push(ServerMessage::CountdownStart { seconds: 3 });
        }
        out
    }

    /// Records the player's coins and tells everyone.
    pub fn update_score(&mut self, player_id: u32, coins: i32) -> (r: Vec<ServerMessage>)
        requires
            old(self)@.wf(),
        ensures
            final(self)@.wf(),
            final(self)@ == (WorldView { coins: old(self)@.coins.insert(player_id, coins), ..old(self)@ }),
            r@ == seq![ServerMessage::ScoreUpdate { player_id, coins }],
    {
        self.player_coins.insert(player_id, coins);
        let mut out: Vec<ServerMessage> = Vec::new();
        out.push(ServerMessage::ScoreUpdate { player_id, coins });
        out
    }

    /// The player leaves the shared round to play alone.
    pub fn enter_solo(&mut self, player_id: u32) -> (r: Vec<ServerMessage>)
        requires
            old(self)@.wf(),
        ensures
            final(self)@.wf(),
            final(self)@ == enter_solo_world(old(self)@, player_id),
            lobby_message(final(self)@, r@),
    {
        self.player_solo.insert(player_id);
        self.player_ready.remove(&player_id);
        let players = self.build_lobby_players();
        let mut out: Vec<ServerMessage> = Vec::new();
        out.push(ServerMessage::LobbyState { players });
        out
    }

    /// The player comes back from playing alone.
    pub fn leave_solo(&mut self, player_id: u32) -> (r: Vec<ServerMessage>)
        requires
            old(self)@.wf(),
        ensures
            final(self)@.wf(),
            final(self)@ == leave_solo_world(old(self)@, player_id),
            lobby_message(final(self)@, r@),
    {
        self.player_solo.remove(&player_id);
        let players = self.build_lobby_players();
        let mut out: Vec<ServerMessage> = Vec::new();
        out.push(ServerMessage::LobbyState { players });
        out
    }

    /// Handles a message from a connected player and gives back what to
    /// broadcast.
    pub fn handle_client_message(&mut self, player_id: u32, msg: ClientMessage) -> (r: Vec<
        ServerMessage,
    >)
        requires
            old(self)@.wf(),
        ensures
            final(self)@.wf(),
            client_message_effect(old(self)@, final(self)@, player_id, msg, r@),
    {
        match msg {
            ClientMessage::UpdateState(state) => {
                self.update_state(player_id, state);
                Vec::new()
            },
            ClientMessage::AnswerBeacon { beacon_id, correct } => self.answer_beacon(
                player_id,
                beacon_id,
                correct,
            ),
            ClientMessage::ShootBall { x_bits, y_bits, z_bits, vx_bits, vy_bits, vz_bits } => {
                let mut out: Vec<ServerMessage> = Vec::new();
                out.push(
                    ServerMessage::BallShot {
                        player_id,
                        x_bits,
                        y_bits,
                        z_bits,
                        vx_bits,
                        vy_bits,
                        vz_bits,
                    },
                );
                out
            },
            ClientMessage::ActivateBeacon { beacon_id } => self.activate_beacon(player_id, beacon_id),
            ClientMessage::SetName { name } => self.set_name(player_id, name.as_str()),
            ClientMessage::SetDifficulty { difficulty } => {
                self.set_difficulty(difficulty);
                Vec::new()
            },
            ClientMessage::Ready => self.mark_ready(player_id),
            ClientMessage::UpdateScore { coins } => self.update_score(player_id, coins),
            ClientMessage::EnterSolo => self.enter_solo(player_id),
            ClientMessage::LeaveSolo => self.leave_solo(player_id),
            ClientMessage::StartRoundNow => Vec::new(),
        }
    }
}


/// A listing of every beacon of a map, each stored under its own id.
pub open spec fn is_beacon_listing(m: Map<u32, BeaconInfo>, bs: Seq<BeaconInfo>) -> bool {
    &&& bs.len() == m.dom().len()
    &&& forall|i: int|
        0 <= i < bs.len() ==> m.contains_key(#[trigger] bs[i].beacon_id) && m[bs[i].beacon_id]
            == bs[i]
    &&& forall|id: u32|
        #[trigger] m.contains_key(id) ==> exists|i: int|
            0 <= i < bs.len() && #[trigger] bs[i].beacon_id == id
}

/// The whole seconds left of a countdown, rounded up, as a byte.
pub open spec fn countdown_seconds(ms: u32) -> u8 {
    let s = (ms + 999) / 1000;
    if s > 255 {
        255
    } else {
        s as u8
    }
}

/// What a player joining mid-game is told of the round: the lobby (and the
/// countdown) before the round, the time left during it, the scores after it.
pub open spec fn round_state_messages_ok(w: WorldView, out: Seq<ServerMessage>) -> bool {
    match w.round_state {
        RoundState::Lobby => lobby_message(w, out),
        RoundState::Countdown(ms) => {
            &&& out.len() == 2
            &&& out[0] matches ServerMessage::LobbyState { players } && is_lobby_listing(
                w,
                players@,
            )
            &&& out[1] == (ServerMessage::CountdownStart { seconds: countdown_seconds(ms) })
        },
        RoundState::Playing(ms) => out == seq![ServerMessage::RoundStart { round_time_ms: ms }],
        RoundState::RoundOver(_) => {
            &&& out.len() == 1
            &&& out[0] matches ServerMessage::RoundOver { scores } && is_score_listing(w, scores@)
        },
    }
}

/// What a newly connected player is sent, and what everyone else is told.
pub struct Welcome {
    pub player: PlayerState,
    pub snapshot: ServerMessage,
    pub joined: ServerMessage,
    pub round_messages: Vec<ServerMessage>,
}

/// How long a spawned beacon stays, in milliseconds.
pub const BEACON_LIFETIME_MS: u32 = 45000;

/// How many beacons may wait for one player at a time.
pub const MAX_BEACONS_PER_PLAYER: usize = 10;

/// The position of the first `x` among the choices, or 0 when absent.
pub open spec fn index_of_choice(choices: Seq<u32>, x: u32) -> int {
    if choices.contains(x) {
        choose|i: int|
            0 <= i < choices.len() && choices[i] == x && forall|j: int|
                0 <= j < i ==> #[trigger] choices[j] != x
    } else {
        0
    }
}

/// The beacons waiting for a player.
pub open spec fn beacons_targeting(beacons: Map<u32, BeaconInfo>, player_id: u32) -> Set<u32> {
    beacons.dom().filter(|b: u32| beacons[b].target_player_id == player_id)
}

/// `after` is `before` with the new beacons added under their ids.
pub open spec fn adds_beacons(
    before: Map<u32, BeaconInfo>,
    fresh: Seq<BeaconInfo>,
    after: Map<u32, BeaconInfo>,
) -> bool {
    &&& forall|k: u32|
        #[trigger] after.contains_key(k) <==> before.contains_key(k) || exists|i: int|
            0 <= i < fresh.len() && #[trigger] fresh[i].beacon_id == k
    &&& forall|k: u32| #[trigger] before.contains_key(k) ==> after[k] == before[k]
    &&& forall|i: int| 0 <= i < fresh.len() ==> after[#[trigger] fresh[i].beacon_id] == fresh[i]
}

/// The players that get a new beacon: those with fewer than the maximum
/// waiting for them, each once.
pub open spec fn is_needing_listing(w: WorldView, ps: Seq<PlayerState>) -> bool {
    &&& forall|i: int|
        0 <= i < ps.len() ==> w.players.contains_key(#[trigger] ps[i].player_id)
            && w.players[ps[i].player_id] == ps[i] && beacons_targeting(
            w.beacons,
            ps[i].player_id,
        ).len() < MAX_BEACONS_PER_PLAYER
    &&& forall|i: int, j: int|
        0 <= i < ps.len() && 0 <= j < ps.len() && i != j ==> #[trigger] ps[i].player_id
            != #[trigger] ps[j].player_id
    &&& forall|id: u32|
        #[trigger] w.players.contains_key(id) && beacons_targeting(w.beacons, id).len()
            < MAX_BEACONS_PER_PLAYER ==> exists|i: int|
            0 <= i < ps.len() && #[trigger] ps[i].player_id == id
}

/// The beacons after time passes: those whose lifetime runs out are gone,
/// the others have that much less left.
pub open spec fn aged_beacons(beacons: Map<u32, BeaconInfo>, dt_ms: u32) -> Map<u32, BeaconInfo> {
    Map::new(
        |id: u32| beacons.contains_key(id) && beacons[id].lifetime_ms > dt_ms,
        |id: u32| BeaconInfo { lifetime_ms: (beacons[id].lifetime_ms - dt_ms) as u32, ..beacons[id] },
    )
}

/// The beacons whose lifetime runs out within the time passed.
pub open spec fn expiring(beacons: Map<u32, BeaconInfo>, dt_ms: u32) -> Set<u32> {
    beacons.dom().filter(|id: u32| beacons[id].lifetime_ms <= dt_ms)
}

/// A beacon carries an exercise: its question text, its choices, and the
/// position of the answer among them.
pub open spec fn carries_question(b: BeaconInfo, ex: ExerciseData) -> bool {
    &&& b.question_text@ == question_text_spec(ex.operation, ex.operand_a, ex.operand_b)
    &&& b.choices == ex.choices
    &&& b.correct_index == index_of_choice(ex.choices@, ex.correct_answer)
}

/// Builds the beacon for a player from an exercise: its question text, its
/// choices, the position of the answer among them, and a fresh lifetime.
pub fn make_beacon(
    beacon_id: u32,
    target_player_id: u32,
    x_bits: u32,
    y_bits: u32,
    z_bits: u32,
    exercise: &ExerciseData,
) -> (r: BeaconInfo)
    ensures
        r.beacon_id == beacon_id,
        r.target_player_id == target_player_id,
        r.x_bits == x_bits && r.y_bits == y_bits && r.z_bits == z_bits,
        carries_question(r, *exercise),
        r.lifetime_ms == BEACON_LIFETIME_MS,
{
    let correct_index: u8 = match position_of(&exercise.choices, exercise.correct_answer) {
        Some(i) => i as u8,
        None => 0,
    };
    BeaconInfo {
        beacon_id,
        x_bits,
        y_bits,
        z_bits,
        question_text: exercise.question_text(),
        choices: exercise.choices,
        correct_index,
        lifetime_ms: BEACON_LIFETIME_MS,
        target_player_id,
    }
}

/// The position of the first `x` among four values.
fn position_of(choices: &[u32; 4], x: u32) -> (r: Option<usize>)
    ensures
        match r {
            Some(i) => i < 4 && i == index_of_choice(choices@, x),
            None => !choices@.contains(x) && index_of_choice(choices@, x) == 0,
        },
{
    let mut i: usize = 0;
    while i < 4
        invariant
            i <= 4,
            forall|j: int| 0 <= j < i ==> #[trigger] choices@[j] != x,
        decreases 4 - i,
    {
        if choices[i] == x {
            proof {
                let s = choices@;
                assert(s.contains(x));
                let c = choose|c: int|
                    0 <= c < s.len() && s[c] == x && forall|j: int| 0 <= j < c ==> #[trigger] s[j] != x;
                assert(0 <= c < s.len() && s[c] == x && forall|j: int| 0 <= j < c ==> #[trigger] s[j] != x);
                if c < i {
                    assert(s[c] != x);
                }
                if c > i {
                    assert(s[i as int] != x);
                }
            }
            return Some(i);
        }
        i = i + 1;
    }
    None
}


impl GameWorld {
    /// Copies of all beacons in the world.
    pub fn beacon_infos(&self) -> (r: Vec<BeaconInfo>)
        requires
            self@.wf(),
        ensures
            is_beacon_listing(self@.beacons, r@),
    {
        let mut out: Vec<BeaconInfo> = Vec::new();
        let ghost m = self.beacons@;
        for pair in it: self.beacons.iter()
            invariant
                out@.len() == it.index(),
                m == self.beacons@,
                self@.wf(),
                it.seq().len() == m.dom().len(),
                forall|i: int|
                    #![trigger it.seq()[i]]
                    0 <= i < it.seq().len() ==> m.contains_key(*it.seq()[i].0) && m[*it.seq()[i].0]
                        == *it.seq()[i].1,
                forall|k: u32| #[trigger] m.contains_key(k) ==> it.seq().contains((&k, &m[k])),
                forall|i: int|
                    0 <= i < out@.len() ==> out@[i].beacon_id == *it.seq()[i].0 && m.contains_key(
                        #[trigger] out@[i].beacon_id,
                    ) && m[out@[i].beacon_id] == out@[i],
                forall|k: u32|
                    #[trigger] m.contains_key(k) ==> (exists|i: int|
                        0 <= i < out@.len() && #[trigger] out@[i].beacon_id == k) || (exists|i: int|
                        out@.len() <= i < it.seq().len() && #[trigger] it.seq()[i] == (&k, &m[k])),
        {
            let info = pair.1.duplicate();
            proof {
                let n = out@.len() as int;
                assert(it.seq()[n] == pair);
                assert(m.contains_key(*pair.0) && m[*pair.0] == *pair.1);
                assert(self@.beacons.contains_key(*pair.0));
                assert(info.beacon_id == *pair.0);
            }
            let ghost before = out@;
            out.push(info);
            proof {
                assert forall|k: u32| #[trigger] m.contains_key(k) implies (exists|i: int|
                    0 <= i < out@.len() && #[trigger] out@[i].beacon_id == k) || (exists|i: int|
                    out@.len() <= i < it.seq().len() && #[trigger] it.seq()[i] == (&k, &m[k])) by {
                    if exists|i: int| 0 <= i < before.len() && #[trigger] before[i].beacon_id == k {
                        let i = choose|i: int|
                            0 <= i < before.len() && #[trigger] before[i].beacon_id == k;
                        assert(out@[i].beacon_id == k);
                    } else {
                        let i = choose|i: int|
                            before.len() <= i < it.seq().len() && #[trigger] it.seq()[i] == (&k, &m[k]);
                        if i == before.len() {
                            assert(out@[i].beacon_id == k);
                        }
                    }
                }
            }
        }
        out
    }

    /// What a player joining mid-game is told of the round.
    pub fn build_round_state_messages(&self) -> (r: Vec<ServerMessage>)
        ensures
            round_state_messages_ok(self@, r@),
    {
        let mut msgs: Vec<ServerMessage> = Vec::new();
        match self.round_state {
            RoundState::Lobby => {
                let players = self.build_lobby_players();
                msgs.push(ServerMessage::LobbyState { players });
            },
            RoundState::Countdown(remaining) => {
                let players = self.build_lobby_players();
                msgs.push(ServerMessage::LobbyState { players });
                let whole: u32 = remaining / 1000 + if remaining % 1000 == 0 {
                    0
                } else {
                    1
                };
                let seconds: u8 = if whole > 255 {
                    255
                } else {
                    whole as u8
                };
                msgs.push(ServerMessage::CountdownStart { seconds });
            },
            RoundState::Playing(remaining) => {
                msgs.push(ServerMessage::RoundStart { round_time_ms: remaining });
            },
            RoundState::RoundOver(_) => {
                let scores = self.build_scores();
                msgs.push(ServerMessage::RoundOver { scores });
            },
        }
        msgs
    }

    /// Lets a new player in: adds them and gives back their snapshot of the
    /// world, the news of their arrival for the others, and the state of the
    /// round.
    pub fn join(&mut self) -> (r: Welcome)
        requires
            old(self)@.wf(),
            old(self).next_player_id < u32::MAX,
        ensures
            final(self)@.wf(),
            r.player == (PlayerState {
                player_id: old(self).next_player_id,
                color_index: color_for(old(self).next_player_id),
                x_bits: 0,
                y_bits: 0,
                z_bits: 0,
                yaw_bits: 0,
                animation: AnimationState::Idle,
            }),
            final(self)@ == (WorldView {
                players: old(self)@.players.insert(r.player.player_id, r.player),
                next_player_id: (old(self).next_player_id + 1) as u32,
                ..old(self)@
            }),
            r.snapshot matches ServerMessage::WorldSnapshot { your_player_id, players, beacons }
                && your_player_id == r.player.player_id && is_player_listing(
                final(self)@.players,
                players@,
            ) && is_beacon_listing(final(self)@.beacons, beacons@),
            r.joined == ServerMessage::PlayerJoined(r.player),
            round_state_messages_ok(final(self)@, r.round_messages@),
    {
        let player = self.add_player();
        let players = self.player_states();
        let beacons = self.beacon_infos();
        let snapshot = ServerMessage::WorldSnapshot {
            your_player_id: player.player_id,
            players,
            beacons,
        };
        let joined = ServerMessage::PlayerJoined(player);
        let round_messages = self.build_round_state_messages();
        Welcome { player, snapshot, joined, round_messages }
    }

    /// Lets a player go: forgets them, tells everyone, and in the lobby
    /// lists the lobby again.
    pub fn leave(&mut self, player_id: u32) -> (r: Vec<ServerMessage>)
        requires
            old(self)@.wf(),
        ensures
            final(self)@.wf(),
            final(self)@ == (WorldView {
                players: old(self)@.players.remove(player_id),
                names: old(self)@.names.remove(player_id),
                ready: old(self)@.ready.remove(player_id),
                solo: old(self)@.solo.remove(player_id),
                coins: old(self)@.coins.remove(player_id),
                ..old(self)@
            }),
            r@.len() == (if old(self).round_state is Lobby {
                2int
            } else {
                1int
            }),
            r@[0] == (ServerMessage::PlayerLeft { player_id }),
            old(self).round_state is Lobby ==> (r@[1] matches ServerMessage::LobbyState { players }
                && is_lobby_listing(final(self)@, players@)),
    {
        self.remove_player(player_id);
        let mut msgs: Vec<ServerMessage> = Vec::new();
        msgs.push(ServerMessage::PlayerLeft { player_id });
        if self.round_state == RoundState::Lobby {
            let players = self.build_lobby_players();
            msgs.push(ServerMessage::LobbyState { players });
        }
        msgs
    }

    /// The positions of all players, for the periodic update; nothing while
    /// the world is empty.
    pub fn player_update(&self) -> (r: Option<ServerMessage>)
        requires
            self@.wf(),
        ensures
            match r {
                None => self@.players.dom().len() == 0,
                Some(msg) => self@.players.dom().len() > 0 && (msg matches ServerMessage::PlayerUpdate(
                    players,
                ) && is_player_listing(self@.players, players@)),
            },
    {
        if self.players.is_empty() {
            assert(self@.players.dom() =~= Set::<u32>::empty());
            return None;
        }
        assert(self@.players.dom().len() > 0) by {
            let k = choose|k: u32| self@.players.contains_key(k);
            vstd::set_lib::lemma_set_empty_equivalency_len(self@.players.dom());
            assert(self@.players.dom().contains(k));
        }
        Some(ServerMessage::PlayerUpdate(self.player_states()))
    }
}


impl GameWorld {
    /// How many beacons wait for the player.
    pub fn count_targeting(&self, player_id: u32) -> (r: usize)
        ensures
            r == beacons_targeting(self@.beacons, player_id).len(),
    {
        let mut count: usize = 0;
        let total = self.beacons.len();
        let ghost m = self.beacons@;
        let ghost pred = |b: u32| m[b].target_player_id == player_id;
        let ghost mut seen: Set<u32> = Set::empty();
        for pair in it: self.beacons.iter()
            invariant
                m == self.beacons@,
                pred == (|b: u32| m[b].target_player_id == player_id),
                it.seq().len() == m.dom().len(),
                total == m.dom().len(),
                forall|i: int|
                    #![trigger it.seq()[i]]
                    0 <= i < it.seq().len() ==> m.contains_key(*it.seq()[i].0) && m[*it.seq()[i].0]
                        == *it.seq()[i].1,
                forall|k: u32| #[trigger] m.contains_key(k) ==> it.seq().contains((&k, &m[k])),
                seen.finite(),
                count == seen.len(),
                count <= it.index(),
                forall|k: u32|
                    #[trigger] seen.contains(k) <==> (pred(k) && exists|i: int|
                        0 <= i < it.index() && #[trigger] it.seq()[i].0 == k),
                forall|k: u32| #[trigger] seen.contains(k) ==> pred(k) && m.contains_key(k),
                forall|k: u32|
                    #[trigger] m.contains_key(k) && pred(k) ==> seen.contains(k) || (exists|i: int|
                        it.index() <= i < it.seq().len() && #[trigger] it.seq()[i] == (&k, &m[k])),
        {
            let id: u32 = *pair.0;
            let ghost n = it.index();
            proof {
                assert(it.seq()[n as int] == pair);
            }
            if pair.1.target_player_id == player_id {
                proof {
                    assert(!seen.contains(id)) by {
                        if seen.contains(id) {
                            let i = choose|i: int| 0 <= i < n && #[trigger] it.seq()[i].0 == id;
                            lemma_iteration_keys_distinct(m, it.seq(), n as int, i);
                        }
                    }
                    seen = seen.insert(id);
                }
                count = count + 1;
            }
            proof {
                assert forall|k: u32| #[trigger] seen.contains(k) <==> (pred(k) && exists|i: int|
                    0 <= i < n + 1 && #[trigger] it.seq()[i].0 == k) by {
                    if k == id {
                        assert(it.seq()[n].0 == k);
                    }
                }
                assert forall|k: u32| #[trigger] m.contains_key(k) && pred(k) implies seen.contains(k)
                    || (exists|i: int|
                    n + 1 <= i < it.seq().len() && #[trigger] it.seq()[i] == (&k, &m[k])) by {
                    if !seen.contains(k) {
                        let i = choose|i: int|
                            n <= i < it.seq().len() && #[trigger] it.seq()[i] == (&k, &m[k]);
                        if i == n {
                            assert(it.seq()[n].0 == k);
                        }
                    }
                }
            }
        }
        assert(seen =~= beacons_targeting(self@.beacons, player_id));
        count
    }

    /// The players that get a new beacon: those with fewer than
    /// `MAX_BEACONS_PER_PLAYER` beacons waiting for them.
    pub fn players_needing_beacons(&self) -> (r: Vec<PlayerState>)
        requires
            self@.wf(),
        ensures
            is_needing_listing(self@, r@),
    {
        let mut out: Vec<PlayerState> = Vec::new();
        let ghost m = self.players@;
        for pair in it: self.players.iter()
            invariant
                out@.len() <= it.index(),
                m == self.players@,
                self@.wf(),
                it.seq().len() == m.dom().len(),
                forall|i: int|
                    #![trigger it.seq()[i]]
                    0 <= i < it.seq().len() ==> m.contains_key(*it.seq()[i].0) && m[*it.seq()[i].0]
                        == *it.seq()[i].1,
                forall|k: u32| #[trigger] m.contains_key(k) ==> it.seq().contains((&k, &m[k])),
                forall|i: int|
                    0 <= i < out@.len() ==> m.contains_key(#[trigger] out@[i].player_id)
                        && m[out@[i].player_id] == out@[i] && beacons_targeting(
                        self@.beacons,
                        out@[i].player_id,
                    ).len() < MAX_BEACONS_PER_PLAYER && (exists|j: int|
                        0 <= j < it.index() && #[trigger] it.seq()[j].0 == out@[i].player_id),
                forall|i: int, j: int|
                    0 <= i < out@.len() && 0 <= j < out@.len() && i != j ==> #[trigger] out@[i].player_id
                        != #[trigger] out@[j].player_id,
                forall|k: u32|
                    #[trigger] m.contains_key(k) && beacons_targeting(self@.beacons, k).len()
                        < MAX_BEACONS_PER_PLAYER ==> (exists|i: int|
                        0 <= i < out@.len() && #[trigger] out@[i].player_id == k) || (exists|i: int|
                        it.index() <= i < it.seq().len() && #[trigger] it.seq()[i] == (&k, &m[k])),
        {
            let id: u32 = *pair.0;
            let ghost n = it.index();
            proof {
                assert(it.seq()[n as int] == pair);
                assert(m.contains_key(id));
            }
            let ghost before = out@;
            if self.count_targeting(id) < MAX_BEACONS_PER_PLAYER {
                let state: PlayerState = *pair.1;
                proof {
                    assert forall|j: int| 0 <= j < before.len() implies before[j].player_id != id by {
                        let x = choose|x: int| 0 <= x < n && #[trigger] it.seq()[x].0 == before[j].player_id;
                        lemma_iteration_keys_distinct(m, it.seq(), n as int, x);
                    }
                }
                out.push(state);
            }
            proof {
                assert forall|i: int| #![trigger out@[i]] 0 <= i < out@.len() implies (exists|j: int|
                    0 <= j < n + 1 && #[trigger] it.seq()[j].0 == out@[i].player_id) by {
                    if i < before.len() {
                        let j = choose|j: int| 0 <= j < n && #[trigger] it.seq()[j].0 == before[i].player_id;
                        assert(it.seq()[j].0 == out@[i].player_id);
                    } else {
                        assert(it.seq()[n as int].0 == out@[i].player_id);
                    }
                }
                assert forall|k: u32| #[trigger] m.contains_key(k) && beacons_targeting(
                    self@.beacons,
                    k,
                ).len() < MAX_BEACONS_PER_PLAYER implies (exists|i: int|
                    0 <= i < out@.len() && #[trigger] out@[i].player_id == k) || (exists|i: int|
                    n + 1 <= i < it.seq().len() && #[trigger] it.seq()[i] == (&k, &m[k])) by {
                    if exists|i: int| 0 <= i < before.len() && #[trigger] before[i].player_id == k {
                        let i = choose|i: int|
                            0 <= i < before.len() && #[trigger] before[i].player_id == k;
                        assert(out@[i].player_id == k);
                    } else {
                        let i = choose|i: int|
                            n <= i < it.seq().len() && #[trigger] it.seq()[i] == (&k, &m[k]);
                        if i == n {
                            assert(out@[before.len() as int].player_id == k);
                        }
                    }
                }
            }
        }
        out
    }
}


impl GameWorld {
    /// The ids of all beacons in the world, each once.
    pub fn beacon_ids(&self) -> (r: Vec<u32>)
        ensures
            r@.no_duplicates(),
            forall|k: u32| #[trigger] r@.contains(k) <==> self@.beacons.contains_key(k),
    {
        let mut out: Vec<u32> = Vec::new();
        let ghost m = self.beacons@;
        for pair in it: self.beacons.iter()
            invariant
                out@.len() == it.index(),
                m == self.beacons@,
                it.seq().len() == m.dom().len(),
                forall|i: int|
                    #![trigger it.seq()[i]]
                    0 <= i < it.seq().len() ==> m.contains_key(*it.seq()[i].0) && m[*it.seq()[i].0]
                        == *it.seq()[i].1,
                forall|k: u32| #[trigger] m.contains_key(k) ==> it.seq().contains((&k, &m[k])),
                forall|i: int| 0 <= i < out@.len() ==> #[trigger] out@[i] == *it.seq()[i].0,
                out@.no_duplicates(),
                forall|k: u32|
                    #[trigger] m.contains_key(k) ==> out@.contains(k) || (exists|i: int|
                        out@.len() <= i < it.seq().len() && #[trigger] it.seq()[i] == (&k, &m[k])),
                forall|k: u32| #[trigger] out@.contains(k) ==> m.contains_key(k),
        {
            let id: u32 = *pair.0;
            let ghost before = out@;
            proof {
                let n = out@.len() as int;
                assert(it.seq()[n] == pair);
                assert forall|j: int| 0 <= j < n implies before[j] != id by {
                    lemma_iteration_keys_distinct(m, it.seq(), n, j);
                }
            }
            out.push(id);
            proof {
                assert forall|k: u32| #[trigger] m.contains_key(k) implies out@.contains(k) || (exists|i: int|
                    out@.len() <= i < it.seq().len() && #[trigger] it.seq()[i] == (&k, &m[k])) by {
                    if before.contains(k) {
                        let i = choose|i: int| 0 <= i < before.len() && before[i] == k;
                        assert(out@[i] == k);
                    } else {
                        let i = choose|i: int|
                            before.len() <= i < it.seq().len() && #[trigger] it.seq()[i] == (&k, &m[k]);
                        if i == before.len() {
                            assert(out@[i] == k);
                        }
                    }
                }
                assert forall|k: u32| #[trigger] out@.contains(k) implies m.contains_key(k) by {
                    let i = choose|i: int| 0 <= i < out@.len() && out@[i] == k;
                    if i < before.len() {
                        assert(before[i] == k);
                    }
                }
            }
        }
        out
    }

    /// Lets time pass for the beacons: those whose lifetime runs out are
    /// removed (and forgotten as activated), the others age. Gives back the
    /// ids of the removed beacons.
    pub fn expire_beacons(&mut self, dt_ms: u32) -> (r: Vec<u32>)
        requires
            old(self)@.wf(),
        ensures
            final(self)@.wf(),
            final(self)@ == (WorldView {
                beacons: aged_beacons(old(self)@.beacons, dt_ms),
                activated: old(self)@.activated.difference(expiring(old(self)@.beacons, dt_ms)),
                ..old(self)@
            }),
            r@.no_duplicates(),
            forall|k: u32| #[trigger] r@.contains(k) <==> expiring(old(self)@.beacons, dt_ms).contains(k),
    {
        let ids = self.beacon_ids();
        let ghost w0 = self@;
        let ghost m0 = self@.beacons;
        let ghost a0 = self@.activated;
        let mut expired: Vec<u32> = Vec::new();
        let mut i: usize = 0;
        proof {
            assert forall|j: int| 0 <= j < ids@.len() implies m0.contains_key(#[trigger] ids@[j]) by {
                assert(ids@.contains(ids@[j]));
            }
        }
        while i < ids.len()
            invariant
                i <= ids@.len(),
                ids@.no_duplicates(),
                forall|k: u32| #[trigger] ids@.contains(k) <==> m0.contains_key(k),
                self@ == (WorldView {
                    beacons: self.beacons@,
                    activated: self.activated_beacons@,
                    ..w0
                }),
                forall|j: int|
                    #![trigger ids@[j]]
                    0 <= j < i ==> (self@.beacons.contains_key(ids@[j]) <==> m0[ids@[j]].lifetime_ms
                        > dt_ms) && (self@.beacons.contains_key(ids@[j]) ==> self@.beacons[ids@[j]]
                        == aged_beacons(m0, dt_ms)[ids@[j]]),
                forall|j: int|
                    #![trigger ids@[j]]
                    i <= j < ids@.len() ==> self@.beacons.contains_key(ids@[j])
                        && self@.beacons[ids@[j]] == m0[ids@[j]],
                forall|k: u32| #[trigger] self@.beacons.contains_key(k) ==> m0.contains_key(k),
                expired@.no_duplicates(),
                forall|k: u32|
                    #[trigger] expired@.contains(k) <==> (exists|j: int|
                        0 <= j < i && #[trigger] ids@[j] == k) && m0[k].lifetime_ms <= dt_ms,
                forall|k: u32|
                    #[trigger] self@.activated.contains(k) <==> a0.contains(k) && !expired@.contains(k),
            decreases ids@.len() - i,
        {
            let id = ids[i];
            let ghost before = self.beacons@;
            let ghost before_expired = expired@;
            let ghost act_before = self@.activated;
            assert(forall|k: u32| #[trigger] act_before.contains(k) <==> a0.contains(k) && !before_expired.contains(k));
            proof {
                assert(m0.contains_key(id)) by {
                    assert(ids@.contains(id));
                }
            }
            assert(ids@[i as int] == id);
            assert(before.contains_key(id) && before[id] == m0[id]);
            let removed = self.beacons.remove(&id);
            assert(removed == Some(m0[id]));
            match removed {
                Some(b) => {
                    let mut b = b;
                    if b.lifetime_ms <= dt_ms {
                        proof {
                            assert(!before_expired.contains(id)) by {
                                if before_expired.contains(id) {
                                    let j = choose|j: int| 0 <= j < i && #[trigger] ids@[j] == id;
                                }
                            }
                        }
                        expired.push(id);
                        self.activated_beacons.remove(&id);
                        proof {
                            assert(expired@ == before_expired.push(id));
                            assert(expired@[before_expired.len() as int] == id);
                            assert forall|k: u32| #[trigger] expired@.contains(k) <==> (k == id || before_expired.contains(k)) by {
                                if before_expired.contains(k) {
                                    let x = choose|x: int| 0 <= x < before_expired.len() && before_expired[x] == k;
                                    assert(expired@[x] == k);
                                }
                                if expired@.contains(k) && k != id {
                                    let x = choose|x: int| 0 <= x < expired@.len() && expired@[x] == k;
                                    assert(before_expired[x] == k);
                                }
                            }
                            assert forall|k: u32| #[trigger] self@.activated.contains(k) <==> a0.contains(k) && !expired@.contains(k) by {
                                assert(act_before.contains(k) <==> a0.contains(k) && !before_expired.contains(k));
                            }
                        }
                    } else {
                        b.lifetime_ms = b.lifetime_ms - dt_ms;
                        self.beacons.insert(id, b);
                        proof {
                            assert(self.beacons@[id] == aged_beacons(m0, dt_ms)[id]);
                        }
                    }
                },
                None => {},
            }
            proof {
                assert forall|k: u32| #[trigger] expired@.contains(k) <==> (exists|j: int|
                    0 <= j < i + 1 && #[trigger] ids@[j] == k) && m0[k].lifetime_ms <= dt_ms by {
                    if k == id {
                        assert(ids@[i as int] == k);
                    } else {
                        assert(expired@.contains(k) <==> before_expired.contains(k));
                        if exists|j: int| 0 <= j < i + 1 && #[trigger] ids@[j] == k {
                            let j = choose|j: int| 0 <= j < i + 1 && #[trigger] ids@[j] == k;
                            assert(j < i);
                        }
                    }
                }
                assert forall|j: int| 0 <= j < i + 1 implies (self@.beacons.contains_key(#[trigger] ids@[j]) <==> m0[ids@[j]].lifetime_ms
                        > dt_ms) && (self@.beacons.contains_key(ids@[j]) ==> self@.beacons[ids@[j]]
                        == aged_beacons(m0, dt_ms)[ids@[j]]) by {
                    if j < i {
                        assert(ids@[j] != id);
                    }
                }
                assert forall|j: int| i + 1 <= j < ids@.len() implies self@.beacons.contains_key(#[trigger] ids@[j])
                        && self@.beacons[ids@[j]] == m0[ids@[j]] by {
                    assert(ids@[j] != id);
                }
            }
            i = i + 1;
        }
        proof {
            assert forall|k: u32| #[trigger] self@.beacons.contains_key(k) <==> aged_beacons(m0, dt_ms).contains_key(k) by {
                if m0.contains_key(k) {
                    assert(ids@.contains(k));
                    let j = choose|j: int| 0 <= j < ids@.len() && ids@[j] == k;
                }
            }
            assert(self@.beacons =~= aged_beacons(m0, dt_ms)) by {
                assert forall|k: u32| #[trigger] self@.beacons.contains_key(k) implies self@.beacons[k] == aged_beacons(m0, dt_ms)[k] by {
                    assert(ids@.contains(k));
                    let j = choose|j: int| 0 <= j < ids@.len() && ids@[j] == k;
                }
            }
            assert forall|k: u32| #[trigger] expired@.contains(k) <==> expiring(m0, dt_ms).contains(k) by {
                if m0.contains_key(k) && m0[k].lifetime_ms <= dt_ms {
                    assert(ids@.contains(k));
                    let j = choose|j: int| 0 <= j < ids@.len() && ids@[j] == k;
                    assert(ids@[j] == k);
                }
                if expired@.contains(k) {
                    let j = choose|j: int| 0 <= j < ids@.len() && #[trigger] ids@[j] == k;
                    assert(ids@.contains(k));
                }
            }
            assert(self@.activated =~= a0.difference(expiring(m0, dt_ms)));
            assert forall|k: u32| #[trigger] self@.activated.contains(k) implies self@.beacons.contains_key(k) by {
                assert(a0.contains(k));
                assert(m0.contains_key(k));
            }
            assert forall|k: u32| #[trigger] self@.beacons.contains_key(k) implies k < self@.next_beacon_id && self@.beacons[k].beacon_id == k by {
                assert(m0.contains_key(k));
            }
        }
        expired
    }

    /// Places newly built beacons in the world, moves the id counter past
    /// them, and gives back the spawn message for each, in order.
    pub fn insert_beacons(&mut self, new_beacons: Vec<BeaconInfo>, next_id: u32) -> (r: Vec<ServerMessage>)
        requires
            old(self)@.wf(),
            old(self).next_beacon_id <= next_id,
            forall|i: int|
                0 <= i < new_beacons@.len() ==> old(self).next_beacon_id <= #[trigger] new_beacons@[i].beacon_id
                    < next_id,
            forall|i: int, j: int|
                0 <= i < new_beacons@.len() && 0 <= j < new_beacons@.len() && i != j ==> #[trigger] new_beacons@[i].beacon_id
                    != #[trigger] new_beacons@[j].beacon_id,
        ensures
            final(self)@.wf(),
            final(self)@ == (WorldView {
                beacons: final(self)@.beacons,
                next_beacon_id: if new_beacons@.len() == 0 {
                    old(self).next_beacon_id
                } else {
                    next_id
                },
                ..old(self)@
            }),
            adds_beacons(old(self)@.beacons, new_beacons@, final(self)@.beacons),
            r@.len() == new_beacons@.len(),
            forall|i: int| 0 <= i < r@.len() ==> #[trigger] r@[i] == ServerMessage::BeaconSpawned(new_beacons@[i]),
    {
        let ghost w0 = self@;
        let mut msgs: Vec<ServerMessage> = Vec::new();
        let mut i: usize = 0;
        while i < new_beacons.len()
            invariant
                i <= new_beacons@.len(),
                w0.wf(),
                self@ == (WorldView { beacons: self.beacons@, ..w0 }),
                w0.next_beacon_id <= next_id,
                forall|j: int|
                    0 <= j < new_beacons@.len() ==> w0.next_beacon_id <= #[trigger] new_beacons@[j].beacon_id
                        < next_id,
                forall|a: int, b: int|
                    0 <= a < new_beacons@.len() && 0 <= b < new_beacons@.len() && a != b ==> #[trigger] new_beacons@[a].beacon_id
                        != #[trigger] new_beacons@[b].beacon_id,
                forall|k: u32|
                    #[trigger] self@.beacons.contains_key(k) <==> w0.beacons.contains_key(k)
                        || exists|j: int| 0 <= j < i && #[trigger] new_beacons@[j].beacon_id == k,
                forall|k: u32|
                    #[trigger] w0.beacons.contains_key(k) ==> self@.beacons[k] == w0.beacons[k],
                forall|j: int|
                    0 <= j < i ==> self@.beacons[#[trigger] new_beacons@[j].beacon_id] == new_beacons@[j],
                msgs@.len() == i,
                forall|j: int| 0 <= j < i ==> #[trigger] msgs@[j] == ServerMessage::BeaconSpawned(new_beacons@[j]),
            decreases new_beacons@.len() - i,
        {
            let b = new_beacons[i].duplicate();
            let id = b.beacon_id;
            let ghost before = self@.beacons;
            assert(forall|k: u32|
                #[trigger] before.contains_key(k) <==> w0.beacons.contains_key(k)
                    || exists|j: int| 0 <= j < i && #[trigger] new_beacons@[j].beacon_id == k);
            assert(forall|j: int|
                0 <= j < i ==> before[#[trigger] new_beacons@[j].beacon_id] == new_beacons@[j]);
            assert(forall|k: u32| #[trigger] w0.beacons.contains_key(k) ==> before[k] == w0.beacons[k]);
            self.beacons.insert(id, b);
            msgs.push(ServerMessage::BeaconSpawned(new_beacons[i].duplicate()));
            proof {
                assert(id == new_beacons@[i as int].beacon_id);
                assert(!w0.beacons.contains_key(id));
                assert(self.beacons@ == before.insert(id, new_beacons@[i as int]));
                assert forall|k: u32| #[trigger] self@.beacons.contains_key(k) <==> w0.beacons.contains_key(k)
                    || exists|j: int| 0 <= j < i + 1 && #[trigger] new_beacons@[j].beacon_id == k by {
                    if k == id {
                        assert(new_beacons@[i as int].beacon_id == k);
                    } else {
                        if exists|j: int| 0 <= j < i + 1 && #[trigger] new_beacons@[j].beacon_id == k {
                            let j = choose|j: int| 0 <= j < i + 1 && #[trigger] new_beacons@[j].beacon_id == k;
                            assert(j < i);
                        }
                        if exists|j: int| 0 <= j < i && #[trigger] new_beacons@[j].beacon_id == k {
                            let j = choose|j: int| 0 <= j < i && #[trigger] new_beacons@[j].beacon_id == k;
                            assert(new_beacons@[j].beacon_id == k);
                        }
                        assert(before.contains_key(k) <==> w0.beacons.contains_key(k)
                            || exists|j: int| 0 <= j < i && #[trigger] new_beacons@[j].beacon_id == k);
                    }
                }
                assert forall|j: int| 0 <= j < i + 1 implies self@.beacons[#[trigger] new_beacons@[j].beacon_id] == new_beacons@[j] by {
                    if j < i {
                        assert(new_beacons@[j].beacon_id != id);
                    }
                }
            }
            i = i + 1;
        }
        let ghost fin = self@.beacons;
        assert(forall|j: int|
            0 <= j < new_beacons@.len() ==> fin[#[trigger] new_beacons@[j].beacon_id] == new_beacons@[j]);
        assert(forall|k: u32|
            #[trigger] fin.contains_key(k) <==> w0.beacons.contains_key(k)
                || exists|j: int| 0 <= j < new_beacons@.len() && #[trigger] new_beacons@[j].beacon_id == k);
        assert(forall|k: u32| #[trigger] w0.beacons.contains_key(k) ==> fin[k] == w0.beacons[k]);
        if new_beacons.len() > 0 {
            self.next_beacon_id = next_id;
        }
        assert(self@.beacons == fin);
        proof {
            assert forall|k: u32| #[trigger] self@.beacons.contains_key(k) implies k < self@.next_beacon_id && self@.beacons[k].beacon_id == k by {
                if w0.beacons.contains_key(k) {
                    assert(self@.beacons[k] == w0.beacons[k]);
                } else {
                    assert(exists|j: int| 0 <= j < new_beacons@.len() && #[trigger] new_beacons@[j].beacon_id == k);
                    let j = choose|j: int| 0 <= j < new_beacons@.len() && #[trigger] new_beacons@[j].beacon_id == k;
                    assert(fin[new_beacons@[j].beacon_id] == new_beacons@[j]);
                    assert(new_beacons@[j].beacon_id < next_id);
                }
            }
        }
        msgs
    }
}


/// A beacon is claimed at most once: after any correct answer to it, a
/// second answer, right or wrong, changes nothing and tells nobody.
pub proof fn lemma_beacon_claimed_once(
    w: WorldView,
    first: u32,
    second: u32,
    beacon_id: u32,
    correct: bool,
)
    ensures
        ({
            let after_first = answer_outcome(w, first, beacon_id, true).0;
            let (after_second, said) = answer_outcome(after_first, second, beacon_id, correct);
            after_second == after_first && said.len() == 0
        }),
{
}

/// A beacon is activated at most once: after any activation attempt, a
/// second attempt by anyone changes nothing and tells nobody.
pub proof fn lemma_beacon_activated_once(w: WorldView, first: u32, second: u32, beacon_id: u32)
    ensures
        ({
            let after_first = activate_outcome(w, first, beacon_id).0;
            let (after_second, said) = activate_outcome(after_first, second, beacon_id);
            after_second == after_first && said.len() == 0
        }),
{
}

/// Once the round has left the lobby, no client message changes the
/// difficulty.
pub proof fn lemma_difficulty_fixed_outside_lobby(
    w: WorldView,
    w2: WorldView,
    player_id: u32,
    msg: ClientMessage,
    out: Seq<ServerMessage>,
)
    requires
        !(w.round_state is Lobby),
        client_message_effect(w, w2, player_id, msg, out),
    ensures
        w2.difficulty == w.difficulty,
        w2.round_state == w.round_state,
{
}

/// A client message moves the round out of the lobby only by a ready call
/// that leaves at least two active players, all of them ready; the round
/// then counts down three seconds.
pub proof fn lemma_countdown_needs_everyone_ready(
    w: WorldView,
    w2: WorldView,
    player_id: u32,
    msg: ClientMessage,
    out: Seq<ServerMessage>,
)
    requires
        w.round_state is Lobby,
        client_message_effect(w, w2, player_id, msg, out),
        !(w2.round_state is Lobby),
    ensures
        msg is Ready,
        w2.active_players().len() >= 2,
        w2.ready.len() == w2.active_players().len(),
        w2.round_state == RoundState::Countdown(3000),
        out.len() == 2 && out[1] == (ServerMessage::CountdownStart { seconds: 3 }),
{
}

pub open spec fn pow10(k: nat) -> nat
    decreases k,
{
    if k == 0 {
        1
    } else {
        10 * pow10((k - 1) as nat)
    }
}

pub proof fn lemma_decimal_len_bound(n: nat, k: nat)
    requires
        k >= 1,
        n < pow10(k),
    ensures
        decimal(n).len() <= k,
    decreases k,
{
    if n >= 10 {
        assert(k >= 2) by {
            if k == 1 {
                reveal_with_fuel(pow10, 2);
                assert(pow10(1) == 10);
            }
        }
        assert(n / 10 < pow10((k - 1) as nat));
        lemma_decimal_len_bound(n / 10, (k - 1) as nat);
    }
}

/// Every name the server keeps is non-empty and at most 20 characters long.
pub proof fn lemma_sanitized_name_bounds(name: Seq<char>, player_id: u32)
    ensures
        0 < sanitized_name(name, player_id).len() <= 20,
{
    let t = trim_spec(name);
    let kept = if t.len() > 20 {
        t.take(20)
    } else {
        t
    };
    if kept.len() == 0 {
        assert(pow10(10) == 10000000000) by {
            reveal_with_fuel(pow10, 11);
        }
        lemma_decimal_len_bound(player_id as nat, 10);
        lemma_decimal_digits(player_id as nat);
    }
}

/// The wait before the first beacons of a fresh server, in milliseconds.
pub const FIRST_SPAWN_DELAY_MS: u32 = 5000;

/// The wait between rounds of beacon spawning, in milliseconds.
pub const SPAWN_INTERVAL_MS: u32 = 1000;

/// The clock that paces beacon spawning; a cooldown of zero means spawning
/// is due.
#[derive(Debug, Clone, Copy, PartialEq, Eq, Structural)]
pub struct SpawnClock {
    pub cooldown_ms: u32,
}

impl SpawnClock {
    pub fn new() -> (r: SpawnClock)
        ensures
            r.cooldown_ms == FIRST_SPAWN_DELAY_MS,
    {
        SpawnClock { cooldown_ms: FIRST_SPAWN_DELAY_MS }
    }

    /// Lets the clock run; gives back whether spawning is due. While it is
    /// due, it stays due until `restart`.
    pub fn tick(&mut self, dt_ms: u32) -> (due: bool)
        ensures
            final(self).cooldown_ms == if old(self).cooldown_ms > dt_ms {
                (old(self).cooldown_ms - dt_ms) as u32
            } else {
                0
            },
            due == (final(self).cooldown_ms == 0),
    {
        self.cooldown_ms = self.cooldown_ms.saturating_sub(dt_ms);
        self.cooldown_ms == 0
    }

    /// Spawning took place: wait the interval before the next.
    pub fn restart(&mut self)
        ensures
            final(self).cooldown_ms == SPAWN_INTERVAL_MS,
    {
        self.cooldown_ms = SPAWN_INTERVAL_MS;
    }
}

/// A joining player never gets the id of a player who is present: every
/// present id is below the next one handed out.
pub proof fn lemma_new_player_id_is_fresh(w: WorldView)
    requires
        w.wf(),
    ensures
        !w.players.contains_key(w.next_player_id),
{
}

/// A client reads back from a beacon the tables question it carries: the
/// operation and operands from its text, and the answer at its answer
/// position.
pub proof fn lemma_beacon_question_round_trip(b: BeaconInfo, ex: ExerciseData)
    requires
        carries_question(b, ex),
        well_formed_choices(ex),
        ex.operation == Operation::Multiply || ex.operation == Operation::Divide,
    ensures
        b.correct_index < 4,
        b.choices[b.correct_index as int] == ex.correct_answer,
        parse_question_spec(b.question_text@) == (ex.operation, ex.operand_a, ex.operand_b),
{
    lemma_question_text_round_trip(ex.operation, ex.operand_a, ex.operand_b);
    let s = ex.choices@;
    let x = ex.correct_answer;
    let k = choose|k: int| 0 <= k < s.len() && s[k] == x;
    assert(forall|j: int| 0 <= j < k ==> #[trigger] s[j] != x);
    assert(0 <= k < s.len() && s[k] == x && forall|j: int| 0 <= j < k ==> #[trigger] s[j] != x);
}

/// The positions of `placed` that hold a place, in order.
pub open spec fn placed_indices(placed: Seq<Option<(u32, u32, u32)>>) -> Seq<int>
    decreases placed.len(),
{
    if placed.len() == 0 {
        Seq::empty()
    } else {
        let rest = placed_indices(placed.drop_last());
        if placed.last() is Some {
            rest.push(placed.len() - 1)
        } else {
            rest
        }
    }
}

/// The positions that hold a place lie within `placed`, in increasing
/// order.
pub proof fn lemma_placed_indices(placed: Seq<Option<(u32, u32, u32)>>)
    ensures
        placed_indices(placed).len() <= placed.len(),
        forall|j: int|
            0 <= j < placed_indices(placed).len() ==> 0 <= #[trigger] placed_indices(placed)[j]
                < placed.len() && placed[placed_indices(placed)[j]] is Some,
        forall|j: int, k: int|
            0 <= j < k < placed_indices(placed).len() ==> #[trigger] placed_indices(placed)[j]
                < #[trigger] placed_indices(placed)[k],
    decreases placed.len(),
{
    if placed.len() > 0 {
        let d = placed.drop_last();
        lemma_placed_indices(d);
        assert forall|j: int|
            0 <= j < placed_indices(d).len() implies placed[#[trigger] placed_indices(d)[j]] is Some by {
            assert(d[placed_indices(d)[j]] == placed[placed_indices(d)[j]]);
        }
    }
}

proof fn lemma_placed_indices_prefix(placed: Seq<Option<(u32, u32, u32)>>, i: int)
    requires
        0 <= i <= placed.len(),
    ensures
        placed_indices(placed.take(i)).len() <= placed_indices(placed).len(),
    decreases placed.len() - i,
{
    if i < placed.len() {
        lemma_placed_indices_prefix(placed, i + 1);
        assert(placed.take(i + 1).drop_last() =~= placed.take(i));
    } else {
        assert(placed.take(i) =~= placed);
    }
}

/// Beacon `b` is the one for player `p` at `place`, with the exercise and
/// the id given.
pub open spec fn assigned_beacon(
    b: BeaconInfo,
    beacon_id: u32,
    p: PlayerState,
    place: (u32, u32, u32),
    ex: ExerciseData,
) -> bool {
    &&& b.beacon_id == beacon_id
    &&& b.target_player_id == p.player_id
    &&& (b.x_bits, b.y_bits, b.z_bits) == place
    &&& carries_question(b, ex)
    &&& b.lifetime_ms == BEACON_LIFETIME_MS
}

/// The beacons of one spawning round: one for each player who got a place,
/// in order, with consecutive ids from `first_id`.
pub open spec fn is_assignment(
    first_id: u32,
    needing: Seq<PlayerState>,
    placed: Seq<Option<(u32, u32, u32)>>,
    exercises: Seq<ExerciseData>,
    fresh: Seq<BeaconInfo>,
) -> bool {
    let ix = placed_indices(placed);
    &&& needing.len() == placed.len()
    &&& exercises.len() == placed.len()
    &&& first_id + ix.len() <= u32::MAX
    &&& fresh.len() == ix.len()
    &&& forall|j: int|
        0 <= j < ix.len() ==> assigned_beacon(
            #[trigger] fresh[j],
            (first_id + j) as u32,
            needing[ix[j]],
            placed[ix[j]]->0,
            exercises[ix[j]],
        )
}

/// Hands out the beacons of one spawning round: each player of `needing`
/// that got a place in `placed` gets one beacon there, asking the exercise
/// at the same position, with the next id. Gives back the beacons and the
/// id after the last one handed out.
pub fn assign_beacons(
    first_id: u32,
    needing: &Vec<PlayerState>,
    placed: &Vec<Option<(u32, u32, u32)>>,
    exercises: &Vec<ExerciseData>,
) -> (r: (Vec<BeaconInfo>, u32))
    requires
        needing@.len() == placed@.len(),
        exercises@.len() == placed@.len(),
        first_id + placed_indices(placed@).len() <= u32::MAX,
    ensures
        is_assignment(first_id, needing@, placed@, exercises@, r.0@),
        r.1 == first_id + r.0@.len(),
{
    let mut out: Vec<BeaconInfo> = Vec::new();
    let mut next_id = first_id;
    let mut i: usize = 0;
    assert(placed@.take(0) =~= Seq::<Option<(u32, u32, u32)>>::empty());
    while i < placed.len()
        invariant
            i <= placed@.len(),
            needing@.len() == placed@.len(),
            exercises@.len() == placed@.len(),
            first_id + placed_indices(placed@).len() <= u32::MAX,
            out@.len() == placed_indices(placed@.take(i as int)).len(),
            next_id == first_id + out@.len(),
            forall|j: int|
                0 <= j < out@.len() ==> 0 <= #[trigger] placed_indices(placed@.take(i as int))[j] < i,
            forall|j: int|
                0 <= j < out@.len() ==> assigned_beacon(
                    #[trigger] out@[j],
                    (first_id + j) as u32,
                    needing@[placed_indices(placed@.take(i as int))[j]],
                    placed@[placed_indices(placed@.take(i as int))[j]]->0,
                    exercises@[placed_indices(placed@.take(i as int))[j]],
                ),
        decreases placed@.len() - i,
    {
        let ghost prev = placed_indices(placed@.take(i as int));
        proof {
            assert(placed@.take(i + 1).drop_last() =~= placed@.take(i as int));
            assert(placed@.take(i + 1).last() == placed@[i as int]);
        }
        if let Some((x, y, z)) = placed[i] {
            proof {
                lemma_placed_indices_prefix(placed@, i + 1);
            }
            let b = make_beacon(next_id, needing[i].player_id, x, y, z, &exercises[i]);
            out.push(b);
            next_id = next_id + 1;
        }
        i = i + 1;
    }
    assert(placed@.take(i as int) =~= placed@);
    (out, next_id)
}

/// The beacons of a spawning round are fair: each targets a present player
/// who had fewer than the maximum waiting, no two target the same player,
/// and their ids are distinct and unused.
pub open spec fn fair_spawn(w: WorldView, fresh: Seq<BeaconInfo>) -> bool {
    &&& forall|j: int|
        0 <= j < fresh.len() ==> w.players.contains_key(#[trigger] fresh[j].target_player_id)
            && beacons_targeting(w.beacons, fresh[j].target_player_id).len()
            < MAX_BEACONS_PER_PLAYER
    &&& forall|j: int, k: int|
        0 <= j < fresh.len() && 0 <= k < fresh.len() && j != k ==> #[trigger] fresh[j].target_player_id
            != #[trigger] fresh[k].target_player_id
    &&& forall|j: int, k: int|
        0 <= j < fresh.len() && 0 <= k < fresh.len() && j != k ==> #[trigger] fresh[j].beacon_id
            != #[trigger] fresh[k].beacon_id
    &&& forall|j: int| 0 <= j < fresh.len() ==> !w.beacons.contains_key(#[trigger] fresh[j].beacon_id)
}

/// Handing out beacons to the needing players, with ids from the next
/// unused one on, is fair.
pub proof fn lemma_assignment_is_fair(
    w: WorldView,
    needing: Seq<PlayerState>,
    first_id: u32,
    placed: Seq<Option<(u32, u32, u32)>>,
    exercises: Seq<ExerciseData>,
    fresh: Seq<BeaconInfo>,
)
    requires
        w.wf(),
        is_needing_listing(w, needing),
        w.next_beacon_id <= first_id,
        is_assignment(first_id, needing, placed, exercises, fresh),
    ensures
        fair_spawn(w, fresh),
{
    lemma_placed_indices(placed);
    let ix = placed_indices(placed);
    assert forall|j: int| 0 <= j < fresh.len() implies w.players.contains_key(
        #[trigger] fresh[j].target_player_id,
    ) && beacons_targeting(w.beacons, fresh[j].target_player_id).len() < MAX_BEACONS_PER_PLAYER by {
        assert(assigned_beacon(fresh[j], (first_id + j) as u32, needing[ix[j]], placed[ix[j]]->0, exercises[ix[j]]));
        assert(needing[ix[j]].player_id == fresh[j].target_player_id);
    }
    assert forall|j: int, k: int|
        0 <= j < fresh.len() && 0 <= k < fresh.len() && j != k implies #[trigger] fresh[j].target_player_id
        != #[trigger] fresh[k].target_player_id by {
        assert(assigned_beacon(fresh[j], (first_id + j) as u32, needing[ix[j]], placed[ix[j]]->0, exercises[ix[j]]));
        assert(assigned_beacon(fresh[k], (first_id + k) as u32, needing[ix[k]], placed[ix[k]]->0, exercises[ix[k]]));
        if j < k {
            assert(ix[j] < ix[k]);
        } else {
            assert(ix[k] < ix[j]);
        }
        assert(needing[ix[j]].player_id != needing[ix[k]].player_id);
    }
    assert forall|j: int, k: int|
        0 <= j < fresh.len() && 0 <= k < fresh.len() && j != k implies #[trigger] fresh[j].beacon_id
        != #[trigger] fresh[k].beacon_id by {
        assert(assigned_beacon(fresh[j], (first_id + j) as u32, needing[ix[j]], placed[ix[j]]->0, exercises[ix[j]]));
        assert(assigned_beacon(fresh[k], (first_id + k) as u32, needing[ix[k]], placed[ix[k]]->0, exercises[ix[k]]));
    }
    assert forall|j: int| 0 <= j < fresh.len() implies !w.beacons.contains_key(
        #[trigger] fresh[j].beacon_id,
    ) by {
        assert(assigned_beacon(fresh[j], (first_id + j) as u32, needing[ix[j]], placed[ix[j]]->0, exercises[ix[j]]));
    }
}

/// A fair spawning round adds at most one beacon for any player, and only
/// for a player who had fewer than the maximum: so nobody who had at most
/// the maximum waiting has more afterwards.
pub proof fn lemma_fair_spawn_keeps_limit(
    w: WorldView,
    fresh: Seq<BeaconInfo>,
    after: Map<u32, BeaconInfo>,
    player_id: u32,
)
    requires
        w.beacons.dom().finite(),
        fair_spawn(w, fresh),
        adds_beacons(w.beacons, fresh, after),
    ensures
        beacons_targeting(after, player_id).len() <= beacons_targeting(w.beacons, player_id).len() + 1,
        (forall|j: int| 0 <= j < fresh.len() ==> #[trigger] fresh[j].target_player_id != player_id)
            ==> beacons_targeting(after, player_id) == beacons_targeting(w.beacons, player_id),
        beacons_targeting(w.beacons, player_id).len() <= MAX_BEACONS_PER_PLAYER ==> beacons_targeting(
            after,
            player_id,
        ).len() <= MAX_BEACONS_PER_PLAYER,
{
    broadcast use vstd::set::group_set_axioms;

    let a = beacons_targeting(w.beacons, player_id);
    let b = beacons_targeting(after, player_id);
    assert(a.finite());
    if exists|j: int| 0 <= j < fresh.len() && #[trigger] fresh[j].target_player_id == player_id {
        let j = choose|j: int| 0 <= j < fresh.len() && #[trigger] fresh[j].target_player_id == player_id;
        let id = fresh[j].beacon_id;
        assert(after[id] == fresh[j]);
        assert(!a.contains(id));
        assert forall|k: u32| #[trigger] b.contains(k) <==> a.insert(id).contains(k) by {
            if after.contains_key(k) && !w.beacons.contains_key(k) {
                let i = choose|i: int| 0 <= i < fresh.len() && #[trigger] fresh[i].beacon_id == k;
                assert(after[k] == fresh[i]);
                if i != j {
                    assert(fresh[i].target_player_id != fresh[j].target_player_id);
                }
            }
            if w.beacons.contains_key(k) {
                assert(after[k] == w.beacons[k]);
            }
        }
        assert(b =~= a.insert(id));
        assert(b.len() == a.len() + 1);
    } else {
        assert forall|k: u32| #[trigger] b.contains(k) <==> a.contains(k) by {
            if after.contains_key(k) && !w.beacons.contains_key(k) {
                let i = choose|i: int| 0 <= i < fresh.len() && #[trigger] fresh[i].beacon_id == k;
                assert(after[k] == fresh[i]);
            }
            if w.beacons.contains_key(k) {
                assert(after[k] == w.beacons[k]);
            }
        }
        assert(b =~= a);
    }
}

/// A beacon tick never gives a player more than the maximum: handing out
/// beacons to the needing players with unused ids and adding them leaves
/// every player who had at most the maximum waiting with at most the
/// maximum, having added at most one for each.
pub proof fn lemma_beacon_tick_limit(
    w: WorldView,
    needing: Seq<PlayerState>,
    first_id: u32,
    placed: Seq<Option<(u32, u32, u32)>>,
    exercises: Seq<ExerciseData>,
    fresh: Seq<BeaconInfo>,
    after: Map<u32, BeaconInfo>,
    player_id: u32,
)
    requires
        w.wf(),
        w.beacons.dom().finite(),
        is_needing_listing(w, needing),
        w.next_beacon_id <= first_id,
        is_assignment(first_id, needing, placed, exercises, fresh),
        adds_beacons(w.beacons, fresh, after),
    ensures
        beacons_targeting(after, player_id).len() <= beacons_targeting(w.beacons, player_id).len() + 1,
        beacons_targeting(w.beacons, player_id).len() <= MAX_BEACONS_PER_PLAYER ==> beacons_targeting(
            after,
            player_id,
        ).len() <= MAX_BEACONS_PER_PLAYER,
{
    lemma_assignment_is_fair(w, needing, first_id, placed, exercises, fresh);
    lemma_fair_spawn_keeps_limit(w, fresh, after, player_id);
}

/// The beacons that spawn messages announce, in order.
pub open spec fn spawned_beacons(msgs: Seq<ServerMessage>) -> Seq<BeaconInfo> {
    msgs.map_values(
        |m: ServerMessage|
            match m {
                ServerMessage::BeaconSpawned(b) => b,
                _ => arbitrary(),
            },
    )
}

impl GameWorld {
    /// One round of beacon spawning: the players of `needing` that got a
    /// place in `placed` each get a beacon there asking the exercise at the
    /// same position, with the next unused ids; the beacons join the world
    /// and are announced. When `needing` lists the players short of beacons,
    /// nobody gets more than one and nobody passes the maximum.
    pub fn spawn_round(
        &mut self,
        needing: &Vec<PlayerState>,
        placed: &Vec<Option<(u32, u32, u32)>>,
        exercises: &Vec<ExerciseData>,
    ) -> (r: Vec<ServerMessage>)
        requires
            old(self)@.wf(),
            needing@.len() == placed@.len(),
            exercises@.len() == placed@.len(),
            old(self).next_beacon_id + placed_indices(placed@).len() <= u32::MAX,
        ensures
            final(self)@.wf(),
            forall|i: int| 0 <= i < r@.len() ==> #[trigger] r@[i] is BeaconSpawned,
            is_assignment(old(self).next_beacon_id, needing@, placed@, exercises@, spawned_beacons(r@)),
            adds_beacons(old(self)@.beacons, spawned_beacons(r@), final(self)@.beacons),
            final(self)@ == (WorldView {
                beacons: final(self)@.beacons,
                next_beacon_id: (old(self).next_beacon_id + r@.len()) as u32,
                ..old(self)@
            }),
            is_needing_listing(old(self)@, needing@) ==> forall|p: u32|
                #[trigger] beacons_targeting(final(self)@.beacons, p).len() <= beacons_targeting(
                    old(self)@.beacons,
                    p,
                ).len() + 1 && (beacons_targeting(old(self)@.beacons, p).len()
                    <= MAX_BEACONS_PER_PLAYER ==> beacons_targeting(final(self)@.beacons, p).len()
                    <= MAX_BEACONS_PER_PLAYER),
    {
        let first_id = self.next_beacon_id;
        let (fresh, next_id) = assign_beacons(first_id, needing, placed, exercises);
        let ghost f = fresh@;
        let ghost w0 = self@;
        proof {
            let ix = placed_indices(placed@);
            assert forall|j: int| 0 <= j < f.len() implies first_id <= #[trigger] f[j].beacon_id
                < next_id by {
                assert(assigned_beacon(f[j], (first_id + j) as u32, needing@[ix[j]], placed@[ix[j]]->0, exercises@[ix[j]]));
            }
            assert forall|j: int, k: int|
                0 <= j < f.len() && 0 <= k < f.len() && j != k implies #[trigger] f[j].beacon_id
                != #[trigger] f[k].beacon_id by {
                assert(assigned_beacon(f[j], (first_id + j) as u32, needing@[ix[j]], placed@[ix[j]]->0, exercises@[ix[j]]));
                assert(assigned_beacon(f[k], (first_id + k) as u32, needing@[ix[k]], placed@[ix[k]]->0, exercises@[ix[k]]));
            }
        }
        let r = self.insert_beacons(fresh, next_id);
        proof {
            assert(spawned_beacons(r@) =~= f);
            assert(w0.beacons.dom().finite());
            if is_needing_listing(w0, needing@) {
                assert forall|p: u32|
                    #[trigger] beacons_targeting(self@.beacons, p).len() <= beacons_targeting(
                        w0.beacons,
                        p,
                    ).len() + 1 && (beacons_targeting(w0.beacons, p).len() <= MAX_BEACONS_PER_PLAYER
                        ==> beacons_targeting(self@.beacons, p).len() <= MAX_BEACONS_PER_PLAYER) by {
                    lemma_beacon_tick_limit(
                        w0,
                        needing@,
                        first_id,
                        placed@,
                        exercises@,
                        f,
                        self@.beacons,
                        p,
                    );
                }
            }
        }
        r
    }
}

} // verus!
