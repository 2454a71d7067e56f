use vstd::prelude::*;

use crate::protocol::{LobbyPlayer, PlayerScore};
use crate::network::ConnectionStatus;
use crate::session::GameSession;
use crate::text::{push_decimal, push_signed_decimal, push_str, decimal, signed_decimal, string_from_chars};

verus! {

/// One line of the multiplayer leaderboard.
#[derive(Debug, Clone)]
pub struct LeaderboardEntry {
    pub player_id: u32,
    pub name: String,
    pub coins: i32,
}

impl LeaderboardEntry {
    /// A field-by-field copy of the entry.
    pub fn duplicate(&self) -> (r: LeaderboardEntry)
        ensures
            r == *self,
    {
        LeaderboardEntry { player_id: self.player_id, name: self.name.clone(), coins: self.coins }
    }
}

/// The multiplayer leaderboard.
pub struct Leaderboard {
    pub entries: Vec<LeaderboardEntry>,
}

/// Where the shared round stands as a client sees it (`Inactive` outside
/// any shared round); the countdown is in milliseconds.
#[derive(Debug, Clone, Copy, PartialEq, Eq, Structural)]
pub enum MultiplayerRoundState {
    Inactive,
    Lobby,
    Countdown(u32),
    Playing,
    RoundOver,
}

impl Default for Leaderboard {
    fn default() -> (r: Leaderboard)
        ensures
            r.entries@.len() == 0,
    {
        Leaderboard { entries: Vec::new() }
    }
}

impl Default for MultiplayerRoundState {
    fn default() -> (r: MultiplayerRoundState)
        ensures
            r == MultiplayerRoundState::Inactive,
    {
        MultiplayerRoundState::Inactive
    }
}

/// Round messages received from the server, waiting to be applied.
pub struct RoundMessageBuffer {
    pub lobby_states: Vec<LobbyPlayer>,
    pub lobby_dirty: bool,
    pub countdown: Option<u8>,
    pub round_start: Option<u32>,
    pub round_over: Option<Vec<PlayerScore>>,
    pub score_updates: Vec<(u32, i32)>,
}

impl Default for RoundMessageBuffer {
    fn default() -> (r: RoundMessageBuffer)
        ensures
            r.lobby_states@.len() == 0,
            !r.lobby_dirty,
            r.countdown is None,
            r.round_start is None,
            r.round_over is None,
            r.score_updates@.len() == 0,
    {
        RoundMessageBuffer {
            lobby_states: Vec::new(),
            lobby_dirty: false,
            countdown: None,
            round_start: None,
            round_over: None,
            score_updates: Vec::new(),
        }
    }
}

/// How many entries have at least `coins`.
pub open spec fn count_at_least(s: Seq<LeaderboardEntry>, coins: i32) -> nat
    decreases s.len(),
{
    if s.len() == 0 {
        0
    } else {
        count_at_least(s.drop_last(), coins) + if s.last().coins >= coins {
            1nat
        } else {
            0nat
        }
    }
}

/// Entries ordered by coins, highest first.
pub open spec fn sorted_by_coins(s: Seq<LeaderboardEntry>) -> bool {
    forall|i: int, j: int| 0 <= i < j < s.len() ==> #[trigger] s[i].coins >= #[trigger] s[j].coins
}

/// The entries ordered by coins, highest first, entries with equal coins
/// keeping their order: each entry goes after every earlier one with at
/// least as many coins.
pub open spec fn by_coins(s: Seq<LeaderboardEntry>) -> Seq<LeaderboardEntry>
    decreases s.len(),
{
    if s.len() == 0 {
        s
    } else {
        let rest = by_coins(s.drop_last());
        rest.insert(count_at_least(rest, s.last().coins) as int, s.last())
    }
}

/// In a list ordered by coins, the entries with at least `coins` come
/// first.
pub proof fn lemma_count_at_least_prefix(s: Seq<LeaderboardEntry>, coins: i32)
    requires
        sorted_by_coins(s),
    ensures
        count_at_least(s, coins) <= s.len(),
        forall|i: int| 0 <= i < count_at_least(s, coins) ==> #[trigger] s[i].coins >= coins,
        forall|i: int| count_at_least(s, coins) <= i < s.len() ==> #[trigger] s[i].coins < coins,
    decreases s.len(),
{
    if s.len() > 0 {
        let d = s.drop_last();
        assert(sorted_by_coins(d));
        lemma_count_at_least_prefix(d, coins);
        let c = count_at_least(d, coins);
        if s.last().coins >= coins {
            assert forall|i: int| 0 <= i < count_at_least(s, coins) implies #[trigger] s[i].coins >= coins by {
                if i < c {
                    assert(d[i] == s[i]);
                } else {
                    assert(c == d.len()) by {
                        if c < d.len() {
                            assert(d[c as int].coins < coins);
                            assert(s[c as int].coins >= s[s.len() - 1].coins);
                        }
                    }
                }
            }
        } else {
            assert forall|i: int| 0 <= i < count_at_least(s, coins) implies #[trigger] s[i].coins >= coins by {
                assert(d[i] == s[i]);
            }
            assert forall|i: int| count_at_least(s, coins) <= i < s.len() implies #[trigger] s[i].coins < coins by {
                if i < d.len() {
                    assert(d[i] == s[i]);
                }
            }
        }
    }
}

/// Ordering by coins gives a list ordered by coins holding the same entries.
pub proof fn lemma_by_coins_sorted(s: Seq<LeaderboardEntry>)
    ensures
        sorted_by_coins(by_coins(s)),
        by_coins(s).len() == s.len(),
        by_coins(s).to_multiset() == s.to_multiset(),
    decreases s.len(),
{
    if s.len() > 0 {
        let d = s.drop_last();
        lemma_by_coins_sorted(d);
        let rest = by_coins(d);
        let x = s.last();
        lemma_count_at_least_prefix(rest, x.coins);
        let p = count_at_least(rest, x.coins) as int;
        let r = rest.insert(p, x);
        assert forall|i: int, j: int| 0 <= i < j < r.len() implies #[trigger] r[i].coins >= #[trigger] r[j].coins by {
            if j < p {
                assert(r[i] == rest[i] && r[j] == rest[j]);
            } else if j == p {
                assert(r[i] == rest[i]);
            } else if i < p {
                assert(r[i] == rest[i] && r[j] == rest[j - 1]);
            } else if i == p {
                assert(r[j] == rest[j - 1]);
            } else {
                assert(r[i] == rest[i - 1] && r[j] == rest[j - 1]);
            }
        }
        vstd::seq_lib::to_multiset_insert(rest, p, x);
        vstd::seq_lib::to_multiset_build(d, x);
        assert(s =~= d.push(x));
    }
}

/// The entries with exactly `coins`, in order.
pub open spec fn with_exact_coins(s: Seq<LeaderboardEntry>, coins: i32) -> Seq<LeaderboardEntry> {
    s.filter(|e: LeaderboardEntry| e.coins == coins)
}

proof fn lemma_none_with_coins(s: Seq<LeaderboardEntry>, coins: i32)
    requires
        forall|k: int| 0 <= k < s.len() ==> (#[trigger] s[k]).coins != coins,
    ensures
        with_exact_coins(s, coins) =~= Seq::<LeaderboardEntry>::empty(),
    decreases s.len(),
{
    reveal(Seq::filter);
    if s.len() > 0 {
        lemma_none_with_coins(s.drop_last(), coins);
    }
}

/// Ordering by coins is stable: the entries with equal coins come out in
/// the order they went in.
pub proof fn lemma_by_coins_stable(s: Seq<LeaderboardEntry>, coins: i32)
    ensures
        with_exact_coins(by_coins(s), coins) == with_exact_coins(s, coins),
    decreases s.len(),
{
    broadcast use vstd::seq_lib::group_filter_ensures;

    if s.len() > 0 {
        let f = |e: LeaderboardEntry| e.coins == coins;
        let d = s.drop_last();
        let x = s.last();
        lemma_by_coins_stable(d, coins);
        lemma_by_coins_sorted(d);
        let rest = by_coins(d);
        lemma_count_at_least_prefix(rest, x.coins);
        let p = count_at_least(rest, x.coins) as int;
        let front = rest.take(p);
        let back = rest.skip(p);
        assert(rest.insert(p, x) =~= front + seq![x] + back);
        assert(rest =~= front + back);
        vstd::seq::Seq::filter_distributes_over_add(front + seq![x], back, f);
        vstd::seq::Seq::filter_distributes_over_add(front, seq![x], f);
        vstd::seq::Seq::filter_distributes_over_add(front, back, f);
        reveal(Seq::filter);
        assert(s.filter(f) == d.filter(f).push(x) || s.filter(f) == d.filter(f)) by {
            assert(s.drop_last() == d);
        }
        assert(seq![x].drop_last() =~= Seq::<LeaderboardEntry>::empty());
        if x.coins == coins {
            assert forall|k: int| 0 <= k < back.len() implies (#[trigger] back[k]).coins != coins by {
                assert(back[k] == rest[p + k]);
            }
            lemma_none_with_coins(back, coins);
            assert(seq![x].filter(f) =~= seq![x]);
            assert(s.filter(f) =~= d.filter(f).push(x));
        } else {
            lemma_none_with_coins(seq![x], coins);
            assert(s.filter(f) =~= d.filter(f));
        }
    }
}

/// Orders entries by coins, highest first, keeping the order of equal ones.
pub fn sort_by_coins(entries: Vec<LeaderboardEntry>) -> (r: Vec<LeaderboardEntry>)
    ensures
        r@ == by_coins(entries@),
        sorted_by_coins(r@),
        r@.to_multiset() == entries@.to_multiset(),
        forall|coins: i32| #[trigger] with_exact_coins(r@, coins) == with_exact_coins(entries@, coins),
{
    let mut out: Vec<LeaderboardEntry> = Vec::new();
    let mut i: usize = 0;
    assert(entries@.take(0) =~= Seq::<LeaderboardEntry>::empty());
    while i < entries.len()
        invariant
            i <= entries@.len(),
            out@ == by_coins(entries@.take(i as int)),
        decreases entries@.len() - i,
    {
        let x = entries[i].duplicate();
        proof {
            lemma_by_coins_sorted(entries@.take(i as int));
            lemma_count_at_least_prefix(out@, x.coins);
        }
        let mut p: usize = 0;
        while p < out.len() && out[p].coins >= x.coins
            invariant
                p <= out@.len(),
                sorted_by_coins(out@),
                forall|k: int| 0 <= k < p ==> #[trigger] out@[k].coins >= x.coins,
                p <= count_at_least(out@, x.coins),
                forall|k: int| 0 <= k < count_at_least(out@, x.coins) ==> #[trigger] out@[k].coins >= x.coins,
                forall|k: int| count_at_least(out@, x.coins) <= k < out@.len() ==> #[trigger] out@[k].coins < x.coins,
            decreases out@.len() - p,
        {
            p = p + 1;
        }
        assert(p == count_at_least(out@, x.coins));
        out.insert(p, x);
        assert(entries@.take(i + 1).drop_last() =~= entries@.take(i as int));
        i = i + 1;
    }
    assert(entries@.take(i as int) =~= entries@);
    proof {
        lemma_by_coins_sorted(entries@);
        assert forall|coins: i32| #[trigger] with_exact_coins(out@, coins) == with_exact_coins(
            entries@,
            coins,
        ) by {
            lemma_by_coins_stable(entries@, coins);
        }
    }
    out
}

impl Leaderboard {
    /// The lobby as a leaderboard: every listed player, in the lobby's
    /// order, with no coins yet.
    pub fn from_lobby(players: &Vec<LobbyPlayer>) -> (r: Leaderboard)
        ensures
            r.entries@ == lobby_entries(players@),
    {
        let mut entries: Vec<LeaderboardEntry> = Vec::new();
        let mut i: usize = 0;
        while i < players.len()
            invariant
                i <= players@.len(),
                entries@.len() == i,
                forall|k: int|
                    0 <= k < i ==> #[trigger] entries@[k] == (LeaderboardEntry {
                        player_id: players@[k].player_id,
                        name: players@[k].name,
                        coins: 0,
                    }),
            decreases players@.len() - i,
        {
            entries.push(
                LeaderboardEntry {
                    player_id: players[i].player_id,
                    name: players[i].name.clone(),
                    coins: 0,
                },
            );
            i = i + 1;
        }
        assert(entries@ =~= lobby_entries(players@));
        Leaderboard { entries }
    }

    /// The final scores as a leaderboard, most coins first.
    pub fn from_scores(scores: &Vec<PlayerScore>) -> (r: Leaderboard)
        ensures
            r.entries@ == by_coins(score_entries(scores@)),
            sorted_by_coins(r.entries@),
    {
        let mut entries: Vec<LeaderboardEntry> = Vec::new();
        let mut i: usize = 0;
        while i < scores.len()
            invariant
                i <= scores@.len(),
                entries@ == score_entries(scores@).take(i as int),
            decreases scores@.len() - i,
        {
            entries.push(
                LeaderboardEntry {
                    player_id: scores[i].player_id,
                    name: scores[i].name.clone(),
                    coins: scores[i].coins,
                },
            );
            i = i + 1;
            assert(entries@ =~= score_entries(scores@).take(i as int));
        }
        assert(entries@ =~= score_entries(scores@));
        Leaderboard { entries: sort_by_coins(entries) }
    }

    /// Gives the coins to the first entry of the player, if there is one.
    pub fn set_coins(&mut self, player_id: u32, coins: i32)
        ensures
            final(self).entries@ == with_coins(old(self).entries@, player_id, coins),
    {
        let mut i: usize = 0;
        while i < self.entries.len()
            invariant
                i <= self.entries@.len(),
                self.entries@ == old(self).entries@,
                forall|k: int| 0 <= k < i ==> #[trigger] self.entries@[k].player_id != player_id,
            decreases self.entries@.len() - i,
        {
            if self.entries[i].player_id == player_id {
                let e = LeaderboardEntry {
                    player_id,
                    name: self.entries[i].name.clone(),
                    coins,
                };
                proof {
                    lemma_first_entry(old(self).entries@, player_id, i as int);
                }
                self.entries.set(i, e);
                return;
            }
            i = i + 1;
        }
        proof {
            lemma_no_entry(old(self).entries@, player_id);
        }
    }

    /// The entries ordered by coins, highest first, for display.
    pub fn sorted(&self) -> (r: Vec<LeaderboardEntry>)
        ensures
            r@ == by_coins(self.entries@),
            sorted_by_coins(r@),
            forall|coins: i32| #[trigger] with_exact_coins(r@, coins) == with_exact_coins(
                self.entries@,
                coins,
            ),
    {
        let mut copy: Vec<LeaderboardEntry> = Vec::new();
        let mut i: usize = 0;
        while i < self.entries.len()
            invariant
                i <= self.entries@.len(),
                copy@ == self.entries@.take(i as int),
            decreases self.entries@.len() - i,
        {
            copy.push(self.entries[i].duplicate());
            i = i + 1;
            assert(copy@ =~= self.entries@.take(i as int));
        }
        assert(copy@ =~= self.entries@);
        sort_by_coins(copy)
    }
}

/// The lobby's players as leaderboard entries with no coins, in the same
/// order.
pub open spec fn lobby_entries(players: Seq<LobbyPlayer>) -> Seq<LeaderboardEntry> {
    players.map_values(
        |p: LobbyPlayer| LeaderboardEntry { player_id: p.player_id, name: p.name, coins: 0 },
    )
}

/// The leaderboard entries of final scores, in the same order.
pub open spec fn score_entries(scores: Seq<PlayerScore>) -> Seq<LeaderboardEntry> {
    scores.map_values(
        |s: PlayerScore| LeaderboardEntry { player_id: s.player_id, name: s.name, coins: s.coins },
    )
}

/// The position of the first entry of a player.
pub open spec fn first_entry_of(s: Seq<LeaderboardEntry>, player_id: u32) -> Option<int>
    decreases s.len(),
{
    if s.len() == 0 {
        None
    } else if s[0].player_id == player_id {
        Some(0)
    } else {
        match first_entry_of(s.drop_first(), player_id) {
            Some(i) => Some(i + 1),
            None => None,
        }
    }
}

/// The entries with the first entry of the player given the coins.
pub open spec fn with_coins(s: Seq<LeaderboardEntry>, player_id: u32, coins: i32) -> Seq<
    LeaderboardEntry,
> {
    match first_entry_of(s, player_id) {
        Some(i) => s.update(i, LeaderboardEntry { coins, ..s[i] }),
        None => s,
    }
}

pub proof fn lemma_first_entry(s: Seq<LeaderboardEntry>, player_id: u32, i: int)
    requires
        0 <= i < s.len(),
        s[i].player_id == player_id,
        forall|k: int| 0 <= k < i ==> #[trigger] s[k].player_id != player_id,
    ensures
        first_entry_of(s, player_id) == Some(i),
    decreases i,
{
    if i > 0 {
        lemma_first_entry(s.drop_first(), player_id, i - 1);
    }
}

pub proof fn lemma_no_entry(s: Seq<LeaderboardEntry>, player_id: u32)
    requires
        forall|k: int| 0 <= k < s.len() ==> #[trigger] s[k].player_id != player_id,
    ensures
        first_entry_of(s, player_id) is None,
    decreases s.len(),
{
    if s.len() > 0 {
        lemma_no_entry(s.drop_first(), player_id);
    }
}

/// The score updates applied in the order they came, each to the first
/// entry of its player.
pub open spec fn apply_score_updates(s: Seq<LeaderboardEntry>, updates: Seq<(u32, i32)>) -> Seq<
    LeaderboardEntry,
>
    decreases updates.len(),
{
    if updates.len() == 0 {
        s
    } else {
        let u = updates.last();
        with_coins(apply_score_updates(s, updates.drop_last()), u.0, u.1)
    }
}

/// The round state once the buffered messages are applied: the lobby, then
/// a countdown, then the start, then the end of a round, each later one
/// winning.
pub open spec fn state_after_events(
    state: MultiplayerRoundState,
    buffer: RoundMessageBuffer,
) -> MultiplayerRoundState {
    let s1 = if buffer.lobby_dirty {
        MultiplayerRoundState::Lobby
    } else {
        state
    };
    let s2 = match buffer.countdown {
        Some(secs) => MultiplayerRoundState::Countdown((secs * 1000) as u32),
        None => s1,
    };
    let s3 = if buffer.round_start is Some {
        MultiplayerRoundState::Playing
    } else {
        s2
    };
    if buffer.round_over is Some {
        MultiplayerRoundState::RoundOver
    } else {
        s3
    }
}

/// The leaderboard once the buffered messages are applied: a new lobby
/// replaces it, final scores replace it ordered by coins, score updates
/// change the coins of listed players, and the player's own entry shows the
/// player's own coins.
pub open spec fn entries_after_events(
    entries: Seq<LeaderboardEntry>,
    buffer: RoundMessageBuffer,
    my_player_id: Option<u32>,
    my_coins: i32,
) -> Seq<LeaderboardEntry> {
    let e1 = if buffer.lobby_dirty {
        lobby_entries(buffer.lobby_states@)
    } else {
        entries
    };
    let e2 = match buffer.round_over {
        Some(scores) => by_coins(score_entries(scores@)),
        None => e1,
    };
    let e3 = apply_score_updates(e2, buffer.score_updates@);
    match my_player_id {
        Some(id) => with_coins(e3, id, my_coins),
        None => e3,
    }
}

/// Applies the buffered round messages: the round state and the leaderboard
/// follow them, the buffer is emptied (the lobby it last saw stays), and a
/// round start makes the next score report due whatever the coins.
pub fn handle_round_events(
    round_state: &mut MultiplayerRoundState,
    leaderboard: &mut Leaderboard,
    buffer: &mut RoundMessageBuffer,
    session: &mut GameSession,
    my_player_id: Option<u32>,
)
    ensures
        *final(round_state) == state_after_events(*old(round_state), *old(buffer)),
        final(leaderboard).entries@ == entries_after_events(
            old(leaderboard).entries@,
            *old(buffer),
            my_player_id,
            old(session).coins,
        ),
        !final(buffer).lobby_dirty,
        final(buffer).lobby_states@ == old(buffer).lobby_states@,
        final(buffer).countdown is None,
        final(buffer).round_start is None,
        final(buffer).round_over is None,
        final(buffer).score_updates@.len() == 0,
        *final(session) == (GameSession {
            prev_coins: if old(buffer).round_start is Some {
                i32::MIN
            } else {
                old(session).prev_coins
            },
            ..*old(session)
        }),
{
    let ghost buf0 = *buffer;
    if buffer.lobby_dirty {
        buffer.lobby_dirty = false;
        *round_state = MultiplayerRoundState::Lobby;
        *leaderboard = Leaderboard::from_lobby(&buffer.lobby_states);
    }
    if let Some(secs) = buffer.countdown.take() {
        *round_state = MultiplayerRoundState::Countdown(secs as u32 * 1000);
    }
    if let Some(_round_time) = buffer.round_start.take() {
        *round_state = MultiplayerRoundState::Playing;
        session.prev_coins = i32::MIN;
    }
    if let Some(scores) = buffer.round_over.take() {
        *round_state = MultiplayerRoundState::RoundOver;
        *leaderboard = Leaderboard::from_scores(&scores);
    }
    let ghost e2 = leaderboard.entries@;
    let mut i: usize = 0;
    while i < buffer.score_updates.len()
        invariant
            i <= buffer.score_updates@.len(),
            buffer.score_updates@ == buf0.score_updates@,
            leaderboard.entries@ == apply_score_updates(
                e2,
                buf0.score_updates@.take(i as int),
            ),
        decreases buffer.score_updates@.len() - i,
    {
        let (player_id, coins) = buffer.score_updates[i];
        leaderboard.set_coins(player_id, coins);
        assert(buf0.score_updates@.take(i + 1).drop_last() =~= buf0.score_updates@.take(i as int));
        i = i + 1;
    }
    assert(buf0.score_updates@.take(i as int) =~= buf0.score_updates@);
    buffer.score_updates.clear();
    if let Some(id) = my_player_id {
        leaderboard.set_coins(id, session.coins);
    }
}

/// `"<rank>. <name> - <coins>"`.
pub open spec fn leaderboard_line_spec(rank: u32, name: Seq<char>, coins: i32) -> Seq<char> {
    decimal(rank as nat) + seq!['.', ' '] + name + seq![' ', '-', ' '] + signed_decimal(
        coins as int,
    )
}

pub fn leaderboard_line(rank: u32, name: &str, coins: i32) -> (r: String)
    ensures
        r@ == leaderboard_line_spec(rank, name@, coins),
{
    let mut v: Vec<char> = Vec::new();
    push_decimal(&mut v, rank);
    v.push('.');
    v.push(' ');
    push_str(&mut v, name);
    v.push(' ');
    v.push('-');
    v.push(' ');
    push_signed_decimal(&mut v, coins);
    assert(v@ =~= leaderboard_line_spec(rank, name@, coins));
    string_from_chars(&v)
}

/// The leaderboard panel shows while connected to a shared round or its
/// end, once it has entries.
pub fn leaderboard_visible(status: &ConnectionStatus, round: MultiplayerRoundState, entries: usize) -> (r:
    bool)
    ensures
        r == (*status is Connected && (round is Playing || round is RoundOver) && entries > 0),
{
    let in_round = match round {
        MultiplayerRoundState::Playing | MultiplayerRoundState::RoundOver => true,
        _ => false,
    };
    status.is_online() && in_round && entries > 0
}

/// How the lobby shows a player's readiness.
pub open spec fn lobby_status_text(p: LobbyPlayer) -> Seq<char> {
    if p.playing_solo {
        "(playing solo)"@
    } else if p.ready {
        "Ready"@
    } else {
        "---"@
    }
}

/// A player's line in the lobby: `"<name> <status>"`.
pub fn lobby_player_line(p: &LobbyPlayer) -> (r: String)
    ensures
        r@ == p.name@ + seq![' '] + lobby_status_text(*p),
{
    let status = if p.playing_solo {
        "(playing solo)"
    } else if p.ready {
        "Ready"
    } else {
        "---"
    };
    let mut v: Vec<char> = Vec::new();
    push_str(&mut v, p.name.as_str());
    v.push(' ');
    push_str(&mut v, status);
    assert(v@ =~= p.name@ + seq![' '] + lobby_status_text(*p));
    string_from_chars(&v)
}

/// The medal of the first three places.
pub open spec fn medal_text(rank: u32) -> Seq<char> {
    if rank == 1 {
        "1st"@
    } else if rank == 2 {
        "2nd"@
    } else if rank == 3 {
        "3rd"@
    } else {
        Seq::empty()
    }
}

/// A line of the final standings: `"1st <name> - <coins> coins"` for the
/// first three places, `"<rank>. <name> - <coins> coins"` after them.
pub open spec fn standing_line_spec(rank: u32, name: Seq<char>, coins: i32) -> Seq<char> {
    let head = if 1 <= rank <= 3 {
        medal_text(rank)
    } else {
        decimal(rank as nat) + seq!['.']
    };
    head + seq![' '] + name + " - "@ + signed_decimal(coins as int) + " coins"@
}

pub fn standing_line(rank: u32, name: &str, coins: i32) -> (r: String)
    ensures
        r@ == standing_line_spec(rank, name@, coins),
{
    let mut v: Vec<char> = Vec::new();
    if rank == 1 {
        push_str(&mut v, "1st");
    } else if rank == 2 {
        push_str(&mut v, "2nd");
    } else if rank == 3 {
        push_str(&mut v, "3rd");
    } else {
        push_decimal(&mut v, rank);
        v.push('.');
    }
    v.push(' ');
    push_str(&mut v, name);
    push_str(&mut v, " - ");
    push_signed_decimal(&mut v, coins);
    push_str(&mut v, " coins");
    assert(v@ =~= standing_line_spec(rank, name@, coins));
    string_from_chars(&v)
}

/// The countdown as shown: whole seconds left, rounded up, at most 255.
pub open spec fn countdown_display_spec(remaining_ms: u32) -> u8 {
    let secs = (remaining_ms + 999) / 1000;
    if secs > 255 {
        255
    } else {
        secs as u8
    }
}

impl MultiplayerRoundState {
    /// Lets a countdown run down, stopping at zero; other states stay.
    pub fn tick_countdown(&mut self, dt_ms: u32)
        ensures
            match *old(self) {
                MultiplayerRoundState::Countdown(ms) => *final(self) == MultiplayerRoundState::Countdown(
                    if ms > dt_ms {
                        (ms - dt_ms) as u32
                    } else {
                        0
                    },
                ),
                _ => *final(self) == *old(self),
            },
    {
        if let MultiplayerRoundState::Countdown(ms) = *self {
            *self = MultiplayerRoundState::Countdown(ms.saturating_sub(dt_ms));
        }
    }

    /// The number the countdown overlay shows, during a countdown.
    pub fn countdown_display(&self) -> (r: Option<u8>)
        ensures
            r == match *self {
                MultiplayerRoundState::Countdown(ms) => Some(countdown_display_spec(ms)),
                _ => None::<u8>,
            },
    {
        match *self {
            MultiplayerRoundState::Countdown(ms) => {
                let secs: u64 = (ms as u64 + 999) / 1000;
                if secs > 255 {
                    Some(255)
                } else {
                    Some(secs as u8)
                }
            },
            _ => None,
        }
    }
}

/// Giving a player coins changes nothing but the coins of one entry: the
/// entries keep their number, order, players and names.
pub proof fn lemma_with_coins_keeps_players(s: Seq<LeaderboardEntry>, player_id: u32, coins: i32)
    ensures
        with_coins(s, player_id, coins).len() == s.len(),
        forall|i: int|
            0 <= i < s.len() ==> #[trigger] with_coins(s, player_id, coins)[i].player_id
                == s[i].player_id && with_coins(s, player_id, coins)[i].name == s[i].name,
{
    lemma_first_entry_in_range(s, player_id);
}

proof fn lemma_first_entry_in_range(s: Seq<LeaderboardEntry>, player_id: u32)
    ensures
        first_entry_of(s, player_id) matches Some(i) ==> 0 <= i < s.len() && s[i].player_id
            == player_id,
    decreases s.len(),
{
    if s.len() > 0 && s[0].player_id != player_id {
        lemma_first_entry_in_range(s.drop_first(), player_id);
    }
}

/// Score updates never add, drop or reorder entries: only coins change.
pub proof fn lemma_score_updates_keep_players(s: Seq<LeaderboardEntry>, updates: Seq<(u32, i32)>)
    ensures
        apply_score_updates(s, updates).len() == s.len(),
        forall|i: int|
            0 <= i < s.len() ==> #[trigger] apply_score_updates(s, updates)[i].player_id
                == s[i].player_id && apply_score_updates(s, updates)[i].name == s[i].name,
    decreases updates.len(),
{
    if updates.len() > 0 {
        let u = updates.last();
        let before = apply_score_updates(s, updates.drop_last());
        lemma_score_updates_keep_players(s, updates.drop_last());
        lemma_with_coins_keeps_players(before, u.0, u.1);
        assert forall|i: int| 0 <= i < s.len() implies #[trigger] apply_score_updates(
            s,
            updates,
        )[i].player_id == s[i].player_id && apply_score_updates(s, updates)[i].name
            == s[i].name by {
            assert(before[i].player_id == s[i].player_id);
            assert(with_coins(before, u.0, u.1)[i].player_id == before[i].player_id);
        }
    }
}

} // verus!
