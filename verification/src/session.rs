use vstd::prelude::*;

use crate::difficulty::Difficulty;
use crate::text::{decimal, push_decimal, push_signed_decimal, signed_decimal, string_from_chars};

verus! {

/// How fast a correct answer came, by the share of the question's time
/// left.
#[derive(Debug, Clone, Copy, PartialEq, Eq, Structural)]
pub enum SpeedTier {
    Lightning,
    Fast,
    Normal,
}

/// What the player is shown after an answer.
#[derive(Debug, Clone, Copy, PartialEq, Eq, Structural)]
pub struct AnswerFeedback {
    pub correct: bool,
    pub coins_delta: i32,
    pub combo: u32,
    pub speed_tier: SpeedTier,
}

/// The local player's round: progress, coins, streaks and the round clock
/// (in milliseconds).
pub struct GameSession {
    pub difficulty: Difficulty,
    pub total_exercises: u32,
    pub current_index: u32,
    pub coins: i32,
    pub correct_count: u32,
    pub wrong_count: u32,
    pub timeout_count: u32,
    pub combo: u32,
    pub max_combo: u32,
    pub start_time_ms: u64,
    pub round_time_remaining_ms: u32,
    pub round_time_limit_ms: u32,
    pub player_name: String,
    pub prev_coins: i32,
}

/// Coins a round starts with.
pub const STARTING_COINS: i32 = 10;

/// Coins lost on a wrong answer.
pub const WRONG_PENALTY: i32 = 2;

/// Coins lost when a question times out.
pub const TIMEOUT_PENALTY: i32 = 3;

/// Coins every correct answer earns before bonuses.
pub const BASE_REWARD: i32 = 3;

/// The combo multiplier in halves: x1 for a streak of up to one, x1.5 for
/// two, x2 from three on.
pub open spec fn combo_halves(combo: u32) -> int {
    if combo <= 1 {
        2
    } else if combo == 2 {
        3
    } else {
        4
    }
}

/// The extra coins for answering fast.
pub open spec fn speed_bonus_spec(tier: SpeedTier) -> int {
    match tier {
        SpeedTier::Lightning => 3,
        SpeedTier::Fast => 1,
        SpeedTier::Normal => 0,
    }
}

/// The reward of a correct answer: the base reward plus the speed bonus,
/// times the combo multiplier, rounded half up.
pub open spec fn reward_spec(combo: u32, tier: SpeedTier) -> int {
    ((BASE_REWARD + speed_bonus_spec(tier)) * combo_halves(combo) + 1) / 2
}

/// The speed tier of an answer: more than three quarters of the time left
/// is lightning, more than half is fast.
pub open spec fn speed_tier_spec(time_remaining_ms: u32, time_limit_ms: u32) -> SpeedTier {
    if 4 * time_remaining_ms > 3 * time_limit_ms {
        SpeedTier::Lightning
    } else if 2 * time_remaining_ms > time_limit_ms {
        SpeedTier::Fast
    } else {
        SpeedTier::Normal
    }
}

/// The combo multiplier, in halves (2 is x1, 3 is x1.5, 4 is x2).
pub fn combo_multiplier(combo: u32) -> (r: u32)
    ensures
        r == combo_halves(combo),
{
    match combo {
        0 | 1 => 2,
        2 => 3,
        _ => 4,
    }
}

pub fn speed_bonus(tier: SpeedTier) -> (r: i32)
    ensures
        r == speed_bonus_spec(tier),
{
    match tier {
        SpeedTier::Lightning => 3,
        SpeedTier::Fast => 1,
        SpeedTier::Normal => 0,
    }
}

pub fn speed_tier(time_remaining_ms: u32, time_limit_ms: u32) -> (r: SpeedTier)
    ensures
        r == speed_tier_spec(time_remaining_ms, time_limit_ms),
{
    let remaining = time_remaining_ms as u64;
    let limit = time_limit_ms as u64;
    if 4 * remaining > 3 * limit {
        SpeedTier::Lightning
    } else if 2 * remaining > limit {
        SpeedTier::Fast
    } else {
        SpeedTier::Normal
    }
}

/// The coins a correct answer earns.
pub fn reward_for(combo: u32, tier: SpeedTier) -> (r: i32)
    ensures
        r == reward_spec(combo, tier),
        3 <= r <= 12,
{
    let base: i32 = BASE_REWARD + speed_bonus(tier);
    let halves: i32 = combo_multiplier(combo) as i32;
    assert(6 <= base * halves <= 24) by (nonlinear_arith)
        requires
            3 <= base <= 6,
            2 <= halves <= 4,
    ;
    (base * halves + 1) / 2
}

/// The counters an answer moves leave room for it: the question count
/// always, then the correct count and the streak for a correct answer, the
/// wrong count and the penalty for a wrong one.
pub open spec fn answer_fits(s: GameSession, correct: bool) -> bool {
    &&& s.current_index < u32::MAX
    &&& correct ==> s.correct_count < u32::MAX && s.combo < u32::MAX
    &&& !correct ==> s.wrong_count < u32::MAX && s.coins >= i32::MIN + WRONG_PENALTY
}

/// The session after an answer: the question is done; a correct answer
/// extends the streak (and the best streak with it), a wrong one breaks it
/// and costs its penalty. The reward of a correct answer is paid later.
pub open spec fn after_answer(s: GameSession, correct: bool) -> GameSession {
    if correct {
        GameSession {
            current_index: (s.current_index + 1) as u32,
            correct_count: (s.correct_count + 1) as u32,
            combo: (s.combo + 1) as u32,
            max_combo: if s.combo + 1 > s.max_combo {
                (s.combo + 1) as u32
            } else {
                s.max_combo
            },
            ..s
        }
    } else {
        GameSession {
            current_index: (s.current_index + 1) as u32,
            wrong_count: (s.wrong_count + 1) as u32,
            combo: 0,
            coins: (s.coins - WRONG_PENALTY) as i32,
            ..s
        }
    }
}

/// What an answer shows: a correct one its reward at the new streak and
/// its speed tier, a wrong one its penalty.
pub open spec fn answer_feedback(
    s: GameSession,
    correct: bool,
    time_remaining_ms: u32,
    time_limit_ms: u32,
) -> AnswerFeedback {
    if correct {
        let tier = speed_tier_spec(time_remaining_ms, time_limit_ms);
        AnswerFeedback {
            correct: true,
            coins_delta: reward_spec((s.combo + 1) as u32, tier) as i32,
            combo: (s.combo + 1) as u32,
            speed_tier: tier,
        }
    } else {
        AnswerFeedback {
            correct: false,
            coins_delta: (-WRONG_PENALTY) as i32,
            combo: 0,
            speed_tier: SpeedTier::Normal,
        }
    }
}

/// The counters leave room for `n` more time-outs.
pub open spec fn timeout_fits(s: GameSession, n: nat) -> bool {
    &&& s.current_index + n <= u32::MAX
    &&& s.timeout_count + n <= u32::MAX
    &&& s.coins - TIMEOUT_PENALTY * n >= i32::MIN
}

/// The session after `n` questions timed out: each is done and costs its
/// penalty, and any of them breaks the streak.
pub open spec fn after_timeouts(s: GameSession, n: nat) -> GameSession {
    GameSession {
        current_index: (s.current_index + n) as u32,
        timeout_count: (s.timeout_count + n) as u32,
        coins: (s.coins - TIMEOUT_PENALTY * n) as i32,
        combo: if n > 0 {
            0
        } else {
            s.combo
        },
        ..s
    }
}

impl Default for GameSession {
    /// A fresh session: Easy, twenty exercises, ten coins, no name yet.
    fn default() -> (s: GameSession)
        ensures
            s.difficulty == Difficulty::Easy,
            s.total_exercises == 20,
            s.current_index == 0,
            s.coins == STARTING_COINS,
            s.correct_count == 0 && s.wrong_count == 0 && s.timeout_count == 0,
            s.combo == 0 && s.max_combo == 0,
            s.start_time_ms == 0,
            s.round_time_remaining_ms == 240000,
            s.round_time_limit_ms == 240000,
            s.player_name@ == Seq::<char>::empty(),
            s.prev_coins == STARTING_COINS,
            s.wf(),
    {
        let difficulty = Difficulty::Easy;
        GameSession {
            difficulty,
            total_exercises: 20,
            current_index: 0,
            coins: STARTING_COINS,
            correct_count: 0,
            wrong_count: 0,
            timeout_count: 0,
            combo: 0,
            max_combo: 0,
            start_time_ms: 0,
            round_time_remaining_ms: difficulty.round_time() * 1000,
            round_time_limit_ms: difficulty.round_time() * 1000,
            player_name: String::new(),
            prev_coins: STARTING_COINS,
        }
    }
}

impl GameSession {
    /// The best streak of the round is never below the current streak.
    pub open spec fn wf(&self) -> bool {
        self.combo <= self.max_combo
    }

    /// Starts a round: counters and streaks cleared, ten coins, the round
    /// clock set from the difficulty.
    pub fn start_round(&mut self, now_ms: u64)
        ensures
            *final(self) == (GameSession {
                current_index: 0,
                coins: STARTING_COINS,
                prev_coins: STARTING_COINS,
                correct_count: 0,
                wrong_count: 0,
                timeout_count: 0,
                combo: 0,
                max_combo: 0,
                start_time_ms: now_ms,
                round_time_remaining_ms: (old(self).difficulty.round_time_spec() * 1000) as u32,
                round_time_limit_ms: (old(self).difficulty.round_time_spec() * 1000) as u32,
                ..*old(self)
            }),
            final(self).wf(),
    {
        self.current_index = 0;
        self.coins = STARTING_COINS;
        self.prev_coins = STARTING_COINS;
        self.correct_count = 0;
        self.wrong_count = 0;
        self.timeout_count = 0;
        self.combo = 0;
        self.max_combo = 0;
        self.start_time_ms = now_ms;
        self.round_time_remaining_ms = self.difficulty.round_time() * 1000;
        self.round_time_limit_ms = self.difficulty.round_time() * 1000;
    }

    /// Scores an answer. A correct one extends the streak and earns a reward
    /// that is paid when the coin it drops is picked up; a wrong one breaks
    /// the streak and costs two coins right away.
    pub fn process_answer(&mut self, correct: bool, time_remaining_ms: u32, time_limit_ms: u32) -> (r:
        AnswerFeedback)
        requires
            answer_fits(*old(self), correct),
        ensures
            *final(self) == after_answer(*old(self), correct),
            r == answer_feedback(*old(self), correct, time_remaining_ms, time_limit_ms),
            old(self).wf() ==> final(self).wf(),
    {
        self.current_index = self.current_index + 1;
        if correct {
            self.correct_count = self.correct_count + 1;
            self.combo = self.combo + 1;
            if self.combo > self.max_combo {
                self.max_combo = self.combo;
            }
            let tier = speed_tier(time_remaining_ms, time_limit_ms);
            let reward = reward_for(self.combo, tier);
            AnswerFeedback { correct: true, coins_delta: reward, combo: self.combo, speed_tier: tier }
        } else {
            self.wrong_count = self.wrong_count + 1;
            self.combo = 0;
            self.coins = self.coins - WRONG_PENALTY;
            AnswerFeedback {
                correct: false,
                coins_delta: -WRONG_PENALTY,
                combo: 0,
                speed_tier: SpeedTier::Normal,
            }
        }
    }

    /// A question ran out of time: it counts as done, costs three coins and
    /// breaks the streak.
    pub fn time_out_exercise(&mut self)
        requires
            timeout_fits(*old(self), 1),
        ensures
            *final(self) == after_timeouts(*old(self), 1),
            old(self).wf() ==> final(self).wf(),
    {
        self.timeout_count = self.timeout_count + 1;
        self.current_index = self.current_index + 1;
        self.coins = self.coins - TIMEOUT_PENALTY;
        self.combo = 0;
    }

    /// A dropped coin was picked up.
    pub fn collect_coin(&mut self, value: i32)
        requires
            i32::MIN <= old(self).coins + value <= i32::MAX,
        ensures
            *final(self) == (GameSession { coins: (old(self).coins + value) as i32, ..*old(self) }),
    {
        self.coins = self.coins + value;
    }

    /// Lets the round clock run; gives back whether the round is over.
    pub fn tick_round_timer(&mut self, dt_ms: u32) -> (over: bool)
        ensures
            final(self).round_time_remaining_ms == if old(self).round_time_remaining_ms > dt_ms {
                (old(self).round_time_remaining_ms - dt_ms) as u32
            } else {
                0
            },
            over == (final(self).round_time_remaining_ms == 0),
            *final(self) == (GameSession {
                round_time_remaining_ms: final(self).round_time_remaining_ms,
                ..*old(self)
            }),
    {
        self.round_time_remaining_ms = self.round_time_remaining_ms.saturating_sub(dt_ms);
        self.round_time_remaining_ms == 0
    }

    /// The game is lost once the coins run out.
    pub fn is_game_over(&self) -> (r: bool)
        ensures
            r == (self.coins <= 0),
    {
        self.coins <= 0
    }

    /// The round is won once every exercise has been engaged, none is still
    /// open, and coins are left.
    pub fn is_round_complete(&self, total_engaged: u32, open_exercises: usize) -> (r: bool)
        ensures
            r == (open_exercises == 0 && total_engaged >= self.total_exercises && self.coins > 0),
    {
        if open_exercises != 0 {
            return false;
        }
        total_engaged >= self.total_exercises && self.coins > 0
    }

    /// The title of the end screen.
    pub fn game_over_title(&self) -> (r: &'static str)
        ensures
            r@ == if self.current_index >= self.total_exercises && self.coins > 0 {
                "Round Complete!"@
            } else {
                "Game Over"@
            },
    {
        if self.current_index >= self.total_exercises && self.coins > 0 {
            "Round Complete!"
        } else {
            "Game Over"
        }
    }

    /// The coins to report to the server, when they changed since the last
    /// report.
    pub fn score_update_due(&mut self) -> (r: Option<i32>)
        ensures
            *final(self) == (GameSession { prev_coins: old(self).coins, ..*old(self) }),
            r == if old(self).coins != old(self).prev_coins {
                Some(old(self).coins)
            } else {
                None::<i32>
            },
    {
        if self.coins != self.prev_coins {
            self.prev_coins = self.coins;
            Some(self.coins)
        } else {
            None
        }
    }

    /// Forces the next report, as a new round does.
    pub fn force_score_update(&mut self)
        ensures
            *final(self) == (GameSession { prev_coins: i32::MIN, ..*old(self) }),
    {
        self.prev_coins = i32::MIN;
    }
}

/// Seconds to wait before reconnect attempt `attempt`: doubling from one,
/// capped at thirty.
pub open spec fn backoff_spec(attempt: u32) -> int {
    let e: nat = if attempt < 5 {
        attempt as nat
    } else {
        5
    };
    let p = vstd::arithmetic::power2::pow2(e);
    if p > 30 {
        30
    } else {
        p as int
    }
}

pub fn reconnect_backoff_secs(attempt: u32) -> (r: u32)
    ensures
        r == backoff_spec(attempt),
{
    let e: u32 = if attempt < 5 {
        attempt
    } else {
        5
    };
    let mut p: u32 = 1;
    let mut k: u32 = 0;
    proof {
        vstd::arithmetic::power2::lemma2_to64();
    }
    while k < e
        invariant
            k <= e <= 5,
            p == vstd::arithmetic::power2::pow2(k as nat),
        decreases e - k,
    {
        proof {
            vstd::arithmetic::power2::lemma_pow2_adds(k as nat, 1);
            vstd::arithmetic::power2::lemma2_to64();
        }
        p = p * 2;
        k = k + 1;
    }
    if p > 30 {
        30
    } else {
        p
    }
}

/// `"Coins: <n>"`.
pub open spec fn coin_label_spec(coins: i32) -> Seq<char> {
    seq!['C', 'o', 'i', 'n', 's', ':', ' '] + signed_decimal(coins as int)
}

pub fn coin_label(coins: i32) -> (r: String)
    ensures
        r@ == coin_label_spec(coins),
{
    let mut v: Vec<char> = Vec::new();
    v.push('C');
    v.push('o');
    v.push('i');
    v.push('n');
    v.push('s');
    v.push(':');
    v.push(' ');
    push_signed_decimal(&mut v, coins);
    assert(v@ =~= coin_label_spec(coins));
    string_from_chars(&v)
}

/// `"<engaged> / <total>"`.
pub open spec fn progress_label_spec(engaged: u32, total: u32) -> Seq<char> {
    decimal(engaged as nat) + seq![' ', '/', ' '] + decimal(total as nat)
}

pub fn progress_label(engaged: u32, total: u32) -> (r: String)
    ensures
        r@ == progress_label_spec(engaged, total),
{
    let mut v: Vec<char> = Vec::new();
    push_decimal(&mut v, engaged);
    v.push(' ');
    v.push('/');
    v.push(' ');
    push_decimal(&mut v, total);
    assert(v@ =~= progress_label_spec(engaged, total));
    string_from_chars(&v)
}

/// The combo banner: `"x1.5 Combo!"` at a streak of two, `"x2 Combo!"`
/// from three on, nothing below.
pub open spec fn combo_label_spec(combo: u32) -> Seq<char> {
    if combo < 2 {
        Seq::empty()
    } else if combo == 2 {
        seq!['x', '1', '.', '5', ' ', 'C', 'o', 'm', 'b', 'o', '!']
    } else {
        seq!['x', '2', ' ', 'C', 'o', 'm', 'b', 'o', '!']
    }
}

pub fn combo_label(combo: u32) -> (r: String)
    ensures
        r@ == combo_label_spec(combo),
{
    let mut v: Vec<char> = Vec::new();
    if combo >= 2 {
        v.push('x');
        if combo == 2 {
            v.push('1');
            v.push('.');
            v.push('5');
        } else {
            v.push('2');
        }
        v.push(' ');
        v.push('C');
        v.push('o');
        v.push('m');
        v.push('b');
        v.push('o');
        v.push('!');
    }
    assert(v@ =~= combo_label_spec(combo));
    string_from_chars(&v)
}

/// The round clock as `"m:ss"`, whole seconds rounded down.
pub open spec fn round_timer_label_spec(remaining_ms: u32) -> Seq<char> {
    let secs = remaining_ms / 1000;
    let minutes = secs / 60;
    let seconds = secs % 60;
    decimal(minutes as nat) + seq![':', crate::text::digit_char((seconds / 10) as int), crate::text::digit_char(
        (seconds % 10) as int,
    )]
}

pub fn round_timer_label(remaining_ms: u32) -> (r: String)
    ensures
        r@ == round_timer_label_spec(remaining_ms),
{
    let secs = remaining_ms / 1000;
    let minutes = secs / 60;
    let seconds = secs % 60;
    let mut v: Vec<char> = Vec::new();
    push_decimal(&mut v, minutes);
    v.push(':');
    v.push(crate::text::digit_to_char(seconds / 10));
    v.push(crate::text::digit_to_char(seconds % 10));
    assert(v@ =~= round_timer_label_spec(remaining_ms));
    string_from_chars(&v)
}

/// The colour band of a clock: green with over half the time left, yellow
/// with over a quarter, red after that.
#[derive(Debug, Clone, Copy, PartialEq, Eq, Structural)]
pub enum TimerBand {
    Green,
    Yellow,
    Red,
}

pub open spec fn timer_band_spec(remaining_ms: u32, limit_ms: u32) -> TimerBand {
    if 2 * remaining_ms > limit_ms {
        TimerBand::Green
    } else if 4 * remaining_ms > limit_ms {
        TimerBand::Yellow
    } else {
        TimerBand::Red
    }
}

pub fn timer_band(remaining_ms: u32, limit_ms: u32) -> (r: TimerBand)
    ensures
        r == timer_band_spec(remaining_ms, limit_ms),
{
    let remaining = remaining_ms as u64;
    let limit = limit_ms as u64;
    if 2 * remaining > limit {
        TimerBand::Green
    } else if 4 * remaining > limit {
        TimerBand::Yellow
    } else {
        TimerBand::Red
    }
}

/// A correct answer earns at least the base reward of three coins and at
/// most twelve: six for the fastest answer, doubled by the longest streak.
pub proof fn lemma_reward_bounds(combo: u32, tier: SpeedTier)
    ensures
        BASE_REWARD <= reward_spec(combo, tier) <= 12,
{
}

/// The reward never shrinks as the streak grows.
pub proof fn lemma_reward_grows_with_combo(c1: u32, c2: u32, tier: SpeedTier)
    requires
        c1 <= c2,
    ensures
        reward_spec(c1, tier) <= reward_spec(c2, tier),
{
}

/// The reconnect wait starts at a second, never shrinks from one attempt
/// to the next, and never exceeds thirty seconds.
pub proof fn lemma_backoff_bounds(a1: u32, a2: u32)
    requires
        a1 <= a2,
    ensures
        1 <= backoff_spec(a1) <= backoff_spec(a2) <= 30,
        backoff_spec(0) == 1,
{
    vstd::arithmetic::power2::lemma2_to64();
}

/// The text of a multiplier given in halves: `"x1"`, `"x1.5"`, `"x2"`.
pub open spec fn multiplier_text(halves: int) -> Seq<char> {
    seq!['x'] + decimal((halves / 2) as nat) + if halves % 2 == 1 {
        seq!['.', '5']
    } else {
        Seq::empty()
    }
}

/// The combo banner names the multiplier the streak earns: nothing below a
/// streak of two, then `"<multiplier> Combo!"` with the multiplier that
/// scoring applies.
pub proof fn lemma_combo_label_names_the_multiplier(combo: u32)
    ensures
        combo < 2 ==> combo_label_spec(combo).len() == 0,
        combo >= 2 ==> combo_label_spec(combo) == multiplier_text(combo_halves(combo)) + seq![
            ' ',
            'C',
            'o',
            'm',
            'b',
            'o',
            '!',
        ],
{
    if combo >= 2 {
        assert(decimal(1) == seq!['1']);
        assert(decimal(2) == seq!['2']);
        assert(combo_label_spec(combo) =~= multiplier_text(combo_halves(combo)) + seq![
            ' ',
            'C',
            'o',
            'm',
            'b',
            'o',
            '!',
        ]);
    }
}

/// An answer with more than three quarters of its time left is lightning
/// fast, with more than half (but not three quarters) left it is fast, and
/// with half or less left it is normal.
pub proof fn lemma_speed_tier_thresholds(time_remaining_ms: u32, time_limit_ms: u32)
    ensures
        4 * time_remaining_ms > 3 * time_limit_ms ==> speed_tier_spec(time_remaining_ms, time_limit_ms)
            == SpeedTier::Lightning,
        2 * time_remaining_ms > time_limit_ms && 4 * time_remaining_ms <= 3 * time_limit_ms
            ==> speed_tier_spec(time_remaining_ms, time_limit_ms) == SpeedTier::Fast,
        2 * time_remaining_ms <= time_limit_ms ==> speed_tier_spec(time_remaining_ms, time_limit_ms)
            == SpeedTier::Normal,
{
}

/// More time left never gives a slower tier, nor a smaller speed bonus.
pub proof fn lemma_speed_tier_monotone(r1: u32, r2: u32, time_limit_ms: u32)
    requires
        r1 <= r2,
    ensures
        speed_bonus_spec(speed_tier_spec(r1, time_limit_ms)) <= speed_bonus_spec(
            speed_tier_spec(r2, time_limit_ms),
        ),
{
}

/// The streak multiplier steps up once: x1 for a streak of up to one,
/// x1.5 at two, and x2 from three on, never more.
pub proof fn lemma_combo_multiplier_steps(combo: u32)
    ensures
        combo <= 1 ==> combo_halves(combo) == 2,
        combo == 2 ==> combo_halves(combo) == 3,
        combo >= 3 ==> combo_halves(combo) == 4,
{
}

/// The reward is the base reward plus the speed bonus, times the streak
/// multiplier, rounded to the nearest coin with halves rounded up: twice
/// the reward is the exact product, or one more.
pub proof fn lemma_reward_rounds_the_product(combo: u32, tier: SpeedTier)
    ensures
        ({
            let exact_twice = (BASE_REWARD + speed_bonus_spec(tier)) * combo_halves(combo);
            &&& exact_twice <= 2 * reward_spec(combo, tier) <= exact_twice + 1
        }),
        tier == SpeedTier::Lightning ==> speed_bonus_spec(tier) == 3,
        tier == SpeedTier::Fast ==> speed_bonus_spec(tier) == 1,
        tier == SpeedTier::Normal ==> speed_bonus_spec(tier) == 0,
{
}

} // verus!
