use vstd::prelude::*;

use crate::difficulty::Difficulty;
use crate::exercise::{
    is_exercise_for, parse_question_spec, parse_question_text, question_text_spec, random_in,
    thread_rng, well_formed_choices, ExerciseData, ExerciseState, Operation,
};
use crate::mode::GameMode;
use crate::network::ConnectionStatus;
use crate::protocol::{BeaconInfo, ClientMessage};
use crate::session::{
    after_answer, after_timeouts, answer_feedback, answer_fits, timeout_fits, AnswerFeedback,
    GameSession,
};

verus! {

// The beacons and questions in front of the player. Each beacon carries one
// question; walking up to a dormant beacon activates it, its question then
// runs on its own clock until answered or timed out.

/// Where a beacon stands.
#[derive(Debug, Clone, Copy, PartialEq, Eq, Structural)]
pub enum BeaconState {
    Dormant,
    Activated,
    Resolved,
}

/// A question on the client, its clock in milliseconds.
#[derive(Debug, Clone, Copy)]
pub struct ActiveExercise {
    pub operation: Operation,
    pub operand_a: u32,
    pub operand_b: u32,
    pub correct_answer: u32,
    pub choices: [u32; 4],
    pub time_remaining_ms: u32,
    pub time_limit_ms: u32,
    pub state: ExerciseState,
}

impl ActiveExercise {
    /// The question without its clock.
    pub open spec fn data(self) -> ExerciseData {
        ExerciseData {
            operation: self.operation,
            operand_a: self.operand_a,
            operand_b: self.operand_b,
            correct_answer: self.correct_answer,
            choices: self.choices,
            time_limit: self.time_limit_ms / 1000,
        }
    }

    /// `"<a> <op> <b> = ?"`.
    pub fn question_text(&self) -> (r: String)
        ensures
            r@ == question_text_spec(self.operation, self.operand_a, self.operand_b),
    {
        let data = ExerciseData {
            operation: self.operation,
            operand_a: self.operand_a,
            operand_b: self.operand_b,
            correct_answer: self.correct_answer,
            choices: self.choices,
            time_limit: self.time_limit_ms / 1000,
        };
        data.question_text()
    }
}

/// A fresh question of the mode and difficulty, waiting for its beacon to
/// be activated, its clock full.
pub fn generate_exercise(mode: GameMode, difficulty: &Difficulty) -> (ex: ActiveExercise)
    ensures
        is_exercise_for(ex.data(), mode, *difficulty),
        well_formed_choices(ex.data()),
        ex.time_limit_ms == difficulty.config_spec().seconds_per_question * 1000,
        ex.time_remaining_ms == ex.time_limit_ms,
        ex.state == ExerciseState::Pending,
{
    let data = crate::exercise::generate_exercise(mode, difficulty);
    let limit_ms: u32 = data.time_limit * 1000;
    let ex = ActiveExercise {
        operation: data.operation,
        operand_a: data.operand_a,
        operand_b: data.operand_b,
        correct_answer: data.correct_answer,
        choices: data.choices,
        time_remaining_ms: limit_ms,
        time_limit_ms: limit_ms,
        state: ExerciseState::Pending,
    };
    assert(ex.data() == data);
    ex
}

/// The question of a beacon the server spawned: read back from its text,
/// the answer picked out of the choices, the beacon's lifetime as its clock.
pub fn exercise_from_beacon(info: &BeaconInfo) -> (ex: ActiveExercise)
    requires
        info.correct_index < 4,
    ensures
        (ex.operation, ex.operand_a, ex.operand_b) == parse_question_spec(info.question_text@),
        ex.correct_answer == info.choices[info.correct_index as int],
        ex.choices == info.choices,
        ex.time_remaining_ms == info.lifetime_ms,
        ex.time_limit_ms == info.lifetime_ms,
        ex.state == ExerciseState::Pending,
{
    let (operation, operand_a, operand_b) = parse_question_text(info.question_text.as_str());
    ActiveExercise {
        operation,
        operand_a,
        operand_b,
        correct_answer: info.choices[info.correct_index as usize],
        choices: info.choices,
        time_remaining_ms: info.lifetime_ms,
        time_limit_ms: info.lifetime_ms,
        state: ExerciseState::Pending,
    }
}

/// A beacon in the world with its question; a beacon the server spawned
/// knows the server's id for it.
#[derive(Debug, Clone, Copy)]
pub struct TrackedBeacon {
    pub exercise_id: u32,
    pub server_beacon_id: Option<u32>,
    pub state: BeaconState,
    pub lifetime_ms: u32,
    pub exercise: ActiveExercise,
}

/// The player's progress through the beacons, with the wait before the next
/// local beacon in milliseconds.
#[derive(Debug, Clone, Copy, PartialEq, Eq, Structural)]
pub struct ActiveExercises {
    pub total_engaged: u32,
    pub total_spawned: u32,
    pub target_concurrent: u32,
    pub next_exercise_id: u32,
    pub cooldown_ms: u32,
}

impl Default for ActiveExercises {
    fn default() -> (r: ActiveExercises)
        ensures
            r == (ActiveExercises {
                total_engaged: 0,
                total_spawned: 0,
                target_concurrent: 6,
                next_exercise_id: 0,
                cooldown_ms: 0,
            }),
    {
        ActiveExercises {
            total_engaged: 0,
            total_spawned: 0,
            target_concurrent: 6,
            next_exercise_id: 0,
            cooldown_ms: 0,
        }
    }
}

/// The wait after a local beacon appears before the next may, in
/// milliseconds.
pub const LOCAL_SPAWN_COOLDOWN_MS: u32 = 500;

/// How long a local beacon stays before fading, in milliseconds: drawn from
/// thirty seconds up to a minute.
pub const MIN_LOCAL_LIFETIME_MS: u32 = 30000;

pub const MAX_LOCAL_LIFETIME_MS: u32 = 59999;

/// Whether the client spawns its own beacons now: only alone or offline;
/// then the cooldown runs, and a beacon is due when fewer than the target
/// stand, questions are left and the cooldown is over.
pub fn local_spawn_due(
    status: &ConnectionStatus,
    active: &mut ActiveExercises,
    beacon_count: u32,
    total_exercises: u32,
    dt_ms: u32,
) -> (due: bool)
    ensures
        !(*status is Disconnected || *status is ConnectedSolo) ==> !due && *final(active) == *old(
            active,
        ),
        (*status is Disconnected || *status is ConnectedSolo) ==> {
            &&& *final(active) == ActiveExercises {
                cooldown_ms: if old(active).cooldown_ms > dt_ms {
                    (old(active).cooldown_ms - dt_ms) as u32
                } else {
                    0
                },
                ..*old(active)
            }
            &&& due == (beacon_count < old(active).target_concurrent && old(active).total_engaged
                < total_exercises && final(active).cooldown_ms == 0)
        },
{
    match status {
        ConnectionStatus::Disconnected | ConnectionStatus::ConnectedSolo { .. } => {},
        _ => {
            return false;
        },
    }
    active.cooldown_ms = active.cooldown_ms.saturating_sub(dt_ms);
    beacon_count < active.target_concurrent && active.total_engaged < total_exercises
        && active.cooldown_ms == 0
}

/// A beacon the client spawns itself: a fresh question, dormant, with a
/// lifetime of thirty seconds to a minute. It takes the next exercise id and
/// starts the cooldown.
pub fn spawn_local_beacon(active: &mut ActiveExercises, mode: GameMode, difficulty: &Difficulty) -> (b:
    TrackedBeacon)
    requires
        old(active).next_exercise_id < u32::MAX,
        old(active).total_spawned < u32::MAX,
    ensures
        *final(active) == (ActiveExercises {
            next_exercise_id: (old(active).next_exercise_id + 1) as u32,
            total_spawned: (old(active).total_spawned + 1) as u32,
            cooldown_ms: LOCAL_SPAWN_COOLDOWN_MS,
            ..*old(active)
        }),
        b.exercise_id == old(active).next_exercise_id,
        b.server_beacon_id is None,
        b.state == BeaconState::Dormant,
        MIN_LOCAL_LIFETIME_MS <= b.lifetime_ms <= MAX_LOCAL_LIFETIME_MS,
        is_exercise_for(b.exercise.data(), mode, *difficulty),
        well_formed_choices(b.exercise.data()),
        b.exercise.time_limit_ms == difficulty.config_spec().seconds_per_question * 1000,
        b.exercise.time_remaining_ms == b.exercise.time_limit_ms,
        b.exercise.state == ExerciseState::Pending,
{
    let exercise = generate_exercise(mode, difficulty);
    let mut rng = thread_rng();
    let lifetime_ms = random_in(&mut rng, MIN_LOCAL_LIFETIME_MS, MAX_LOCAL_LIFETIME_MS);
    place_local_beacon(active, exercise, lifetime_ms)
}

/// A local beacon with the given question and lifetime: dormant, taking
/// the next exercise id and starting the cooldown.
pub fn place_local_beacon(active: &mut ActiveExercises, exercise: ActiveExercise, lifetime_ms: u32) -> (b:
    TrackedBeacon)
    requires
        old(active).next_exercise_id < u32::MAX,
        old(active).total_spawned < u32::MAX,
    ensures
        *final(active) == (ActiveExercises {
            next_exercise_id: (old(active).next_exercise_id + 1) as u32,
            total_spawned: (old(active).total_spawned + 1) as u32,
            cooldown_ms: LOCAL_SPAWN_COOLDOWN_MS,
            ..*old(active)
        }),
        b == (TrackedBeacon {
            exercise_id: old(active).next_exercise_id,
            server_beacon_id: None,
            state: BeaconState::Dormant,
            lifetime_ms,
            exercise,
        }),
{
    let exercise_id = active.next_exercise_id;
    active.next_exercise_id = active.next_exercise_id + 1;
    active.total_spawned = active.total_spawned + 1;
    active.cooldown_ms = LOCAL_SPAWN_COOLDOWN_MS;
    TrackedBeacon {
        exercise_id,
        server_beacon_id: None,
        state: BeaconState::Dormant,
        lifetime_ms,
        exercise,
    }
}

/// A beacon the server spawned: it takes the next exercise id, stays
/// dormant, and lives as long as the server says.
pub fn track_server_beacon(active: &mut ActiveExercises, info: &BeaconInfo) -> (b: TrackedBeacon)
    requires
        old(active).next_exercise_id < u32::MAX,
        info.correct_index < 4,
    ensures
        *final(active) == (ActiveExercises {
            next_exercise_id: (old(active).next_exercise_id + 1) as u32,
            ..*old(active)
        }),
        b.exercise_id == old(active).next_exercise_id,
        b.server_beacon_id == Some(info.beacon_id),
        b.state == BeaconState::Dormant,
        b.lifetime_ms == info.lifetime_ms,
        (b.exercise.operation, b.exercise.operand_a, b.exercise.operand_b) == parse_question_spec(
            info.question_text@,
        ),
        b.exercise.correct_answer == info.choices[info.correct_index as int],
        b.exercise.choices == info.choices,
        b.exercise.time_remaining_ms == info.lifetime_ms,
        b.exercise.time_limit_ms == info.lifetime_ms,
        b.exercise.state == ExerciseState::Pending,
{
    let exercise_id = active.next_exercise_id;
    active.next_exercise_id = active.next_exercise_id + 1;
    TrackedBeacon {
        exercise_id,
        server_beacon_id: Some(info.beacon_id),
        state: BeaconState::Dormant,
        lifetime_ms: info.lifetime_ms,
        exercise: exercise_from_beacon(info),
    }
}

/// The player reached beacon `index`. While questions are left, a dormant
/// beacon activates and its question starts running; the beacon counts as
/// engaged. Gives back whether it activated.
pub fn engage_beacon(
    active: &mut ActiveExercises,
    total_exercises: u32,
    beacons: &mut Vec<TrackedBeacon>,
    index: usize,
) -> (engaged: bool)
    requires
        index < old(beacons)@.len(),
    ensures
        engaged == (old(active).total_engaged < total_exercises && old(beacons)@[index as int].state
            == BeaconState::Dormant),
        engaged ==> {
            &&& *final(active) == ActiveExercises {
                total_engaged: (old(active).total_engaged + 1) as u32,
                ..*old(active)
            }
            &&& final(beacons)@ == old(beacons)@.update(index as int, activated(old(beacons)@[index as int]))
        },
        !engaged ==> *final(active) == *old(active) && final(beacons)@ == old(beacons)@,
{
    if active.total_engaged >= total_exercises {
        return false;
    }
    let b = beacons[index];
    if b.state != BeaconState::Dormant {
        return false;
    }
    beacons.set(index, activate(b));
    active.total_engaged = active.total_engaged + 1;
    true
}

/// A beacon activated: its question starts running.
pub open spec fn activated(b: TrackedBeacon) -> TrackedBeacon {
    TrackedBeacon {
        state: BeaconState::Activated,
        exercise: ActiveExercise { state: ExerciseState::Active, ..b.exercise },
        ..b
    }
}

fn activate(b: TrackedBeacon) -> (r: TrackedBeacon)
    ensures
        r == activated(b),
{
    TrackedBeacon {
        state: BeaconState::Activated,
        exercise: ActiveExercise { state: ExerciseState::Active, ..b.exercise },
        ..b
    }
}

/// The beacons once another player activated the server's beacon: its
/// dormant copies activate (to be watched, not answered).
pub open spec fn activated_by_other(s: Seq<TrackedBeacon>, beacon_id: u32) -> Seq<TrackedBeacon> {
    s.map_values(
        |b: TrackedBeacon|
            if b.server_beacon_id == Some(beacon_id) && b.state == BeaconState::Dormant {
                activated(b)
            } else {
                b
            },
    )
}

/// The server says a player activated its beacon. The client's own
/// activation it already made itself; another player's activates the
/// matching dormant beacons.
pub fn activate_remote(
    beacons: &mut Vec<TrackedBeacon>,
    beacon_id: u32,
    activated_by: u32,
    my_player_id: u32,
)
    ensures
        activated_by == my_player_id ==> final(beacons)@ == old(beacons)@,
        activated_by != my_player_id ==> final(beacons)@ == activated_by_other(
            old(beacons)@,
            beacon_id,
        ),
{
    if activated_by == my_player_id {
        return;
    }
    let ghost start = beacons@;
    let mut i: usize = 0;
    while i < beacons.len()
        invariant
            i <= beacons@.len(),
            beacons@.len() == start.len(),
            forall|k: int|
                0 <= k < i ==> #[trigger] beacons@[k] == activated_by_other(start, beacon_id)[k],
            forall|k: int| i <= k < beacons@.len() ==> #[trigger] beacons@[k] == start[k],
        decreases beacons@.len() - i,
    {
        let b = beacons[i];
        if b.server_beacon_id == Some(beacon_id) && b.state == BeaconState::Dormant {
            beacons.set(i, activate(b));
        }
        i = i + 1;
    }
    assert(beacons@ =~= activated_by_other(start, beacon_id));
}

/// The beacons other than those of the server's beacon.
pub open spec fn without_server_beacon(s: Seq<TrackedBeacon>, beacon_id: u32) -> Seq<TrackedBeacon> {
    s.filter(|b: TrackedBeacon| b.server_beacon_id != Some(beacon_id))
}

/// The server resolved or expired its beacon: the beacons for it go, with
/// their questions. Gives back their exercise ids.
pub fn remove_server_beacon(beacons: &mut Vec<TrackedBeacon>, beacon_id: u32) -> (removed: Vec<u32>)
    ensures
        final(beacons)@ == without_server_beacon(old(beacons)@, beacon_id),
        removed@ == old(beacons)@.filter(
            |b: TrackedBeacon| b.server_beacon_id == Some(beacon_id),
        ).map_values(|b: TrackedBeacon| b.exercise_id),
{
    let ghost start = beacons@;
    let mut kept: Vec<TrackedBeacon> = Vec::new();
    let mut removed: Vec<u32> = Vec::new();
    let mut i: usize = 0;
    assert(start.take(0) =~= Seq::<TrackedBeacon>::empty());
    proof {
        reveal(Seq::filter);
    }
    while i < beacons.len()
        invariant
            i <= beacons@.len(),
            beacons@ == start,
            kept@ == without_server_beacon(start.take(i as int), beacon_id),
            removed@ == start.take(i as int).filter(
                |b: TrackedBeacon| b.server_beacon_id == Some(beacon_id),
            ).map_values(|b: TrackedBeacon| b.exercise_id),
        decreases beacons@.len() - i,
    {
        let b = beacons[i];
        proof {
            reveal(Seq::filter);
            assert(start.take(i + 1).drop_last() =~= start.take(i as int));
        }
        if b.server_beacon_id == Some(beacon_id) {
            removed.push(b.exercise_id);
        } else {
            kept.push(b);
        }
        i = i + 1;
        proof {
            let f = |b: TrackedBeacon| b.server_beacon_id == Some(beacon_id);
            let prev = start.take(i - 1).filter(f);
            if f(b) {
                assert(start.take(i as int).filter(f) == prev.push(b));
                assert(prev.push(b).map_values(|b: TrackedBeacon| b.exercise_id) =~= prev.map_values(
                    |b: TrackedBeacon| b.exercise_id,
                ).push(b.exercise_id));
            } else {
                assert(start.take(i as int).filter(f) == prev);
            }
        }
    }
    assert(start.take(i as int) =~= start);
    *beacons = kept;
    removed
}

/// Whether beacon `b`'s question is running.
pub open spec fn running(b: TrackedBeacon) -> bool {
    b.state == BeaconState::Activated && b.exercise.state == ExerciseState::Active
}

/// Whether `b`'s question runs out within `dt_ms`.
pub open spec fn times_out(b: TrackedBeacon, dt_ms: u32) -> bool {
    running(b) && b.exercise.time_remaining_ms <= dt_ms
}

/// Beacon `b` after `dt_ms`, when its question is still on: a running
/// question has that much less time left.
pub open spec fn clock_ran(b: TrackedBeacon, dt_ms: u32) -> TrackedBeacon {
    if running(b) {
        TrackedBeacon {
            exercise: ActiveExercise {
                time_remaining_ms: (b.exercise.time_remaining_ms - dt_ms) as u32,
                ..b.exercise
            },
            ..b
        }
    } else {
        b
    }
}

/// The beacons after `dt_ms`: those whose question timed out are gone, the
/// running ones have less time left.
pub open spec fn ticked(s: Seq<TrackedBeacon>, dt_ms: u32) -> Seq<TrackedBeacon>
    decreases s.len(),
{
    if s.len() == 0 {
        s
    } else {
        let rest = ticked(s.drop_last(), dt_ms);
        if times_out(s.last(), dt_ms) {
            rest
        } else {
            rest.push(clock_ran(s.last(), dt_ms))
        }
    }
}

/// The exercise ids of the questions that time out within `dt_ms`, in
/// order.
pub open spec fn timed_out_ids(s: Seq<TrackedBeacon>, dt_ms: u32) -> Seq<u32>
    decreases s.len(),
{
    if s.len() == 0 {
        Seq::empty()
    } else {
        let rest = timed_out_ids(s.drop_last(), dt_ms);
        if times_out(s.last(), dt_ms) {
            rest.push(s.last().exercise_id)
        } else {
            rest
        }
    }
}

proof fn lemma_timed_out_prefix(s: Seq<TrackedBeacon>, dt_ms: u32, i: int)
    requires
        0 <= i <= s.len(),
    ensures
        timed_out_ids(s.take(i), dt_ms).len() <= timed_out_ids(s, dt_ms).len(),
    decreases s.len() - i,
{
    if i < s.len() {
        lemma_timed_out_prefix(s, dt_ms, i + 1);
        assert(s.take(i + 1).drop_last() =~= s.take(i));
    } else {
        assert(s.take(i) =~= s);
    }
}

/// Lets the running questions' clocks run. A question whose time is up
/// times out: it costs its penalty and is removed with its beacon. Gives
/// back the exercise ids of those that timed out.
pub fn tick_exercises(session: &mut GameSession, beacons: &mut Vec<TrackedBeacon>, dt_ms: u32) -> (r:
    Vec<u32>)
    requires
        timeout_fits(*old(session), timed_out_ids(old(beacons)@, dt_ms).len()),
    ensures
        r@ == timed_out_ids(old(beacons)@, dt_ms),
        final(beacons)@ == ticked(old(beacons)@, dt_ms),
        *final(session) == after_timeouts(*old(session), r@.len()),
{
    let ghost start = beacons@;
    let ghost s0 = *session;
    let mut kept: Vec<TrackedBeacon> = Vec::new();
    let mut out: Vec<u32> = Vec::new();
    let mut i: usize = 0;
    assert(start.take(0) =~= Seq::<TrackedBeacon>::empty());
    while i < beacons.len()
        invariant
            i <= beacons@.len(),
            beacons@ == start,
            kept@ == ticked(start.take(i as int), dt_ms),
            out@ == timed_out_ids(start.take(i as int), dt_ms),
            out@.len() <= timed_out_ids(start, dt_ms).len(),
            timeout_fits(s0, timed_out_ids(start, dt_ms).len()),
            *session == after_timeouts(s0, out@.len()),
        decreases beacons@.len() - i,
    {
        let b = beacons[i];
        assert(start.take(i + 1).drop_last() =~= start.take(i as int));
        assert(start.take(i + 1).last() == b);
        proof {
            lemma_timed_out_prefix(start, dt_ms, i + 1);
        }
        let is_running = b.state == BeaconState::Activated && b.exercise.state
            == ExerciseState::Active;
        if is_running && b.exercise.time_remaining_ms <= dt_ms {
            session.time_out_exercise();
            out.push(b.exercise_id);
        } else if is_running {
            let mut nb = b;
            nb.exercise.time_remaining_ms = b.exercise.time_remaining_ms - dt_ms;
            kept.push(nb);
        } else {
            kept.push(b);
        }
        i = i + 1;
    }
    assert(start.take(i as int) =~= start);
    *beacons = kept;
    out
}

/// Whether dormant beacon `b` fades within `dt_ms`.
pub open spec fn fades(b: TrackedBeacon, dt_ms: u32) -> bool {
    b.state == BeaconState::Dormant && b.lifetime_ms <= dt_ms
}

/// The beacons after `dt_ms` of lifetime: faded dormant ones are gone, the
/// other dormant ones have less life left; activated ones keep theirs.
pub open spec fn aged(s: Seq<TrackedBeacon>, dt_ms: u32) -> Seq<TrackedBeacon>
    decreases s.len(),
{
    if s.len() == 0 {
        s
    } else {
        let rest = aged(s.drop_last(), dt_ms);
        let b = s.last();
        if fades(b, dt_ms) {
            rest
        } else if b.state == BeaconState::Dormant {
            rest.push(TrackedBeacon { lifetime_ms: (b.lifetime_ms - dt_ms) as u32, ..b })
        } else {
            rest.push(b)
        }
    }
}

/// The exercise ids of the beacons that fade within `dt_ms`, in order.
pub open spec fn faded_ids(s: Seq<TrackedBeacon>, dt_ms: u32) -> Seq<u32>
    decreases s.len(),
{
    if s.len() == 0 {
        Seq::empty()
    } else {
        let rest = faded_ids(s.drop_last(), dt_ms);
        if fades(s.last(), dt_ms) {
            rest.push(s.last().exercise_id)
        } else {
            rest
        }
    }
}

/// Lets the dormant beacons' lifetimes run; those whose life is over fade
/// away. Gives back their exercise ids.
pub fn tick_world_lifetime(beacons: &mut Vec<TrackedBeacon>, dt_ms: u32) -> (r: Vec<u32>)
    ensures
        r@ == faded_ids(old(beacons)@, dt_ms),
        final(beacons)@ == aged(old(beacons)@, dt_ms),
{
    let ghost start = beacons@;
    let mut kept: Vec<TrackedBeacon> = Vec::new();
    let mut out: Vec<u32> = Vec::new();
    let mut i: usize = 0;
    assert(start.take(0) =~= Seq::<TrackedBeacon>::empty());
    while i < beacons.len()
        invariant
            i <= beacons@.len(),
            beacons@ == start,
            kept@ == aged(start.take(i as int), dt_ms),
            out@ == faded_ids(start.take(i as int), dt_ms),
        decreases beacons@.len() - i,
    {
        let b = beacons[i];
        assert(start.take(i + 1).drop_last() =~= start.take(i as int));
        assert(start.take(i + 1).last() == b);
        if b.state == BeaconState::Dormant {
            if b.lifetime_ms <= dt_ms {
                out.push(b.exercise_id);
            } else {
                let mut nb = b;
                nb.lifetime_ms = b.lifetime_ms - dt_ms;
                kept.push(nb);
            }
        } else {
            kept.push(b);
        }
        i = i + 1;
    }
    assert(start.take(i as int) =~= start);
    *beacons = kept;
    out
}

/// The position of the first beacon carrying the exercise.
pub open spec fn find_exercise(s: Seq<TrackedBeacon>, exercise_id: u32) -> Option<int>
    decreases s.len(),
{
    if s.len() == 0 {
        None
    } else if s[0].exercise_id == exercise_id {
        Some(0)
    } else {
        match find_exercise(s.drop_first(), exercise_id) {
            Some(i) => Some(i + 1),
            None => None,
        }
    }
}

proof fn lemma_find_exercise(s: Seq<TrackedBeacon>, exercise_id: u32, i: int)
    requires
        0 <= i <= s.len(),
        forall|k: int| 0 <= k < i ==> #[trigger] s[k].exercise_id != exercise_id,
    ensures
        i < s.len() && s[i].exercise_id == exercise_id ==> find_exercise(s, exercise_id) == Some(
            i,
        ),
        i == s.len() ==> find_exercise(s, exercise_id) is None,
    decreases i,
{
    if i > 0 {
        lemma_find_exercise(s.drop_first(), exercise_id, i - 1);
    }
}

/// Whether a beacon carries the exercise and its question is running.
pub open spec fn answer_taken(s: Seq<TrackedBeacon>, exercise_id: u32) -> bool {
    match find_exercise(s, exercise_id) {
        Some(i) => s[i].exercise.state == ExerciseState::Active,
        None => false,
    }
}

/// The player hit an answer panel of an exercise. Only a running question
/// takes the answer: it is scored, and its beacon goes. Gives back the
/// feedback, or `None` when no running question has that id.
pub fn answer_exercise(
    session: &mut GameSession,
    beacons: &mut Vec<TrackedBeacon>,
    exercise_id: u32,
    is_correct: bool,
) -> (r: Option<AnswerFeedback>)
    requires
        answer_taken(old(beacons)@, exercise_id) ==> answer_fits(*old(session), is_correct),
    ensures
        answer_taken(old(beacons)@, exercise_id) ==> {
            let i = find_exercise(old(beacons)@, exercise_id)->0;
            {
                &&& r == Some(
                    answer_feedback(
                        *old(session),
                        is_correct,
                        old(beacons)@[i].exercise.time_remaining_ms,
                        old(beacons)@[i].exercise.time_limit_ms,
                    ),
                )
                &&& *final(session) == after_answer(*old(session), is_correct)
                &&& final(beacons)@ == old(beacons)@.remove(i)
            }
        },
        !answer_taken(old(beacons)@, exercise_id) ==> {
            &&& r is None
            &&& *final(session) == *old(session)
            &&& final(beacons)@ == old(beacons)@
        },
{
    let mut i: usize = 0;
    while i < beacons.len()
        invariant
            i <= beacons@.len(),
            beacons@ == old(beacons)@,
            forall|k: int| 0 <= k < i ==> #[trigger] beacons@[k].exercise_id != exercise_id,
        ensures
            i <= beacons@.len(),
            beacons@ == old(beacons)@,
            forall|k: int| 0 <= k < i ==> #[trigger] beacons@[k].exercise_id != exercise_id,
            i < beacons@.len() ==> beacons@[i as int].exercise_id == exercise_id,
        decreases beacons@.len() - i,
    {
        if beacons[i].exercise_id == exercise_id {
            break;
        }
        i = i + 1;
    }
    proof {
        lemma_find_exercise(beacons@, exercise_id, i as int);
    }
    if i == beacons.len() {
        return None;
    }
    let b = beacons[i];
    if b.exercise.state != ExerciseState::Active {
        return None;
    }
    let feedback = session.process_answer(
        is_correct,
        b.exercise.time_remaining_ms,
        b.exercise.time_limit_ms,
    );
    beacons.remove(i);
    Some(feedback)
}

/// A fresh solo round from the lobby: no questions engaged, no cooldown,
/// and the session's counters, coins and streaks cleared.
pub fn reset_for_solo(session: &mut GameSession, active: &mut ActiveExercises)
    ensures
        *final(active) == (ActiveExercises { total_engaged: 0, cooldown_ms: 0, ..*old(active) }),
        *final(session) == (GameSession {
            current_index: 0,
            correct_count: 0,
            wrong_count: 0,
            timeout_count: 0,
            coins: 0,
            prev_coins: 0,
            combo: 0,
            max_combo: 0,
            ..*old(session)
        }),
{
    active.total_engaged = 0;
    active.cooldown_ms = 0;
    session.current_index = 0;
    session.correct_count = 0;
    session.wrong_count = 0;
    session.timeout_count = 0;
    session.coins = 0;
    session.prev_coins = 0;
    session.combo = 0;
    session.max_combo = 0;
}

/// No question is lost on a tick: each one either timed out or is still
/// there.
pub proof fn lemma_tick_keeps_every_question(s: Seq<TrackedBeacon>, dt_ms: u32)
    ensures
        ticked(s, dt_ms).len() + timed_out_ids(s, dt_ms).len() == s.len(),
    decreases s.len(),
{
    if s.len() > 0 {
        lemma_tick_keeps_every_question(s.drop_last(), dt_ms);
    }
}

/// No beacon is lost as time passes: each one either faded or is still
/// there.
pub proof fn lemma_aging_keeps_every_beacon(s: Seq<TrackedBeacon>, dt_ms: u32)
    ensures
        aged(s, dt_ms).len() + faded_ids(s, dt_ms).len() == s.len(),
    decreases s.len(),
{
    if s.len() > 0 {
        lemma_aging_keeps_every_beacon(s.drop_last(), dt_ms);
    }
}

/// A question that is not running keeps its clock and stays.
pub proof fn lemma_idle_questions_wait(b: TrackedBeacon, dt_ms: u32)
    requires
        !running(b),
    ensures
        !times_out(b, dt_ms),
        clock_ran(b, dt_ms) == b,
{
}

/// The server's id for the beacon of an exercise: that of the first beacon
/// carrying the exercise that the server spawned.
pub open spec fn server_beacon_of(s: Seq<TrackedBeacon>, exercise_id: u32) -> Option<u32>
    decreases s.len(),
{
    if s.len() == 0 {
        None
    } else if s[0].exercise_id == exercise_id && s[0].server_beacon_id is Some {
        s[0].server_beacon_id
    } else {
        server_beacon_of(s.drop_first(), exercise_id)
    }
}

/// What to tell the server of an answer to an exercise: the answer to the
/// server's beacon carrying it, or nothing for a beacon of the client's own.
pub fn answer_message(beacons: &Vec<TrackedBeacon>, exercise_id: u32, correct: bool) -> (r: Option<
    ClientMessage,
>)
    ensures
        r == match server_beacon_of(beacons@, exercise_id) {
            Some(beacon_id) => Some(ClientMessage::AnswerBeacon { beacon_id, correct }),
            None => None::<ClientMessage>,
        },
{
    let mut i: usize = 0;
    assert(beacons@.skip(0) =~= beacons@);
    while i < beacons.len()
        invariant
            i <= beacons@.len(),
            server_beacon_of(beacons@, exercise_id) == server_beacon_of(beacons@.skip(i as int), exercise_id),
        decreases beacons@.len() - i,
    {
        assert(beacons@.skip(i as int).drop_first() =~= beacons@.skip(i + 1));
        let b = beacons[i];
        if b.exercise_id == exercise_id {
            if let Some(beacon_id) = b.server_beacon_id {
                return Some(ClientMessage::AnswerBeacon { beacon_id, correct });
            }
        }
        i = i + 1;
    }
    None
}

} // verus!
