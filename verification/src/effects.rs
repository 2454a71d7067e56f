use vstd::prelude::*;

use crate::session::{combo_halves, multiplier_text, AnswerFeedback};
use crate::text::{decimal, push_signed_decimal, signed_decimal, string_from_chars};

verus! {

// The numbers behind the visual effects: how many particles may still
// appear, and the floating texts a correct answer shows.

/// The most particles alive at once.
pub const MAX_PARTICLES: usize = 500;

/// How many particles each burst of a frame gets, in order: each takes what
/// it asks for, up to what is left of the budget; the bursts stop at the
/// first that gets none.
pub open spec fn burst_sizes(budget: nat, requested: Seq<u32>) -> Seq<nat>
    decreases requested.len(),
{
    if requested.len() == 0 {
        Seq::empty()
    } else {
        let n: nat = if requested[0] < budget {
            requested[0] as nat
        } else {
            budget
        };
        if n == 0 {
            Seq::empty()
        } else {
            seq![n] + burst_sizes((budget - n) as nat, requested.drop_first())
        }
    }
}

/// The room left for new particles beside `existing` live ones.
pub open spec fn particle_room(existing: usize) -> nat {
    if existing >= MAX_PARTICLES {
        0
    } else {
        (MAX_PARTICLES - existing) as nat
    }
}

/// The particles each burst of a frame spawns, given the live ones.
pub fn particles_to_spawn(existing: usize, requested: &Vec<u32>) -> (r: Vec<usize>)
    ensures
        r@.map_values(|n: usize| n as nat) == burst_sizes(particle_room(existing), requested@),
{
    let mut out: Vec<usize> = Vec::new();
    if existing >= MAX_PARTICLES {
        return out;
    }
    let mut budget: usize = MAX_PARTICLES - existing;
    let mut i: usize = 0;
    assert(requested@.skip(0) =~= requested@);
    assert(out@.map_values(|n: usize| n as nat) + burst_sizes(budget as nat, requested@) =~= burst_sizes(
        budget as nat,
        requested@,
    ));
    while i < requested.len()
        invariant_except_break
            budget > 0,
        invariant
            i <= requested@.len(),
            budget <= MAX_PARTICLES,
            out@.map_values(|n: usize| n as nat) + burst_sizes(budget as nat, requested@.skip(i as int))
                == burst_sizes(particle_room(existing), requested@),
        ensures
            out@.map_values(|n: usize| n as nat) == burst_sizes(particle_room(existing), requested@),
        decreases requested@.len() - i,
    {
        let ghost rest = requested@.skip(i as int);
        assert(rest.drop_first() =~= requested@.skip(i + 1));
        let want = requested[i] as usize;
        let n = if want < budget {
            want
        } else {
            budget
        };
        if n == 0 {
            assert(burst_sizes(budget as nat, rest) == Seq::<nat>::empty());
            assert(out@.map_values(|n: usize| n as nat) + Seq::<nat>::empty() =~= out@.map_values(
                |n: usize| n as nat,
            ));
            break;
        }
        let ghost before = out@;
        out.push(n);
        assert(out@.map_values(|n: usize| n as nat) =~= before.map_values(|n: usize| n as nat)
            + seq![n as nat]);
        assert(burst_sizes(budget as nat, rest) == seq![n as nat] + burst_sizes(
            (budget - n) as nat,
            requested@.skip(i + 1),
        ));
        assert(before.map_values(|n: usize| n as nat) + seq![n as nat] + burst_sizes(
            (budget - n) as nat,
            requested@.skip(i + 1),
        ) =~= before.map_values(|n: usize| n as nat) + (seq![n as nat] + burst_sizes(
            (budget - n) as nat,
            requested@.skip(i + 1),
        )));
        budget = budget - n;
        i = i + 1;
        if budget == 0 {
            assert(burst_sizes(0, requested@.skip(i as int)) == Seq::<nat>::empty()) by {
                reveal_with_fuel(burst_sizes, 2);
            }
            assert(out@.map_values(|n: usize| n as nat) + Seq::<nat>::empty() =~= out@.map_values(
                |n: usize| n as nat,
            ));
            break;
        }
    }
    out
}

/// The sum of some counts.
pub open spec fn total(s: Seq<nat>) -> nat
    decreases s.len(),
{
    if s.len() == 0 {
        0
    } else {
        s[0] + total(s.drop_first())
    }
}

/// The bursts of a frame never take more than the budget.
pub proof fn lemma_bursts_within_budget(budget: nat, requested: Seq<u32>)
    ensures
        total(burst_sizes(budget, requested)) <= budget,
    decreases requested.len(),
{
    if requested.len() > 0 {
        let n: nat = if requested[0] < budget {
            requested[0] as nat
        } else {
            budget
        };
        if n > 0 {
            let rest = burst_sizes((budget - n) as nat, requested.drop_first());
            lemma_bursts_within_budget((budget - n) as nat, requested.drop_first());
            assert((seq![n] + rest).drop_first() =~= rest);
        }
    }
}

/// The particles spawned in a frame never take the live particles past the
/// cap: with the cap already reached none are spawned, otherwise the live
/// and the new ones together are at most the cap.
pub proof fn lemma_particles_stay_under_cap(existing: usize, requested: Seq<u32>)
    ensures
        existing >= MAX_PARTICLES ==> burst_sizes(particle_room(existing), requested).len() == 0,
        existing < MAX_PARTICLES ==> existing + total(burst_sizes(particle_room(existing), requested))
            <= MAX_PARTICLES,
{
    lemma_bursts_within_budget(particle_room(existing), requested);
    if existing >= MAX_PARTICLES && requested.len() > 0 {
        assert(burst_sizes(0, requested) == Seq::<nat>::empty());
    }
}

/// The floating texts of an answer: for a correct one its coins as
/// `"+<n>"`, then, from a streak of two, the multiplier; none for a wrong
/// one.
pub open spec fn bonus_texts_spec(fb: AnswerFeedback) -> Seq<Seq<char>> {
    if !fb.correct {
        Seq::empty()
    } else {
        let coins = seq!['+'] + signed_decimal(fb.coins_delta as int);
        if fb.combo < 2 {
            seq![coins]
        } else if fb.combo == 2 {
            seq![coins, "x1.5"@]
        } else {
            seq![coins, "x2"@]
        }
    }
}

/// The floating texts of an answer, in the order they appear.
pub fn bonus_texts(fb: &AnswerFeedback) -> (r: Vec<String>)
    ensures
        r@.len() == bonus_texts_spec(*fb).len(),
        forall|i: int| 0 <= i < r@.len() ==> #[trigger] r@[i]@ == bonus_texts_spec(*fb)[i],
{
    let mut out: Vec<String> = Vec::new();
    if !fb.correct {
        return out;
    }
    let mut v: Vec<char> = Vec::new();
    v.push('+');
    push_signed_decimal(&mut v, fb.coins_delta);
    assert(v@ =~= seq!['+'] + signed_decimal(fb.coins_delta as int));
    out.push(string_from_chars(&v));
    if fb.combo == 2 {
        out.push("x1.5".to_owned());
    } else if fb.combo > 2 {
        out.push("x2".to_owned());
    }
    out
}

/// A correct answer shows its coins as `"+<n>"`, and from a streak of two
/// also the multiplier that scoring applies to the streak; a wrong answer
/// shows nothing.
pub proof fn lemma_bonus_texts_name_the_reward(fb: AnswerFeedback)
    ensures
        !fb.correct ==> bonus_texts_spec(fb).len() == 0,
        fb.correct ==> bonus_texts_spec(fb).len() == if fb.combo >= 2 {
            2int
        } else {
            1int
        },
        fb.correct ==> bonus_texts_spec(fb)[0] == seq!['+'] + signed_decimal(fb.coins_delta as int),
        fb.correct && fb.combo >= 2 ==> bonus_texts_spec(fb)[1] == multiplier_text(
            combo_halves(fb.combo),
        ),
{
    if fb.correct && fb.combo >= 2 {
        assert(decimal(1) == seq!['1']);
        assert(decimal(2) == seq!['2']);
        reveal_strlit("x1.5");
        reveal_strlit("x2");
        assert(bonus_texts_spec(fb)[1] =~= multiplier_text(combo_halves(fb.combo)));
    }
}

} // verus!
