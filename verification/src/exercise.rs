use rand::rngs::ThreadRng;
use rand::Rng;
use vstd::prelude::*;

use crate::difficulty::{Difficulty, ExerciseConfig};
use crate::mode::GameMode;
use crate::text::{
    chars_of, decimal, find_first, first_occurrence, first_occurrence_from, occurs_at, parse_u32,
    parse_u32_spec, push_decimal, slice_chars, string_from_chars, trim_chars, trim_spec, is_digit,
    lemma_decimal_digits, lemma_parse_decimal, lemma_trim_digits,
};

verus! {

/// The random number generator of the current thread.
#[verifier::external_type_specification]
#[verifier::external_body]
pub struct ExThreadRng(ThreadRng);

#[derive(Debug, Clone, Copy, PartialEq, Eq, Structural)]
pub enum Operation {
    Multiply,
    Divide,
    Add,
    Subtract,
}

#[derive(Debug, Clone, Copy, PartialEq, Eq, Structural)]
pub enum ExerciseState {
    Pending,
    Active,
    Answered,
    TimedOut,
}

/// One exercise: the question, its answer, the four choices offered and the
/// seconds allowed to answer.
#[derive(Debug, Clone, Copy)]
pub struct ExerciseData {
    pub operation: Operation,
    pub operand_a: u32,
    pub operand_b: u32,
    pub correct_answer: u32,
    pub choices: [u32; 4],
    pub time_limit: u32,
}

/// Gets the random number generator of the current thread.
///
/// Calls `rand::rng`; nothing is claimed of the generator.
#[verifier::external_body]
pub(crate) fn thread_rng() -> ThreadRng {
    rand::rng()
}

/// A uniformly drawn number in `lo..=hi`.
///
/// Calls `Rng::random_range` on an inclusive range; the contract claims only
/// that the result lies in the range, which the crate documents (it panics
/// on an empty range, which `requires` rules out).
#[verifier::external_body]
pub(crate) fn random_in(rng: &mut ThreadRng, lo: u32, hi: u32) -> (r: u32)
    requires
        lo <= hi,
    ensures
        lo <= r <= hi,
{
    rng.random_range(lo..=hi)
}

/// A fair coin flip.
///
/// Calls `Rng::random::<bool>`; nothing is claimed of the outcome.
#[verifier::external_body]
fn random_flag(rng: &mut ThreadRng) -> bool {
    rng.random::<bool>()
}

pub open spec fn wadd(x: u32, y: u32) -> u32 {
    vstd::wrapping::u32_specs::wrapping_add(x, y)
}

pub open spec fn wsub(x: u32, y: u32) -> u32 {
    vstd::wrapping::u32_specs::wrapping_sub(x, y)
}

pub open spec fn wmul(x: u32, y: u32) -> u32 {
    vstd::wrapping::u32_specs::wrapping_mul(x, y)
}

/// The wrong answers a tables exercise tries first, in priority order: the
/// answer off by one, off by either factor, a neighbouring table, off by two.
pub open spec fn tables_candidates(a: u32, b: u32, answer: u32) -> Seq<u32> {
    seq![
        wadd(answer, 1),
        wsub(answer, 1),
        wadd(answer, a),
        wsub(answer, a),
        wadd(answer, b),
        wsub(answer, b),
        wmul(a, wadd(b, 1)),
        wmul(a, wsub(b, 1)),
        wadd(answer, 2),
    ]
}

/// The wrong answers an arithmetic exercise tries first: the neighbours of
/// the answer, nearest first.
pub open spec fn arithmetic_candidates(answer: u32) -> Seq<u32> {
    seq![
        wadd(answer, 1),
        wsub(answer, 1),
        wadd(answer, 2),
        wsub(answer, 2),
        wadd(answer, 3),
        wsub(answer, 3),
    ]
}

/// The candidates that may serve as distractors, in order: positive, not the
/// answer, and each value only at its first occurrence.
pub open spec fn usable_candidates(answer: u32, cands: Seq<u32>) -> Seq<u32>
    decreases cands.len(),
{
    if cands.len() == 0 {
        Seq::empty()
    } else {
        let r = usable_candidates(answer, cands.drop_last());
        let c = cands.last();
        if c > 0 && c != answer && !r.contains(c) {
            r.push(c)
        } else {
            r
        }
    }
}

/// Tops `acc` up to three values with `next`, `next + 1`, ... skipping the
/// answer and values already present. (At most five values past the answer
/// are ever looked at, which bounds the search.)
pub open spec fn fill_fallback(answer: u32, acc: Seq<u32>, next: int) -> Seq<u32>
    decreases answer + 9 - next,
{
    if acc.len() >= 3 || next > answer + 8 {
        acc
    } else if next != answer && !acc.contains(next as u32) {
        fill_fallback(answer, acc.push(next as u32), next + 1)
    } else {
        fill_fallback(answer, acc, next + 1)
    }
}

/// The three distractors offered beside `answer`: the first three usable
/// candidates, topped up with `answer + 3`, `answer + 4`, ... when fewer are
/// usable.
pub open spec fn distractors_for(answer: u32, cands: Seq<u32>) -> Seq<u32> {
    fill_fallback(answer, chosen_candidates(answer, cands), answer + 3)
}

/// The first three usable candidates, or all of them when fewer.
pub open spec fn chosen_candidates(answer: u32, cands: Seq<u32>) -> Seq<u32> {
    let usable = usable_candidates(answer, cands);
    let kept = if usable.len() < 3 {
        usable.len()
    } else {
        3
    };
    usable.take(kept as int)
}

/// The value after the last one `fill_fallback` looks at: the values from
/// `next` up to it, excluded, are the ones considered.
pub open spec fn fill_end(answer: u32, acc: Seq<u32>, next: int) -> int
    decreases answer + 9 - next,
{
    if acc.len() >= 3 || next > answer + 8 {
        next
    } else if next != answer && !acc.contains(next as u32) {
        fill_end(answer, acc.push(next as u32), next + 1)
    } else {
        fill_end(answer, acc, next + 1)
    }
}

/// The fallback values looked at lie between `next` and nine past the
/// answer.
pub proof fn lemma_fill_end_bounds(answer: u32, acc: Seq<u32>, next: int)
    ensures
        next <= fill_end(answer, acc, next),
        fill_end(answer, acc, next) <= if next > answer + 9 {
            next
        } else {
            answer + 9
        },
    decreases answer + 9 - next,
{
    if acc.len() >= 3 || next > answer + 8 {
    } else if next != answer && !acc.contains(next as u32) {
        lemma_fill_end_bounds(answer, acc.push(next as u32), next + 1);
    } else {
        lemma_fill_end_bounds(answer, acc, next + 1);
    }
}

/// Topping up the distractors never counts past `u32::MAX`: the last
/// fallback value looked at is at most `u32::MAX - 1`.
pub open spec fn fallback_fits(answer: u32, cands: Seq<u32>) -> bool {
    fill_end(answer, chosen_candidates(answer, cands), answer + 3) <= u32::MAX
}

/// Good distractors: three distinct positive values other than the answer.
pub open spec fn valid_distractors(answer: u32, ds: Seq<u32>) -> bool {
    &&& ds.len() == 3
    &&& ds.no_duplicates()
    &&& forall|i: int| 0 <= i < ds.len() ==> #[trigger] ds[i] > 0 && ds[i] != answer
}

/// The four choices are the answer and the distractors, each once, in some
/// order.
pub open spec fn offers(choices: Seq<u32>, answer: u32, ds: Seq<u32>) -> bool {
    &&& choices.len() == 4
    &&& choices.no_duplicates()
    &&& forall|x: u32| #[trigger] choices.contains(x) <==> (x == answer || ds.contains(x))
}

pub proof fn lemma_usable_properties(answer: u32, cands: Seq<u32>)
    ensures
        usable_candidates(answer, cands).no_duplicates(),
        forall|i: int|
            0 <= i < usable_candidates(answer, cands).len() ==> #[trigger] usable_candidates(
                answer,
                cands,
            )[i] > 0 && usable_candidates(answer, cands)[i] != answer,
    decreases cands.len(),
{
    if cands.len() > 0 {
        lemma_usable_properties(answer, cands.drop_last());
    }
}

/// The usable candidates of a prefix are a prefix of the usable candidates.
pub proof fn lemma_usable_prefix(answer: u32, cands: Seq<u32>, j: int)
    requires
        0 <= j <= cands.len(),
    ensures
        usable_candidates(answer, cands.take(j)).len() <= usable_candidates(answer, cands).len(),
        usable_candidates(answer, cands).take(
            usable_candidates(answer, cands.take(j)).len() as int,
        ) == usable_candidates(answer, cands.take(j)),
    decreases cands.len() - j,
{
    let u = usable_candidates(answer, cands);
    if j == cands.len() {
        assert(cands.take(j) =~= cands);
        assert(u.take(u.len() as int) =~= u);
    } else {
        let d = cands.drop_last();
        assert(d.take(j) =~= cands.take(j));
        lemma_usable_prefix(answer, d, j);
        let p = usable_candidates(answer, cands.take(j));
        let ud = usable_candidates(answer, d);
        assert(u.take(p.len() as int) =~= ud.take(p.len() as int));
    }
}

pub proof fn lemma_interval_in_distinct(s: Seq<u32>, lo: int, hi: int)
    requires
        s.no_duplicates(),
        0 <= lo <= hi,
        forall|v: int| lo <= v < hi ==> #[trigger] s.contains(v as u32),
        hi <= u32::MAX + 1,
    ensures
        hi - lo <= s.len(),
{
    let t = s.map_values(|x: u32| x as int);
    assert(t.no_duplicates());
    t.unique_seq_to_set();
    vstd::seq_lib::seq_to_set_is_finite(t);
    vstd::set_lib::lemma_int_range(lo, hi);
    assert forall|v: int| vstd::set_lib::set_int_range(lo, hi).contains(v) implies t.to_set().contains(v) by {
        assert(s.contains(v as u32));
        let k = choose|k: int| 0 <= k < s.len() && s[k] == v as u32;
        assert(t[k] == v);
    }
    vstd::set_lib::lemma_len_subset(vstd::set_lib::set_int_range(lo, hi), t.to_set());
}

/// Whether `v` holds `x`.
fn holds(v: &Vec<u32>, x: u32) -> (r: bool)
    ensures
        r == v@.contains(x),
{
    let mut i: usize = 0;
    while i < v.len()
        invariant
            i <= v@.len(),
            forall|k: int| 0 <= k < i ==> v@[k] != x,
        decreases v@.len() - i,
    {
        if v[i] == x {
            return true;
        }
        i = i + 1;
    }
    false
}

/// Picks three distinct positive distractors from `candidates` (in priority
/// order, falling back to answer+3, +4, ...).
pub fn select_distractors(correct_answer: u32, candidates: &[u32]) -> (r: Vec<u32>)
    requires
        fallback_fits(correct_answer, candidates@),
    ensures
        r@ == distractors_for(correct_answer, candidates@),
        valid_distractors(correct_answer, r@),
{
    let ghost cands = candidates@;
    let mut distractors: Vec<u32> = Vec::new();
    let mut i: usize = 0;
    assert(cands.take(0) =~= Seq::<u32>::empty());
    while i < candidates.len()
        invariant_except_break
            distractors@.len() < 3,
        invariant
            i <= cands.len(),
            cands == candidates@,
            distractors@ == usable_candidates(correct_answer, cands.take(i as int)),
        ensures
            distractors@.len() == 3 || (i == cands.len() && distractors@.len() < 3),
        decreases cands.len() - i,
    {
        let c = candidates[i];
        assert(cands.take(i + 1).drop_last() =~= cands.take(i as int));
        if c > 0 && c != correct_answer && !holds(&distractors, c) {
            distractors.push(c);
            if distractors.len() == 3 {
                i = i + 1;
                break;
            }
        }
        i = i + 1;
    }
    proof {
        lemma_usable_prefix(correct_answer, cands, i as int);
        lemma_usable_properties(correct_answer, cands);
        let u = usable_candidates(correct_answer, cands);
        if distractors@.len() < 3 {
            assert(cands.take(i as int) =~= cands);
        }
        assert(distractors@ == u.take(distractors@.len() as int));
    }
    let ghost pre = distractors@;
    proof {
        assert(pre == chosen_candidates(correct_answer, cands));
        lemma_fill_end_bounds(correct_answer, pre, correct_answer + 3);
    }
    let mut fallback: u32 = correct_answer + 3;
    while distractors.len() < 3
        invariant
            fill_end(correct_answer, pre, correct_answer + 3) <= u32::MAX,
            fill_end(correct_answer, pre, correct_answer + 3) == fill_end(
                correct_answer,
                distractors@,
                fallback as int,
            ),
            correct_answer + 3 <= fallback <= correct_answer + 8,
            fill_fallback(correct_answer, pre, correct_answer + 3) == fill_fallback(
                correct_answer,
                distractors@,
                fallback as int,
            ),
            distractors@.len() <= 3,
            valid_distractors(correct_answer, distractors@) || distractors@.len() < 3,
            distractors@.no_duplicates(),
            forall|k: int|
                0 <= k < distractors@.len() ==> #[trigger] distractors@[k] > 0
                    && distractors@[k] != correct_answer,
            forall|v: int|
                correct_answer + 3 <= v < fallback ==> #[trigger] distractors@.contains(v as u32),
        decreases correct_answer + 9 - fallback,
    {
        proof {
            lemma_interval_in_distinct(distractors@, correct_answer + 3, fallback as int);
        }
        let ghost before = distractors@;
        if fallback != correct_answer && !holds(&distractors, fallback) {
            distractors.push(fallback);
            proof {
                assert forall|v: int|
                    correct_answer + 3 <= v < fallback + 1 implies #[trigger] distractors@.contains(
                    v as u32,
                ) by {
                    if v < fallback {
                        assert(before.contains(v as u32));
                        let k = choose|k: int| 0 <= k < before.len() && before[k] == v as u32;
                        assert(distractors@[k] == v as u32);
                    } else {
                        assert(distractors@[distractors@.len() - 1] == fallback);
                    }
                }
            }
        }
        proof {
            lemma_fill_end_bounds(correct_answer, distractors@, fallback + 1);
        }
        fallback = fallback + 1;
    }
    assert(fill_fallback(correct_answer, distractors@, fallback as int) == distractors@);
    distractors
}

pub open spec fn swap_spec(s: Seq<u32>, i: int, j: int) -> Seq<u32> {
    s.update(i, s[j]).update(j, s[i])
}

/// The choices after the three swaps of a Fisher-Yates shuffle, swapping
/// position 3 with `j3`, then 2 with `j2`, then 1 with `j1`.
pub open spec fn shuffled(choices: Seq<u32>, j3: int, j2: int, j1: int) -> Seq<u32> {
    swap_spec(swap_spec(swap_spec(choices, 3, j3), 2, j2), 1, j1)
}

pub proof fn lemma_swap_keeps_contents(s: Seq<u32>, i: int, j: int)
    requires
        0 <= i < s.len(),
        0 <= j < s.len(),
    ensures
        swap_spec(s, i, j).len() == s.len(),
        s.no_duplicates() ==> swap_spec(s, i, j).no_duplicates(),
        forall|x: u32| #[trigger] swap_spec(s, i, j).contains(x) <==> s.contains(x),
{
    let t = swap_spec(s, i, j);
    assert forall|x: u32| #[trigger] t.contains(x) <==> s.contains(x) by {
        if t.contains(x) {
            let k = choose|k: int| 0 <= k < t.len() && t[k] == x;
            if k == i {
                assert(s[j] == x);
            } else if k == j {
                assert(s[i] == x);
            } else {
                assert(s[k] == x);
            }
        }
        if s.contains(x) {
            let k = choose|k: int| 0 <= k < s.len() && s[k] == x;
            if k == i {
                assert(t[j] == x);
            } else if k == j {
                assert(t[i] == x);
            } else {
                assert(t[k] == x);
            }
        }
    }
}

/// Swaps two of four choices.
fn swap_choices(c: [u32; 4], i: usize, j: usize) -> (r: [u32; 4])
    requires
        i < 4,
        j < 4,
    ensures
        r@ == swap_spec(c@, i as int, j as int),
{
    let mut out = c;
    let ci = c[i];
    let cj = c[j];
    out[i] = cj;
    out[j] = ci;
    assert(out@ =~= swap_spec(c@, i as int, j as int));
    out
}

/// Shuffles the four choices with the given swap positions.
pub fn shuffle_choices(choices: [u32; 4], j3: usize, j2: usize, j1: usize) -> (r: [u32; 4])
    requires
        j3 <= 3,
        j2 <= 2,
        j1 <= 1,
    ensures
        r@ == shuffled(choices@, j3 as int, j2 as int, j1 as int),
        choices@.no_duplicates() ==> r@.no_duplicates(),
        forall|x: u32| #[trigger] r@.contains(x) <==> choices@.contains(x),
{
    let s3 = swap_choices(choices, 3, j3);
    let s2 = swap_choices(s3, 2, j2);
    let s1 = swap_choices(s2, 1, j1);
    proof {
        lemma_swap_keeps_contents(choices@, 3, j3 as int);
        lemma_swap_keeps_contents(s3@, 2, j2 as int);
        lemma_swap_keeps_contents(s2@, 1, j1 as int);
    }
    s1
}

/// The answer followed by its distractors, shuffled with the given swap
/// positions.
pub fn choices_with(correct_answer: u32, candidates: &[u32], j3: usize, j2: usize, j1: usize) -> (r: [u32;
    4])
    requires
        fallback_fits(correct_answer, candidates@),
        j3 <= 3,
        j2 <= 2,
        j1 <= 1,
    ensures
        r@ == shuffled(
            seq![correct_answer] + distractors_for(correct_answer, candidates@),
            j3 as int,
            j2 as int,
            j1 as int,
        ),
        offers(r@, correct_answer, distractors_for(correct_answer, candidates@)),
        valid_distractors(correct_answer, distractors_for(correct_answer, candidates@)),
{
    let distractors = select_distractors(correct_answer, candidates);
    let choices: [u32; 4] = [correct_answer, distractors[0], distractors[1], distractors[2]];
    assert(choices@ =~= seq![correct_answer] + distractors_for(correct_answer, candidates@));
    let r = shuffle_choices(choices, j3, j2, j1);
    proof {
        let ds = distractors@;
        let c = choices@;
        assert(c.no_duplicates()) by {
            assert(c[0] == correct_answer);
            assert forall|i: int, j: int| 0 <= i < 4 && 0 <= j < 4 && i != j implies c[i]
                != c[j] by {
                if i > 0 && j > 0 {
                    assert(c[i] == ds[i - 1] && c[j] == ds[j - 1]);
                } else if i == 0 {
                    assert(c[j] == ds[j - 1]);
                } else {
                    assert(c[i] == ds[i - 1]);
                }
            }
        }
        assert forall|x: u32| #[trigger] c.contains(x) <==> (x == correct_answer || ds.contains(x)) by {
            if ds.contains(x) {
                let k = choose|k: int| 0 <= k < ds.len() && ds[k] == x;
                assert(c[k + 1] == x);
            }
            if c.contains(x) && x != correct_answer {
                let k = choose|k: int| 0 <= k < c.len() && c[k] == x;
                assert(ds[k - 1] == x);
            }
            if x == correct_answer {
                assert(c[0] == x);
            }
        }
    }
    r
}

/// Picks three distractors from `candidates` and shuffles them with the
/// answer, with swap positions drawn at random.
pub fn build_choices(rng: &mut ThreadRng, correct_answer: u32, candidates: &[u32]) -> (r: [u32; 4])
    requires
        fallback_fits(correct_answer, candidates@),
    ensures
        offers(r@, correct_answer, distractors_for(correct_answer, candidates@)),
        valid_distractors(correct_answer, distractors_for(correct_answer, candidates@)),
        exists|j3: int, j2: int, j1: int|
            0 <= j3 <= 3 && 0 <= j2 <= 2 && 0 <= j1 <= 1 && r@ == #[trigger] shuffled(
                seq![correct_answer] + distractors_for(correct_answer, candidates@),
                j3,
                j2,
                j1,
            ),
{
    let j3 = random_in(rng, 0, 3);
    let j2 = random_in(rng, 0, 2);
    let j1 = random_in(rng, 0, 1);
    choices_with(correct_answer, candidates, j3 as usize, j2 as usize, j1 as usize)
}


/// The two table factors behind a tables exercise: the operands of a
/// product, or the divisor and the quotient of a division.
pub open spec fn tables_factors(ex: ExerciseData) -> (u32, u32) {
    match ex.operation {
        Operation::Divide => (ex.operand_b, ex.correct_answer),
        _ => (ex.operand_a, ex.operand_b),
    }
}

/// A tables exercise under the given settings: `a x b = ?` or
/// `a*b / a = ?` with both factors in the table range, and the answer
/// offered with its three distractors.
pub open spec fn is_tables_exercise_in(ex: ExerciseData, cfg: ExerciseConfig) -> bool {
    let a = tables_factors(ex).0;
    let b = tables_factors(ex).1;
    &&& cfg.table_min <= a <= cfg.table_max
    &&& cfg.table_min <= b <= cfg.table_max
    &&& ((ex.operation == Operation::Multiply && ex.correct_answer == a * b) || (ex.operation
        == Operation::Divide && ex.operand_a == a * b))
    &&& offers(
        ex.choices@,
        ex.correct_answer,
        distractors_for(ex.correct_answer, tables_candidates(a, b, ex.correct_answer)),
    )
    &&& ex.time_limit == cfg.seconds_per_question
}

/// A tables exercise of the difficulty.
pub open spec fn is_tables_exercise(ex: ExerciseData, difficulty: Difficulty) -> bool {
    is_tables_exercise_in(ex, difficulty.config_spec())
}

/// The ranges the two terms of a sum are drawn from: one-digit terms on
/// Easy, a two-digit and a one-digit term on Medium, two two-digit terms on
/// Hard.
pub open spec fn arithmetic_ranges(difficulty: Difficulty, a: u32, b: u32) -> bool {
    match difficulty {
        Difficulty::Easy => 2 <= a <= 9 && 2 <= b <= 9,
        Difficulty::Medium => 11 <= a <= 91 && 2 <= b <= 9,
        Difficulty::Hard => 11 <= a <= 89 && 11 <= b <= 89,
    }
}

/// A sum whose units digits carry past ten and whose total is at most 100.
pub open spec fn carries_within_hundred(a: u32, b: u32) -> bool {
    a % 10 + b % 10 > 10 && a + b <= 100
}

/// The two terms of the sum behind an arithmetic exercise: the operands of
/// an addition, or the difference and the subtrahend of a subtraction.
pub open spec fn arithmetic_terms(ex: ExerciseData) -> (u32, u32) {
    match ex.operation {
        Operation::Subtract => (ex.correct_answer, ex.operand_b),
        _ => (ex.operand_a, ex.operand_b),
    }
}

/// An arithmetic exercise of the difficulty: a sum `a + b` that carries,
/// shown as `a + b = ?` or as `a+b - b = ?`, with the answer offered beside
/// its nearest neighbours.
pub open spec fn is_arithmetic_exercise(ex: ExerciseData, difficulty: Difficulty) -> bool {
    let a = arithmetic_terms(ex).0;
    let b = arithmetic_terms(ex).1;
    &&& arithmetic_ranges(difficulty, a, b)
    &&& carries_within_hundred(a, b)
    &&& ((ex.operation == Operation::Add && ex.correct_answer == a + b) || (ex.operation
        == Operation::Subtract && ex.operand_a == a + b))
    &&& offers(
        ex.choices@,
        ex.correct_answer,
        distractors_for(ex.correct_answer, arithmetic_candidates(ex.correct_answer)),
    )
    &&& ex.time_limit == difficulty.config_spec().seconds_per_question
}

/// The four choices are distinct, positive, and one of them is the answer.
pub open spec fn well_formed_choices(ex: ExerciseData) -> bool {
    &&& ex.choices@.contains(ex.correct_answer)
    &&& ex.choices@.no_duplicates()
    &&& forall|i: int| 0 <= i < 4 ==> #[trigger] ex.choices@[i] > 0
}

/// The exercise that `generate_exercise` may give back for a mode and a
/// difficulty.
pub open spec fn is_exercise_for(ex: ExerciseData, mode: GameMode, difficulty: Difficulty) -> bool {
    match mode {
        GameMode::Tables => is_tables_exercise(ex, difficulty),
        GameMode::Arithmetic => is_arithmetic_exercise(ex, difficulty),
    }
}

pub proof fn lemma_offers_well_formed(ex: ExerciseData, ds: Seq<u32>)
    requires
        offers(ex.choices@, ex.correct_answer, ds),
        valid_distractors(ex.correct_answer, ds),
        ex.correct_answer > 0,
    ensures
        well_formed_choices(ex),
{
    let c = ex.choices@;
    assert(c.contains(ex.correct_answer));
    assert forall|i: int| 0 <= i < 4 implies #[trigger] c[i] > 0 by {
        assert(c.contains(c[i]));
        if c[i] != ex.correct_answer {
            assert(ds.contains(c[i]));
            let k = choose|k: int| 0 <= k < ds.len() && ds[k] == c[i];
            assert(ds[k] > 0);
        }
    }
}

/// A fresh random exercise of the given mode and difficulty.
pub fn generate_exercise(mode: GameMode, difficulty: &Difficulty) -> (ex: ExerciseData)
    ensures
        is_exercise_for(ex, mode, *difficulty),
        well_formed_choices(ex),
{
    match mode {
        GameMode::Tables => tables_exercise(difficulty.config()),
        GameMode::Arithmetic => generate_arithmetic(difficulty),
    }
}

/// The question of two table factors: `a x b = ?` with answer `a*b`, or
/// `a*b / a = ?` with answer `b`.
pub open spec fn tables_question_spec(a: u32, b: u32, multiply: bool) -> (Operation, u32, u32, u32) {
    if multiply {
        (Operation::Multiply, a, b, (a * b) as u32)
    } else {
        (Operation::Divide, (a * b) as u32, a, b)
    }
}

pub fn tables_question(a: u32, b: u32, multiply: bool) -> (r: (Operation, u32, u32, u32))
    requires
        1 <= a <= 12,
        1 <= b <= 12,
    ensures
        r == tables_question_spec(a, b, multiply),
        r.3 >= 1,
        r.3 <= 144,
        r.0 == Operation::Multiply ==> r.3 == a * b,
        r.0 == Operation::Divide ==> r.1 == a * b,
{
    assert(1 <= a * b <= 144) by (nonlinear_arith)
        requires
            1 <= a <= 12,
            1 <= b <= 12,
    ;
    let product = a * b;
    if multiply {
        (Operation::Multiply, a, b, product)
    } else {
        (Operation::Divide, product, a, b)
    }
}

/// The question of a carrying sum: `a + b = ?` with answer `a+b`, or
/// `a+b - b = ?` with answer `a`.
pub open spec fn arithmetic_question_spec(a: u32, b: u32, add: bool) -> (Operation, u32, u32, u32) {
    if add {
        (Operation::Add, a, b, (a + b) as u32)
    } else {
        (Operation::Subtract, (a + b) as u32, b, a)
    }
}

pub fn arithmetic_question(a: u32, b: u32, add: bool) -> (r: (Operation, u32, u32, u32))
    requires
        a + b <= 100,
    ensures
        r == arithmetic_question_spec(a, b, add),
{
    let sum = a + b;
    if add {
        (Operation::Add, a, b, sum)
    } else {
        (Operation::Subtract, sum, b, a)
    }
}

/// The candidate distractors of a tables question, in priority order.
pub fn tables_candidate_list(a: u32, b: u32, answer: u32) -> (r: [u32; 9])
    ensures
        r@ == tables_candidates(a, b, answer),
{
    let r: [u32; 9] = [
        answer.wrapping_add(1),
        answer.wrapping_sub(1),
        answer.wrapping_add(a),
        answer.wrapping_sub(a),
        answer.wrapping_add(b),
        answer.wrapping_sub(b),
        a.wrapping_mul(b.wrapping_add(1)),
        a.wrapping_mul(b.wrapping_sub(1)),
        answer.wrapping_add(2),
    ];
    assert(r@ =~= tables_candidates(a, b, answer));
    r
}

/// The candidate distractors of an arithmetic question, nearest first.
pub fn arithmetic_candidate_list(answer: u32) -> (r: [u32; 6])
    ensures
        r@ == arithmetic_candidates(answer),
{
    let r: [u32; 6] = [
        answer.wrapping_add(1),
        answer.wrapping_sub(1),
        answer.wrapping_add(2),
        answer.wrapping_sub(2),
        answer.wrapping_add(3),
        answer.wrapping_sub(3),
    ];
    assert(r@ =~= arithmetic_candidates(answer));
    r
}

/// The tables exercise of factors `a` and `b`, shown as a product or a
/// division, with its choices shuffled by the given swap positions.
pub fn tables_exercise_from(
    a: u32,
    b: u32,
    multiply: bool,
    j3: usize,
    j2: usize,
    j1: usize,
    seconds: u32,
) -> (ex: ExerciseData)
    requires
        1 <= a <= 12,
        1 <= b <= 12,
        j3 <= 3,
        j2 <= 2,
        j1 <= 1,
    ensures
        (ex.operation, ex.operand_a, ex.operand_b, ex.correct_answer) == tables_question_spec(
            a,
            b,
            multiply,
        ),
        ex.choices@ == shuffled(
            seq![ex.correct_answer] + distractors_for(
                ex.correct_answer,
                tables_candidates(a, b, ex.correct_answer),
            ),
            j3 as int,
            j2 as int,
            j1 as int,
        ),
        ex.time_limit == seconds,
        offers(
            ex.choices@,
            ex.correct_answer,
            distractors_for(ex.correct_answer, tables_candidates(a, b, ex.correct_answer)),
        ),
        well_formed_choices(ex),
{
    let (operation, operand_a, operand_b, correct_answer) = tables_question(a, b, multiply);
    let candidates = tables_candidate_list(a, b, correct_answer);
    proof {
        lemma_fill_end_bounds(
            correct_answer,
            chosen_candidates(correct_answer, candidates@),
            correct_answer + 3,
        );
    }
    let choices = choices_with(correct_answer, candidates.as_slice(), j3, j2, j1);
    let ex = ExerciseData { operation, operand_a, operand_b, correct_answer, choices, time_limit: seconds };
    proof {
        lemma_offers_well_formed(
            ex,
            distractors_for(correct_answer, tables_candidates(a, b, correct_answer)),
        );
    }
    ex
}

/// The arithmetic exercise of the sum `a + b`, shown as an addition or a
/// subtraction, with its choices shuffled by the given swap positions.
pub fn arithmetic_exercise_from(
    a: u32,
    b: u32,
    add: bool,
    j3: usize,
    j2: usize,
    j1: usize,
    seconds: u32,
) -> (ex: ExerciseData)
    requires
        a + b <= 100,
        j3 <= 3,
        j2 <= 2,
        j1 <= 1,
    ensures
        (ex.operation, ex.operand_a, ex.operand_b, ex.correct_answer) == arithmetic_question_spec(
            a,
            b,
            add,
        ),
        ex.choices@ == shuffled(
            seq![ex.correct_answer] + distractors_for(
                ex.correct_answer,
                arithmetic_candidates(ex.correct_answer),
            ),
            j3 as int,
            j2 as int,
            j1 as int,
        ),
        ex.time_limit == seconds,
        offers(
            ex.choices@,
            ex.correct_answer,
            distractors_for(ex.correct_answer, arithmetic_candidates(ex.correct_answer)),
        ),
        ex.correct_answer > 0 ==> well_formed_choices(ex),
{
    let (operation, operand_a, operand_b, correct_answer) = arithmetic_question(a, b, add);
    let candidates = arithmetic_candidate_list(correct_answer);
    proof {
        lemma_fill_end_bounds(
            correct_answer,
            chosen_candidates(correct_answer, candidates@),
            correct_answer + 3,
        );
    }
    let choices = choices_with(correct_answer, candidates.as_slice(), j3, j2, j1);
    let ex = ExerciseData { operation, operand_a, operand_b, correct_answer, choices, time_limit: seconds };
    proof {
        if correct_answer > 0 {
            lemma_offers_well_formed(
                ex,
                distractors_for(correct_answer, arithmetic_candidates(correct_answer)),
            );
        }
    }
    ex
}

/// Swap positions for a shuffle of four choices, drawn at random.
fn draw_swaps(rng: &mut ThreadRng) -> (r: (usize, usize, usize))
    ensures
        r.0 <= 3 && r.1 <= 2 && r.2 <= 1,
{
    let j3 = random_in(rng, 0, 3);
    let j2 = random_in(rng, 0, 2);
    let j1 = random_in(rng, 0, 1);
    (j3 as usize, j2 as usize, j1 as usize)
}

/// A tables exercise: a random product of two factors from the table
/// range, shown as a multiplication or as the matching division.
pub fn tables_exercise(cfg: ExerciseConfig) -> (ex: ExerciseData)
    requires
        1 <= cfg.table_min <= cfg.table_max <= 12,
    ensures
        is_tables_exercise_in(ex, cfg),
        well_formed_choices(ex),
{
    let mut rng = thread_rng();
    let a = random_in(&mut rng, cfg.table_min, cfg.table_max);
    let b = random_in(&mut rng, cfg.table_min, cfg.table_max);
    let multiply = random_flag(&mut rng);
    let (j3, j2, j1) = draw_swaps(&mut rng);
    let ex = tables_exercise_from(a, b, multiply, j3, j2, j1, cfg.seconds_per_question);
    assert(a * b <= 144) by (nonlinear_arith)
        requires
            a <= 12,
            b <= 12,
    ;
    assert(tables_factors(ex) == (a, b));
    ex
}

/// Every sum of the difficulty's ranges that carries past ten and stays
/// within 100, in order of the first term, then the second.
fn carrying_sums(difficulty: &Difficulty) -> (r: Vec<(u32, u32)>)
    ensures
        r@.len() > 0,
        r@.len() <= 10000,
        forall|i: int|
            0 <= i < r@.len() ==> arithmetic_ranges(*difficulty, #[trigger] r@[i].0, r@[i].1)
                && carries_within_hundred(r@[i].0, r@[i].1),
{
    let (lo_a, hi_a, lo_b, hi_b): (u32, u32, u32, u32) = match difficulty {
        Difficulty::Easy => (2, 9, 2, 9),
        Difficulty::Medium => (11, 91, 2, 9),
        Difficulty::Hard => (11, 89, 11, 89),
    };
    // A sum that qualifies on every difficulty's ranges.
    let ghost wa: u32 = match difficulty {
        Difficulty::Easy => 9,
        _ => 19,
    };
    let ghost wb: u32 = match difficulty {
        Difficulty::Hard => 19,
        _ => 9,
    };
    assert(forall|x: u32, y: u32|
        lo_a <= x <= hi_a && lo_b <= y <= hi_b ==> #[trigger] arithmetic_ranges(*difficulty, x, y));
    assert(carries_within_hundred(wa, wb));
    let mut pairs: Vec<(u32, u32)> = Vec::new();
    let mut a: u32 = lo_a;
    while a <= hi_a
        invariant
            lo_a <= a <= hi_a + 1,
            hi_a <= 91,
            lo_b <= wb <= hi_b <= 89,
            lo_a <= wa <= hi_a,
            carries_within_hundred(wa, wb),
            pairs@.len() <= (a - lo_a) * 100,
            a > wa ==> pairs@.len() > 0,
            forall|x: u32, y: u32|
                lo_a <= x <= hi_a && lo_b <= y <= hi_b ==> #[trigger] arithmetic_ranges(
                    *difficulty,
                    x,
                    y,
                ),
            forall|i: int|
                0 <= i < pairs@.len() ==> lo_a <= #[trigger] pairs@[i].0 <= hi_a && lo_b
                    <= pairs@[i].1 <= hi_b && carries_within_hundred(pairs@[i].0, pairs@[i].1),
        decreases hi_a + 1 - a,
    {
        let mut b: u32 = lo_b;
        while b <= hi_b
            invariant
                lo_a <= a <= hi_a,
                hi_a <= 91,
                lo_b <= b <= hi_b + 1,
                lo_b <= wb <= hi_b <= 89,
                lo_a <= wa <= hi_a,
                carries_within_hundred(wa, wb),
                pairs@.len() <= (a - lo_a) * 100 + (b - lo_b),
                a > wa ==> pairs@.len() > 0,
                a == wa && b > wb ==> pairs@.len() > 0,
                forall|i: int|
                    0 <= i < pairs@.len() ==> lo_a <= #[trigger] pairs@[i].0 <= hi_a && lo_b
                        <= pairs@[i].1 <= hi_b && carries_within_hundred(pairs@[i].0, pairs@[i].1),
            decreases hi_b + 1 - b,
        {
            if a % 10 + b % 10 > 10 && a + b <= 100 {
                pairs.push((a, b));
            }
            b = b + 1;
        }
        a = a + 1;
    }
    pairs
}

/// Draws the two terms of a sum that carries past ten and stays within 100,
/// each such sum of the difficulty's ranges as likely as any other.
fn draw_carrying_terms(rng: &mut ThreadRng, difficulty: &Difficulty) -> (r: (u32, u32))
    ensures
        arithmetic_ranges(*difficulty, r.0, r.1),
        carries_within_hundred(r.0, r.1),
{
    let sums = carrying_sums(difficulty);
    let last = (sums.len() - 1) as u32;
    let k = random_in(rng, 0, last);
    sums[k as usize]
}

/// The first three neighbours of an answer of at least two are the
/// distractors of an arithmetic exercise: one above, one below, two above.
pub proof fn lemma_arithmetic_distractors(answer: u32)
    requires
        2 <= answer <= 100,
    ensures
        distractors_for(answer, arithmetic_candidates(answer)) == seq![
            (answer + 1) as u32,
            (answer - 1) as u32,
            (answer + 2) as u32,
        ],
{
    let cands = arithmetic_candidates(answer);
    let first = seq![(answer + 1) as u32, (answer - 1) as u32, (answer + 2) as u32];
    assert(cands.take(0) =~= Seq::<u32>::empty());
    assert(cands.take(1).drop_last() =~= cands.take(0));
    assert(cands.take(2).drop_last() =~= cands.take(1));
    assert(cands.take(3).drop_last() =~= cands.take(2));
    assert(cands.take(1).last() == (answer + 1) as u32);
    assert(cands.take(2).last() == (answer - 1) as u32);
    assert(cands.take(3).last() == (answer + 2) as u32);
    assert(usable_candidates(answer, cands.take(0)) =~= Seq::<u32>::empty());
    assert(usable_candidates(answer, cands.take(1)) =~= seq![(answer + 1) as u32]);
    let s1 = seq![(answer + 1) as u32];
    assert(!s1.contains((answer - 1) as u32)) by {
        if s1.contains((answer - 1) as u32) {
            let k = choose|k: int| 0 <= k < 1 && #[trigger] s1[k] == (answer - 1) as u32;
        }
    }
    assert(!seq![(answer + 1) as u32, (answer - 1) as u32].contains((answer + 2) as u32)) by {
        let s2 = seq![(answer + 1) as u32, (answer - 1) as u32];
        if s2.contains((answer + 2) as u32) {
            let k = choose|k: int| 0 <= k < 2 && #[trigger] s2[k] == (answer + 2) as u32;
        }
    }
    assert(usable_candidates(answer, cands.take(2)) =~= seq![
        (answer + 1) as u32,
        (answer - 1) as u32,
    ]);
    assert(usable_candidates(answer, cands.take(3)) =~= first);
    lemma_usable_prefix(answer, cands, 3);
    let u = usable_candidates(answer, cands);
    assert(u.take(3) == first);
}

/// An arithmetic exercise: a random sum that carries past ten, shown as an
/// addition or as the matching subtraction.
fn generate_arithmetic(difficulty: &Difficulty) -> (ex: ExerciseData)
    ensures
        is_arithmetic_exercise(ex, *difficulty),
        well_formed_choices(ex),
{
    let mut rng = thread_rng();
    let cfg = difficulty.config();
    let (a, b) = draw_carrying_terms(&mut rng, difficulty);
    let add = random_flag(&mut rng);
    let (j3, j2, j1) = draw_swaps(&mut rng);
    arithmetic_exercise_from(a, b, add, j3, j2, j1, cfg.seconds_per_question)
}

/// The largest result an arithmetic exercise of the difficulty may have.
pub open spec fn max_result(difficulty: Difficulty) -> u32 {
    match difficulty {
        Difficulty::Easy => 20,
        _ => 100,
    }
}

/// Whether the written-out form of an exercise crosses a ten: the units
/// carry in an addition, or must borrow in a subtraction.
pub open spec fn crosses_ten(op: Operation, a: u32, b: u32) -> bool {
    match op {
        Operation::Add => a % 10 + b % 10 > 10,
        Operation::Subtract => a % 10 < b % 10,
        _ => false,
    }
}

/// What an arithmetic exercise promises: only additions and subtractions,
/// results within the difficulty's limit, a ten crossed in every exercise,
/// two-digit terms on Hard and a one-digit second term on Medium, and the
/// choices being the answer with its neighbours one above, one below and two
/// above.
pub proof fn lemma_arithmetic_exercise_shape(ex: ExerciseData, difficulty: Difficulty)
    requires
        is_arithmetic_exercise(ex, difficulty),
    ensures
        ex.operation == Operation::Add || ex.operation == Operation::Subtract,
        ex.operation == Operation::Add ==> ex.correct_answer == ex.operand_a + ex.operand_b,
        ex.operation == Operation::Subtract ==> ex.correct_answer == ex.operand_a - ex.operand_b,
        ex.operand_a <= max_result(difficulty),
        ex.correct_answer <= max_result(difficulty),
        crosses_ten(ex.operation, ex.operand_a, ex.operand_b),
        difficulty == Difficulty::Hard ==> ex.operand_b >= 10,
        difficulty == Difficulty::Medium ==> ex.operand_b < 10,
        forall|x: u32| #[trigger]
            ex.choices@.contains(x) <==> (x == ex.correct_answer || x == ex.correct_answer + 1
                || x == ex.correct_answer - 1 || x == ex.correct_answer + 2),
{
    let a = arithmetic_terms(ex).0;
    let b = arithmetic_terms(ex).1;
    lemma_arithmetic_distractors(ex.correct_answer);
    if ex.operation == Operation::Subtract {
        assert((a + b) % 10 == a % 10 + b % 10 - 10);
    }
}

/// What a tables exercise promises: only multiplications and divisions,
/// each with the matching product.
pub proof fn lemma_tables_exercise_shape(ex: ExerciseData, difficulty: Difficulty)
    requires
        is_tables_exercise(ex, difficulty),
    ensures
        ex.operation == Operation::Multiply || ex.operation == Operation::Divide,
        ex.operation == Operation::Multiply ==> ex.correct_answer == ex.operand_a * ex.operand_b,
        ex.operation == Operation::Divide ==> ex.operand_a == ex.operand_b * ex.correct_answer,
{
}

/// The symbol between the operands of a question.
pub open spec fn operator_char(op: Operation) -> char {
    match op {
        Operation::Multiply => 'x',
        Operation::Divide => '/',
        Operation::Add => '+',
        Operation::Subtract => '-',
    }
}

/// The text of a question: `"<a> <op> <b> = ?"`.
pub open spec fn question_text_spec(op: Operation, a: u32, b: u32) -> Seq<char> {
    decimal(a as nat) + seq![' ', operator_char(op), ' '] + decimal(b as nat) + seq![
        ' ',
        '=',
        ' ',
        '?',
    ]
}

impl ExerciseData {
    pub fn question_text(&self) -> (r: String)
        ensures
            r@ == question_text_spec(self.operation, self.operand_a, self.operand_b),
    {
        let symbol = match self.operation {
            Operation::Multiply => 'x',
            Operation::Divide => '/',
            Operation::Add => '+',
            Operation::Subtract => '-',
        };
        let mut v: Vec<char> = Vec::new();
        push_decimal(&mut v, self.operand_a);
        v.push(' ');
        v.push(symbol);
        v.push(' ');
        push_decimal(&mut v, self.operand_b);
        v.push(' ');
        v.push('=');
        v.push(' ');
        v.push('?');
        assert(v@ =~= question_text_spec(self.operation, self.operand_a, self.operand_b));
        string_from_chars(&v)
    }
}

/// A number as `str::trim` then `str::parse::<u32>` read it, or 0 when it
/// does not parse.
pub open spec fn number_or_zero(s: Seq<char>) -> u32 {
    match parse_u32_spec(trim_spec(s)) {
        Some(v) => v,
        None => 0,
    }
}

pub open spec fn equals_pattern() -> Seq<char> {
    seq![' ', '=', ' ']
}

pub open spec fn times_pattern() -> Seq<char> {
    seq![' ', 'x', ' ']
}

pub open spec fn divided_pattern() -> Seq<char> {
    seq![' ', '/', ' ']
}

/// How a question text is read back: the part before the first `" = "` is
/// split at its first `" x "` (a product) or else its first `" / "` (a
/// division), and each side is read as a number. Anything else reads as
/// `0 x 0`.
pub open spec fn parse_question_spec(t: Seq<char>) -> (Operation, u32, u32) {
    match first_occurrence(t, equals_pattern()) {
        None => (Operation::Multiply, 0, 0),
        Some(i) => {
            let left = t.take(i);
            match first_occurrence(left, times_pattern()) {
                Some(j) => (
                    Operation::Multiply,
                    number_or_zero(left.take(j)),
                    number_or_zero(left.skip(j + 3)),
                ),
                None => match first_occurrence(left, divided_pattern()) {
                    Some(j) => (
                        Operation::Divide,
                        number_or_zero(left.take(j)),
                        number_or_zero(left.skip(j + 3)),
                    ),
                    None => (Operation::Multiply, 0, 0),
                },
            }
        },
    }
}

fn number_or_zero_exec(s: &Vec<char>) -> (r: u32)
    ensures
        r == number_or_zero(s@),
{
    let trimmed = trim_chars(s);
    match parse_u32(&trimmed) {
        Some(v) => v,
        None => 0,
    }
}

fn split_operands(left: &Vec<char>, j: usize) -> (r: (u32, u32))
    requires
        j + 3 <= left@.len(),
    ensures
        r.0 == number_or_zero(left@.take(j as int)),
        r.1 == number_or_zero(left@.skip(j + 3)),
{
    let n = left.len();
    let before = slice_chars(left, 0, j);
    let after = slice_chars(left, j + 3, n);
    assert(before@ =~= left@.take(j as int));
    assert(after@ =~= left@.skip(j + 3));
    (number_or_zero_exec(&before), number_or_zero_exec(&after))
}

/// Reads a question text such as `"12 x 3 = ?"` back into its operation and
/// operands.
pub fn parse_question_text(text: &str) -> (r: (Operation, u32, u32))
    ensures
        r == parse_question_spec(text@),
{
    let t = chars_of(text);
    let equals: Vec<char> = vec![' ', '=', ' '];
    let times: Vec<char> = vec![' ', 'x', ' '];
    let divided: Vec<char> = vec![' ', '/', ' '];
    assert(equals@ =~= equals_pattern());
    assert(times@ =~= times_pattern());
    assert(divided@ =~= divided_pattern());
    match find_first(&t, &equals) {
        None => (Operation::Multiply, 0, 0),
        Some(i) => {
            proof {
                lemma_occurrence_in_bounds(t@, equals_pattern(), i as int);
            }
            let left = slice_chars(&t, 0, i);
            assert(left@ =~= t@.take(i as int));
            match find_first(&left, &times) {
                Some(j) => {
                    proof {
                        lemma_occurrence_in_bounds(left@, times_pattern(), j as int);
                    }
                    let (a, b) = split_operands(&left, j);
                    (Operation::Multiply, a, b)
                },
                None => match find_first(&left, &divided) {
                    Some(j) => {
                        proof {
                            lemma_occurrence_in_bounds(left@, divided_pattern(), j as int);
                        }
                        let (a, b) = split_operands(&left, j);
                        (Operation::Divide, a, b)
                    },
                    None => (Operation::Multiply, 0, 0),
                },
            }
        },
    }
}

pub proof fn lemma_first_occurrence_from_bounds(s: Seq<char>, pat: Seq<char>, k: int, i: int)
    requires
        first_occurrence_from(s, pat, k) == Some(i),
    ensures
        occurs_at(s, pat, i),
        k <= i,
        forall|m: int| k <= m < i ==> !occurs_at(s, pat, m),
    decreases s.len() + 1 - k,
{
    if !occurs_at(s, pat, k) {
        lemma_first_occurrence_from_bounds(s, pat, k + 1, i);
    }
}

pub proof fn lemma_occurrence_in_bounds(s: Seq<char>, pat: Seq<char>, i: int)
    requires
        first_occurrence(s, pat) == Some(i),
    ensures
        0 <= i,
        i + pat.len() <= s.len(),
        s.subrange(i, i + pat.len()) == pat,
{
    lemma_first_occurrence_from_bounds(s, pat, 0, i);
}

/// If `pat` stands at `i` and nowhere before, `i` is its first occurrence.
pub proof fn lemma_first_occurrence_is(s: Seq<char>, pat: Seq<char>, k: int, i: int)
    requires
        0 <= k <= i,
        occurs_at(s, pat, i),
        forall|m: int| k <= m < i ==> !occurs_at(s, pat, m),
    ensures
        first_occurrence_from(s, pat, k) == Some(i),
    decreases i - k,
{
    if k < i {
        lemma_first_occurrence_is(s, pat, k + 1, i);
    }
}

/// If `pat` stands nowhere at or after `k`, there is no occurrence from `k`.
pub proof fn lemma_no_occurrence(s: Seq<char>, pat: Seq<char>, k: int)
    requires
        0 <= k,
        forall|m: int| k <= m ==> !occurs_at(s, pat, m),
    ensures
        first_occurrence_from(s, pat, k) is None,
    decreases s.len() + 1 - k,
{
    if k + pat.len() <= s.len() {
        lemma_no_occurrence(s, pat, k + 1);
    }
}


/// Reading back the text of a product or a division question gives the
/// operation and operands it was written from.
#[verifier::spinoff_prover]
pub proof fn lemma_question_text_round_trip(op: Operation, a: u32, b: u32)
    requires
        op == Operation::Multiply || op == Operation::Divide,
    ensures
        parse_question_spec(question_text_spec(op, a, b)) == (op, a, b),
{
    let da = decimal(a as nat);
    let db = decimal(b as nat);
    lemma_decimal_digits(a as nat);
    lemma_decimal_digits(b as nat);
    lemma_trim_digits(da);
    lemma_trim_digits(db);
    lemma_parse_decimal(a);
    lemma_parse_decimal(b);
    let t = question_text_spec(op, a, b);
    let la = da.len() as int;
    let lb = db.len() as int;
    let i = la + 3 + lb;
    let o = operator_char(op);
    assert(t.len() == i + 4);
    assert forall|m: int| 0 <= m < la implies #[trigger] t[m] == da[m] by {}
    assert forall|m: int| la + 3 <= m < i implies #[trigger] t[m] == db[m - la - 3] by {}
    assert(t[la] == ' ' && t[la + 1] == o && t[la + 2] == ' ');
    assert(t[i] == ' ' && t[i + 1] == '=' && t[i + 2] == ' ');
    // The first " = " stands right after the second operand.
    assert(t.subrange(i, i + 3) =~= equals_pattern());
    assert forall|m: int| 0 <= m < i implies !occurs_at(t, equals_pattern(), m) by {
        if occurs_at(t, equals_pattern(), m) {
            assert(t.subrange(m, m + 3)[1] == '=');
            assert(t[m + 1] == '=');
            if m + 1 < la {
                assert(is_digit(da[m + 1]));
            } else if la + 3 <= m + 1 < i {
                assert(is_digit(db[m + 1 - la - 3]));
            }
        }
    }
    lemma_first_occurrence_is(t, equals_pattern(), 0, i);
    let left = t.take(i);
    assert(left =~= da + seq![' ', o, ' '] + db);
    assert forall|m: int| 0 <= m < la implies #[trigger] left[m] == da[m] by {}
    assert forall|m: int| la + 3 <= m < i implies #[trigger] left[m] == db[m - la - 3] by {}
    assert(left.take(la) =~= da);
    assert(left.skip(la + 3) =~= db);
    if op == Operation::Multiply {
        assert(left.subrange(la, la + 3) =~= times_pattern());
        assert forall|m: int| 0 <= m < la implies !occurs_at(left, times_pattern(), m) by {
            if occurs_at(left, times_pattern(), m) {
                assert(left.subrange(m, m + 3)[1] == 'x');
                if m + 1 < la {
                    assert(is_digit(da[m + 1]));
                }
            }
        }
        lemma_first_occurrence_is(left, times_pattern(), 0, la);
    } else {
        assert forall|m: int| 0 <= m implies !occurs_at(left, times_pattern(), m) by {
            if occurs_at(left, times_pattern(), m) {
                assert(left.subrange(m, m + 3)[1] == 'x');
                assert(left[m + 1] == 'x');
                if m + 1 < la {
                    assert(is_digit(da[m + 1]));
                } else if la + 3 <= m + 1 {
                    assert(is_digit(db[m + 1 - la - 3]));
                }
            }
        }
        lemma_no_occurrence(left, times_pattern(), 0);
        assert(left.subrange(la, la + 3) =~= divided_pattern());
        assert forall|m: int| 0 <= m < la implies !occurs_at(left, divided_pattern(), m) by {
            if occurs_at(left, divided_pattern(), m) {
                assert(left.subrange(m, m + 3)[1] == '/');
                if m + 1 < la {
                    assert(is_digit(da[m + 1]));
                }
            }
        }
        lemma_first_occurrence_is(left, divided_pattern(), 0, la);
    }
}

} // verus!
