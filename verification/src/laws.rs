//! The registry's laws: consequences of the transition specifications that
//! hold for every state and every input, proved once and for all.

use vstd::prelude::*;
use crate::hashing::solution_hash_seq;
use crate::registry::RegistryView;
use crate::types::AnswerView;
use crate::types::RegistryError;
use crate::types::StatusView;

verus! {

/// A hash stands in the unsolved index exactly when the puzzle map holds it
/// with an `Unsolved` status. This holds of every valid registry state, and
/// every operation ends in a valid state.
pub proof fn lemma_index_matches_status(r: RegistryView, hash: Seq<char>)
    requires
        r.wf(),
    ensures
        r.unsolved.contains(hash) <==> (r.puzzles.contains_key(hash) && r.puzzles[hash].status
            is Unsolved),
{
    if r.unsolved.contains(hash) {
        let i = choose|i: int| 0 <= i < r.unsolved.len() && r.unsolved[i] == hash;
        assert(r.puzzles.contains_key(r.unsolved[i]));
    }
}

/// Creation under a hash that is already taken reports `DuplicateKey` and
/// leaves the whole state, the original puzzle included, untouched.
pub proof fn lemma_duplicate_create_unchanged(
    r: RegistryView,
    caller: Seq<char>,
    hash: Seq<char>,
    answers: Seq<AnswerView>,
)
    requires
        caller == r.owner,
        r.puzzles.contains_key(hash),
    ensures
        r.create_result(caller, hash) == Err::<(), RegistryError>(RegistryError::DuplicateKey),
        r.after_create(caller, hash, answers) == r,
{
}

/// Creation by anyone but the owner reports `Unauthorized` and creates
/// nothing.
pub proof fn lemma_unauthorized_create_unchanged(
    r: RegistryView,
    caller: Seq<char>,
    hash: Seq<char>,
    answers: Seq<AnswerView>,
)
    requires
        caller != r.owner,
    ensures
        r.create_result(caller, hash) == Err::<(), RegistryError>(RegistryError::Unauthorized),
        r.after_create(caller, hash, answers) == r,
{
}

/// A guess whose hash matches no stored puzzle reports `NotFound` and
/// mutates neither the puzzle map nor the unsolved index.
pub proof fn lemma_wrong_guess_unchanged(r: RegistryView, solution: Seq<char>, memo: Seq<char>)
    requires
        !r.puzzles.contains_key(solution_hash_seq(solution)),
    ensures
        r.solve_result(solution) == Err::<(), RegistryError>(RegistryError::NotFound),
        r.after_solve(solution, memo) == r,
{
}

/// Once a puzzle is solved its record never changes again: no creation
/// attempt and no further submission, under any hash or plaintext,
/// rewrites it.
pub proof fn lemma_solved_never_reverts(
    r: RegistryView,
    hash: Seq<char>,
    caller: Seq<char>,
    new_hash: Seq<char>,
    answers: Seq<AnswerView>,
    solution: Seq<char>,
    memo: Seq<char>,
)
    requires
        r.puzzles.contains_key(hash),
        r.puzzles[hash].status is Solved,
    ensures
        r.after_create(caller, new_hash, answers).puzzles.contains_key(hash),
        r.after_create(caller, new_hash, answers).puzzles[hash] == r.puzzles[hash],
        r.after_solve(solution, memo).puzzles.contains_key(hash),
        r.after_solve(solution, memo).puzzles[hash] == r.puzzles[hash],
{
}

/// A correct solve transitions the puzzle's status exactly once: afterwards
/// the memo is recorded, and any further submission hashing to the same
/// value — the same plaintext or any collision — is refused as
/// `AlreadySolved`, changes nothing, and earns no second reward, since only
/// a successful submission is rewarded.
pub proof fn lemma_solve_transitions_once(
    r: RegistryView,
    first: Seq<char>,
    first_memo: Seq<char>,
    second: Seq<char>,
    second_memo: Seq<char>,
)
    requires
        r.solve_result(first) is Ok,
        solution_hash_seq(second) == solution_hash_seq(first),
    ensures
        ({
            let mid = r.after_solve(first, first_memo);
            &&& mid.puzzles[solution_hash_seq(first)].status == (StatusView::Solved {
                memo: first_memo,
            })
            &&& mid.solve_result(second) == Err::<(), RegistryError>(RegistryError::AlreadySolved)
            &&& mid.after_solve(second, second_memo) == mid
        }),
{
}

} // verus!
