//! The puzzle registry: a map from solution hash to puzzle record, the
//! secondary index of unsolved hashes, and the owner-gated creation and
//! solve operations. The registry is an append-only ledger: puzzles are
//! never deleted, and a solved puzzle never reopens.

use vstd::prelude::*;
use crate::hashing::solution_hash_of;
use crate::hashing::solution_hash_seq;
use crate::types::Answer;
use crate::types::AnswerView;
use crate::types::JsonPuzzle;
use crate::types::Puzzle;
use crate::types::PuzzleStatus;
use crate::types::PuzzleView;
use crate::types::RegistryError;
use crate::types::StatusView;
use crate::types::UnsolvedPuzzles;
use crate::types::answers_view;
use crate::types::clone_answers;
use crate::types::clone_status;

verus! {

/// The fixed reward, in yoctoNEAR, owed to the first correct solver of a
/// puzzle. Baked in at build time.
pub const PRIZE_AMOUNT: u128 = 5_000_000_000_000_000_000_000_000;

/// The mathematical state of a registry: the owner, the puzzle map keyed by
/// solution hash, and the unsolved index in its enumeration order.
#[verifier::ext_equal]
pub ghost struct RegistryView {
    pub owner: Seq<char>,
    pub puzzles: Map<Seq<char>, PuzzleView>,
    pub unsolved: Seq<Seq<char>>,
}

impl RegistryView {
    /// The registry invariant: the unsolved index holds no duplicates, and a
    /// hash stands in it exactly when the puzzle map holds that hash with an
    /// `Unsolved` status.
    pub open spec fn wf(self) -> bool {
        &&& (forall|i: int, j: int|
            0 <= i < j < self.unsolved.len() ==> self.unsolved[i] != self.unsolved[j])
        &&& (forall|i: int|
            0 <= i < self.unsolved.len() ==> self.puzzles.contains_key(
                #[trigger] self.unsolved[i],
            ) && self.puzzles[self.unsolved[i]].status is Unsolved)
        &&& (forall|h: Seq<char>|
            (#[trigger] self.puzzles.contains_key(h)) && self.puzzles[h].status is Unsolved
                ==> self.unsolved.contains(h))
    }

    /// What creation answers: only the owner may create, and never under a
    /// hash that is already taken.
    pub open spec fn create_result(self, caller: Seq<char>, hash: Seq<char>) -> Result<
        (),
        RegistryError,
    > {
        if caller != self.owner {
            Err(RegistryError::Unauthorized)
        } else if self.puzzles.contains_key(hash) {
            Err(RegistryError::DuplicateKey)
        } else {
            Ok(())
        }
    }

    /// The state after a creation attempt: on success the puzzle is stored
    /// unsolved and its hash is appended to the unsolved index, both in one
    /// step; a refused attempt changes nothing.
    pub open spec fn after_create(
        self,
        caller: Seq<char>,
        hash: Seq<char>,
        answers: Seq<AnswerView>,
    ) -> RegistryView {
        if self.create_result(caller, hash) is Ok {
            RegistryView {
                owner: self.owner,
                puzzles: self.puzzles.insert(
                    hash,
                    PuzzleView { status: StatusView::Unsolved, answer: answers },
                ),
                unsolved: self.unsolved.push(hash),
            }
        } else {
            self
        }
    }

    /// What a submission answers: a guess whose hash is unknown is refused
    /// as `NotFound`, one against a solved puzzle as `AlreadySolved`, and
    /// only the first correct guess succeeds.
    pub open spec fn solve_result(self, solution: Seq<char>) -> Result<(), RegistryError> {
        let h = solution_hash_seq(solution);
        if !self.puzzles.contains_key(h) {
            Err(RegistryError::NotFound)
        } else if self.puzzles[h].status is Solved {
            Err(RegistryError::AlreadySolved)
        } else {
            Ok(())
        }
    }

    /// The state after a submission: on success the puzzle's status becomes
    /// `Solved` with the caller's memo, its answers unchanged, and its hash
    /// leaves the unsolved index, both in one step; a refused submission
    /// changes nothing.
    pub open spec fn after_solve(self, solution: Seq<char>, memo: Seq<char>) -> RegistryView {
        let h = solution_hash_seq(solution);
        if self.solve_result(solution) is Ok {
            RegistryView {
                owner: self.owner,
                puzzles: self.puzzles.insert(
                    h,
                    PuzzleView { status: StatusView::Solved { memo }, answer: self.puzzles[h].answer },
                ),
                unsolved: self.unsolved.remove(self.unsolved.index_of(h)),
            }
        } else {
            self
        }
    }
}

/// One stored record: a puzzle and the solution hash it is keyed by.
struct PuzzleEntry {
    solution_hash: String,
    puzzle: Puzzle,
}

/// The map that a stored entry sequence denotes; a later entry under the
/// same hash would shadow an earlier one, but stored entries have distinct
/// hashes.
spec fn entries_map(s: Seq<PuzzleEntry>) -> Map<Seq<char>, PuzzleView>
    decreases s.len(),
{
    if s.len() == 0 {
        Map::empty()
    } else {
        entries_map(s.drop_last()).insert(s.last().solution_hash@, s.last().puzzle@)
    }
}

/// Pairwise-distinct solution hashes among stored entries.
spec fn entries_distinct(s: Seq<PuzzleEntry>) -> bool {
    forall|i: int, j: int|
        0 <= i < j < s.len() ==> s[i].solution_hash@ != s[j].solution_hash@
}

/// The hash sequence that the stored unsolved index denotes.
spec fn index_view(s: Seq<String>) -> Seq<Seq<char>> {
    s.map_values(|h: String| h@)
}

proof fn lemma_entries_map_domain(s: Seq<PuzzleEntry>)
    ensures
        forall|h: Seq<char>|
            #[trigger] entries_map(s).contains_key(h) <==> exists|i: int|
                0 <= i < s.len() && s[i].solution_hash@ == h,
    decreases s.len(),
{
    if s.len() > 0 {
        lemma_entries_map_domain(s.drop_last());
        assert forall|h: Seq<char>| #[trigger]
            entries_map(s).contains_key(h) implies exists|i: int|
            0 <= i < s.len() && s[i].solution_hash@ == h by {
            if h == s.last().solution_hash@ {
                assert(s[s.len() - 1].solution_hash@ == h);
            } else {
                assert(entries_map(s.drop_last()).contains_key(h));
                let i = choose|i: int|
                    0 <= i < s.drop_last().len() && s.drop_last()[i].solution_hash@ == h;
                assert(s.drop_last()[i] == s[i]);
                assert(s[i].solution_hash@ == h);
            }
        }
        assert forall|h: Seq<char>|
            (exists|i: int| 0 <= i < s.len() && s[i].solution_hash@ == h) implies #[trigger]
            entries_map(s).contains_key(h) by {
            let i = choose|i: int| 0 <= i < s.len() && s[i].solution_hash@ == h;
            if i < s.len() - 1 {
                assert(s.drop_last()[i].solution_hash@ == h);
                assert(exists|k: int|
                    0 <= k < s.drop_last().len() && s.drop_last()[k].solution_hash@ == h);
                assert(entries_map(s.drop_last()).contains_key(h));
            } else {
                assert(h == s.last().solution_hash@);
            }
        }
    }
}

proof fn lemma_entries_map_index(s: Seq<PuzzleEntry>, i: int)
    requires
        entries_distinct(s),
        0 <= i < s.len(),
    ensures
        entries_map(s).contains_key(s[i].solution_hash@),
        entries_map(s)[s[i].solution_hash@] == s[i].puzzle@,
    decreases s.len(),
{
    if i < s.len() - 1 {
        assert(entries_distinct(s.drop_last()));
        lemma_entries_map_index(s.drop_last(), i);
        assert(s.drop_last()[i] == s[i]);
        assert(s[i].solution_hash@ != s.last().solution_hash@);
    }
}

proof fn lemma_entries_map_push(s: Seq<PuzzleEntry>, e: PuzzleEntry)
    ensures
        entries_map(s.push(e)) == entries_map(s).insert(e.solution_hash@, e.puzzle@),
{
    assert(s.push(e).drop_last() =~= s);
    assert(s.push(e).last() == e);
}

proof fn lemma_entries_map_update(s: Seq<PuzzleEntry>, i: int, e: PuzzleEntry)
    requires
        entries_distinct(s),
        0 <= i < s.len(),
        e.solution_hash@ == s[i].solution_hash@,
    ensures
        entries_map(s.update(i, e)) == entries_map(s).insert(e.solution_hash@, e.puzzle@),
    decreases s.len(),
{
    if i == s.len() - 1 {
        assert(s.update(i, e).drop_last() =~= s.drop_last());
        assert(s.update(i, e).last() == e);
        assert(entries_map(s.update(i, e)) =~= entries_map(s).insert(
            e.solution_hash@,
            e.puzzle@,
        ));
    } else {
        assert(entries_distinct(s.drop_last()));
        lemma_entries_map_update(s.drop_last(), i, e);
        assert(s.update(i, e).drop_last() =~= s.drop_last().update(i, e));
        assert(s.update(i, e).last() == s.last());
        assert(s[i].solution_hash@ != s.last().solution_hash@);
        assert(entries_map(s.update(i, e)) =~= entries_map(s).insert(
            e.solution_hash@,
            e.puzzle@,
        ));
    }
}

/// The index of the first stored entry keyed by the given hash, if any.
fn find_entry(entries: &Vec<PuzzleEntry>, hash: &String) -> (r: Option<usize>)
    ensures
        match r {
            Option::Some(i) => i < entries@.len() && entries@[i as int].solution_hash@ == hash@,
            Option::None => forall|k: int|
                0 <= k < entries@.len() ==> entries@[k].solution_hash@ != hash@,
        },
{
    let mut i: usize = 0;
    while i < entries.len()
        invariant
            i <= entries@.len(),
            forall|k: int| 0 <= k < i ==> entries@[k].solution_hash@ != hash@,
        decreases entries@.len() - i,
    {
        if entries[i].solution_hash == *hash {
            return Some(i);
        }
        i = i + 1;
    }
    None
}

/// The position of the given hash in the stored unsolved index, if any.
fn find_hash(index: &Vec<String>, hash: &String) -> (r: Option<usize>)
    ensures
        match r {
            Option::Some(i) => i < index@.len() && index@[i as int]@ == hash@,
            Option::None => forall|k: int| 0 <= k < index@.len() ==> index@[k]@ != hash@,
        },
{
    let mut i: usize = 0;
    while i < index.len()
        invariant
            i <= index@.len(),
            forall|k: int| 0 <= k < i ==> index@[k]@ != hash@,
        decreases index@.len() - i,
    {
        if index[i] == *hash {
            return Some(i);
        }
        i = i + 1;
    }
    None
}

/// The puzzle registry. The owner is set once at construction; puzzles are
/// stored under the hex-encoded SHA-256 digest of their plaintext solution,
/// and the unsolved index is kept in lock-step with the statuses.
pub struct Crossword {
    owner_id: String,
    puzzles: Vec<PuzzleEntry>,
    unsolved_puzzles: Vec<String>,
}

impl View for Crossword {
    type V = RegistryView;

    closed spec fn view(&self) -> RegistryView {
        RegistryView {
            owner: self.owner_id@,
            puzzles: entries_map(self.puzzles@),
            unsolved: index_view(self.unsolved_puzzles@),
        }
    }
}

impl Crossword {
    /// Validity of a registry value: the stored entries carry distinct
    /// hashes, and the abstract state satisfies the registry invariant.
    pub closed spec fn wf(&self) -> bool {
        &&& entries_distinct(self.puzzles@)
        &&& self@.wf()
    }

    /// A valid registry's abstract state satisfies the registry invariant.
    pub proof fn lemma_wf_view(&self)
        requires
            self.wf(),
        ensures
            self@.wf(),
    {
    }

    /// A fresh registry: the given owner, no puzzles, an empty index.
    pub fn new(owner_id: String) -> (c: Crossword)
        ensures
            c.wf(),
            c@ == (RegistryView {
                owner: owner_id@,
                puzzles: Map::<Seq<char>, PuzzleView>::empty(),
                unsolved: Seq::<Seq<char>>::empty(),
            }),
    {
        let c = Crossword {
            owner_id,
            puzzles: Vec::new(),
            unsolved_puzzles: Vec::new(),
        };
        proof {
            assert(c@.puzzles =~= Map::<Seq<char>, PuzzleView>::empty());
            assert(c@.unsolved =~= Seq::<Seq<char>>::empty());
            assert(c@ =~= (RegistryView {
                owner: c.owner_id@,
                puzzles: Map::<Seq<char>, PuzzleView>::empty(),
                unsolved: Seq::<Seq<char>>::empty(),
            }));
        }
        c
    }

    /// Owner-gated creation: stores the puzzle unsolved under the given
    /// hash and indexes it, or refuses with `Unauthorized` for any caller
    /// but the owner and with `DuplicateKey` for a hash already taken. A
    /// refused creation changes nothing.
    pub fn new_puzzle(
        &mut self,
        caller: &String,
        solution_hash: String,
        answers: Vec<Answer>,
    ) -> (r: Result<(), RegistryError>)
        requires
            old(self).wf(),
        ensures
            final(self).wf(),
            r == old(self)@.create_result(caller@, solution_hash@),
            final(self)@ == old(self)@.after_create(
                caller@,
                solution_hash@,
                answers_view(answers@),
            ),
    {
        if !(*caller == self.owner_id) {
            return Err(RegistryError::Unauthorized);
        }
        proof {
            lemma_entries_map_domain(self.puzzles@);
        }
        if find_entry(&self.puzzles, &solution_hash).is_some() {
            return Err(RegistryError::DuplicateKey);
        }
        let ghost pre = self@;
        let ghost h = solution_hash@;
        let index_key = solution_hash.clone();
        let entry = PuzzleEntry {
            solution_hash,
            puzzle: Puzzle { status: PuzzleStatus::Unsolved, answer: answers },
        };
        proof {
            lemma_entries_map_push(self.puzzles@, entry);
        }
        self.puzzles.push(entry);
        self.unsolved_puzzles.push(index_key);
        proof {
            assert(!pre.puzzles.contains_key(h));
            // The new entry sequence stays pairwise distinct.
            assert(entries_distinct(self.puzzles@)) by {
                let s = self.puzzles@;
                assert forall|i: int, j: int|
                    0 <= i < j < s.len() implies s[i].solution_hash@ != s[j].solution_hash@ by {
                    if j == s.len() - 1 {
                        assert(s[i] == old(self).puzzles@[i]);
                        assert(!pre.puzzles.contains_key(h));
                    }
                }
            }
            assert(self@.unsolved =~= pre.unsolved.push(h));
            assert(self@.puzzles =~= pre.puzzles.insert(
                h,
                PuzzleView { status: StatusView::Unsolved, answer: answers_view(answers@) },
            ));
            assert(self@ =~= pre.after_create(caller@, h, answers_view(answers@)));
            // The hash was absent, so the index did not hold it either.
            assert forall|i: int| 0 <= i < pre.unsolved.len() implies pre.unsolved[i] != h by {
                assert(pre.puzzles.contains_key(pre.unsolved[i]));
            }
            assert(self@.wf()) by {
                let post = self@;
                assert forall|i: int|
                    0 <= i < post.unsolved.len() implies post.puzzles.contains_key(
                    #[trigger] post.unsolved[i],
                ) && post.puzzles[post.unsolved[i]].status is Unsolved by {
                    if i < pre.unsolved.len() {
                        assert(pre.puzzles.contains_key(pre.unsolved[i]));
                        assert(post.unsolved[i] == pre.unsolved[i]);
                        assert(post.unsolved[i] != h);
                    } else {
                        assert(post.unsolved[i] == h);
                    }
                }
                assert forall|h2: Seq<char>|
                    (#[trigger] post.puzzles.contains_key(h2))
                        && post.puzzles[h2].status is Unsolved implies post.unsolved.contains(
                    h2,
                ) by {
                    if h2 == h {
                        assert(post.unsolved[post.unsolved.len() - 1] == h);
                    } else {
                        assert(pre.puzzles.contains_key(h2));
                        assert(pre.unsolved.contains(h2));
                        let i = choose|i: int|
                            0 <= i < pre.unsolved.len() && pre.unsolved[i] == h2;
                        assert(post.unsolved[i] == h2);
                    }
                }
            }
        }
        Ok(())
    }

    /// Any caller may submit a plaintext guess with a memo. The guess is
    /// hashed; an unknown hash is refused as `NotFound`, a solved puzzle as
    /// `AlreadySolved`, and a refusal changes nothing. On the first correct
    /// guess the puzzle becomes `Solved` with the memo, keeps its answers,
    /// and leaves the unsolved index, all in one step; exactly then is the
    /// fixed reward owed to the caller.
    pub fn submit_solution(&mut self, solution: String, memo: String) -> (r: Result<
        (),
        RegistryError,
    >)
        requires
            old(self).wf(),
        ensures
            final(self).wf(),
            r == old(self)@.solve_result(solution@),
            final(self)@ == old(self)@.after_solve(solution@, memo@),
    {
        let hashed_hex = solution_hash_of(solution.as_str());
        let ghost pre = self@;
        let ghost h = solution_hash_seq(solution@);
        proof {
            lemma_entries_map_domain(self.puzzles@);
        }
        let found = find_entry(&self.puzzles, &hashed_hex);
        match found {
            Option::None => {
                assert(!pre.puzzles.contains_key(h));
                Err(RegistryError::NotFound)
            },
            Option::Some(i) => {
                proof {
                    lemma_entries_map_index(self.puzzles@, i as int);
                }
                let already_solved = match &self.puzzles[i].puzzle.status {
                    PuzzleStatus::Solved { .. } => true,
                    PuzzleStatus::Unsolved => false,
                };
                if already_solved {
                    assert(pre.puzzles[h].status is Solved);
                    return Err(RegistryError::AlreadySolved);
                }
                assert(pre.puzzles[h].status is Unsolved);
                let entry = self.puzzles.remove(i);
                let new_entry = PuzzleEntry {
                    solution_hash: entry.solution_hash,
                    puzzle: Puzzle {
                        status: PuzzleStatus::Solved { memo },
                        answer: entry.puzzle.answer,
                    },
                };
                self.puzzles.insert(i, new_entry);
                proof {
                    assert(self.puzzles@ =~= old(self).puzzles@.update(i as int, new_entry));
                    assert(entries_distinct(self.puzzles@));
                    lemma_entries_map_update(old(self).puzzles@, i as int, new_entry);
                }
                let j_found = find_hash(&self.unsolved_puzzles, &hashed_hex);
                let j = match j_found {
                    Option::Some(j) => j,
                    Option::None => {
                        proof {
                            assert(pre.unsolved.contains(h));
                            let k = choose|k: int|
                                0 <= k < pre.unsolved.len() && pre.unsolved[k] == h;
                            assert(old(self).unsolved_puzzles@[k]@ == h);
                            assert(false);
                        }
                        0
                    },
                };
                self.unsolved_puzzles.remove(j);
                proof {
                    let post = self@;
                    // The removed position is the one the abstract state names.
                    assert(pre.unsolved[j as int] == h);
                    assert(pre.unsolved.contains(h));
                    let k = pre.unsolved.index_of(h);
                    assert(0 <= k < pre.unsolved.len() && pre.unsolved[k] == h);
                    assert(k == j as int);
                    assert(post.unsolved =~= pre.unsolved.remove(j as int));
                    assert(post.puzzles =~= pre.puzzles.insert(
                        h,
                        PuzzleView {
                            status: StatusView::Solved { memo: memo@ },
                            answer: pre.puzzles[h].answer,
                        },
                    ));
                    assert(post =~= pre.after_solve(solution@, memo@));
                    assert(post.wf()) by {
                        assert forall|a: int, b: int|
                            0 <= a < b < post.unsolved.len() implies post.unsolved[a]
                            != post.unsolved[b] by {
                            let a0 = if a < j as int { a } else { a + 1 };
                            let b0 = if b < j as int { b } else { b + 1 };
                            assert(post.unsolved[a] == pre.unsolved[a0]);
                            assert(post.unsolved[b] == pre.unsolved[b0]);
                        }
                        assert forall|i2: int|
                            0 <= i2 < post.unsolved.len() implies post.puzzles.contains_key(
                            #[trigger] post.unsolved[i2],
                        ) && post.puzzles[post.unsolved[i2]].status is Unsolved by {
                            let i0 = if i2 < j as int { i2 } else { i2 + 1 };
                            assert(post.unsolved[i2] == pre.unsolved[i0]);
                            assert(pre.puzzles.contains_key(pre.unsolved[i0]));
                            assert(pre.unsolved[i0] != h);
                        }
                        assert forall|h2: Seq<char>|
                            (#[trigger] post.puzzles.contains_key(h2))
                                && post.puzzles[h2].status is Unsolved implies post.unsolved
                            .contains(h2) by {
                            assert(h2 != h);
                            assert(pre.puzzles.contains_key(h2));
                            assert(pre.unsolved.contains(h2));
                            let k2 = choose|k2: int|
                                0 <= k2 < pre.unsolved.len() && pre.unsolved[k2] == h2;
                            if k2 < j as int {
                                assert(post.unsolved[k2] == h2);
                            } else {
                                assert(post.unsolved[k2 - 1] == h2);
                            }
                        }
                    }
                }
                Ok(())
            },
        }
    }

    /// Pure status lookup: the stored status of the puzzle under the given
    /// hash, or nothing when the hash is unknown. Never mutates anything.
    pub fn get_puzzle_status(&self, solution_hash: String) -> (r: Option<PuzzleStatus>)
        requires
            self.wf(),
        ensures
            match r {
                Option::None => !self@.puzzles.contains_key(solution_hash@),
                Option::Some(st) => self@.puzzles.contains_key(solution_hash@) && st@
                    == self@.puzzles[solution_hash@].status,
            },
    {
        proof {
            lemma_entries_map_domain(self.puzzles@);
        }
        match find_entry(&self.puzzles, &solution_hash) {
            Option::None => None,
            Option::Some(i) => {
                proof {
                    lemma_entries_map_index(self.puzzles@, i as int);
                }
                Some(clone_status(&self.puzzles[i].puzzle.status))
            },
        }
    }

    /// Enumerates every unsolved puzzle, in the index's order, with its
    /// hash, status and full answer data; no solved puzzle appears. An
    /// index entry without a matching record would be refused as
    /// `CorruptIndex`, but a valid registry never reaches that branch.
    pub fn get_unsolved_puzzles(&self) -> (r: Result<UnsolvedPuzzles, RegistryError>)
        requires
            self.wf(),
        ensures
            r is Ok,
            r->Ok_0@.len() == self@.unsolved.len(),
            forall|i: int|
                0 <= i < self@.unsolved.len() ==> (#[trigger] r->Ok_0@[i]).solution_hash
                    == self@.unsolved[i] && r->Ok_0@[i].status
                    == self@.puzzles[self@.unsolved[i]].status && r->Ok_0@[i].answer
                    == self@.puzzles[self@.unsolved[i]].answer && r->Ok_0@[i].status
                    is Unsolved,
    {
        proof {
            lemma_entries_map_domain(self.puzzles@);
        }
        let mut out: Vec<JsonPuzzle> = Vec::new();
        let mut k: usize = 0;
        while k < self.unsolved_puzzles.len()
            invariant
                self.wf(),
                k <= self.unsolved_puzzles@.len(),
                out@.len() == k,
                forall|i: int|
                    0 <= i < k ==> (#[trigger] out@[i])@.solution_hash == self@.unsolved[i]
                        && out@[i]@.status == self@.puzzles[self@.unsolved[i]].status
                        && out@[i]@.answer == self@.puzzles[self@.unsolved[i]].answer,
            decreases self.unsolved_puzzles@.len() - k,
        {
            proof {
                lemma_entries_map_domain(self.puzzles@);
                assert(self@.puzzles.contains_key(self@.unsolved[k as int]));
            }
            let hash = &self.unsolved_puzzles[k];
            match find_entry(&self.puzzles, hash) {
                Option::None => {
                    proof {
                        assert(false);
                    }
                    return Err(RegistryError::CorruptIndex);
                },
                Option::Some(i) => {
                    proof {
                        lemma_entries_map_index(self.puzzles@, i as int);
                    }
                    let record = JsonPuzzle {
                        solution_hash: hash.clone(),
                        status: clone_status(&self.puzzles[i].puzzle.status),
                        answer: clone_answers(&self.puzzles[i].puzzle.answer),
                    };
                    out.push(record);
                },
            }
            k = k + 1;
        }
        Ok(UnsolvedPuzzles { puzzles: out })
    }
}

} // verus!
