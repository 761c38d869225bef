//! The puzzle data model: answer keys, puzzle records, their solved or
//! unsolved status, and the error taxonomy of the registry.

use vstd::prelude::*;

verus! {

/// Why a registry call was refused.
#[derive(Clone, Copy, PartialEq, Eq, Structural, Debug)]
pub enum RegistryError {
    /// A privileged operation was attempted by someone other than the owner.
    Unauthorized,
    /// Creation collided with a puzzle already stored under the same hash.
    DuplicateKey,
    /// A guess hashed to no known puzzle.
    NotFound,
    /// A submission against a puzzle that was solved earlier.
    AlreadySolved,
    /// The unsolved index referenced a missing puzzle record: an internal
    /// invariant breach that a healthy registry never reaches.
    CorruptIndex,
}

/// The orientation of an answer on the grid.
#[derive(Clone, Copy, PartialEq, Eq, Structural, Debug)]
pub enum AnswerDirection {
    Across,
    Down,
}

/// A grid position.
#[derive(Clone, Copy, PartialEq, Eq, Structural, Debug)]
pub struct CoordinatePair {
    pub x: u8,
    pub y: u8,
}

/// One entry of a puzzle's answer key. Immutable once the puzzle exists.
#[derive(PartialEq, Debug)]
pub struct Answer {
    pub num: u8,
    pub start: CoordinatePair,
    pub direction: AnswerDirection,
    pub length: u8,
    pub clue: String,
}

/// The mathematical value of an `Answer`.
#[verifier::ext_equal]
pub ghost struct AnswerView {
    pub num: u8,
    pub start: CoordinatePair,
    pub direction: AnswerDirection,
    pub length: u8,
    pub clue: Seq<char>,
}

impl View for Answer {
    type V = AnswerView;

    open spec fn view(&self) -> AnswerView {
        AnswerView {
            num: self.num,
            start: self.start,
            direction: self.direction,
            length: self.length,
            clue: self.clue@,
        }
    }
}

/// The sequence of answer values that a stored answer list denotes.
pub open spec fn answers_view(s: Seq<Answer>) -> Seq<AnswerView> {
    s.map_values(|a: Answer| a@)
}

/// A puzzle's lifecycle state: open, or solved with the solver's memo.
/// The transition is one-way; a solved puzzle never reopens.
#[derive(PartialEq, Debug)]
pub enum PuzzleStatus {
    Unsolved,
    Solved { memo: String },
}

/// The mathematical value of a `PuzzleStatus`.
#[verifier::ext_equal]
pub ghost enum StatusView {
    Unsolved,
    Solved { memo: Seq<char> },
}

impl View for PuzzleStatus {
    type V = StatusView;

    open spec fn view(&self) -> StatusView {
        match self {
            PuzzleStatus::Unsolved => StatusView::Unsolved,
            PuzzleStatus::Solved { memo } => StatusView::Solved { memo: memo@ },
        }
    }
}

/// A stored puzzle record: its status and its answer key. The plaintext
/// solution is never stored; the record is keyed externally by the hex
/// encoding of the solution's SHA-256 digest.
#[derive(PartialEq, Debug)]
pub struct Puzzle {
    pub status: PuzzleStatus,
    pub answer: Vec<Answer>,
}

/// The mathematical value of a `Puzzle`.
#[verifier::ext_equal]
pub ghost struct PuzzleView {
    pub status: StatusView,
    pub answer: Seq<AnswerView>,
}

impl View for Puzzle {
    type V = PuzzleView;

    open spec fn view(&self) -> PuzzleView {
        PuzzleView { status: self.status@, answer: answers_view(self.answer@) }
    }
}

/// A puzzle together with the hash it is stored under, as enumeration
/// hands it out.
#[derive(PartialEq, Debug)]
pub struct JsonPuzzle {
    pub solution_hash: String,
    pub status: PuzzleStatus,
    pub answer: Vec<Answer>,
}

/// The mathematical value of a `JsonPuzzle`.
#[verifier::ext_equal]
pub ghost struct JsonPuzzleView {
    pub solution_hash: Seq<char>,
    pub status: StatusView,
    pub answer: Seq<AnswerView>,
}

impl View for JsonPuzzle {
    type V = JsonPuzzleView;

    open spec fn view(&self) -> JsonPuzzleView {
        JsonPuzzleView {
            solution_hash: self.solution_hash@,
            status: self.status@,
            answer: answers_view(self.answer@),
        }
    }
}

/// The listing of every puzzle that is still unsolved.
#[derive(PartialEq, Debug)]
pub struct UnsolvedPuzzles {
    pub puzzles: Vec<JsonPuzzle>,
}

impl View for UnsolvedPuzzles {
    type V = Seq<JsonPuzzleView>;

    open spec fn view(&self) -> Seq<JsonPuzzleView> {
        self.puzzles@.map_values(|p: JsonPuzzle| p@)
    }
}

/// An owned copy of an answer entry, equal in value to the original.
pub fn clone_answer(a: &Answer) -> (r: Answer)
    ensures
        r@ == a@,
{
    Answer {
        num: a.num,
        start: CoordinatePair { x: a.start.x, y: a.start.y },
        direction: a.direction,
        length: a.length,
        clue: a.clue.clone(),
    }
}

/// An owned copy of an answer key, equal in value to the original.
pub fn clone_answers(v: &Vec<Answer>) -> (r: Vec<Answer>)
    ensures
        answers_view(r@) == answers_view(v@),
{
    let mut out: Vec<Answer> = Vec::new();
    let mut i: usize = 0;
    while i < v.len()
        invariant
            i <= v@.len(),
            out@.len() == i,
            forall|j: int| 0 <= j < i ==> out@[j]@ == v@[j]@,
        decreases v@.len() - i,
    {
        out.push(clone_answer(&v[i]));
        i = i + 1;
    }
    proof {
        assert(answers_view(out@) =~= answers_view(v@));
    }
    out
}

/// An owned copy of a status, equal in value to the original.
pub fn clone_status(s: &PuzzleStatus) -> (r: PuzzleStatus)
    ensures
        r@ == s@,
{
    match s {
        PuzzleStatus::Unsolved => PuzzleStatus::Unsolved,
        PuzzleStatus::Solved { memo } => PuzzleStatus::Solved { memo: memo.clone() },
    }
}

} // verus!
