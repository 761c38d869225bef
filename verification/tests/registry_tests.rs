use crossword::{
    Answer, AnswerDirection, CoordinatePair, Crossword, PuzzleStatus, RegistryError,
    solution_hash_of, PRIZE_AMOUNT,
};

fn sample_answers() -> Vec<Answer> {
    vec![Answer {
        num: 1,
        start: CoordinatePair { x: 0, y: 1 },
        direction: AnswerDirection::Across,
        length: 3,
        clue: "first three letters".to_string(),
    }]
}

fn listed_hashes(registry: &Crossword) -> Vec<String> {
    registry
        .get_unsolved_puzzles()
        .unwrap()
        .puzzles
        .into_iter()
        .map(|p| p.solution_hash)
        .collect()
}

#[test]
fn hash_of_known_plaintext() {
    // Fails if either the digest or the hex encoding were handed back
    // unchanged: the hash of "ABC" is a fixed, externally known value.
    assert_eq!(
        solution_hash_of("ABC"),
        "b5d4045c3f466fa91fe2cc6abe79232a1a57cdf104f7a26e716e0a1e2789df78"
    );
}

#[test]
fn hash_is_lowercase_hex_of_fixed_width() {
    let h = solution_hash_of("");
    assert_eq!(h.len(), 64);
    assert!(h.chars().all(|c| c.is_ascii_hexdigit() && !c.is_ascii_uppercase()));
    assert_ne!(solution_hash_of(""), solution_hash_of("x"));
}

#[test]
fn scenario_a_create_then_solve() {
    let mut registry = Crossword::new("owner.near".to_string());
    let hash = solution_hash_of("ABC");
    let created = registry.new_puzzle(&"owner.near".to_string(), hash.clone(), sample_answers());
    assert_eq!(created, Ok(()));
    assert_eq!(
        registry.get_puzzle_status(hash.clone()),
        Some(PuzzleStatus::Unsolved)
    );
    assert!(listed_hashes(&registry).contains(&hash));

    let solved = registry.submit_solution("ABC".to_string(), "nice".to_string());
    assert_eq!(solved, Ok(()));
    assert_eq!(
        registry.get_puzzle_status(hash.clone()),
        Some(PuzzleStatus::Solved { memo: "nice".to_string() })
    );
    assert!(!listed_hashes(&registry).contains(&hash));
}

#[test]
fn scenario_b_wrong_guess_on_empty_registry() {
    let mut registry = Crossword::new("owner.near".to_string());
    let before = registry.get_unsolved_puzzles().unwrap();
    let outcome = registry.submit_solution("WRONG".to_string(), "x".to_string());
    assert_eq!(outcome, Err(RegistryError::NotFound));
    let after = registry.get_unsolved_puzzles().unwrap();
    assert_eq!(before, after);
    assert!(after.puzzles.is_empty());
    assert_eq!(registry.get_puzzle_status(solution_hash_of("WRONG")), None);
}

#[test]
fn scenario_c_creation_by_non_owner() {
    let mut registry = Crossword::new("owner.near".to_string());
    let hash = solution_hash_of("ABC");
    let outcome = registry.new_puzzle(&"mallory.near".to_string(), hash.clone(), sample_answers());
    assert_eq!(outcome, Err(RegistryError::Unauthorized));
    assert_eq!(registry.get_puzzle_status(hash), None);
    assert!(registry.get_unsolved_puzzles().unwrap().puzzles.is_empty());
}

#[test]
fn scenario_d_resubmission_after_solve() {
    let mut registry = Crossword::new("owner.near".to_string());
    let hash = solution_hash_of("ABC");
    registry
        .new_puzzle(&"owner.near".to_string(), hash.clone(), sample_answers())
        .unwrap();
    registry
        .submit_solution("ABC".to_string(), "nice".to_string())
        .unwrap();

    let again = registry.submit_solution("ABC".to_string(), "again".to_string());
    assert_eq!(again, Err(RegistryError::AlreadySolved));
    assert_eq!(
        registry.get_puzzle_status(hash),
        Some(PuzzleStatus::Solved { memo: "nice".to_string() })
    );
}

#[test]
fn duplicate_creation_leaves_original_untouched() {
    let mut registry = Crossword::new("owner.near".to_string());
    let hash = solution_hash_of("ABC");
    registry
        .new_puzzle(&"owner.near".to_string(), hash.clone(), sample_answers())
        .unwrap();
    let second = registry.new_puzzle(&"owner.near".to_string(), hash.clone(), Vec::new());
    assert_eq!(second, Err(RegistryError::DuplicateKey));
    assert_eq!(
        registry.get_puzzle_status(hash.clone()),
        Some(PuzzleStatus::Unsolved)
    );
    let listing = registry.get_unsolved_puzzles().unwrap();
    assert_eq!(listing.puzzles.len(), 1);
    assert_eq!(listing.puzzles[0].solution_hash, hash);
    assert_eq!(listing.puzzles[0].answer, sample_answers());
}

#[test]
fn incorrect_guess_never_mutates() {
    let mut registry = Crossword::new("owner.near".to_string());
    let hash = solution_hash_of("ABC");
    registry
        .new_puzzle(&"owner.near".to_string(), hash.clone(), sample_answers())
        .unwrap();
    let before = registry.get_unsolved_puzzles().unwrap();
    let outcome = registry.submit_solution("NOT ABC".to_string(), "memo".to_string());
    assert_eq!(outcome, Err(RegistryError::NotFound));
    assert_eq!(before, registry.get_unsolved_puzzles().unwrap());
    assert_eq!(
        registry.get_puzzle_status(hash),
        Some(PuzzleStatus::Unsolved)
    );
}

#[test]
fn listing_never_contains_a_solved_puzzle() {
    let mut registry = Crossword::new("owner.near".to_string());
    let hash_abc = solution_hash_of("ABC");
    let hash_xyz = solution_hash_of("XYZ");
    registry
        .new_puzzle(&"owner.near".to_string(), hash_abc.clone(), sample_answers())
        .unwrap();
    registry
        .new_puzzle(&"owner.near".to_string(), hash_xyz.clone(), Vec::new())
        .unwrap();

    registry
        .submit_solution("ABC".to_string(), "done".to_string())
        .unwrap();

    let listing = registry.get_unsolved_puzzles().unwrap();
    assert_eq!(listing.puzzles.len(), 1);
    assert_eq!(listing.puzzles[0].solution_hash, hash_xyz);
    for p in &listing.puzzles {
        assert_eq!(p.status, PuzzleStatus::Unsolved);
    }
}

#[test]
fn index_matches_status_after_every_operation() {
    let mut registry = Crossword::new("owner.near".to_string());
    let plain = ["ABC", "XYZ", "near nomicon ref finance"];
    for p in plain {
        registry
            .new_puzzle(&"owner.near".to_string(), solution_hash_of(p), Vec::new())
            .unwrap();
        check_index_matches_status(&registry, &plain);
    }
    registry
        .submit_solution("XYZ".to_string(), "solved".to_string())
        .unwrap();
    check_index_matches_status(&registry, &plain);
    let _ = registry.submit_solution("nope".to_string(), "x".to_string());
    check_index_matches_status(&registry, &plain);
}

fn check_index_matches_status(registry: &Crossword, plain: &[&str]) {
    let listed = listed_hashes(registry);
    for p in plain {
        let hash = solution_hash_of(p);
        match registry.get_puzzle_status(hash.clone()) {
            Some(PuzzleStatus::Unsolved) => assert!(listed.contains(&hash)),
            Some(PuzzleStatus::Solved { .. }) => assert!(!listed.contains(&hash)),
            None => assert!(!listed.contains(&hash)),
        }
    }
}

#[test]
fn prize_amount_is_fixed() {
    assert_eq!(PRIZE_AMOUNT, 5_000_000_000_000_000_000_000_000u128);
}
