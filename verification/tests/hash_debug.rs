use crossword::solution_hash_of;

#[test]
fn debug_get_hash() {
    let debug_solution = "near nomicon ref finance";
    let debug_hash_bytes = near_sdk::env::sha256(debug_solution.as_bytes());
    let debug_hash_string = hex::encode(debug_hash_bytes);
    println!("Let's debug: {:?}", debug_hash_string);
    assert_eq!(solution_hash_of(debug_solution), debug_hash_string);
}
