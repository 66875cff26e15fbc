use solution_ranking::invalidation::find_challenge;
use solution_ranking::ranking::find_account;
use solution_ranking::solutions::{Code, InvalidatedSolution, LeaderboardEntry};
use solution_ranking::store::{RecordStore, SubmitError, Verdict};

fn store_with(accounts: &[(i32, &str)], challenges: &[(i32, &str)]) -> RecordStore {
    let mut s = RecordStore::new();
    for (id, name) in accounts {
        assert!(s.add_account(*id, name.to_string(), format!("{}.png", name)));
    }
    for (id, name) in challenges {
        assert!(s.add_challenge(*id, name.to_string()));
    }
    s
}

fn graded(valid: bool, score: i32) -> Option<Verdict> {
    Some(Verdict { valid, score })
}

#[test]
fn improving_submission_becomes_best() {
    let mut s = store_with(&[(1, "alice")], &[(10, "fizzbuzz")]);
    let first = s.submit(1, 10, "rust", "1.80", "long code", graded(true, 50), 100).unwrap();
    assert!(first.new_best);
    let second = s.submit(1, 10, "rust", "1.80", "short", graded(true, 30), 200).unwrap();
    assert!(second.new_best);
    assert_eq!(s.solutions.len(), 2);
    let best = Code::get_best_code_for_user(&s, 1, 10, "rust").unwrap();
    assert_eq!(best.score, 30);
    assert_eq!(best.id, second.id);
    assert_eq!(best.code, "short");
    assert!(best.valid);
    assert_eq!(best.last_improved_date, 200);
}

#[test]
fn worse_valid_submission_is_stored_but_not_best() {
    let mut s = store_with(&[(1, "alice")], &[(10, "fizzbuzz")]);
    let first = s.submit(1, 10, "rust", "1.80", "short", graded(true, 30), 100).unwrap();
    let second = s.submit(1, 10, "rust", "1.80", "longer code", graded(true, 50), 200).unwrap();
    assert!(!second.new_best);
    assert_eq!(second.score, 50);
    assert!(second.valid);
    assert_eq!(s.solutions.len(), 2);
    let best = Code::get_best_code_for_user(&s, 1, 10, "rust").unwrap();
    assert_eq!(best.id, first.id);
}

#[test]
fn invalid_submission_never_supersedes() {
    let mut s = store_with(&[(1, "alice")], &[(10, "fizzbuzz")]);
    let first = s.submit(1, 10, "rust", "1.80", "wrong", graded(false, 5), 100).unwrap();
    assert!(!first.new_best);
    assert!(!first.valid);
    assert_eq!(s.solutions.len(), 1);
}

#[test]
fn valid_submission_replaces_invalid_best_with_lower_score() {
    let mut s = store_with(&[(1, "alice")], &[(10, "fizzbuzz")]);
    s.submit(1, 10, "rust", "1.80", "a", graded(true, 20), 100).unwrap();
    let id = s.solutions[0].id;
    assert!(s.set_validity(id, false));
    let again = s.submit(1, 10, "rust", "1.80", "b", graded(true, 40), 200).unwrap();
    assert!(again.new_best);
}

#[test]
fn best_keeps_invalid_row_when_it_scores_lowest() {
    let mut s = store_with(&[(1, "alice")], &[(10, "fizzbuzz")]);
    s.submit(1, 10, "rust", "1.80", "tiny", graded(false, 10), 100).unwrap();
    s.submit(1, 10, "rust", "1.80", "ok", graded(true, 40), 200).unwrap();
    let best = Code::get_best_code_for_user(&s, 1, 10, "rust").unwrap();
    assert_eq!(best.score, 10);
    assert!(!best.valid);
}

#[test]
fn best_ties_go_to_earliest_improvement() {
    let mut s = store_with(&[(1, "alice")], &[(10, "fizzbuzz")]);
    s.submit(1, 10, "rust", "1.80", "later", graded(true, 30), 500).unwrap();
    let early = s.submit(1, 10, "rust", "1.80", "early", graded(true, 30), 100).unwrap();
    let best = Code::get_best_code_for_user(&s, 1, 10, "rust").unwrap();
    assert_eq!(best.id, early.id);
    assert_eq!(best.code, "early");
}

#[test]
fn best_is_none_without_submissions() {
    let mut s = store_with(&[(1, "alice"), (2, "bob")], &[(10, "fizzbuzz")]);
    s.submit(2, 10, "rust", "1.80", "x", graded(true, 30), 100).unwrap();
    assert!(Code::get_best_code_for_user(&s, 1, 10, "rust").is_none());
    assert!(Code::get_best_code_for_user(&s, 2, 10, "python").is_none());
    assert!(Code::get_best_code_for_user(&s, 2, 11, "rust").is_none());
}

#[test]
fn duplicate_submission_keeps_best() {
    let mut s = store_with(&[(1, "alice")], &[(10, "fizzbuzz")]);
    let a = s.submit(1, 10, "rust", "1.80", "same", graded(true, 42), 100).unwrap();
    let before = Code::get_best_code_for_user(&s, 1, 10, "rust").unwrap();
    let b = s.submit(1, 10, "rust", "1.80", "same", graded(true, 42), 100).unwrap();
    assert_ne!(a.id, b.id);
    assert_eq!(a.score, b.score);
    assert_eq!(a.valid, b.valid);
    assert!(!b.new_best);
    assert_eq!(s.solutions.len(), 2);
    let after = Code::get_best_code_for_user(&s, 1, 10, "rust").unwrap();
    assert_eq!(before.id, after.id);
    assert_eq!(after.id, a.id);
}

#[test]
fn empty_code_is_rejected_and_nothing_stored() {
    let mut s = store_with(&[(1, "alice")], &[(10, "fizzbuzz")]);
    let r = s.submit(1, 10, "rust", "1.80", "", graded(true, 1), 100);
    assert_eq!(r.err(), Some(SubmitError::InvalidInputError));
    assert_eq!(s.solutions.len(), 0);
    assert_eq!(s.next_id, 1);
}

#[test]
fn unknown_account_challenge_or_language_is_rejected() {
    let mut s = store_with(&[(1, "alice")], &[(10, "fizzbuzz")]);
    assert_eq!(s.submit(2, 10, "rust", "1", "x", graded(true, 1), 1).err(), Some(SubmitError::InvalidInputError));
    assert_eq!(s.submit(1, 11, "rust", "1", "x", graded(true, 1), 1).err(), Some(SubmitError::InvalidInputError));
    assert_eq!(s.submit(1, 10, "", "1", "x", graded(true, 1), 1).err(), Some(SubmitError::InvalidInputError));
    assert_eq!(s.validate_submission(1, 10, "rust", "x"), Ok(()));
    assert_eq!(s.solutions.len(), 0);
}

#[test]
fn input_errors_come_before_grading_errors() {
    let mut s = store_with(&[(1, "alice")], &[(10, "fizzbuzz")]);
    assert_eq!(s.submit(1, 10, "rust", "1", "", None, 1).err(), Some(SubmitError::InvalidInputError));
}

#[test]
fn grading_failure_stores_nothing() {
    let mut s = store_with(&[(1, "alice")], &[(10, "fizzbuzz")]);
    let r = s.submit(1, 10, "rust", "1.80", "code", None, 100);
    assert_eq!(r.err(), Some(SubmitError::GradingUnavailableError));
    assert_eq!(s.solutions.len(), 0);
}

#[test]
fn exhausted_identifiers_give_store_error() {
    let mut s = store_with(&[(1, "alice")], &[(10, "fizzbuzz")]);
    s.next_id = i32::MAX;
    let r = s.submit(1, 10, "rust", "1.80", "code", graded(true, 3), 100);
    assert_eq!(r.err(), Some(SubmitError::StoreError));
    assert_eq!(s.solutions.len(), 0);
}

#[test]
fn submitted_row_holds_its_inputs() {
    let mut s = store_with(&[(1, "alice")], &[(10, "fizzbuzz")]);
    let o = s.submit(1, 10, "rust", "1.80", "fn main(){}", graded(true, 11), 1234).unwrap();
    assert_eq!(o.id, 1);
    assert_eq!(s.next_id, 2);
    let row = &s.solutions[0];
    assert_eq!(row.id, 1);
    assert_eq!(row.language, "rust");
    assert_eq!(row.version, "1.80");
    assert_eq!(row.challenge, 10);
    assert_eq!(row.solution.code, "fn main(){}");
    assert_eq!(row.author, 1);
    assert_eq!(row.score, 11);
    assert!(row.valid);
    assert_eq!(row.last_improved_date, 1234);
}

#[test]
fn duplicate_identifiers_are_refused() {
    let mut s = store_with(&[(1, "alice")], &[(10, "fizzbuzz")]);
    assert!(!s.add_account(1, "other".to_string(), "o.png".to_string()));
    assert!(!s.add_challenge(10, "other".to_string()));
    assert_eq!(s.accounts.len(), 1);
    assert_eq!(s.challenges.len(), 1);
    assert!(s.has_account(1));
    assert!(!s.has_account(2));
    assert!(s.has_challenge(10));
    assert!(!s.has_challenge(11));
}

fn board_fixture() -> RecordStore {
    let mut s = store_with(&[(1, "alice"), (2, "bob"), (3, "carol")], &[(10, "fizzbuzz"), (11, "quine")]);
    s.submit(1, 10, "rust", "1", "a", graded(true, 40), 300).unwrap();
    s.submit(2, 10, "rust", "1", "b", graded(true, 30), 500).unwrap();
    s.submit(3, 10, "rust", "1", "c", graded(true, 30), 200).unwrap();
    s.submit(3, 10, "rust", "1", "d", graded(false, 5), 100).unwrap();
    s.submit(1, 10, "python", "3", "e", graded(true, 1), 100).unwrap();
    s.submit(2, 11, "rust", "1", "f", graded(true, 2), 100).unwrap();
    s.submit(1, 10, "rust", "1", "g", graded(true, 40), 300).unwrap();
    s
}

#[test]
fn leaderboard_orders_by_score_then_improvement() {
    let s = board_fixture();
    let board = LeaderboardEntry::get_leadeboard_for_challenge_and_language(&s, 10, "rust");
    let ids: Vec<i32> = board.iter().map(|e| e.id).collect();
    assert_eq!(ids, vec![3, 2, 1, 7]);
    let scores: Vec<i32> = board.iter().map(|e| e.score).collect();
    assert_eq!(scores, vec![30, 30, 40, 40]);
    assert_eq!(board[0].author_id, 3);
    assert_eq!(board[0].author_name, "carol");
    assert_eq!(board[0].author_avatar, "carol.png");
    assert_eq!(board[1].author_name, "bob");
    assert_eq!(board[2].author_name, "alice");
    assert_eq!(board[3].author_name, "alice");
}

#[test]
fn leaderboard_excludes_invalid_rows() {
    let s = board_fixture();
    let board = LeaderboardEntry::get_leadeboard_for_challenge_and_language(&s, 10, "rust");
    assert!(board.iter().all(|e| e.id != 4));
    for e in &board {
        let row = s.solutions.iter().find(|r| r.id == e.id).unwrap();
        assert!(row.valid);
    }
}

#[test]
fn leaderboard_language_is_exact() {
    let s = board_fixture();
    let board = LeaderboardEntry::get_leadeboard_for_challenge_and_language(&s, 10, "python");
    assert_eq!(board.len(), 1);
    assert_eq!(board[0].id, 5);
    assert!(LeaderboardEntry::get_leadeboard_for_challenge_and_language(&s, 10, "Rust").is_empty());
    assert!(LeaderboardEntry::get_leadeboard_for_challenge_and_language(&s, 12, "rust").is_empty());
}

#[test]
fn leaderboard_of_empty_store_is_empty() {
    let s = RecordStore::new();
    assert!(LeaderboardEntry::get_leadeboard_for_challenge_and_language(&s, 10, "rust").is_empty());
}

#[test]
fn revoked_validity_is_listed_and_leaves_the_board() {
    let mut s = store_with(&[(1, "alice"), (2, "bob")], &[(10, "fizzbuzz")]);
    let o = s.submit(1, 10, "rust", "1", "golfed", graded(true, 30), 100).unwrap();
    s.submit(2, 10, "rust", "1", "other", graded(true, 35), 100).unwrap();
    assert!(!InvalidatedSolution::invalidated_solution_exists(1, &s));
    assert!(InvalidatedSolution::get_invalidated_solutions_for_user(1, &s).is_empty());
    assert!(s.set_validity(o.id, false));
    let list = InvalidatedSolution::get_invalidated_solutions_for_user(1, &s);
    assert_eq!(list.len(), 1);
    assert_eq!(list[0].language, "rust");
    assert_eq!(list[0].challenge_id, 10);
    assert_eq!(list[0].challenge_name, "fizzbuzz");
    assert!(InvalidatedSolution::invalidated_solution_exists(1, &s));
    let board = LeaderboardEntry::get_leadeboard_for_challenge_and_language(&s, 10, "rust");
    assert_eq!(board.len(), 1);
    assert_eq!(board[0].author_id, 2);
}

#[test]
fn invalidated_list_covers_all_pairs_of_the_user_only() {
    let mut s = store_with(&[(1, "alice"), (2, "bob")], &[(10, "fizzbuzz"), (11, "quine")]);
    s.submit(1, 10, "rust", "1", "a", graded(false, 3), 100).unwrap();
    s.submit(2, 10, "rust", "1", "b", graded(false, 3), 100).unwrap();
    s.submit(1, 11, "python", "3", "c", graded(false, 3), 100).unwrap();
    s.submit(1, 11, "rust", "1", "d", graded(true, 3), 100).unwrap();
    let list = InvalidatedSolution::get_invalidated_solutions_for_user(1, &s);
    let pairs: Vec<(String, i32, String)> =
        list.iter().map(|e| (e.language.clone(), e.challenge_id, e.challenge_name.clone())).collect();
    assert_eq!(
        pairs,
        vec![
            ("rust".to_string(), 10, "fizzbuzz".to_string()),
            ("python".to_string(), 11, "quine".to_string()),
        ]
    );
    assert!(InvalidatedSolution::invalidated_solution_exists(2, &s));
    assert!(!InvalidatedSolution::invalidated_solution_exists(3, &s));
    assert!(InvalidatedSolution::get_invalidated_solutions_for_user(3, &s).is_empty());
}

#[test]
fn set_validity_of_unknown_row_changes_nothing() {
    let mut s = store_with(&[(1, "alice")], &[(10, "fizzbuzz")]);
    s.submit(1, 10, "rust", "1", "a", graded(true, 3), 100).unwrap();
    assert!(!s.set_validity(99, false));
    assert!(s.solutions[0].valid);
    assert!(s.set_validity(1, false));
    assert!(!s.solutions[0].valid);
    assert!(s.set_validity(1, true));
    assert!(s.solutions[0].valid);
}

#[test]
fn has_invalid_matches_list() {
    let s = board_fixture();
    for user in 1..4 {
        let list = InvalidatedSolution::get_invalidated_solutions_for_user(user, &s);
        assert_eq!(!list.is_empty(), InvalidatedSolution::invalidated_solution_exists(user, &s));
    }
}

#[test]
fn lookups_find_stored_identifiers() {
    let s = board_fixture();
    assert_eq!(find_challenge(&s.challenges, 11), Some(1));
    assert_eq!(find_challenge(&s.challenges, 12), None);
    assert_eq!(find_account(&s.accounts, 3), Some(2));
    assert_eq!(find_account(&s.accounts, 4), None);
}
