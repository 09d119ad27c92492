use seshd::people::{
    first_id_step, ids_exhausted, next_id_step, person_id_candidate, slugify, IdStep, InsertOutcome,
    MAX_ID_ATTEMPTS, MAX_SLUG_LEN,
};

#[test]
fn slugify_lowercases_and_dashes_spaces() {
    assert_eq!(slugify("Big Marcus"), "big-marcus");
}

#[test]
fn slugify_strips_punctuation_and_collapses_runs() {
    assert_eq!(slugify("Sam!!  O'Brien"), "sam-o-brien");
}

#[test]
fn slugify_trims_leading_and_trailing_separators() {
    assert_eq!(slugify("  -Tate-  "), "tate");
}

#[test]
fn slugify_falls_back_when_nothing_survives() {
    assert_eq!(slugify("🎉🎉"), "guest");
    assert_eq!(slugify(""), "guest");
}

#[test]
fn slugify_caps_the_length() {
    let slug = slugify(&"a".repeat(200));
    assert_eq!(slug.len(), MAX_SLUG_LEN);
}

#[test]
fn a_separator_with_no_room_after_it_ends_the_slug() {
    let name = format!("{} {}", "a".repeat(MAX_SLUG_LEN - 1), "b".repeat(10));
    let slug = slugify(&name);
    assert_eq!(slug, "a".repeat(MAX_SLUG_LEN - 1));
}

#[test]
fn a_separator_with_room_for_one_letter_keeps_it() {
    let name = format!("{} {}", "a".repeat(MAX_SLUG_LEN - 2), "b".repeat(10));
    let slug = slugify(&name);
    assert_eq!(slug, format!("{}-b", "a".repeat(MAX_SLUG_LEN - 2)));
    assert_eq!(slug.len(), MAX_SLUG_LEN);
}

#[test]
fn digits_survive_a_slug() {
    assert_eq!(slugify("Player 2"), "player-2");
}

#[test]
fn the_first_candidate_is_the_bare_slug() {
    assert_eq!(person_id_candidate("sam", 1), "sam");
}

#[test]
fn later_candidates_are_numbered_from_two() {
    assert_eq!(person_id_candidate("sam", 2), "sam-2");
    assert_eq!(person_id_candidate("sam", 10), "sam-10");
}

#[test]
fn exhausting_the_ids_names_the_person_and_the_slug() {
    let message = ids_exhausted("Sam", "sam");
    assert_eq!(
        message,
        format!(
            "could not allocate an id for \"Sam\": sam and {MAX_ID_ATTEMPTS} suffixed variants are all taken"
        )
    );
}

#[test]
fn allocation_starts_with_the_bare_slug() {
    assert_eq!(first_id_step("sam"), IdStep::Try(1, "sam".to_string()));
}

#[test]
fn a_stored_attempt_is_done_under_its_id() {
    assert_eq!(next_id_step("Sam", "sam", 1, InsertOutcome::Stored), IdStep::Done("sam".to_string()));
    assert_eq!(next_id_step("Sam", "sam", 3, InsertOutcome::Stored), IdStep::Done("sam-3".to_string()));
}

#[test]
fn a_taken_id_moves_to_the_next_suffix() {
    assert_eq!(next_id_step("Sam", "sam", 1, InsertOutcome::IdTaken), IdStep::Try(2, "sam-2".to_string()));
    assert_eq!(
        next_id_step("Sam", "sam", MAX_ID_ATTEMPTS - 1, InsertOutcome::IdTaken),
        IdStep::Try(MAX_ID_ATTEMPTS, format!("sam-{}", MAX_ID_ATTEMPTS))
    );
}

#[test]
fn the_last_taken_id_gives_up_and_says_why() {
    assert_eq!(
        next_id_step("Sam", "sam", MAX_ID_ATTEMPTS, InsertOutcome::IdTaken),
        IdStep::GiveUp(format!(
            "could not allocate an id for \"Sam\": sam and {} suffixed variants are all taken",
            MAX_ID_ATTEMPTS
        ))
    );
}
