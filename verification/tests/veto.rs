use seshd::strset::StrSet;
use seshd::veto::{counted, needed, should_skip, MIN_VOTES};

fn people(names: &[&str]) -> Vec<String> {
    names.iter().map(|n| n.to_string()).collect()
}

fn votes(names: &[&str]) -> StrSet {
    let mut set = StrSet::new();
    for n in names {
        set.insert(n.to_string());
    }
    set
}

#[test]
fn one_person_alone_cannot_veto() {
    assert!(!should_skip(&votes(&["sam"]), &people(&["sam"])));
}

#[test]
fn both_of_two_can() {
    assert!(should_skip(&votes(&["sam", "marcus"]), &people(&["sam", "marcus"])));
}

#[test]
fn two_of_three_is_a_majority() {
    let present = people(&["sam", "marcus", "ali"]);
    assert!(should_skip(&votes(&["sam", "marcus"]), &present));
}

#[test]
fn one_of_three_is_not() {
    let present = people(&["sam", "marcus", "ali"]);
    assert!(!should_skip(&votes(&["sam"]), &present));
}

#[test]
fn three_of_five_is_a_majority_and_two_is_not() {
    let present = people(&["a", "b", "c", "d", "e"]);
    assert!(should_skip(&votes(&["a", "b", "c"]), &present));
    assert!(!should_skip(&votes(&["a", "b"]), &present));
}

#[test]
fn two_of_four_is_not_a_strict_majority() {
    let present = people(&["a", "b", "c", "d"]);
    assert!(!should_skip(&votes(&["a", "b"]), &present));
    assert!(should_skip(&votes(&["a", "b", "c"]), &present));
}

#[test]
fn a_vote_from_someone_who_left_does_not_count() {
    let present = people(&["sam", "marcus", "ali"]);
    assert!(!should_skip(&votes(&["sam", "ghost"]), &present));
    assert_eq!(counted(&votes(&["sam", "ghost"]), &present), 1);
}

#[test]
fn an_empty_room_cannot_skip_anything() {
    assert!(!should_skip(&votes(&[]), &people(&[])));
    assert!(!should_skip(&votes(&["ghost"]), &people(&[])));
}

#[test]
fn needed_never_drops_below_the_floor() {
    assert_eq!(needed(&people(&[])), MIN_VOTES);
    assert_eq!(needed(&people(&["sam"])), MIN_VOTES);
    assert_eq!(needed(&people(&["sam", "marcus"])), 2);
    assert_eq!(needed(&people(&["a", "b", "c"])), 2);
    assert_eq!(needed(&people(&["a", "b", "c", "d"])), 3);
    assert_eq!(needed(&people(&["a", "b", "c", "d", "e"])), 3);
}

#[test]
fn a_voter_counts_once_however_often_they_vote() {
    let present = people(&["a", "b", "c"]);
    let mut set = votes(&["a"]);
    assert!(!set.insert("a".to_string()));
    assert_eq!(counted(&set, &present), 1);
    assert!(!should_skip(&set, &present));
}
