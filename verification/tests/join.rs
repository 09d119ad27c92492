use seshd::api::join::{accept_join, JoinRefusal};
use seshd::join::{hex, new_token, JoinCodes, CODE_BYTES, GRACE_MS, ROTATE_MS};

const T0: i64 = 1_786_937_604_000;

#[test]
fn a_code_is_issued_on_first_use() {
    let mut codes = JoinCodes::new();
    assert_eq!(codes.current(T0).unwrap().len(), CODE_BYTES * 2);
}

#[test]
fn the_same_code_is_shown_until_it_goes_stale() {
    let mut codes = JoinCodes::new();
    let first = codes.current(T0).unwrap();
    assert_eq!(codes.current(T0 + ROTATE_MS - 1).unwrap(), first);
}

#[test]
fn a_stale_code_is_replaced() {
    let mut codes = JoinCodes::new();
    let first = codes.current(T0).unwrap();
    let second = codes.current(T0 + ROTATE_MS).unwrap();
    assert_ne!(first, second);
}

#[test]
fn two_issuers_do_not_produce_the_same_code() {
    assert_ne!(
        JoinCodes::new().current(T0).unwrap(),
        JoinCodes::new().current(T0).unwrap()
    );
}

#[test]
fn a_current_code_can_be_redeemed() {
    let mut codes = JoinCodes::new();
    let code = codes.current(T0).unwrap();
    assert!(codes.redeem(&code, T0));
}

#[test]
fn a_code_can_only_be_redeemed_once() {
    let mut codes = JoinCodes::new();
    let code = codes.current(T0).unwrap();

    assert!(codes.redeem(&code, T0));
    assert!(!codes.redeem(&code, T0), "a burned code must not work again");
}

#[test]
fn an_unknown_code_is_refused() {
    let mut codes = JoinCodes::new();
    codes.current(T0).unwrap();
    assert!(!codes.redeem("not-a-real-code", T0));
}

#[test]
fn redeeming_before_any_code_is_issued_is_refused() {
    assert!(!JoinCodes::new().redeem("anything", T0));
}

#[test]
fn the_just_retired_code_still_works_inside_the_grace_window() {
    let mut codes = JoinCodes::new();
    let first = codes.current(T0).unwrap();
    let second = codes.current(T0 + ROTATE_MS).unwrap();
    assert_ne!(first, second);

    assert!(codes.redeem(&first, T0 + ROTATE_MS + GRACE_MS - 1));
}

#[test]
fn the_retired_code_stops_working_after_the_grace_window() {
    let mut codes = JoinCodes::new();
    let first = codes.current(T0).unwrap();
    codes.current(T0 + ROTATE_MS).unwrap();

    assert!(!codes.redeem(&first, T0 + ROTATE_MS + GRACE_MS));
}

#[test]
fn an_ancient_code_is_refused_even_if_it_was_never_rotated_out() {
    let mut codes = JoinCodes::new();
    let code = codes.current(T0).unwrap();

    assert!(!codes.redeem(&code, T0 + ROTATE_MS + GRACE_MS));
}

#[test]
fn redeeming_the_retired_code_leaves_the_current_one_usable() {
    let mut codes = JoinCodes::new();
    let first = codes.current(T0).unwrap();
    let second = codes.current(T0 + ROTATE_MS).unwrap();

    assert!(codes.redeem(&first, T0 + ROTATE_MS));
    assert!(
        codes.redeem(&second, T0 + ROTATE_MS),
        "burning one code must not burn the other"
    );
}

#[test]
fn bytes_are_written_as_two_lower_case_hex_digits_each() {
    assert_eq!(hex(&[0x00, 0x0f, 0xab, 0xff]), "000fabff");
    assert_eq!(hex(&[]), "");
}

#[test]
fn a_token_is_sixty_four_hex_digits() {
    let token = new_token().unwrap();
    assert_eq!(token.len(), 64);
    assert!(token.chars().all(|c| c.is_ascii_hexdigit() && !c.is_ascii_uppercase()));
    assert_ne!(token, new_token().unwrap());
}

#[test]
fn a_rotation_keeps_the_retired_code() {
    let mut codes = JoinCodes::new();
    codes.rotate("first".to_string(), T0);
    assert!(!codes.needs_rotation(T0 + ROTATE_MS - 1));
    assert!(codes.needs_rotation(T0 + ROTATE_MS));
    codes.rotate("second".to_string(), T0 + ROTATE_MS);
    assert_eq!(codes.shown().as_deref(), Some("second"));
    assert!(codes.redeem("first", T0 + ROTATE_MS));
    assert!(!codes.redeem("first", T0 + ROTATE_MS));
}

#[test]
fn a_refused_name_spends_no_code() {
    let mut codes = JoinCodes::new();
    let code = codes.current(T0).unwrap();
    assert_eq!(accept_join(&mut codes, "   ", &code, T0), Err(JoinRefusal::BadName));
    assert_eq!(accept_join(&mut codes, "  Sam ", &code, T0), Ok("Sam".to_string()));
    assert_eq!(accept_join(&mut codes, "Sam", &code, T0), Err(JoinRefusal::BadCode));
}

#[test]
fn an_unknown_code_is_refused_with_a_good_name() {
    let mut codes = JoinCodes::new();
    let code = codes.current(T0).unwrap();
    assert_eq!(accept_join(&mut codes, "Sam", "nope", T0), Err(JoinRefusal::BadCode));
    assert!(codes.redeem(&code, T0));
}
