use klipper_bridge::auth::{
    calculate_response, generate_auth_token, token_char, token_from_indices, ALPHABET_SIZE,
    TOKEN_LENGTH,
};

#[test]
fn generated_tokens_are_twelve_letters_or_digits() {
    for _ in 0..200 {
        let token = generate_auth_token();
        assert_eq!(token.chars().count(), 12);
        assert_eq!(token.len(), TOKEN_LENGTH);
        assert!(token.chars().all(|c| c.is_ascii_alphanumeric()), "token {:?}", token);
    }
}

#[test]
fn generated_tokens_differ() {
    let a = generate_auth_token();
    let b = generate_auth_token();
    let c = generate_auth_token();
    assert!(a != b || b != c);
}

#[test]
fn the_alphabet_is_capitals_then_small_letters_then_digits() {
    let all: String = (0..ALPHABET_SIZE).map(token_char).collect();
    assert_eq!(all, "ABCDEFGHIJKLMNOPQRSTUVWXYZabcdefghijklmnopqrstuvwxyz0123456789");
}

#[test]
fn token_from_indices_picks_from_the_alphabet() {
    assert_eq!(token_from_indices(&vec![0, 25, 26, 51, 52, 61]), "AZaz09");
    assert_eq!(token_from_indices(&vec![]), "");
    assert_eq!(token_from_indices(&vec![18, 30, 28, 43, 30, 45]), "Secret");
}

#[test]
fn the_response_is_the_secret_itself() {
    assert_eq!(calculate_response("SECRET123"), "SECRET123");
    assert_eq!(calculate_response(""), "");
    assert_eq!(calculate_response(" spaced "), " spaced ");
}
