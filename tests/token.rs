use fur::token::{Token, TokenError, TOKEN_LENGTH};
use std::collections::HashSet;

#[test]
fn token() {
    const THREAD_COUNT: usize = 512;
    const RESULT_COUNT: usize = 10;
    let mut seen = HashSet::new();
    let mut tokens = Vec::new();
    for _ in 0..THREAD_COUNT * RESULT_COUNT {
        let t = Token::generate().unwrap();
        assert!(seen.insert(t.to_string()));
        tokens.push(t);
    }
    for (i, a) in tokens.iter().enumerate().take(200) {
        for b in tokens.iter().skip(i + 1) {
            assert!(a != b);
        }
    }
}

#[test]
fn token_shape() {
    for _ in 0..200 {
        let t = Token::generate().unwrap();
        let s = t.to_string();
        assert_eq!(s.chars().count(), TOKEN_LENGTH);
        assert!(s.chars().all(|c| c.is_ascii_lowercase() || c.is_ascii_digit()));
        assert_eq!(t.chars().len(), TOKEN_LENGTH);
    }
}

#[test]
fn unsafe_fallback_allowed_still_gives_tokens() {
    let t = Token::generate_with(true, 7).unwrap();
    assert_eq!(t.to_string().len(), TOKEN_LENGTH);
}

#[test]
fn from_draws_skips_upper_case() {
    let mut drawn: Vec<char> = "ABCabc".chars().collect();
    drawn.extend("0123456789abcdefghijklmnopqrstuvwxyzXYZ".chars());
    let t = Token::from_draws(&drawn).unwrap();
    assert_eq!(t.to_string(), "abc0123456789abcdefghijklmnopqrs");
}

#[test]
fn from_draws_too_few() {
    let drawn: Vec<char> = "ABCDEFGHIJKLMNOPQRSTUVWXYZabcdefghijklmnopqrstuvwxy".chars().collect();
    assert!(Token::from_draws(&drawn).is_none());
}

#[test]
fn token_equality_is_by_characters() {
    let drawn: Vec<char> = "abcdefghijklmnopqrstuvwxyz012345".chars().collect();
    let a = Token::from_draws(&drawn).unwrap();
    let b = Token::from_draws(&drawn).unwrap();
    assert!(a == b);
    let mut other = drawn.clone();
    other[31] = '9';
    assert!(a != Token::from_draws(&other).unwrap());
}

fn failed_source() -> Result<rand::rngs::StdRng, rand::Error> {
    Err(rand::Error::new(std::io::Error::new(std::io::ErrorKind::Other, "no entropy")))
}

#[test]
fn no_secure_source_without_opt_in_is_refused() {
    assert_eq!(Token::generate_from(failed_source(), false, 1).err(), Some(TokenError::SourceUnavailable));
}

#[test]
fn no_secure_source_with_opt_in_uses_seeded_fallback() {
    let a = Token::generate_from(failed_source(), true, 1).unwrap();
    let b = Token::generate_from(failed_source(), true, 1).unwrap();
    let c = Token::generate_from(failed_source(), true, 2).unwrap();
    assert!(a.to_string().chars().all(|c| c.is_ascii_lowercase() || c.is_ascii_digit()));
    assert_eq!(a.to_string().len(), TOKEN_LENGTH);
    assert!(a == b);
    assert!(a != c);
}

#[test]
fn secure_source_given_gives_a_token() {
    let rng = <rand::rngs::StdRng as rand::SeedableRng>::seed_from_u64(99);
    let t = Token::generate_from(Ok(rng), false, 0).unwrap();
    assert_eq!(t.chars().len(), TOKEN_LENGTH);
}

#[test]
fn from_draws_refuses_foreign_characters() {
    let drawn: Vec<char> = std::iter::repeat('\u{c9}').take(40).collect();
    assert!(Token::from_draws(&drawn).is_none());
    let mut drawn: Vec<char> = "abcdefghijklmnopqrstuvwxyz01234".chars().collect();
    drawn.push('!');
    drawn.extend("zzzz".chars());
    assert!(Token::from_draws(&drawn).is_none());
}

#[test]
fn token_clone_is_equal() {
    let t = Token::generate().unwrap();
    let u = t.clone();
    assert!(t == u);
    assert_eq!(t.to_string(), u.to_string());
}
