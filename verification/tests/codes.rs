use game_lobby::code::{charset_symbol, generate_code, CHARSET_SIZE, CODE_LENGTH};
use game_lobby::sessions::{code_is_free, generate_lobby_code};
use game_lobby::lobby::Lobby;

const ALPHABET: &str = "ABCDEFGHJKLMNPQRSTUVWXYZ";

#[test]
fn alphabet_has_twenty_four_symbols_without_look_alikes() {
    assert_eq!(ALPHABET.len(), CHARSET_SIZE);
    assert!(!ALPHABET.contains('I'));
    assert!(!ALPHABET.contains('O'));
}

#[test]
fn generated_codes_have_eight_symbols_of_the_alphabet() {
    let mut rng = fastrand::Rng::with_seed(1);
    for _ in 0..2000 {
        let code = generate_code(&mut rng);
        assert_eq!(code.chars().count(), CODE_LENGTH);
        assert_eq!(code.len(), 8);
        assert!(code.chars().all(|c| ALPHABET.contains(c)), "{code}");
    }
}

#[test]
fn generated_codes_follow_the_generator() {
    let mut first = fastrand::Rng::with_seed(42);
    let mut second = fastrand::Rng::with_seed(42);
    let mut third = fastrand::Rng::with_seed(43);
    let a = generate_code(&mut first);
    let b = generate_code(&mut second);
    let c = generate_code(&mut third);
    assert_eq!(a, b);
    assert_ne!(a, c);
    assert_ne!(a, generate_code(&mut first));
}

#[test]
fn generated_codes_reach_every_symbol() {
    let mut rng = fastrand::Rng::with_seed(7);
    let mut seen = std::collections::BTreeSet::new();
    for _ in 0..200 {
        seen.extend(generate_code(&mut rng).chars());
    }
    assert_eq!(seen.len(), 24);
}

#[test]
fn lobby_code_without_draws_is_none() {
    let mut rng = fastrand::Rng::with_seed(3);
    assert_eq!(generate_lobby_code(&vec![], &mut rng, 0), None);
}

#[test]
fn lobby_code_with_no_session_is_the_first_draw() {
    let mut rng = fastrand::Rng::with_seed(3);
    let mut same = fastrand::Rng::with_seed(3);
    let expected = generate_code(&mut same);
    assert_eq!(generate_lobby_code(&vec![], &mut rng, 1), Some(expected));
}

#[test]
fn lobby_code_is_drawn_again_while_it_collides() {
    let mut probe = fastrand::Rng::with_seed(11);
    let first = generate_code(&mut probe);
    let second = generate_code(&mut probe);
    assert_ne!(first, second);
    let lobbies = vec![Lobby::new(first.clone())];
    assert!(!code_is_free(&lobbies, &first));
    assert!(code_is_free(&lobbies, &second));

    let mut rng = fastrand::Rng::with_seed(11);
    assert_eq!(generate_lobby_code(&lobbies, &mut rng, 1), None);
    let mut rng = fastrand::Rng::with_seed(11);
    assert_eq!(generate_lobby_code(&lobbies, &mut rng, 2), Some(second));
}

#[test]
fn symbols_are_looked_up_by_index() {
    for (index, symbol) in ALPHABET.chars().enumerate() {
        assert_eq!(charset_symbol(index), Some(symbol.to_string().as_str()));
    }
    assert_eq!(charset_symbol(0), Some("A"));
    assert_eq!(charset_symbol(8), Some("J"));
    assert_eq!(charset_symbol(13), Some("P"));
    assert_eq!(charset_symbol(23), Some("Z"));
    assert_eq!(charset_symbol(24), None);
    assert_eq!(charset_symbol(usize::MAX), None);
}
