use pw::charset::get_password_charset;
use pw::generate::generate_password;

const LETTERS: &str = "abcdefghijklmnopqrstuvwxyzABCDEFGHIJKLMNOPQRSTUVWXYZ";
const DIGITS: &str = "1234567890";
const SYMBOLS: &str = "!@#$%^&*()";

#[test]
fn charset_of_single_classes() {
    let (pool, label) = get_password_charset(true, false, false);
    assert_eq!(pool, LETTERS);
    assert_eq!(label, "alpha ");
    let (pool, label) = get_password_charset(false, true, false);
    assert_eq!(pool, DIGITS);
    assert_eq!(label, "numeric ");
    let (pool, label) = get_password_charset(false, false, true);
    assert_eq!(pool, SYMBOLS);
    assert_eq!(label, "symbol ");
}

#[test]
fn charset_concatenates_selected_classes_in_order() {
    let (pool, label) = get_password_charset(true, true, false);
    assert_eq!(pool, format!("{}{}", LETTERS, DIGITS));
    assert_eq!(label, "alphanumeric ");
    let (pool, label) = get_password_charset(true, true, true);
    assert_eq!(pool, format!("{}{}{}", LETTERS, DIGITS, SYMBOLS));
    assert_eq!(label, "alphanumericsymbol ");
}

#[test]
fn no_selection_means_full_charset_and_empty_label() {
    let (pool, label) = get_password_charset(false, false, false);
    assert_eq!(pool, format!("{}{}{}", LETTERS, DIGITS, SYMBOLS));
    assert_eq!(pool.len(), 72);
    assert_eq!(label, "");
}

#[test]
fn generate_letters_only_has_requested_length_and_pool() {
    let pw = generate_password(10, true, false, false);
    assert_eq!(pw.chars().count(), 10);
    assert!(pw.chars().all(|c| LETTERS.contains(c)));
}

#[test]
fn generate_length_zero_gives_default_of_32() {
    let pw = generate_password(0, false, false, false);
    assert_eq!(pw.chars().count(), 32);
}

#[test]
fn generate_symbols_only_stays_in_symbol_pool() {
    let pw = generate_password(64, false, false, true);
    assert_eq!(pw.chars().count(), 64);
    assert!(pw.chars().all(|c| SYMBOLS.contains(c)));
}

#[test]
fn generate_draws_vary_across_positions() {
    // 64 independent draws from a 72-character pool repeat the same
    // character every time with vanishing probability; a draw that ignored
    // the random index would not vary at all.
    let pw = generate_password(64, false, false, false);
    let first = pw.chars().next().unwrap();
    assert!(pw.chars().any(|c| c != first));
}
