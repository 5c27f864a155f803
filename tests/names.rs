use tempfs::config::{
    num_retry, rand_fn_len, set_num_retry, set_rand_fn_len, set_valid_chars, valid_chars,
};
use tempfs::names::{generate_unique, random_name};
use tempfs::{NameConfig, TempError};

#[test]
fn defaults_are_fixed_on_first_read() {
    let mut cfg = NameConfig::new();
    assert_eq!(rand_fn_len(&mut cfg), 16);
    assert_eq!(num_retry(&mut cfg), 1usize << 32);
    assert_eq!(valid_chars(&mut cfg).len(), 63);
    assert!(set_rand_fn_len(&mut cfg, 4).is_err());
    assert!(set_num_retry(&mut cfg, 4).is_err());
    assert!(set_valid_chars(&mut cfg, b"ab").is_err());
}

#[test]
fn settings_can_be_fixed_once() {
    let mut cfg = NameConfig::new();
    assert!(set_rand_fn_len(&mut cfg, 5).is_ok());
    assert_eq!(set_rand_fn_len(&mut cfg, 6), Err("RAND_FN_LEN has already been set"));
    assert_eq!(rand_fn_len(&mut cfg), 5);
    assert!(set_num_retry(&mut cfg, 3).is_ok());
    assert_eq!(num_retry(&mut cfg), 3);
    assert!(set_valid_chars(&mut cfg, b"xy").is_ok());
    assert_eq!(valid_chars(&mut cfg), b"xy".to_vec());
}

#[test]
fn random_name_uses_alphabet_and_length() {
    let n = random_name(b"ab", 12);
    assert_eq!(n.chars().count(), 12);
    assert!(n.chars().all(|c| c == 'a' || c == 'b'));
    assert_eq!(random_name(b"", 0), "");
}

#[test]
fn many_unique_names_are_pairwise_distinct() {
    let mut cfg = NameConfig::new();
    let mut taken: Vec<String> = Vec::new();
    for _ in 0..200 {
        let name = generate_unique(&mut cfg, &taken).unwrap();
        assert_eq!(name.len(), 16);
        assert!(!taken.contains(&name));
        taken.push(name);
    }
    let mut sorted = taken.clone();
    sorted.sort();
    sorted.dedup();
    assert_eq!(sorted.len(), 200);
}

#[test]
fn exhausted_namespace_surfaces_error() {
    let mut cfg = NameConfig::new();
    set_valid_chars(&mut cfg, b"a").unwrap();
    set_rand_fn_len(&mut cfg, 1).unwrap();
    set_num_retry(&mut cfg, 5).unwrap();
    let first = generate_unique(&mut cfg, &[]).unwrap();
    assert_eq!(first, "a");
    match generate_unique(&mut cfg, &[first]) {
        Err(TempError::NameGenerationExhausted) => {}
        _ => panic!("expected NameGenerationExhausted"),
    }
}

#[test]
fn zero_budget_fails_at_once() {
    let mut cfg = NameConfig::new();
    set_num_retry(&mut cfg, 0).unwrap();
    assert!(matches!(generate_unique(&mut cfg, &[]), Err(TempError::NameGenerationExhausted)));
}

#[test]
fn empty_alphabet_cannot_draw() {
    let mut cfg = NameConfig::new();
    set_valid_chars(&mut cfg, b"").unwrap();
    assert!(matches!(generate_unique(&mut cfg, &[]), Err(TempError::NameGenerationExhausted)));
}
