use fedbot::error::{ContainBytes, FedBotError};
use fedbot::profanity::{profane, Censorable};

#[test]
fn clean_text_passes() {
    assert_eq!("hello there, friend".check_profanity(), None);
    assert!(!profane("have a nice day"));
}

#[test]
fn profane_text_is_flagged() {
    let s = "oh shit".to_string();
    assert_eq!(s.check_profanity(), Some("oh shit"));
    assert!(profane("OH SHIT"));
}

#[test]
fn evasive_text_is_not_flagged() {
    // The analysis marks this word as evasive as well as profane.
    assert!(!profane("what the fuck"));
}

#[test]
fn regional_indicators_are_read_as_letters() {
    assert!(profane("oh \u{1F1F8}\u{1F1ED}\u{1F1EE}\u{1F1F9}"));
}

#[test]
fn dashes_and_asterisks_are_normalised() {
    assert!(profane("oh-shit"));
    assert!(profane("oh **shit**"));
}

#[test]
fn containers_report_the_first_flagged_text() {
    let v = vec!["fine".to_string(), "oh shit".to_string(), "OH SHIT".to_string()];
    assert_eq!(v.check_profanity(), Some("oh shit"));
    let none: Option<String> = None;
    assert_eq!(none.check_profanity(), None);
    assert_eq!(Some("oh shit".to_string()).check_profanity(), Some("oh shit"));
    assert_eq!(Vec::<String>::new().check_profanity(), None);
}

#[test]
fn error_keeps_its_message() {
    assert_eq!(FedBotError::new("Failed to find query").message(), "Failed to find query");
}

#[test]
fn repack_reinterprets_bits() {
    assert_eq!(5u64.repack(), 5i64);
    assert_eq!(u64::MAX.repack(), -1i64);
    assert_eq!((-1i64).repack(), u64::MAX);
    assert_eq!(i64::MIN.repack(), 1u64 << 63);
    for x in [0u64, 1, 1 << 63, u64::MAX - 7, 123456789012345] {
        let back: u64 = ContainBytes::<i64>::repack(&x).repack();
        assert_eq!(back, x);
    }
}
