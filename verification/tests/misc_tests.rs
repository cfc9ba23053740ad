use gl::config::{DEFAULT_TOP_N_LOG, SHORT_HASH_LENGTH};
use gl::env::colour;
use gl::hash::HashFormat;
use gl::identity::GitIdentity;
use gl::opts::GitLogOptions;
use gl::quote::Quote;

#[test]
fn default_options() {
    let o = GitLogOptions::default();
    assert!(o.relative);
    assert!(o.colour);
    assert!(!o.reverse);
    assert!(!o.all);
    assert!(o.authors.is_empty());
    assert!(o.needles.is_empty());
    assert_eq!(DEFAULT_TOP_N_LOG, 10);
}

#[test]
fn short_hash() {
    assert_eq!(SHORT_HASH_LENGTH, 7);
    let long = "0123456789abcdef".to_string();
    assert_eq!(long.short(), "0123456");
    let exact = "0123456".to_string();
    assert_eq!(exact.short(), "0123456");
    let tiny = "012".to_string();
    assert_eq!(tiny.short(), "012");
    let empty = String::new();
    assert_eq!(empty.short(), "");
}

#[test]
fn quoting_wraps_in_typographic_quotes() {
    let s = "hello".to_string();
    assert_eq!(s.quote(), "\u{201C}hello\u{201D}");
    let empty = String::new();
    assert_eq!(empty.quote(), "\u{201C}\u{201D}");
}

#[test]
fn identity_matches_email_or_any_name() {
    let me = vec!["jane@example.com".to_string(), "Jane Doe".to_string()];
    let by_email = GitIdentity {
        email: "jane@example.com".to_string(),
        names: vec!["Someone Else".to_string()],
    };
    assert!(by_email.is_me(&me));
    let by_name = GitIdentity {
        email: "other@example.com".to_string(),
        names: vec!["X".to_string(), "Jane Doe".to_string()],
    };
    assert!(by_name.is_me(&me));
    let neither = GitIdentity {
        email: "other@example.com".to_string(),
        names: vec!["Jane".to_string()],
    };
    assert!(!neither.is_me(&me));
    // Entries are exact, never substrings.
    let partial = GitIdentity { email: "jane@example.com.evil".to_string(), names: vec![] };
    assert!(!partial.is_me(&me));
}

#[test]
fn colour_honours_either_spelling() {
    assert!(colour(&None, &None));
    assert!(colour(&Some(String::new()), &Some(String::new())));
    assert!(!colour(&Some("1".to_string()), &None));
    assert!(!colour(&None, &Some("yes".to_string())));
}
