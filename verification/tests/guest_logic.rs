use test_reactor::env::{demo_env, is_valid_name, Env};
use test_reactor::guest::{expand, Guest};

fn owned(items: &[&str]) -> Vec<String> {
    items.iter().map(|s| s.to_string()).collect()
}

#[test]
fn env_interpolation() {
    let mut env = Env::new();
    env.push_env("GOOD_DOG", "gussie");
    let mut guest = Guest::new();
    let count = guest.add_strings(&owned(&["hello", "$GOOD_DOG"]), &env);
    assert_eq!(count, 2);
    assert_eq!(guest.get_strings(), owned(&["hello", "gussie"]));
}

#[test]
fn missing_env_variable() {
    let env = Env::new();
    let mut guest = Guest::new();
    let count = guest.add_strings(&owned(&["$NOPE"]), &env);
    assert_eq!(count, 1);
    assert_eq!(guest.get_strings(), owned(&["undefined"]));
}

#[test]
fn literal_passthrough() {
    let mut env = Env::new();
    env.push_env("tail", "wag");
    let mut guest = Guest::new();
    let count = guest.add_strings(&owned(&["plain", "also$tail"]), &env);
    assert_eq!(count, 2);
    assert_eq!(guest.get_strings(), owned(&["plain", "also$tail"]));
}

#[test]
fn in_memory_stream_sink() {
    let mut env = Env::new();
    env.push_env("GOOD_DOG", "gussie");
    env.push_env("POUTY_DOG", "willa");
    let mut guest = Guest::new();
    guest.add_strings(&owned(&["hello", "$GOOD_DOG"]), &env);
    let mut sink = Vec::new();
    guest.write_strings_to(&mut sink);
    assert_eq!(sink, b"hello\ngussie\n".to_vec());
}

#[test]
fn first_binding_wins() {
    let mut env = Env::new();
    env.push_env("DOG", "gussie");
    env.push_env("DOG", "willa");
    assert_eq!(env.get("DOG"), Some("gussie".to_string()));
    assert_eq!(env.get("CAT"), None);
    assert_eq!(expand("$DOG", &env), "gussie");
    assert_eq!(expand("$", &env), "undefined");
    assert_eq!(expand("", &env), "");
}

#[test]
fn demo_environment_holds_both_dogs() {
    let env = demo_env();
    assert_eq!(env.len(), 2);
    assert_eq!(env.get("GOOD_DOG"), Some("gussie".to_string()));
    assert_eq!(env.get("POUTY_DOG"), Some("willa".to_string()));
    assert_eq!(
        env.bindings(),
        vec![
            ("GOOD_DOG".to_string(), "gussie".to_string()),
            ("POUTY_DOG".to_string(), "willa".to_string()),
        ]
    );
}

#[test]
fn dollar_alone_names_no_variable() {
    let mut env = Env::new();
    env.push_env("", "nothing");
    assert_eq!(env.get(""), Some("nothing".to_string()));
    assert_eq!(env.var(""), None);
    assert_eq!(expand("$", &env), "undefined");
    assert_eq!(expand("$", &Env::new()), "undefined");
    assert_eq!(expand("", &env), "");
}

#[test]
fn names_with_an_equal_sign_or_a_nul_name_no_variable() {
    let mut env = Env::new();
    env.push_env("A=B", "one");
    env.push_env("A\0", "two");
    env.push_env("A", "three");
    assert_eq!(expand("$A=B", &env), "undefined");
    assert_eq!(expand("$A\0", &env), "undefined");
    assert_eq!(expand("$=", &env), "undefined");
    assert_eq!(expand("$A", &env), "three");
    assert_eq!(env.var("A=B"), None);
    assert_eq!(env.var("A"), Some("three".to_string()));
    assert_eq!(env.var("B"), None);
}

#[test]
fn valid_names_are_not_empty_and_hold_no_equal_sign_and_no_nul() {
    assert!(is_valid_name("GOOD_DOG"));
    assert!(is_valid_name("a"));
    assert!(is_valid_name("snow man \u{2603}"));
    assert!(!is_valid_name(""));
    assert!(!is_valid_name("="));
    assert!(!is_valid_name("A=B"));
    assert!(!is_valid_name("AB="));
    assert!(!is_valid_name("\0"));
    assert!(!is_valid_name("A\0B"));
}
