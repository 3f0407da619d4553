use launcher::{Env, LaunchError, Position};

#[test]
fn it_modifies_var_path_prefix_empty() {
    let mut env = Env::new();
    let value = "/tmp/foo";
    let key = "TEST";

    assert!(env.modify_var(key, Position::Prefix, value).is_ok());
    assert_eq!(env.var_os(key).unwrap(), value);
}

#[test]
fn it_modifies_var_path_suffix_empty() {
    let mut env = Env::new();
    let value = "/tmp/foo";
    let key = "TEST";

    assert!(env.modify_var(key, Position::Suffix, value).is_ok());
    assert_eq!(env.var_os(key).unwrap(), value);
}

#[test]
fn it_modifies_var_path_prefix() {
    let mut env = Env::new();
    let value = "/tmp/foo";
    let key = "TEST";
    env.set_var(key, "/tmp/bar");

    assert!(env.modify_var(key, Position::Prefix, value).is_ok());
    assert_eq!(env.var_os(key).unwrap(), "/tmp/foo:/tmp/bar");
}

#[test]
fn it_modifies_var_path_suffix() {
    let mut env = Env::new();
    let value = "/tmp/foo";
    let key = "TEST";
    env.set_var(key, "/tmp/bar");

    assert!(env.modify_var(key, Position::Suffix, value).is_ok());
    assert_eq!(env.var_os(key).unwrap(), "/tmp/bar:/tmp/foo");
}

#[test]
fn it_returns_key_value_list() {
    let mut env = Env::new();
    env.set_var("FOO", "/tmp/foo");
    env.set_var("BAR", "/tmp/bar");

    let envs = env.list();
    assert!(envs.is_ok());
    if let Ok(envs) = envs {
        assert_eq!(envs.len(), 2);
        assert!(envs.contains(&"BAR=/tmp/bar".to_string()));
        assert!(envs.contains(&"FOO=/tmp/foo".to_string()));
    }
}

#[test]
fn list_keeps_the_order_variables_were_first_set() {
    let mut env = Env::new();
    env.set_var("FOO", "1");
    env.set_var("BAR", "2");
    env.set_var("FOO", "3");
    assert_eq!(env.len(), 2);
    assert_eq!(env.list().unwrap(), vec!["FOO=3".to_string(), "BAR=2".to_string()]);
}

#[test]
fn list_refuses_a_nul_character() {
    let mut env = Env::new();
    env.set_var("FOO", "a\0b");
    assert_eq!(env.list(), Err(LaunchError::Encoding));
}

#[test]
fn modify_refuses_a_separator_in_the_new_entry() {
    let mut env = Env::new();
    env.set_var("PATH", "/bin");
    assert_eq!(env.modify_var("PATH", Position::Prefix, "/a:/b"), Err(LaunchError::Encoding));
    assert_eq!(env.var_os("PATH").unwrap(), "/bin");
}

#[test]
fn modify_sets_an_unset_variable_even_with_a_separator() {
    let mut env = Env::new();
    assert!(env.modify_var("PATH", Position::Suffix, "/a:/b").is_ok());
    assert_eq!(env.var_os("PATH").unwrap(), "/a:/b");
}

#[test]
fn modify_on_an_empty_value_keeps_the_empty_entry() {
    let mut env = Env::new();
    env.set_var("PATH", "");
    assert!(env.modify_var("PATH", Position::Prefix, "/bin").is_ok());
    assert_eq!(env.var_os("PATH").unwrap(), "/bin:");
}

#[test]
fn var_os_of_an_unset_variable_is_none() {
    let env = Env::new();
    assert_eq!(env.var_os("MISSING"), None);
}
