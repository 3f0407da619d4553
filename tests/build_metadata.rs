use launcher::{replace_separators, Buildpack};

#[test]
fn it_replaces_separator_in_path_id() {
    let buildpack = Buildpack::new("heroku/ruby", "1.0");

    assert_eq!("heroku_ruby", buildpack.path_id());
}

#[test]
fn path_id_replaces_every_separator_and_nothing_else() {
    let buildpack = Buildpack::new("a/b/c_d/é", "1.0");
    assert_eq!(buildpack.path_id(), "a_b_c_d_é");
    assert_eq!(buildpack.version, "1.0");
    assert_eq!(replace_separators("//"), "__");
    assert_eq!(replace_separators("plain"), "plain");
    assert_eq!(replace_separators(""), "");
}
