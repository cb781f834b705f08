use muse::config::{data_dir, weight_csv_file, Config};
use muse::shell::{EnvironmentLookupError, HomeExpander, PathExpander, ShellExpander};
use std::borrow::Cow;

struct BorrowingExpander;

impl PathExpander for BorrowingExpander {
    fn expand<'a>(&self, _path: &'a str) -> Result<Cow<'a, str>, EnvironmentLookupError> {
        Ok(Cow::Borrowed("new/path"))
    }
}

struct OwningExpander;

impl PathExpander for OwningExpander {
    fn expand<'a>(&self, _path: &'a str) -> Result<Cow<'a, str>, EnvironmentLookupError> {
        Ok(Cow::Owned("new/path".to_string()))
    }
}

struct FailingExpander;

impl PathExpander for FailingExpander {
    fn expand<'a>(&self, _path: &'a str) -> Result<Cow<'a, str>, EnvironmentLookupError> {
        Err(EnvironmentLookupError { variable: "NOWHERE".to_string() })
    }
}

fn config_with_data_dir(data_dir: &str) -> Config {
    Config { data_dir: data_dir.to_string(), ..Config::default() }
}

#[test]
fn tildes_at_start_of_path_are_expanded() {
    let expander = ShellExpander::new("TILDE");
    let path = "~/some/path";

    let expanded_path = expander.tilde(path, Some("home")).unwrap();

    let expected_path: Cow<str> = Cow::Owned("home/some/path".to_string());
    assert_eq!(expanded_path, expected_path);
    assert!(matches!(expanded_path, Cow::Owned(_)));
}

#[test]
fn tildes_not_at_start_of_path_are_ignored() {
    let expander = ShellExpander::new("");
    let path = "some/~/path";

    let expanded_path = expander.tilde(path, None).unwrap();

    assert_eq!(expanded_path, Cow::Borrowed("some/~/path"));
    assert!(matches!(expanded_path, Cow::Borrowed(same) if std::ptr::eq(same, path)));
}

#[test]
fn config_paths_are_left_unaltered_if_borrowed_cow_is_returned_when_expanding() {
    let config = config_with_data_dir("some/dir").expand_paths(&BorrowingExpander {}).unwrap();

    assert_eq!(config.data_dir, "some/dir");
    assert_eq!(config.weight_csv_file, "weight.csv");
}

#[test]
fn config_paths_are_updated_if_owned_cow_is_returned_when_expanding() {
    let config = config_with_data_dir("some/dir").expand_paths(&OwningExpander {}).unwrap();

    assert_eq!(config.data_dir, "new/path");
    assert_eq!(config.weight_csv_file, "new/path");
}

#[test]
fn config_expansion_hands_on_the_failure() {
    let failure = config_with_data_dir("some/dir").expand_paths(&FailingExpander {}).unwrap_err();

    assert_eq!(failure.variable, "NOWHERE");
}

#[test]
fn tilde_is_expanded_only_as_a_whole_first_component() {
    let expander = ShellExpander::new("HOME");

    assert_eq!(expander.tilde("~", Some("/home/me")).unwrap(), "/home/me");
    assert_eq!(expander.tilde("~/", Some("/home/me")).unwrap(), "/home/me/");
    assert_eq!(expander.tilde("~/a/~/b", Some("/home/me")).unwrap(), "/home/me/a/~/b");
    for path in ["", "~me/x", "/~/x", "./~", "a~/x", " ~/x", "~\\x"] {
        assert!(matches!(expander.tilde(path, Some("/home/me")).unwrap(), Cow::Borrowed(same) if same == path));
        assert!(matches!(expander.tilde(path, None).unwrap(), Cow::Borrowed(same) if same == path));
    }
}

#[test]
fn tilde_fails_where_the_variable_is_not_set() {
    let expander = ShellExpander::new("TILDE");

    let failure = expander.tilde("~/some/path", None).unwrap_err();

    assert_eq!(failure.variable, "TILDE");
    assert_eq!(expander.home_dir_var(), "TILDE");
}

#[test]
fn tilde_keeps_what_follows_it() {
    let expander = ShellExpander::new("HOME");

    assert_eq!(expander.tilde("~/straße/läuft", Some("/hôme")).unwrap(), "/hôme/straße/läuft");
    assert_eq!(expander.tilde("~//x", Some("/home/me")).unwrap(), "/home/me//x");
}

#[test]
fn default_config_points_into_the_home_directory() {
    let config = Config::default();

    assert_eq!(data_dir(), "~/.local/share/muse");
    assert_eq!(weight_csv_file(), "weight.csv");
    assert_eq!(config.data_dir, "~/.local/share/muse");
    assert_eq!(config.weight_csv_file, "weight.csv");
}

#[test]
fn config_is_expanded_with_the_home_that_was_found() {
    let found = HomeExpander { expander: ShellExpander::new("HOME"), home: Some("/home/me".to_string()) };
    let config = Config::default().expand_paths(&found).unwrap();
    assert_eq!(config.data_dir, "/home/me/.local/share/muse");
    assert_eq!(config.weight_csv_file, "weight.csv");

    let missing = HomeExpander { expander: ShellExpander::new("HOME"), home: None };
    let failure = Config::default().expand_paths(&missing).unwrap_err();
    assert_eq!(failure.variable, "HOME");

    let config = config_with_data_dir("some/dir").expand_paths(&missing).unwrap();
    assert_eq!(config.data_dir, "some/dir");
}

#[test]
fn tilde_with_an_empty_home_gives_a_relative_path() {
    let expander = ShellExpander::new("HOME");

    assert_eq!(expander.tilde("~/x", Some("")).unwrap(), "x");
    assert_eq!(expander.tilde("~/some/path", Some("")).unwrap(), "some/path");
    assert_eq!(expander.tilde("~//x", Some("")).unwrap(), "x");
    assert_eq!(expander.tilde("~/./x/./y/", Some("")).unwrap(), "x/./y/");
    assert_eq!(expander.tilde("~/.config", Some("")).unwrap(), ".config");
    assert_eq!(expander.tilde("~/../x", Some("")).unwrap(), "../x");
    assert_eq!(expander.tilde("~", Some("")).unwrap(), "");
    assert_eq!(expander.tilde("~/", Some("")).unwrap(), "");
    assert_eq!(expander.tilde("~/.", Some("")).unwrap(), "");
    assert!(matches!(expander.tilde("~", Some("")).unwrap(), Cow::Owned(_)));
    assert!(matches!(expander.tilde("x", Some("")).unwrap(), Cow::Borrowed("x")));
}

#[test]
fn expanded_path_has_the_components_of_home_and_rest() {
    let expander = ShellExpander::new("HOME");

    for (path, rest) in [("~/x", "x"), ("~//x/y", "x/y"), ("~/./x", "x"), ("~", ""), ("~/.x/..", ".x/..")] {
        for home in ["", "home", "/home/me", "/home/me/", "/", "."] {
            let expanded = expander.tilde(path, Some(home)).unwrap();
            let mut expected = std::path::PathBuf::from(home);
            expected.push(rest);
            assert!(
                std::path::Path::new(expanded.as_ref()).components().eq(expected.components()),
                "{:?} with {:?} gave {:?}",
                path,
                home,
                expanded
            );
        }
    }
}
