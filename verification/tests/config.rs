use dotfilr::command::{make_config_dir, InstallArgs, Source};
use dotfilr::error::{ArgumentFault, Error};
use dotfilr::protocol::Action;

#[test]
fn make_config_dir_names_the_root_and_the_directory() {
    let ((root, make_root), (dir, make_dir)) =
        make_config_dir(Some("/home/u"), "repos/x").unwrap();
    assert_eq!(root.get_path(), "/home/u/.dotfilr");
    assert_eq!(make_root, Action::MakeDir { path: String::from("/home/u/.dotfilr") });
    assert_eq!(dir.get_path(), "/home/u/.dotfilr/repos/x");
    assert_eq!(make_dir, Action::MakeDir { path: String::from("/home/u/.dotfilr/repos/x") });
}

#[test]
fn make_config_dir_without_a_home_is_a_configuration_error() {
    assert_eq!(make_config_dir(None, "repos/x").err(), Some(Error::Configuration));
}

#[test]
fn args_name_exactly_one_source() {
    let path = InstallArgs { git: None, path: Some(String::from("/dots")) };
    assert!(matches!(path.source(), Ok(Source::Path(p)) if p == "/dots"));
    let git = InstallArgs { git: Some(String::from("https://e.org/r")), path: None };
    assert!(matches!(git.source(), Ok(Source::Git(u)) if u == "https://e.org/r"));
    let both = InstallArgs { git: Some(String::from("g")), path: Some(String::from("p")) };
    assert_eq!(both.source().err(), Some(Error::InvalidArguments(ArgumentFault::BothSources)));
    let neither = InstallArgs { git: None, path: None };
    assert_eq!(neither.source().err(), Some(Error::InvalidArguments(ArgumentFault::NoSource)));
}
