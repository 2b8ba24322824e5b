use dotfilr::error::{ArgumentFault, Error};
use dotfilr::protocol::{Action, Report};

#[test]
fn only_file_exists_is_recoverable() {
    assert!(Error::FileExists.is_recoverable());
    assert!(!Error::Io.is_recoverable());
    assert!(!Error::Configuration.is_recoverable());
    assert!(!Error::InvalidArguments(ArgumentFault::BothSources).is_recoverable());
    assert!(!Error::InvalidArguments(ArgumentFault::NoSource).is_recoverable());
    assert!(!Error::InvalidArguments(ArgumentFault::MissingPath).is_recoverable());
    assert!(!Error::InvalidArguments(ArgumentFault::BadUrl).is_recoverable());
}

#[test]
fn each_failure_has_its_line() {
    assert_eq!(Error::FileExists.message(), "file exists");
    assert_eq!(Error::Io.message(), "input or output failed");
    assert_eq!(Error::Configuration.message(), "could not get the home directory");
    assert_eq!(
        Error::InvalidArguments(ArgumentFault::BothSources).message(),
        "only one of --git and --path can be used"
    );
    assert_eq!(
        Error::InvalidArguments(ArgumentFault::NoSource).message(),
        "one of --git and --path is needed"
    );
    assert_eq!(
        Error::InvalidArguments(ArgumentFault::MissingPath).message(),
        "the path does not exist"
    );
    assert_eq!(
        Error::InvalidArguments(ArgumentFault::BadUrl).message(),
        "the repository is not a valid URL"
    );
}

#[test]
fn report_lines_name_the_entry() {
    let name = String::from("greet.sh");
    let path = String::from("/home/u/bin/greet.sh");
    assert_eq!(
        Report::Created { name: name.clone(), path: path.clone() }.line(),
        "linked greet.sh"
    );
    assert_eq!(
        Report::Skipped { name: name.clone(), path: path.clone() }.line(),
        "skipped greet.sh"
    );
    assert_eq!(Report::Removed { name: String::from("a"), path }.line(), "removed a");
}

#[test]
fn only_finish_and_abort_are_terminal() {
    assert!(Action::Finish.is_terminal());
    assert!(Action::Abort { error: Error::Io }.is_terminal());
    assert!(!Action::Probe { path: String::from("/x") }.is_terminal());
    assert!(!Action::List { path: String::from("/x") }.is_terminal());
    assert!(!Action::MakeDir { path: String::from("/x") }.is_terminal());
    assert!(!Action::Remove { path: String::from("/x") }.is_terminal());
}
