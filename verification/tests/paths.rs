use dotfilr::paths::{file_name, join};

#[test]
fn join_puts_a_separator_between() {
    assert_eq!(join("/home/u", "bin"), "/home/u/bin");
    assert_eq!(join("dots", "bin"), "dots/bin");
}

#[test]
fn join_adds_no_second_separator() {
    assert_eq!(join("/home/u/", "bin"), "/home/u/bin");
    assert_eq!(join("/", "bin"), "/bin");
}

#[test]
fn join_to_nothing_is_the_tail() {
    assert_eq!(join("", "bin"), "bin");
}

#[test]
fn join_lets_an_absolute_tail_replace_the_base() {
    assert_eq!(join("/home/u", "/etc/hosts"), "/etc/hosts");
}

#[test]
fn join_of_an_empty_tail_ends_in_a_separator() {
    assert_eq!(join("/home/u", ""), "/home/u/");
    assert_eq!(join("/home/u/", ""), "/home/u/");
}

#[test]
fn join_counts_characters_not_bytes() {
    assert_eq!(join("/home/zoë", "café"), "/home/zoë/café");
    assert_eq!(join("é/", "ü"), "é/ü");
}

#[test]
fn file_name_is_the_final_component() {
    assert_eq!(file_name("/dots/bin/greet.sh"), Some(String::from("greet.sh")));
    assert_eq!(file_name("greet.sh"), Some(String::from("greet.sh")));
    assert_eq!(file_name("./greet.sh"), Some(String::from("greet.sh")));
    assert_eq!(file_name("/home/zoë/café"), Some(String::from("café")));
}

#[test]
fn file_name_sets_trailing_separators_aside() {
    assert_eq!(file_name("/dots/bin/"), Some(String::from("bin")));
    assert_eq!(file_name("/dots/bin//"), Some(String::from("bin")));
}

#[test]
fn file_name_sets_trailing_dots_aside() {
    assert_eq!(file_name("foo.txt/."), Some(String::from("foo.txt")));
    assert_eq!(file_name("foo.txt/.//"), Some(String::from("foo.txt")));
}

#[test]
fn file_name_keeps_hidden_names() {
    assert_eq!(file_name("/home/u/.bashrc"), Some(String::from(".bashrc")));
    assert_eq!(file_name("..."), Some(String::from("...")));
}

#[test]
fn file_name_of_nothing_is_none() {
    assert_eq!(file_name(""), None);
    assert_eq!(file_name("/"), None);
    assert_eq!(file_name("//"), None);
    assert_eq!(file_name("."), None);
    assert_eq!(file_name("./"), None);
    assert_eq!(file_name("/."), None);
}

#[test]
fn file_name_of_a_parent_reference_is_none() {
    assert_eq!(file_name(".."), None);
    assert_eq!(file_name("foo.txt/.."), None);
    assert_eq!(file_name("foo.txt/../"), None);
}

#[test]
fn file_name_of_a_child_is_the_name_it_was_joined_with() {
    let child = join("/home/u/bin", "greet.sh");
    assert_eq!(file_name(&child), Some(String::from("greet.sh")));
    let child = join("relative/", "ls-alias.sh");
    assert_eq!(file_name(&child), Some(String::from("ls-alias.sh")));
}
