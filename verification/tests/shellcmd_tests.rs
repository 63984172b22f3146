use ptyman::shellcmd::{build_command, shell_quote};
use std::borrow::Cow;

#[test]
fn safe_words_stay_unchanged() {
    assert_eq!(shell_quote("abc"), "abc");
    assert_eq!(shell_quote("/usr/local/bin"), "/usr/local/bin");
    assert_eq!(shell_quote("--flag=value,x.y+z_9"), "--flag=value,x.y+z_9");
}

#[test]
fn unsafe_words_are_single_quoted() {
    assert_eq!(shell_quote(""), "''");
    assert_eq!(shell_quote("a b"), "'a b'");
    assert_eq!(shell_quote("a'b"), "'a'\\''b'");
    assert_eq!(shell_quote("hey!"), "'hey'\\!''");
    assert_eq!(shell_quote("$HOME"), "'$HOME'");
}

#[test]
fn quoting_matches_the_shell_escape_crate() {
    let samples = [
        "",
        "plain",
        "/some/path",
        "two words",
        "it's",
        "bang!now",
        "a\"b",
        "mix 'q' and \"d\"",
        "--features=\"default\"",
        "tab\there",
    ];
    for s in samples {
        assert_eq!(
            shell_quote(s),
            shell_escape::unix::escape(Cow::from(s)).to_string(),
            "sample {s:?}"
        );
    }
}

#[test]
fn empty_command_falls_back_to_shell() {
    let cmd: Vec<String> = vec![];
    assert_eq!(build_command("/tmp", &cmd), "cd /tmp && exec $SHELL");
    assert_eq!(build_command("/my dir", &cmd), "cd '/my dir' && exec $SHELL");
}

#[test]
fn command_arguments_are_quoted_and_joined() {
    let cmd = vec!["echo".to_string(), "hi".to_string()];
    assert_eq!(build_command("/tmp", &cmd), "cd /tmp && exec echo hi");
    let cmd = vec!["grep".to_string(), "two words".to_string(), "a'b".to_string()];
    assert_eq!(
        build_command("/tmp", &cmd),
        "cd /tmp && exec grep 'two words' 'a'\\''b'"
    );
}
