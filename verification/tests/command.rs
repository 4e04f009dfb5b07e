use emacs_i3::command::emacs_i3_command;

#[test]
fn command_is_wrapped_in_a_call() {
    assert_eq!(
        emacs_i3_command("focus left"),
        "(my/emacs-i3-command \"focus left\")"
    );
}

#[test]
fn double_quotes_are_escaped() {
    assert_eq!(
        emacs_i3_command("exec \"app\""),
        "(my/emacs-i3-command \"exec \\\"app\\\"\")"
    );
}

#[test]
fn empty_command_gives_empty_argument() {
    assert_eq!(emacs_i3_command(""), "(my/emacs-i3-command \"\")");
}
