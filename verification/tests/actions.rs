use ttree::actions::{check_id, check_name, run_result, tmux_outcome, ActionError, Actions};

#[test]
fn accepts_real_ids() {
    assert!(check_id("$3", '$', "session").is_ok());
    assert!(check_id("@7", '@', "window").is_ok());
    assert!(check_id("%12", '%', "pane").is_ok());
    assert!(check_id("$1234567", '$', "session").is_ok());
    assert!(check_id("$0", '$', "session").is_ok());
}

#[test]
fn rejects_names_and_empty() {
    assert!(check_id("", '$', "session").is_err());
    assert!(check_id("work", '$', "session").is_err());
    assert!(check_id("my-session", '$', "session").is_err());
    assert!(check_id("0", '$', "session").is_err());
    assert!(check_id("ttree:1.0", '@', "window").is_err());
}

#[test]
fn rejects_sigil_without_digits() {
    assert!(check_id("$", '$', "session").is_err());
    assert!(check_id("$abc", '$', "session").is_err());
    assert!(check_id("$3x", '$', "session").is_err());
    assert!(check_id("$ 3", '$', "session").is_err());
}

/// The sigil is what tells tmux which kind of object a target is, so a pane
/// or window id handed to a session call would silently hit the enclosing
/// session. That must not be a successful command.
#[test]
fn rejects_wrong_kind_of_id() {
    assert!(check_id("@7", '$', "session").is_err());
    assert!(check_id("%12", '$', "session").is_err());
    assert!(check_id("$3", '@', "window").is_err());
    assert!(check_id("@7", '%', "pane").is_err());
}

#[test]
fn id_check_handles_multibyte_input() {
    assert!(check_id("→", '$', "session").is_err());
    assert!(check_id("séance", '$', "session").is_err());
}

#[test]
fn accepts_names_with_spaces_and_punctuation() {
    assert!(check_name("my project").is_ok());
    assert!(check_name("build: release (v2)").is_ok());
    assert!(check_name("café & tea").is_ok());
}

#[test]
fn rejects_newline_and_nul_names() {
    assert!(check_name("two\nlines").is_err());
    assert!(check_name("trailing\n").is_err());
    assert!(check_name("carriage\rreturn").is_err());
    assert!(check_name("nul\0byte").is_err());
    assert!(check_name("").is_err());
}

#[test]
fn bad_id_error_names_what_was_expected() {
    match check_id("@7", '$', "session") {
        Err(ActionError::BadId { kind, sigil, got }) => {
            assert_eq!(kind, "session");
            assert_eq!(sigil, '$');
            assert_eq!(got, "@7");
        }
        other => panic!("unexpected {:?}", other),
    }
}

#[test]
fn name_errors_tell_empty_from_breaks() {
    assert!(matches!(check_name(""), Err(ActionError::EmptyName)));
    assert!(matches!(check_name("a\nb"), Err(ActionError::NameHasBreak)));
}

#[test]
fn kill_commands_carry_the_checked_id() {
    assert_eq!(Actions::kill_session("$3").unwrap(), vec!["kill-session", "-t", "$3"]);
    assert_eq!(Actions::kill_window("@7").unwrap(), vec!["kill-window", "-t", "@7"]);
    assert_eq!(Actions::kill_pane("%12").unwrap(), vec!["kill-pane", "-t", "%12"]);
    assert!(Actions::kill_session("@7").is_err());
    assert!(Actions::kill_window("work").is_err());
    assert!(Actions::kill_pane("$1").is_err());
}

#[test]
fn new_window_and_split_ask_tmux_for_the_new_id() {
    assert_eq!(
        Actions::new_window("$2").unwrap(),
        vec!["new-window", "-t", "$2", "-P", "-F", "#{window_id}"]
    );
    assert_eq!(
        Actions::split_pane("%4", true).unwrap(),
        vec!["split-window", "-v", "-t", "%4", "-P", "-F", "#{pane_id}"]
    );
    assert_eq!(
        Actions::split_pane("%4", false).unwrap(),
        vec!["split-window", "-h", "-t", "%4", "-P", "-F", "#{pane_id}"]
    );
    assert!(Actions::new_window("%4").is_err());
    assert!(Actions::split_pane("$2", true).is_err());
}

#[test]
fn replies_are_guarded_before_they_become_ids() {
    assert_eq!(Actions::created_window("@9").unwrap(), "@9");
    assert!(Actions::created_window("garbled").is_err());
    assert_eq!(Actions::created_pane("%9").unwrap(), "%9");
    assert!(Actions::created_pane("@9").is_err());
}

#[test]
fn renames_put_the_name_last() {
    assert_eq!(
        Actions::rename_window("@1", "my build").unwrap(),
        vec!["rename-window", "-t", "@1", "my build"]
    );
    assert_eq!(
        Actions::rename_session("$1", "-flaglike").unwrap(),
        vec!["rename-session", "-t", "$1", "-flaglike"]
    );
    assert!(matches!(Actions::rename_window("@1", ""), Err(ActionError::EmptyName)));
    assert!(matches!(Actions::rename_session("$1", "a\rb"), Err(ActionError::NameHasBreak)));
    assert!(matches!(Actions::rename_session("@1", "ok"), Err(ActionError::BadId { .. })));
}

#[test]
fn tmux_outcome_trims_output_and_explains_failures() {
    let args = vec!["kill-session".to_string(), "-t".to_string(), "$9".to_string()];
    assert_eq!(tmux_outcome(&args, true, "  @3\n", "").unwrap(), "@3");
    match tmux_outcome(&args, false, "", "can't find session: $9\n") {
        Err(ActionError::Tmux { command, detail }) => {
            assert_eq!(command, "kill-session");
            assert_eq!(detail, "can't find session: $9");
        }
        other => panic!("unexpected {:?}", other),
    }
    match tmux_outcome(&Vec::new(), false, "", "  \n") {
        Err(ActionError::Tmux { command, detail }) => {
            assert_eq!(command, "?");
            assert_eq!(detail, "command failed");
        }
        other => panic!("unexpected {:?}", other),
    }
}

#[test]
fn run_result_decodes_the_raw_output() {
    let args = vec!["new-window".to_string()];
    assert_eq!(run_result(&args, true, b" @5 \n", b"").unwrap(), "@5");
    match run_result(&args, false, b"", b"no server\xff") {
        Err(ActionError::Tmux { detail, .. }) => assert_eq!(detail, "no server\u{fffd}"),
        other => panic!("unexpected {:?}", other),
    }
}
