use ttree::pins::{mirror_session_name, Pins};
use ttree::tmux::Tmux;

#[test]
fn snapshot_lines_are_split_by_their_tag() {
    let text = "S$0\u{1f}main\u{1f}1\u{1f}1\nW@0\u{1f}$0\u{1f}zsh\r\nPx\nCpid\nXjunk\n\nSé\n";
    let (s, w, p, c) = Tmux::split_snapshot(text);
    assert_eq!(s, vec!["$0\u{1f}main\u{1f}1\u{1f}1", "é"]);
    assert_eq!(w, vec!["@0\u{1f}$0\u{1f}zsh"]);
    assert_eq!(p, vec!["x"]);
    assert_eq!(c, vec!["pid"]);
}

#[test]
fn snapshot_from_raw_bytes() {
    let (s, w, p, c) = Tmux::snapshot_from_output(b"S$1\nW@2\nP%3\nC4 $1 %3 /dev/pts/1");
    assert_eq!((s, w, p, c), (vec!["$1".to_string()], vec!["@2".to_string()], vec!["%3".to_string()], vec![
        "4 $1 %3 /dev/pts/1".to_string()
    ]));
}

#[test]
fn output_lines_keep_a_final_carriage_return() {
    assert_eq!(Tmux::output_lines(b"a\r\nb\n\nc\r"), vec!["a", "b", "", "c\r"]);
    assert!(Tmux::output_lines(b"").is_empty());
}

#[test]
fn printed_values_are_trimmed_and_never_empty() {
    assert_eq!(Tmux::printed_value(b"  C-a \n"), Some("C-a".to_string()));
    assert_eq!(Tmux::printed_value(b" \n"), None);
}

#[test]
fn prior_value_is_the_second_field() {
    assert_eq!(Tmux::prior_value(b"mouse on\n"), "on");
    assert_eq!(Tmux::prior_value(b""), "");
    assert_eq!(Tmux::prior_value(b"window-size"), "");
}

#[test]
fn client_lines_are_found_by_pid_and_field_count() {
    let listing = "12 /dev/pts/3\n345 $1 %2 /dev/pts/4\n345 /dev/pts/5\n";
    assert_eq!(Tmux::client_fields(listing, 345, 2), Some(vec!["345".to_string(), "/dev/pts/5".to_string()]));
    assert_eq!(
        Tmux::client_fields(listing, 345, 4),
        Some(vec!["345".to_string(), "$1".to_string(), "%2".to_string(), "/dev/pts/4".to_string()])
    );
    assert_eq!(Tmux::client_fields(listing, 34, 2), None);
}

#[test]
fn socket_path_is_the_first_field_of_tmux_env() {
    assert_eq!(Tmux::socket_path("/tmp/tmux-1000/work,1234,0"), Some("/tmp/tmux-1000/work".to_string()));
    assert_eq!(Tmux::socket_path(" ,1,2"), None);
    assert_eq!(Tmux::socket_path(""), None);
}

#[test]
fn restoring_an_inherited_option_unsets_it() {
    assert_eq!(Tmux::restore_option_args("$1", "mouse", ""), vec!["set-option", "-u", "-t", "$1", "mouse"]);
    assert_eq!(
        Tmux::restore_option_args("$1", "window-size", "latest"),
        vec!["set-option", "-t", "$1", "window-size", "latest"]
    );
}

#[test]
fn mirror_sessions_are_named_after_the_process() {
    assert_eq!(mirror_session_name(4242, 0), "ttree-mirror-4242-0");
    assert_eq!(mirror_session_name(7, 13), "ttree-mirror-7-13");
}

#[test]
fn pins_are_put_back_in_order() {
    let mut pins = Pins::new();
    assert!(pins.restore_commands().is_empty());
    pins.mirror_session = Some("$9".into());
    pins.forced_window_size = Some(("$1".into(), "".into()));
    pins.record_option("$1", "mouse", "off");
    pins.record_option("$2", "set-clipboard", "");
    let cmds = pins.restore_commands();
    assert_eq!(cmds, vec![
        vec!["kill-session", "-t", "$9"],
        vec!["set-option", "-u", "-t", "$1", "window-size"],
        vec!["set-option", "-t", "$1", "mouse", "off"],
        vec!["set-option", "-u", "-t", "$1", "set-clipboard"],
    ]);
}
