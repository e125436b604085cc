use waddle::shell::{
    contains_any_sequence, contains_sequence, follow_up, is_quit_command, show_shell_output,
    show_terminal_required, take_final_directory, truncate_output, CommandMode,
    ScreenControlDetector, OUTPUT_LIMIT,
};

#[test]
fn separates_bash_and_polarexp_command_side_effects() {
    let bash = CommandMode::from_prefix("!");
    let polarexp = CommandMode::from_prefix(":");

    assert!(!bash.applies_directory_change());
    assert!(polarexp.applies_directory_change());
    assert!(is_quit_command(polarexp, "q"));
    assert!(is_quit_command(polarexp, "  q  "));
    assert!(!is_quit_command(bash, "q"));
    assert!(!is_quit_command(polarexp, "quit"));
    assert!(!is_quit_command(polarexp, "q!"));
}

#[test]
fn missing_marker_leaves_stdout_untouched() {
    let mut output = b"ordinary output".to_vec();

    assert!(take_final_directory(&mut output).is_none());
    assert_eq!(output, b"ordinary output");
}

#[test]
fn recognizes_terminal_screen_control_sequences() {
    let mut detector = ScreenControlDetector::default();
    assert!(detector.observe(b"before\x1b[?1049hafter"));

    let mut detector = ScreenControlDetector::default();
    assert!(!detector.observe(b"before\x1b[?25l"));
    assert!(detector.observe(b"\x1b[Jafter"));

    let mut detector = ScreenControlDetector::default();
    assert!(!detector.observe(b"\x1b[31mred text\x1b[0m"));
}

#[test]
fn sequences_split_across_chunks_are_still_found() {
    let mut detector = ScreenControlDetector::default();
    assert!(!detector.observe(b"lots of text\x1b[?10"));
    assert!(detector.observe(b"49h"));

    let mut detector = ScreenControlDetector::default();
    assert!(!detector.observe(b"\x1b[?2"));
    assert!(!detector.observe(b"5l and more text that is long"));
    assert!(!detector.observe(b"text\x1b["));
    assert!(detector.observe(b"2J"));
}

#[test]
fn erase_without_hidden_cursor_is_ordinary_output() {
    let mut detector = ScreenControlDetector::default();
    assert!(!detector.observe(b"\x1b[2J clear screen"));
    assert!(!detector.observe(b"\x1b[J"));
}

#[test]
fn final_directory_is_taken_from_the_last_marker() {
    let mut output = b"first\0POLAREXP_PWD\0/old\0middle\0POLAREXP_PWD\0/tmp/new\0".to_vec();
    assert_eq!(take_final_directory(&mut output), Some(b"/tmp/new".to_vec()));
    assert_eq!(output, b"first\0POLAREXP_PWD\0/old\0middle");

    let mut unterminated = b"out\0POLAREXP_PWD\0/tmp".to_vec();
    assert_eq!(take_final_directory(&mut unterminated), None);
    assert_eq!(unterminated, b"out\0POLAREXP_PWD\0/tmp");
}

#[test]
fn byte_sequences_are_matched_as_windows() {
    assert!(contains_sequence(b"abcdef", b"cde"));
    assert!(!contains_sequence(b"abcdef", b"cdf"));
    assert!(!contains_sequence(b"ab", b"abc"));
    let patterns = vec![b"xyz".to_vec(), b"def".to_vec()];
    assert!(contains_any_sequence(b"abcdef", &patterns));
    assert!(!contains_any_sequence(b"abc", &patterns));
}

#[test]
fn long_output_is_cut_at_a_character_boundary() {
    let mut short = "short".to_owned();
    truncate_output(&mut short);
    assert_eq!(short, "short");

    let mut exact = "a".repeat(OUTPUT_LIMIT);
    truncate_output(&mut exact);
    assert_eq!(exact.len(), OUTPUT_LIMIT);

    let mut long = format!("{}é", "a".repeat(OUTPUT_LIMIT - 1));
    truncate_output(&mut long);
    assert_eq!(
        long,
        format!("{}\n\n… output truncated at 128 KiB", "a".repeat(OUTPUT_LIMIT - 1))
    );
}

#[test]
fn output_panel_names_the_status_and_separates_stderr() {
    let panel = show_shell_output("!", "ls", Some(0), b"one\ntwo\n\n", b"");
    assert_eq!(panel.summary, "!ls  •  exit 0");
    assert_eq!(panel.detail, "one\ntwo");

    let panel = show_shell_output(":", "false", Some(1), b"out", b"problem\n");
    assert_eq!(panel.summary, ":false  •  exit 1");
    assert_eq!(panel.detail, "out\n\nstderr:\nproblem");

    let panel = show_shell_output("!", "x", None, b"", b"");
    assert_eq!(panel.summary, "!x  •  terminated by signal");
    assert_eq!(panel.detail, "The command produced no output.");

    let panel = show_shell_output("!", "y", Some(-3), b"", b"err");
    assert_eq!(panel.summary, "!y  •  exit -3");
    assert_eq!(panel.detail, "err");

    let panel = show_shell_output("!", "z", Some(0), b"\xffok", b"");
    assert_eq!(panel.detail, "\u{fffd}ok");
}

#[test]
fn terminal_required_panel_explains_the_stop() {
    let panel = show_terminal_required(":", "vim");
    assert_eq!(panel.summary, ":vim  •  interactive terminal required");
    assert_eq!(
        panel.detail,
        "This command tried to take over the terminal screen, so PolarExp stopped it."
    );
}

#[test]
fn only_colon_commands_follow_the_final_directory() {
    let polarexp = CommandMode::from_prefix(":");
    let bash = CommandMode::from_prefix("!");
    let moved = follow_up(polarexp, "/work", Some("/tmp".to_owned()), true, true, true);
    assert_eq!(moved.navigate, Some("/tmp".to_owned()));
    assert!(!moved.show_output);

    let stayed = follow_up(polarexp, "/work", Some("/work".to_owned()), true, false, true);
    assert_eq!(stayed.navigate, None);
    assert!(stayed.show_output);

    let bash_moved = follow_up(bash, "/work", Some("/tmp".to_owned()), false, true, true);
    assert_eq!(bash_moved.navigate, None);
    assert!(bash_moved.show_output);
}

#[test]
fn the_final_directory_is_compared_as_a_path() {
    let polarexp = CommandMode::from_prefix(":");
    assert_eq!(follow_up(polarexp, "/tmp", Some("/tmp/".to_owned()), true, true, true).navigate, None);
    assert_eq!(follow_up(polarexp, "/tmp", Some("//tmp/./".to_owned()), true, true, true).navigate, None);
    assert_eq!(
        follow_up(polarexp, "/tmp", Some("/tmp/..".to_owned()), true, true, true).navigate,
        Some("/tmp/..".to_owned())
    );
}
