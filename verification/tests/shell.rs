//! Timers and their lines in a tree.
use manto::shell::{build_panel_lines, tick_all, CommandEntry, CommandStatus};
use manto::ui::ansi::print_styled;

#[test]
fn a_timer_counts_down() {
    let mut list = vec![CommandEntry::new("  timer   2 "), CommandEntry::new("ls")];
    assert_eq!(list[0].command, "timer   2");
    assert_eq!(list[0].output_lines, vec!["2s"]);
    assert_eq!(list[0].status, CommandStatus::Running);
    assert!(tick_all(&mut list));
    assert_eq!(list[0].output_lines, vec!["2s", "1s"]);
    assert!(tick_all(&mut list));
    assert_eq!(list[0].output_lines, vec!["2s", "1s", "complete"]);
    assert_eq!(list[0].status, CommandStatus::Complete);
    assert!(!tick_all(&mut list));
}

#[test]
fn what_is_no_timer_is_not_known() {
    for cmd in ["ls", "timer", "timer 0", "timer x", "timer 1 2", "timer 4294967296", ""] {
        let e = CommandEntry::new(cmd);
        assert_eq!(e.output_lines, vec!["command not found"]);
        assert_eq!(e.status, CommandStatus::Complete);
    }
    assert_eq!(CommandEntry::new("timer +3").output_lines, vec!["3s"]);
}

#[test]
fn commands_are_shown_as_a_tree() {
    let mut timer = CommandEntry::new("timer 3");
    timer.tick();
    let mut silent = CommandEntry::new("x");
    silent.output_lines.clear();
    assert_eq!(
        build_panel_lines(&[timer, silent], "/a"),
        vec!["/a", "  ├─┬ timer 3", "  │ │─ 3s", "  │ └─ 2s (running)", "  ├─ x"]
    );
    assert!(build_panel_lines(&[], "").is_empty());
}

#[test]
fn styled_text_ends_in_the_plain_style() {
    let mut out = "a".to_string();
    print_styled(&mut out, "b", "\u{1b}[32m", "\u{1b}[47m");
    assert_eq!(out, "a\u{1b}[32m\u{1b}[47mb\u{1b}[0m");
}
