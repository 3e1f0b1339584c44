//! Scenario tests of the shell: each feeds a line of input character by
//! character and checks the effects the shell hands back, prompt and echo
//! included.

use zynthos::shell::{Effect, Shell, SysInfo};
use zynthos::QemuExitCode;

fn sys() -> SysInfo {
    SysInfo { uptime_centis: 0, heap_used: 0, heap_total: 0 }
}

fn feed_line(shell: &mut Shell, info: &SysInfo, input: &str) -> Vec<Effect> {
    let mut effects = Vec::new();
    for c in input.chars() {
        effects.extend(shell.handle_char(c, info));
    }
    effects
}

fn printed(effects: &[Effect]) -> String {
    let mut out = String::new();
    for e in effects {
        if let Effect::Print(s) = e {
            out.push_str(s);
        }
    }
    out
}

#[test]
fn help_prints_usage_block() {
    let mut shell = Shell::new();
    let effects = feed_line(&mut shell, &sys(), "help\n");
    assert_eq!(
        printed(&effects),
        "help\n\
         Available commands:\n\
         \x20 help  - Show this help message\n\
         \x20 echo  - Echo the arguments\n\
         \x20 clear - Clear the screen (not implemented)\n\
         \x20 exit  - Exit the shell (& QEMU)\n\
         > "
    );
}

#[test]
fn echo_joins_arguments() {
    let mut shell = Shell::new();
    let effects = feed_line(&mut shell, &sys(), "echo hello world\n");
    assert_eq!(printed(&effects), "echo hello world\nhello world\n> ");
}

#[test]
fn echo_collapses_extra_whitespace() {
    let mut shell = Shell::new();
    let effects = feed_line(&mut shell, &sys(), "  echo   a  b \n");
    assert_eq!(printed(&effects), "  echo   a  b \na b\n> ");
}

#[test]
fn echo_without_arguments_prints_empty_line() {
    let mut shell = Shell::new();
    let effects = feed_line(&mut shell, &sys(), "echo\n");
    assert_eq!(printed(&effects), "echo\n\n> ");
}

#[test]
fn ls_lists_created_entries_in_order() {
    let mut shell = Shell::new();
    let info = sys();
    assert_eq!(printed(&feed_line(&mut shell, &info, "mkdir foo\n")), "mkdir foo\nDirectory created\n> ");
    assert_eq!(printed(&feed_line(&mut shell, &info, "touch bar\n")), "touch bar\nFile created\n> ");
    assert_eq!(printed(&feed_line(&mut shell, &info, "ls\n")), "ls\nbar\nfoo/\n> ");
}

#[test]
fn touch_twice_reports_already_exists() {
    let mut shell = Shell::new();
    let info = sys();
    assert_eq!(printed(&feed_line(&mut shell, &info, "touch a\n")), "touch a\nFile created\n> ");
    assert_eq!(printed(&feed_line(&mut shell, &info, "touch a\n")), "touch a\nError: AlreadyExists\n> ");
}

#[test]
fn mkdir_with_slash_reports_invalid_path() {
    let mut shell = Shell::new();
    let effects = feed_line(&mut shell, &sys(), "mkdir a/b\n");
    assert_eq!(printed(&effects), "mkdir a/b\nError: InvalidPath\n> ");
}

#[test]
fn touch_without_argument_prints_usage() {
    let mut shell = Shell::new();
    let info = sys();
    assert_eq!(printed(&feed_line(&mut shell, &info, "touch\n")), "touch\nUsage: touch <filename>\n> ");
    assert_eq!(printed(&feed_line(&mut shell, &info, "mkdir\n")), "mkdir\nUsage: mkdir <dirname>\n> ");
}

#[test]
fn unknown_command_reported() {
    let mut shell = Shell::new();
    let effects = feed_line(&mut shell, &sys(), "xyzzy\n");
    assert_eq!(printed(&effects), "xyzzy\nUnknown command: xyzzy\n> ");
}

#[test]
fn exit_prints_and_invokes_platform_exit_with_success() {
    let mut shell = Shell::new();
    let effects = feed_line(&mut shell, &sys(), "exit\n");
    assert_eq!(printed(&effects), "exit\nShutting Down\n> ");
    let n = effects.len();
    assert_eq!(effects[n - 2], Effect::Exit(QemuExitCode::Success));
    assert_eq!(QemuExitCode::Success.code(), 0x10);
    assert_eq!(QemuExitCode::Failed.code(), 0x11);
}

#[test]
fn clear_requests_screen_clear() {
    let mut shell = Shell::new();
    let effects = feed_line(&mut shell, &sys(), "clear\n");
    assert!(effects.contains(&Effect::ClearScreen));
    assert_eq!(printed(&effects), "clear\n> ");
}

#[test]
fn zfetch_formats_uptime_and_memory() {
    let mut shell = Shell::new();
    let info = SysInfo { uptime_centis: 1234, heap_used: 42, heap_total: 1000 };
    let out = printed(&feed_line(&mut shell, &info, "zfetch\n"));
    assert!(out.contains("         /  |  \\        Uptime: 12.34s\n"), "got: {}", out);
    assert!(out.contains("        /   |   \\       Memory: 42B / 1000B\n"), "got: {}", out);
    assert!(out.contains("User: root@zynthos"));
    assert!(out.contains("Shell: ZynthShell"));
}

#[test]
fn zfetch_pads_fractional_uptime() {
    let mut shell = Shell::new();
    let info = SysInfo { uptime_centis: 5, heap_used: 0, heap_total: 0 };
    let out = printed(&feed_line(&mut shell, &info, "zfetch\n"));
    assert!(out.contains("Uptime: 0.05s\n"), "got: {}", out);
    assert!(out.contains("Memory: 0B / 0B\n"), "got: {}", out);
}

#[test]
fn empty_line_still_reprompts() {
    let mut shell = Shell::new();
    let effects = feed_line(&mut shell, &sys(), "\n");
    assert_eq!(printed(&effects), "\n> ");
    let blanks = feed_line(&mut shell, &sys(), "   \n");
    assert_eq!(printed(&blanks), "   \n> ");
}

#[test]
fn backspace_removes_last_character() {
    let mut shell = Shell::new();
    let info = sys();
    feed_line(&mut shell, &info, "touch f\n");
    // The stray 'q' is erased before the newline, so `ls` runs.
    let out = printed(&feed_line(&mut shell, &info, "lsq\x08\n"));
    assert_eq!(out, "lsq\x08\nf\n> ");
}

#[test]
fn backspace_on_empty_buffer_does_nothing() {
    let mut shell = Shell::new();
    let effects = shell.handle_char('\x08', &sys());
    assert!(effects.is_empty());
}
