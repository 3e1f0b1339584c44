//! Tests that drive the shell through raw scancode-set-1 bytes, exercising
//! the real keyboard decoder behind `feed_scancode`.

use zynthos::shell::{Effect, Shell, SysInfo};

fn sys() -> SysInfo {
    SysInfo { uptime_centis: 0, heap_used: 0, heap_total: 0 }
}

fn printed(effects: &[Effect]) -> String {
    let mut out = String::new();
    for e in effects {
        if let Effect::Print(s) = e {
            out.push_str(s);
        }
    }
    out
}

#[test]
fn scancodes_type_and_run_a_command() {
    let mut shell = Shell::new();
    let info = sys();
    // Make codes in scancode set 1: L, S, Enter.
    let mut effects = Vec::new();
    for code in [0x26u8, 0x1F, 0x1C] {
        effects.extend(shell.feed_scancode(code, &info));
    }
    assert_eq!(printed(&effects), "ls\n> ");
}

#[test]
fn key_releases_produce_no_characters() {
    let mut shell = Shell::new();
    let info = sys();
    // Make code for L, then its break code (0x80 | 0x26): the release
    // decodes to a key event but to no character.
    let pressed = shell.feed_scancode(0x26, &info);
    assert_eq!(printed(&pressed), "l");
    let released = shell.feed_scancode(0xA6, &info);
    assert_eq!(printed(&released), "");
}

#[test]
fn scancodes_create_a_file() {
    let mut shell = Shell::new();
    let info = sys();
    // T O U C H space F Enter  ->  "touch f"
    let codes = [0x14u8, 0x18, 0x16, 0x2E, 0x23, 0x39, 0x21, 0x1C];
    let mut effects = Vec::new();
    for code in codes {
        effects.extend(shell.feed_scancode(code, &info));
    }
    assert_eq!(printed(&effects), "touch f\nFile created\n> ");
}
