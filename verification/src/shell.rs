//! The interactive shell: a line editor fed by decoded keystrokes and a
//! command dispatcher over the in-memory filesystem.
//!
//! The shell produces no output of its own.  Every call hands back a list
//! of [`Effect`] values — text to print, a screen clear, or a platform
//! exit — which the surrounding kernel loop performs outside any critical
//! section.  What effects a command line produces, and how it changes the
//! filesystem, is pinned down by `dispatch_spec`.

use vstd::prelude::*;

verus! {

use vstd::string::StringExecFns;
use crate::QemuExitCode;
use crate::fs::{
    FileSystem, FsError, FsModel, NodeKind, create_spec, fs_sorted, is_root_path, listing,
};
use crate::ramfs::RamFS;
use crate::keydecode::{
    DecodedInput, KeyboardState, keyboard_add_byte, keyboard_process_keyevent, new_keyboard,
    new_scancode_set1,
};
use crate::text::{
    clear_string, dec_str, join_spaces, lemma_tokens_nonempty, pad2, pop_char, push_char,
    str_eq, tokenize, tokenize_str, u64_to_dec, u64_to_pad2,
};

/// Snapshot of the platform counters that the `zfetch` command reports:
/// uptime in hundredths of a second, and heap usage in bytes.
#[derive(Clone, Copy, Debug, PartialEq, Eq, Structural)]
pub struct SysInfo {
    pub uptime_centis: u64,
    pub heap_used: u64,
    pub heap_total: u64,
}

/// One externally visible action the shell asks its caller to perform.
#[derive(Debug, Clone, PartialEq, Eq)]
pub enum Effect {
    /// Write this text to the output sink.
    Print(String),
    /// Clear the output sink.
    ClearScreen,
    /// Invoke the platform exit with this code.
    Exit(QemuExitCode),
}

/// Ghost image of an [`Effect`].
#[verifier::ext_equal]
pub enum EffectView {
    Print(Seq<char>),
    ClearScreen,
    Exit(QemuExitCode),
}

impl View for Effect {
    type V = EffectView;

    open spec fn view(&self) -> EffectView {
        match self {
            Effect::Print(s) => EffectView::Print(s@),
            Effect::ClearScreen => EffectView::ClearScreen,
            Effect::Exit(code) => EffectView::Exit(*code),
        }
    }
}

impl DeepView for Effect {
    type V = EffectView;

    open spec fn deep_view(&self) -> EffectView {
        self.view()
    }
}

/// Ghost image of the shell state the contracts speak about: the line
/// buffer and the filesystem.  The keyboard decoder is a black box and has
/// no image.
#[verifier::ext_equal]
pub struct ShellView {
    pub buffer: Seq<char>,
    pub fs: FsModel,
}

/// The effects of the `help` command: the usage block, one line each.
pub open spec fn help_lines() -> Seq<EffectView> {
    seq![
        EffectView::Print("Available commands:\n"@),
        EffectView::Print("  help  - Show this help message\n"@),
        EffectView::Print("  echo  - Echo the arguments\n"@),
        EffectView::Print("  clear - Clear the screen (not implemented)\n"@),
        EffectView::Print("  exit  - Exit the shell (& QEMU)\n"@),
    ]
}

/// The effects of the `zfetch` command: the information panel, one line
/// each, with the uptime shown in seconds to two decimal places.
pub open spec fn zfetch_lines(sys: SysInfo) -> Seq<EffectView> {
    seq![
        EffectView::Print("            .           User: root@zynthos\n"@),
        EffectView::Print("           / \\          OS: ZynthOS v0.1.0\n"@),
        EffectView::Print("          /   \\         Kernel: ZynthOS Kernel\n"@),
        EffectView::Print(
            "         /  |  \\        Uptime: "@ + dec_str((sys.uptime_centis / 100) as nat)
                + "."@ + pad2((sys.uptime_centis % 100) as nat) + "s\n"@,
        ),
        EffectView::Print(
            "        /   |   \\       Memory: "@ + dec_str(sys.heap_used as nat) + "B / "@
                + dec_str(sys.heap_total as nat) + "B\n"@,
        ),
        EffectView::Print("       /____|____\\      Shell: ZynthShell\n"@),
        EffectView::Print("            |           \n"@),
    ]
}

/// The line printed for a failed filesystem command.
pub open spec fn error_line(e: FsError) -> Seq<char> {
    match e {
        FsError::NotFound => "Error: NotFound\n"@,
        FsError::AlreadyExists => "Error: AlreadyExists\n"@,
        FsError::InvalidPath => "Error: InvalidPath\n"@,
        FsError::NotADirectory => "Error: NotADirectory\n"@,
    }
}

/// The line printed for the outcome of a `touch` or `mkdir` command.
pub open spec fn create_message(res: Result<(), FsError>, kind: NodeKind) -> Seq<char> {
    match res {
        Ok(_) => if kind == NodeKind::Directory {
            "Directory created\n"@
        } else {
            "File created\n"@
        },
        Err(e) => error_line(e),
    }
}

/// What one command line does: how it changes the filesystem and which
/// effects it produces, for every possible line.  An empty line does
/// nothing.
pub open spec fn dispatch_spec(fs: FsModel, line: Seq<char>, sys: SysInfo) -> (FsModel, Seq<
    EffectView,
>) {
    let toks = tokenize(line);
    if toks.len() == 0 {
        (fs, Seq::empty())
    } else {
        let cmd = toks[0];
        if cmd == "help"@ {
            (fs, help_lines())
        } else if cmd == "echo"@ {
            (fs, seq![EffectView::Print(join_spaces(toks.drop_first()) + "\n"@)])
        } else if cmd == "exit"@ {
            (
                fs,
                seq![
                    EffectView::Print("Shutting Down\n"@),
                    EffectView::Exit(QemuExitCode::Success),
                ],
            )
        } else if cmd == "clear"@ {
            (fs, seq![EffectView::ClearScreen])
        } else if cmd == "zfetch"@ {
            (fs, zfetch_lines(sys))
        } else if cmd == "ls"@ {
            (fs, listing(fs).map_values(|l: Seq<char>| EffectView::Print(l + "\n"@)))
        } else if cmd == "touch"@ {
            if toks.len() >= 2 {
                let r = create_spec(fs, toks[1], NodeKind::File);
                (r.0, seq![EffectView::Print(create_message(r.1, NodeKind::File))])
            } else {
                (fs, seq![EffectView::Print("Usage: touch <filename>\n"@)])
            }
        } else if cmd == "mkdir"@ {
            if toks.len() >= 2 {
                let r = create_spec(fs, toks[1], NodeKind::Directory);
                (r.0, seq![EffectView::Print(create_message(r.1, NodeKind::Directory))])
            } else {
                (fs, seq![EffectView::Print("Usage: mkdir <dirname>\n"@)])
            }
        } else {
            (fs, seq![EffectView::Print("Unknown command: "@ + cmd + "\n"@)])
        }
    }
}

/// What one decoded character does to the shell: newline dispatches the
/// buffered line between a newline echo and a fresh prompt, backspace
/// shortens a non-empty buffer and echoes itself, and every other
/// character is appended and echoed.
pub open spec fn handle_char_spec(s: ShellView, c: char, sys: SysInfo) -> (ShellView, Seq<
    EffectView,
>) {
    if c == '\n' {
        let r = dispatch_spec(s.fs, s.buffer, sys);
        (
            ShellView { buffer: Seq::empty(), fs: r.0 },
            seq![EffectView::Print("\n"@)] + r.1 + seq![EffectView::Print("> "@)],
        )
    } else if c == '\x08' {
        if s.buffer.len() > 0 {
            (
                ShellView { buffer: s.buffer.drop_last(), fs: s.fs },
                seq![EffectView::Print("\x08"@)],
            )
        } else {
            (s, Seq::empty())
        }
    } else {
        (ShellView { buffer: s.buffer.push(c), fs: s.fs }, seq![EffectView::Print(seq![c])])
    }
}

/// One step of `feed_scancode`: some character ties the old state to the
/// new state and the effects as `handle_char_spec` says.
pub open spec fn feed_step(
    pre: ShellView,
    c: char,
    sys: SysInfo,
    post: ShellView,
    eff: Seq<EffectView>,
) -> bool {
    (post, eff) == handle_char_spec(pre, c, sys)
}

/// Wrap a fixed message as a print effect.
fn print_of(s: &str) -> (e: Effect)
    ensures
        e@ == EffectView::Print(s@),
{
    Effect::Print(String::from_str(s))
}

/// The print effect for a failed filesystem command.
fn error_effect(e: FsError) -> (r: Effect)
    ensures
        r@ == EffectView::Print(error_line(e)),
{
    match e {
        FsError::NotFound => print_of("Error: NotFound\n"),
        FsError::AlreadyExists => print_of("Error: AlreadyExists\n"),
        FsError::InvalidPath => print_of("Error: InvalidPath\n"),
        FsError::NotADirectory => print_of("Error: NotADirectory\n"),
    }
}

/// The arguments of an `echo` command joined by single spaces, with a
/// final newline.
fn echo_effect(tokens: &Vec<String>) -> (e: Effect)
    requires
        tokens.len() >= 1,
    ensures
        e@ == EffectView::Print(join_spaces(tokens.deep_view().drop_first()) + "\n"@),
{
    let ghost args = tokens.deep_view().drop_first();
    let mut s = String::new();
    let mut i: usize = 1;
    while i < tokens.len()
        invariant
            1 <= i <= tokens.len(),
            args == tokens.deep_view().drop_first(),
            args.len() == tokens.len() - 1,
            s@ == join_spaces(args.take(i - 1)),
        decreases tokens.len() - i,
    {
        if i > 1 {
            push_char(&mut s, ' ');
        }
        let ghost mid = s@;
        s.append(tokens[i].as_str());
        proof {
            assert(args[i - 1] == tokens.deep_view()[i as int]);
            assert(tokens.deep_view()[i as int] == tokens@[i as int]@);
            if i == 1 {
                assert(args.take(1)[0] == args[0]);
                assert(join_spaces(args.take(1)) == args.take(1)[0]);
                assert(s@ =~= args[0]);
            } else {
                assert(args.take(i as int).drop_last() =~= args.take(i as int - 1));
                assert(args.take(i as int).last() == args[i as int - 1]);
                assert(mid =~= join_spaces(args.take(i as int - 1)) + seq![' ']);
                assert(s@ =~= join_spaces(args.take(i as int - 1)) + seq![' '] + args[i as int
                    - 1]);
            }
            assert(s@ == join_spaces(args.take(i as int)));
        }
        i += 1;
    }
    proof {
        assert(args.take(tokens.len() - 1) =~= args);
    }
    s.append("\n");
    Effect::Print(s)
}

/// The `zfetch` information panel.
fn zfetch_effects(sys: &SysInfo) -> (effects: Vec<Effect>)
    ensures
        effects.deep_view() == zfetch_lines(*sys),
{
    let mut effects: Vec<Effect> = Vec::new();
    effects.push(print_of("            .           User: root@zynthos\n"));
    effects.push(print_of("           / \\          OS: ZynthOS v0.1.0\n"));
    effects.push(print_of("          /   \\         Kernel: ZynthOS Kernel\n"));
    let mut uptime_line = String::from_str("         /  |  \\        Uptime: ");
    uptime_line.append(u64_to_dec(sys.uptime_centis / 100).as_str());
    uptime_line.append(".");
    uptime_line.append(u64_to_pad2(sys.uptime_centis % 100).as_str());
    uptime_line.append("s\n");
    effects.push(Effect::Print(uptime_line));
    let mut memory_line = String::from_str("        /   |   \\       Memory: ");
    memory_line.append(u64_to_dec(sys.heap_used).as_str());
    memory_line.append("B / ");
    memory_line.append(u64_to_dec(sys.heap_total).as_str());
    memory_line.append("B\n");
    effects.push(Effect::Print(memory_line));
    effects.push(print_of("       /____|____\\      Shell: ZynthShell\n"));
    effects.push(print_of("            |           \n"));
    proof {
        assert(effects.deep_view() =~~= zfetch_lines(*sys));
    }
    effects
}

/// The interactive shell: decoder state, line buffer, and filesystem.
pub struct Shell {
    keyboard: KeyboardState,
    buffer: String,
    fs: RamFS,
}

impl View for Shell {
    type V = ShellView;

    closed spec fn view(&self) -> ShellView {
        ShellView { buffer: self.buffer@, fs: self.fs.fs_entries() }
    }
}

impl Shell {
    /// The invariant the shell maintains: the filesystem stays sorted.
    pub open spec fn wf(self) -> bool {
        fs_sorted(self@.fs)
    }

    /// A fresh shell: empty line buffer, empty filesystem, fresh decoder.
    pub fn new() -> (s: Shell)
        ensures
            s.wf(),
            s@ == (ShellView { buffer: Seq::<char>::empty(), fs: Seq::<
                (Seq<char>, NodeKind),
            >::empty() }),
    {
        let set = new_scancode_set1();
        let keyboard = new_keyboard(set);
        let s = Shell { keyboard, buffer: String::new(), fs: RamFS::new() };
        proof {
            assert(s@ =~= (ShellView { buffer: Seq::<char>::empty(), fs: Seq::<
                (Seq<char>, NodeKind),
            >::empty() }));
        }
        s
    }

    /// Run the line currently buffered, without clearing it.  The returned
    /// effects and the new filesystem are exactly what `dispatch_spec` says
    /// for the buffered line.
    pub fn execute_command(&mut self, sys: &SysInfo) -> (effects: Vec<Effect>)
        requires
            old(self).wf(),
        ensures
            final(self).wf(),
            final(self)@.buffer == old(self)@.buffer,
            ({
                let r = dispatch_spec(old(self)@.fs, old(self)@.buffer, *sys);
                final(self)@.fs == r.0 && effects.deep_view() == r.1
            }),
    {
        let ghost toks = tokenize(self.buffer@);
        let tokens = tokenize_str(self.buffer.as_str());
        let mut effects: Vec<Effect> = Vec::new();
        if tokens.len() == 0 {
            proof {
                assert(effects.deep_view() =~~= Seq::<EffectView>::empty());
            }
            return effects;
        }
        let cmd = &tokens[0];
        proof {
            assert(cmd@ == tokens.deep_view()[0]);
            assert(cmd@ == toks[0]);
        }
        if str_eq(cmd.as_str(), "help") {
            effects.push(print_of("Available commands:\n"));
            effects.push(print_of("  help  - Show this help message\n"));
            effects.push(print_of("  echo  - Echo the arguments\n"));
            effects.push(print_of("  clear - Clear the screen (not implemented)\n"));
            effects.push(print_of("  exit  - Exit the shell (& QEMU)\n"));
            proof {
                assert(effects.deep_view() =~~= help_lines());
            }
        } else if str_eq(cmd.as_str(), "echo") {
            effects.push(echo_effect(&tokens));
            proof {
                assert(effects.deep_view() =~~= seq![
                    EffectView::Print(join_spaces(toks.drop_first()) + "\n"@),
                ]);
            }
        } else if str_eq(cmd.as_str(), "exit") {
            effects.push(print_of("Shutting Down\n"));
            effects.push(Effect::Exit(QemuExitCode::Success));
            proof {
                assert(effects.deep_view() =~~= seq![
                    EffectView::Print("Shutting Down\n"@),
                    EffectView::Exit(QemuExitCode::Success),
                ]);
            }
        } else if str_eq(cmd.as_str(), "clear") {
            effects.push(Effect::ClearScreen);
            proof {
                assert(effects.deep_view() =~~= seq![EffectView::ClearScreen]);
            }
        } else if str_eq(cmd.as_str(), "zfetch") {
            let mut panel = zfetch_effects(sys);
            effects.append(&mut panel);
            proof {
                assert(effects.deep_view() =~~= zfetch_lines(*sys));
            }
        } else if str_eq(cmd.as_str(), "ls") {
            let ghost lines = listing(old(self)@.fs).map_values(
                |l: Seq<char>| EffectView::Print(l + "\n"@),
            );
            match self.fs.list_dir("/") {
                Ok(names) => {
                    let ghost nv = names.deep_view();
                    proof {
                        assert(is_root_path("/"@));
                        assert(nv == listing(old(self)@.fs));
                    }
                    let n = names.len();
                    let mut i: usize = 0;
                    proof {
                        assert(effects.deep_view() =~~= lines.take(0));
                    }
                    while i < n
                        invariant
                            i <= n,
                            n == names.len(),
                            nv == names.deep_view(),
                            nv.len() == n,
                            lines == nv.map_values(|l: Seq<char>| EffectView::Print(l + "\n"@)),
                            effects.deep_view() == lines.take(i as int),
                        decreases n - i,
                    {
                        let line = names[i].clone().concat("\n");
                        proof {
                            assert(line@ == nv[i as int] + "\n"@);
                            assert(lines[i as int] == EffectView::Print(nv[i as int] + "\n"@));
                        }
                        let ghost prev = effects.deep_view();
                        effects.push(Effect::Print(line));
                        proof {
                            assert(effects.deep_view() =~~= prev.push(EffectView::Print(line@)));
                            assert(effects.deep_view() =~~= lines.take(i as int + 1));
                        }
                        i += 1;
                    }
                    proof {
                        assert(lines.take(n as int) =~~= lines);
                    }
                },
                Err(_) => {
                    proof {
                        assert(is_root_path("/"@));
                        assert(false);
                    }
                },
            }
        } else if str_eq(cmd.as_str(), "touch") {
            if tokens.len() >= 2 {
                let name = &tokens[1];
                proof {
                    lemma_tokens_nonempty(old(self)@.buffer);
                    assert(name@ == toks[1]);
                }
                match self.fs.create_file(name.as_str()) {
                    Ok(_) => effects.push(print_of("File created\n")),
                    Err(e) => effects.push(error_effect(e)),
                }
                proof {
                    let r = create_spec(old(self)@.fs, toks[1], NodeKind::File);
                    assert(effects.deep_view() =~~= seq![
                        EffectView::Print(create_message(r.1, NodeKind::File)),
                    ]);
                }
            } else {
                effects.push(print_of("Usage: touch <filename>\n"));
                proof {
                    assert(effects.deep_view() =~~= seq![
                        EffectView::Print("Usage: touch <filename>\n"@),
                    ]);
                }
            }
        } else if str_eq(cmd.as_str(), "mkdir") {
            if tokens.len() >= 2 {
                let name = &tokens[1];
                proof {
                    lemma_tokens_nonempty(old(self)@.buffer);
                    assert(name@ == toks[1]);
                }
                match self.fs.create_dir(name.as_str()) {
                    Ok(_) => effects.push(print_of("Directory created\n")),
                    Err(e) => effects.push(error_effect(e)),
                }
                proof {
                    let r = create_spec(old(self)@.fs, toks[1], NodeKind::Directory);
                    assert(effects.deep_view() =~~= seq![
                        EffectView::Print(create_message(r.1, NodeKind::Directory)),
                    ]);
                }
            } else {
                effects.push(print_of("Usage: mkdir <dirname>\n"));
                proof {
                    assert(effects.deep_view() =~~= seq![
                        EffectView::Print("Usage: mkdir <dirname>\n"@),
                    ]);
                }
            }
        } else {
            let mut line = String::from_str("Unknown command: ");
            line.append(cmd.as_str());
            line.append("\n");
            effects.push(Effect::Print(line));
            proof {
                assert(effects.deep_view() =~~= seq![
                    EffectView::Print("Unknown command: "@ + toks[0] + "\n"@),
                ]);
            }
        }
        effects
    }

    /// Feed one decoded character to the line editor.
    pub fn handle_char(&mut self, c: char, sys: &SysInfo) -> (effects: Vec<Effect>)
        requires
            old(self).wf(),
        ensures
            final(self).wf(),
            ({
                let r = handle_char_spec(old(self)@, c, *sys);
                final(self)@ == r.0 && effects.deep_view() == r.1
            }),
    {
        let mut effects: Vec<Effect> = Vec::new();
        if c == '\n' {
            effects.push(print_of("\n"));
            let mut dispatched = self.execute_command(sys);
            let ghost d = dispatch_spec(old(self)@.fs, old(self)@.buffer, *sys);
            effects.append(&mut dispatched);
            clear_string(&mut self.buffer);
            effects.push(print_of("> "));
            proof {
                assert(effects.deep_view() =~~= seq![EffectView::Print("\n"@)] + d.1 + seq![
                    EffectView::Print("> "@),
                ]);
                assert(self@ =~= handle_char_spec(old(self)@, c, *sys).0);
            }
        } else if c == '\x08' {
            match pop_char(&mut self.buffer) {
                Some(_) => {
                    effects.push(print_of("\x08"));
                    proof {
                        assert(effects.deep_view() =~~= seq![EffectView::Print("\x08"@)]);
                        assert(self@ =~= handle_char_spec(old(self)@, c, *sys).0);
                    }
                },
                None => {
                    proof {
                        assert(effects.deep_view() =~~= Seq::<EffectView>::empty());
                        assert(self@ =~= old(self)@);
                    }
                },
            }
        } else {
            push_char(&mut self.buffer, c);
            let mut echo = String::new();
            push_char(&mut echo, c);
            proof {
                assert(echo@ =~= seq![c]);
            }
            effects.push(Effect::Print(echo));
            proof {
                assert(effects.deep_view() =~~= seq![EffectView::Print(seq![c])]);
                assert(self@ =~= handle_char_spec(old(self)@, c, *sys).0);
            }
        }
        effects
    }

    /// Feed one raw scancode byte through the keyboard decoder.  The
    /// decoder is opaque, so all that is promised is that the shell either
    /// stays unchanged with no effects (no character completed), or takes
    /// exactly one `handle_char_spec` step for some character.
    pub fn feed_scancode(&mut self, code: u8, sys: &SysInfo) -> (effects: Vec<Effect>)
        requires
            old(self).wf(),
        ensures
            final(self).wf(),
            (final(self)@ == old(self)@ && effects.deep_view() == Seq::<EffectView>::empty())
                || (exists|c: char|
                #[trigger] feed_step(old(self)@, c, *sys, final(self)@, effects.deep_view())),
    {
        match keyboard_add_byte(&mut self.keyboard, code) {
            Some(ev) => match keyboard_process_keyevent(&mut self.keyboard, ev) {
                Some(DecodedInput::Character(c)) => {
                    let effects = self.handle_char(c, sys);
                    proof {
                        assert(feed_step(old(self)@, c, *sys, self@, effects.deep_view()));
                    }
                    effects
                },
                _ => {
                    let effects: Vec<Effect> = Vec::new();
                    proof {
                        assert(effects.deep_view() =~~= Seq::<EffectView>::empty());
                    }
                    effects
                },
            },
            None => {
                let effects: Vec<Effect> = Vec::new();
                proof {
                    assert(effects.deep_view() =~~= Seq::<EffectView>::empty());
                }
                effects
            },
        }
    }
}

} // verus!
