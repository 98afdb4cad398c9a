//! What the command line asks for before a window is opened.

use vstd::prelude::*;

use crate::kakoune_process::{lossy_string, text_in};
use crate::paths::{copied_bytes, same_bytes, same_path, same_place, text_bytes};
use crate::startup::Args;
use crate::user_keys::{FontSizeAction, UserAction};

verus! {

/// Where the program goes from the directory that it was started in: from the
/// root to the home directory, if there is one, and from anywhere else nowhere.
pub fn default_launch_directory(current_dir: &[u8], home: Option<Vec<u8>>) -> (directory: Option<
    Vec<u8>,
>)
    ensures
        directory == if same_place(current_dir@, text_bytes("/"@)) {
            home
        } else {
            None
        },
{
    if same_path(current_dir, "/".as_bytes()) {
        home
    } else {
        None
    }
}

/// The first double dash among the arguments from `i` on, or their end.
pub open spec fn dashes_from(args: Seq<Seq<u8>>, i: nat) -> nat
    decreases args.len() - i,
{
    if i >= args.len() {
        args.len()
    } else if args[i as int] == text_bytes("--"@) {
        i
    } else {
        dashes_from(args, i + 1)
    }
}

/// Whether an argument asks for help.
pub open spec fn asks_help(arg: Seq<u8>) -> bool {
    arg == text_bytes("--help"@) || arg == text_bytes("-h"@)
}

/// Whether an argument asks the editor for help.
pub open spec fn asks_editor_help(arg: Seq<u8>) -> bool {
    arg == text_bytes("--help"@) || arg == text_bytes("-help"@)
}

/// Whether the command line asks for help: among the program's own arguments, or
/// as the only argument for the editor. The first argument is the program.
pub open spec fn wants_help(raw_args: Seq<Seq<u8>>) -> bool {
    let split = dashes_from(raw_args, 1) as int;
    ||| exists|i: int| 1 <= i < split && i < raw_args.len() && asks_help(#[trigger] raw_args[i])
    ||| split + 2 == raw_args.len() && asks_editor_help(raw_args[split + 1])
}

/// The first double dash behind the program's name.
fn first_dashes(raw_args: &[Vec<u8>]) -> (place: usize)
    requires
        raw_args@.len() > 0,
    ensures
        place == dashes_from(raw_args.deep_view(), 1),
        1 <= place <= raw_args@.len(),
{
    let ghost args = raw_args.deep_view();
    let mut i: usize = 1;
    while i < raw_args.len()
        invariant
            1 <= i <= raw_args@.len(),
            args == raw_args.deep_view(),
            dashes_from(args, 1) == dashes_from(args, i as nat),
        decreases raw_args@.len() - i,
    {
        assert(args[i as int] =~= raw_args@[i as int]@);
        if same_bytes(raw_args[i].as_slice(), "--".as_bytes()) {
            return i;
        }
        i = i + 1;
    }
    i
}

/// Whether the command line asks for help.
pub fn should_show_combined_help(raw_args: &[Vec<u8>]) -> (yes: bool)
    ensures
        yes == wants_help(raw_args.deep_view()),
{
    let ghost args = raw_args.deep_view();
    if raw_args.len() == 0 {
        return false;
    }
    let split = first_dashes(raw_args);
    for i in 1..split
        invariant
            1 <= i <= split,
            split <= raw_args@.len(),
            split == dashes_from(args, 1),
            args == raw_args.deep_view(),
            forall|k: int| 1 <= k < i ==> !asks_help(#[trigger] args[k]),
    {
        assert(args[i as int] =~= raw_args@[i as int]@);
        let arg = raw_args[i].as_slice();
        if same_bytes(arg, "--help".as_bytes()) || same_bytes(arg, "-h".as_bytes()) {
            assert(asks_help(args[i as int]));
            return true;
        }
    }
    if split < raw_args.len() && raw_args.len() - split == 2 {
        assert(args[split + 1] =~= raw_args@[split + 1]@);
        let arg = raw_args[split + 1].as_slice();
        same_bytes(arg, "--help".as_bytes()) || same_bytes(arg, "-help".as_bytes())
    } else {
        false
    }
}

/// The editor that the arguments from `i` on name: the value of the first
/// option for it that has one, before any double dash.
pub open spec fn editor_from(args: Seq<Seq<u8>>, i: nat) -> Seq<u8>
    decreases args.len() - i,
{
    if i >= args.len() || args[i as int] == text_bytes("--"@) {
        text_bytes("kak"@)
    } else if args[i as int] == text_bytes("--kak-bin"@) && i + 1 < args.len() {
        args[(i + 1) as int]
    } else {
        editor_from(args, i + 1)
    }
}

/// The editor that the command line names. The first argument is the program.
pub fn extract_kak_bin(raw_args: &[Vec<u8>]) -> (program: Vec<u8>)
    ensures
        program@ == editor_from(raw_args.deep_view(), 1),
{
    let ghost args = raw_args.deep_view();
    let mut i: usize = 1;
    while i < raw_args.len()
        invariant
            1 <= i,
            args == raw_args.deep_view(),
            editor_from(args, 1) == editor_from(args, i as nat),
        decreases raw_args@.len() - i,
    {
        assert(args[i as int] =~= raw_args@[i as int]@);
        let arg = raw_args[i].as_slice();
        if same_bytes(arg, "--".as_bytes()) {
            return copied_bytes("kak".as_bytes());
        }
        if same_bytes(arg, "--kak-bin".as_bytes()) && i + 1 < raw_args.len() {
            assert(args[i + 1] =~= raw_args@[i + 1]@);
            return copied_bytes(raw_args[i + 1].as_slice());
        }
        i = i + 1;
    }
    copied_bytes("kak".as_bytes())
}

/// A list of the first `n` of some paths, one on a line.
pub open spec fn path_lines(paths: Seq<Seq<u8>>, n: nat) -> Seq<char>
    decreases n,
{
    if n == 0 {
        Seq::empty()
    } else {
        path_lines(paths, (n - 1) as nat) + ("- "@ + text_in(paths[n - 1]) + "\n"@)
    }
}

/// What is shown of the configuration: the files that were looked for, and the
/// settings that they make.
pub open spec fn config_report(paths: Seq<Seq<u8>>, config_toml: Seq<char>) -> Seq<char> {
    "Checked configuration paths:\n"@ + path_lines(paths, paths.len())
        + "\nCurrent configuration:\n\n"@ + config_toml
}

/// What is printed in place of opening a window, if anything is.
pub fn early_exit_output(args: &Args, checked_paths: &[Vec<u8>], config_toml: &str) -> (output:
    Option<String>)
    ensures
        match output {
            Some(text) => args.show_config && text@ == config_report(
                checked_paths.deep_view(),
                config_toml@,
            ),
            None => !args.show_config,
        },
{
    if !args.show_config {
        return None;
    }
    let ghost paths = checked_paths.deep_view();
    let mut output = "Checked configuration paths:\n".to_string();
    let ghost head = output@;
    assert(output@ =~= head + path_lines(paths, 0));
    for i in 0..checked_paths.len()
        invariant
            paths == checked_paths.deep_view(),
            output@ == head + path_lines(paths, i as nat),
    {
        assert(paths[i as int] =~= checked_paths@[i as int]@);
        let name = lossy_string(checked_paths[i].as_slice());
        output.append("- ");
        output.append(name.as_str());
        output.append("\n");
        assert(output@ =~= head + path_lines(paths, (i + 1) as nat));
    }
    output.append("\nCurrent configuration:\n\n");
    output.append(config_toml);
    Some(output)
}

/// A command of the front end's own.
#[derive(Debug, PartialEq, Eq)]
pub enum AppCommand {
    FontScaleUp,
    FontScaleDown,
    FontScaleReset,
    WindowNew,
    WindowClose,
    ConnectToSession(Vec<u8>),
    SwitchToSession(Vec<u8>),
}

/// The command for what a key stands for.
pub open spec fn command_of(action: UserAction) -> AppCommand {
    match action {
        UserAction::FontSize(FontSizeAction::Increase) => AppCommand::FontScaleUp,
        UserAction::FontSize(FontSizeAction::Decrease) => AppCommand::FontScaleDown,
        UserAction::FontSize(FontSizeAction::Reset) => AppCommand::FontScaleReset,
        UserAction::WindowNew => AppCommand::WindowNew,
        UserAction::WindowClose => AppCommand::WindowClose,
    }
}

/// The command for what a key stands for.
pub fn app_command_from_user_action(action: UserAction) -> (command: AppCommand)
    ensures
        command == command_of(action),
{
    match action {
        UserAction::FontSize(FontSizeAction::Increase) => AppCommand::FontScaleUp,
        UserAction::FontSize(FontSizeAction::Decrease) => AppCommand::FontScaleDown,
        UserAction::FontSize(FontSizeAction::Reset) => AppCommand::FontScaleReset,
        UserAction::WindowNew => AppCommand::WindowNew,
        UserAction::WindowClose => AppCommand::WindowClose,
    }
}

/// What follows a double dash is for the editor: it neither names the editor
/// nor, unless it is a single argument, asks for help.
pub proof fn law_double_dash_ends_own_arguments(
    program: Seq<u8>,
    rest: Seq<Seq<u8>>,
)
    ensures
        ({
            let args = seq![program, text_bytes("--"@)] + rest;
            &&& editor_from(args, 1) == text_bytes("kak"@)
            &&& rest.len() != 1 ==> !wants_help(args)
        }),
{
    let args = seq![program, text_bytes("--"@)] + rest;
    assert(args[1] == text_bytes("--"@));
    assert(dashes_from(args, 1) == 1);
}

/// Different actions give different commands.
pub proof fn law_actions_are_told_apart(a: UserAction, b: UserAction)
    requires
        command_of(a) == command_of(b),
    ensures
        a == b,
{
}

/// The place of the first double dash: none stands before it.
pub proof fn law_first_double_dash_is_found(args: Seq<Seq<u8>>, i: nat, k: int)
    requires
        i <= args.len(),
    ensures
        ({
            let place = dashes_from(args, i);
            &&& i <= place <= args.len()
            &&& place < args.len() ==> args[place as int] == text_bytes("--"@)
            &&& i <= k < place ==> args[k] != text_bytes("--"@)
        }),
    decreases args.len() - i,
{
    if i < args.len() && args[i as int] != text_bytes("--"@) {
        law_first_double_dash_is_found(args, i + 1, k);
    }
}

/// An argument `--help` or `-h` asks for help wherever it stands behind the
/// program and before any double dash.
pub proof fn law_help_is_found_anywhere(args: Seq<Seq<u8>>, i: int)
    requires
        1 <= i < args.len(),
        args[i] == text_bytes("--help"@) || args[i] == text_bytes("-h"@),
        forall|k: int| 1 <= k <= i ==> #[trigger] args[k] != text_bytes("--"@),
    ensures
        wants_help(args),
{
    let split = dashes_from(args, 1);
    law_first_double_dash_is_found(args, 1, i);
    if split <= i {
        assert(args[split as int] != text_bytes("--"@));
    }
    assert(asks_help(args[i]));
}

/// Without a double dash nothing but such an argument asks for help.
pub proof fn law_only_help_asks_for_help(args: Seq<Seq<u8>>)
    requires
        args.len() > 0,
        forall|k: int|
            1 <= k < args.len() ==> #[trigger] args[k] != text_bytes("--help"@) && args[k]
                != text_bytes("-h"@) && args[k] != text_bytes("--"@),
    ensures
        !wants_help(args),
{
    let split = dashes_from(args, 1);
    law_first_double_dash_is_found(args, 1, 0);
    if split < args.len() {
        assert(args[split as int] != text_bytes("--"@));
    }
}

/// A single argument behind the double dash asks for help, where it is `--help` or
/// `-help`, and nothing else behind it does.
pub proof fn law_editor_help_stands_alone(own: Seq<Seq<u8>>, rest: Seq<Seq<u8>>)
    requires
        own.len() > 0,
        forall|k: int|
            1 <= k < own.len() ==> #[trigger] own[k] != text_bytes("--help"@) && own[k]
                != text_bytes("-h"@) && own[k] != text_bytes("--"@),
    ensures
        wants_help(own.push(text_bytes("--"@)) + rest) == (rest.len() == 1 && (rest[0]
            == text_bytes("--help"@) || rest[0] == text_bytes("-help"@))),
{
    let args = own.push(text_bytes("--"@)) + rest;
    let split = dashes_from(args, 1);
    let n = own.len() as int;
    assert(args[n] == text_bytes("--"@));
    law_first_double_dash_is_found(args, 1, n);
    if split < n {
        assert(args[split as int] == own[split as int]);
    }
    assert(split == n);
    assert forall|i: int| 1 <= i < split implies !asks_help(#[trigger] args[i]) by {
        assert(args[i] == own[i]);
    }
    if rest.len() == 1 {
        assert(args[n + 1] == rest[0]);
    }
}

/// The editor is the argument behind the first `--kak-bin`, whatever it is, unless
/// a double dash comes first.
pub proof fn law_editor_follows_its_option(args: Seq<Seq<u8>>, i: nat)
    requires
        1 <= i,
        i + 1 < args.len(),
        args[i as int] == text_bytes("--kak-bin"@),
        forall|k: int|
            1 <= k < i ==> #[trigger] args[k] != text_bytes("--kak-bin"@) && args[k] != text_bytes(
                "--"@,
            ),
    ensures
        editor_from(args, 1) == args[(i + 1) as int],
{
    lemma_editor_from(args, 1, i);
    lemma_editor_option();
}

/// The option for the editor is no double dash.
proof fn lemma_editor_option()
    ensures
        text_bytes("--kak-bin"@) != text_bytes("--"@),
{
    reveal_strlit("--");
    reveal_strlit("--kak-bin");
    vstd::utf8::is_ascii_chars_encode_utf8("--"@);
    vstd::utf8::is_ascii_chars_encode_utf8("--kak-bin"@);
}

/// Arguments before the option make no difference.
proof fn lemma_editor_from(args: Seq<Seq<u8>>, from: nat, i: nat)
    requires
        from <= i <= args.len(),
        forall|k: int|
            from <= k < i ==> #[trigger] args[k] != text_bytes("--kak-bin"@) && args[k]
                != text_bytes("--"@),
    ensures
        editor_from(args, from) == editor_from(args, i),
    decreases i - from,
{
    if from < i {
        assert(args[from as int] != text_bytes("--"@));
        lemma_editor_from(args, from + 1, i);
    }
}

/// Without the option the editor is `kak`.
pub proof fn law_editor_without_option_is_kak(args: Seq<Seq<u8>>)
    requires
        args.len() > 0,
        forall|k: int|
            1 <= k < args.len() ==> #[trigger] args[k] != text_bytes("--kak-bin"@) && args[k]
                != text_bytes("--"@),
    ensures
        editor_from(args, 1) == text_bytes("kak"@),
{
    lemma_editor_from(args, 1, args.len());
}

/// Every file that was looked for stands in the report, on a line of its own, and
/// the settings stand at its end.
pub proof fn law_report_names_every_file(
    paths: Seq<Seq<u8>>,
    config_toml: Seq<char>,
    i: int,
) -> (around: (Seq<char>, Seq<char>))
    requires
        0 <= i < paths.len(),
    ensures
        config_report(paths, config_toml) == around.0 + (seq!['\n', '-', ' '] + text_in(paths[i])
            + seq!['\n']) + around.1,
        config_toml.is_suffix_of(config_report(paths, config_toml)),
{
    reveal_strlit("- ");
    reveal_strlit("\n");
    reveal_strlit("Checked configuration paths:\n");
    reveal_strlit("\nCurrent configuration:\n\n");
    let (before, after) = lemma_path_line(paths, paths.len(), i);
    let head = "Checked configuration paths:\n"@;
    let middle = "\nCurrent configuration:\n\n"@;
    let report = config_report(paths, config_toml);
    let front = head + before;
    assert(front.last() == '\n') by {
        if before.len() == 0 {
            assert(front =~= head);
        }
    }
    let line = seq!['-', ' '] + text_in(paths[i]) + seq!['\n'];
    assert(report =~= front + line + (after + middle + config_toml));
    assert(front =~= front.drop_last() + seq!['\n']);
    assert(report =~= front.drop_last() + (seq!['\n', '-', ' '] + text_in(paths[i]) + seq!['\n'])
        + (after + middle + config_toml));
    assert(report.subrange(report.len() - config_toml.len(), report.len() as int) =~= config_toml);
    (front.drop_last(), after + middle + config_toml)
}

/// The line of a path among those of others.
proof fn lemma_path_line(paths: Seq<Seq<u8>>, n: nat, i: int) -> (around: (Seq<char>, Seq<char>))
    requires
        0 <= i < n <= paths.len(),
    ensures
        path_lines(paths, n) == around.0 + (seq!['-', ' '] + text_in(paths[i]) + seq!['\n'])
            + around.1,
        around.0.len() > 0 ==> around.0.last() == '\n',
    decreases n,
{
    reveal_strlit("- ");
    reveal_strlit("\n");
    assert("- "@ =~= seq!['-', ' ']);
    assert("\n"@ =~= seq!['\n']);
    let shorter = path_lines(paths, (n - 1) as nat);
    let own = "- "@ + text_in(paths[n - 1]) + "\n"@;
    if i == n - 1 {
        lemma_lines_end(paths, (n - 1) as nat);
        assert(path_lines(paths, n) =~= shorter + own + Seq::<char>::empty());
        (shorter, Seq::empty())
    } else {
        let (before, after) = lemma_path_line(paths, (n - 1) as nat, i);
        let line = seq!['-', ' '] + text_in(paths[i]) + seq!['\n'];
        assert(path_lines(paths, n) =~= before + line + (after + own));
        (before, after + own)
    }
}

/// A list of paths ends in a line end.
proof fn lemma_lines_end(paths: Seq<Seq<u8>>, n: nat)
    ensures
        path_lines(paths, n).len() > 0 ==> path_lines(paths, n).last() == '\n',
{
    reveal_strlit("\n");
}

/// Every command of the front end comes from the key action that is meant for it,
/// and from no other.
pub proof fn law_actions_mean_their_commands(action: UserAction)
    ensures
        command_of(action) is FontScaleUp <==> action == UserAction::FontSize(
            FontSizeAction::Increase,
        ),
        command_of(action) is FontScaleDown <==> action == UserAction::FontSize(
            FontSizeAction::Decrease,
        ),
        command_of(action) is FontScaleReset <==> action == UserAction::FontSize(
            FontSizeAction::Reset,
        ),
        command_of(action) is WindowNew <==> action is WindowNew,
        command_of(action) is WindowClose <==> action is WindowClose,
{
}

} // verus!
