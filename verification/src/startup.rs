//! What the program is started with, and what it starts the editor with.

use vstd::prelude::*;

use crate::config::AppConfig;
use crate::paths::{copied_bytes, same_bytes, same_path, same_place, text_bytes};

verus! {

/// The command line. Arguments for the editor are kept as bytes.
#[derive(Debug, Clone, PartialEq, Eq)]
pub struct Args {
    pub show_config: bool,
    pub kak_bin: String,
    pub kak_args: Vec<Vec<u8>>,
}

/// The command line as sequences.
pub struct ArgsView {
    pub show_config: bool,
    pub kak_bin: Seq<char>,
    pub kak_args: Seq<Seq<u8>>,
}

impl DeepView for Args {
    type V = ArgsView;

    open spec fn deep_view(&self) -> ArgsView {
        ArgsView {
            show_config: self.show_config,
            kak_bin: self.kak_bin@,
            kak_args: self.kak_args.deep_view(),
        }
    }
}

/// Whether files are still expected that the system opens the program with.
#[derive(Debug, Clone, Copy, PartialEq, Eq, Structural)]
pub enum StartupOpenState {
    NoPendingStartupOpen,
    WaitingForStartupOpenFiles,
    StartupOpenHandled,
}

/// A copy of a list of byte runs.
pub(crate) fn copied_list(list: &[Vec<u8>]) -> (copy: Vec<Vec<u8>>)
    ensures
        copy.deep_view() == list.deep_view(),
{
    let mut copy: Vec<Vec<u8>> = Vec::new();
    push_list(&mut copy, list, 0);
    assert(list.deep_view().skip(0) =~= list.deep_view());
    assert(copy.deep_view() =~= list.deep_view());
    copy
}

/// Add a copy of some bytes to a list.
pub(crate) fn push_copy(list: &mut Vec<Vec<u8>>, bytes: &[u8])
    ensures
        final(list).deep_view() == old(list).deep_view().push(bytes@),
{
    let copy = copied_bytes(bytes);
    assert(copy.deep_view() =~= bytes@);
    list.push(copy);
    assert(list.deep_view() =~= old(list).deep_view().push(bytes@));
}

/// Add what a list holds from `from` on to another.
pub(crate) fn push_list(list: &mut Vec<Vec<u8>>, more: &[Vec<u8>], from: usize)
    requires
        from <= more@.len(),
    ensures
        final(list).deep_view() == old(list).deep_view() + more.deep_view().skip(from as int),
{
    let ghost tail = more.deep_view();
    assert(list.deep_view() =~= list.deep_view() + tail.subrange(from as int, from as int));
    for i in from..more.len()
        invariant
            from <= i <= more@.len(),
            tail == more.deep_view(),
            list.deep_view() == old(list).deep_view() + tail.subrange(from as int, i as int),
    {
        assert(tail[i as int] =~= more@[i as int]@);
        push_copy(list, more[i].as_slice());
        assert(tail.subrange(from as int, i + 1) =~= tail.subrange(from as int, i as int).push(
            tail[i as int],
        ));
    }
    assert(tail.subrange(from as int, more@.len() as int) =~= tail.skip(from as int));
}

/// Whether an argument is an option that names a session.
pub open spec fn names_session(arg: Seq<u8>) -> bool {
    arg == text_bytes("-c"@) || arg == text_bytes("-C"@) || arg == text_bytes("-s"@)
}

/// Whether an argument is an option that names a session.
fn is_session_option(arg: &[u8]) -> (yes: bool)
    ensures
        yes == names_session(arg@),
{
    same_bytes(arg, "-c".as_bytes()) || same_bytes(arg, "-C".as_bytes()) || same_bytes(
        arg,
        "-s".as_bytes(),
    )
}

/// The session named by the first option from `i` on that names one. An option
/// at the very end names none.
pub open spec fn session_from(args: Seq<Seq<u8>>, i: nat) -> Option<Seq<u8>>
    decreases args.len() - i,
{
    if i >= args.len() {
        None
    } else if names_session(args[i as int]) {
        if i + 1 < args.len() {
            Some(args[(i + 1) as int])
        } else {
            None
        }
    } else {
        session_from(args, i + 1)
    }
}

/// The session that arguments name.
pub open spec fn named_session(args: Seq<Seq<u8>>) -> Option<Seq<u8>> {
    session_from(args, 0)
}

/// The session that arguments name.
pub fn explicit_kakoune_session(kak_args: &[Vec<u8>]) -> (session: Option<Vec<u8>>)
    ensures
        match session {
            Some(name) => named_session(kak_args.deep_view()) == Some(name@),
            None => named_session(kak_args.deep_view()) is None,
        },
{
    let ghost args = kak_args.deep_view();
    for i in 0..kak_args.len()
        invariant
            args == kak_args.deep_view(),
            named_session(args) == session_from(args, i as nat),
    {
        assert(args[i as int] =~= kak_args@[i as int]@);
        if is_session_option(kak_args[i].as_slice()) {
            if i + 1 < kak_args.len() {
                assert(args[i + 1] =~= kak_args@[i + 1]@);
                return Some(copied_bytes(kak_args[i + 1].as_slice()));
            }
            return None;
        }
    }
    None
}

/// A number in decimal digits.
pub open spec fn decimal(n: nat) -> Seq<u8>
    decreases n,
{
    if n < 10 {
        seq![(48 + n) as u8]
    } else {
        decimal(n / 10).push((48 + n % 10) as u8)
    }
}

/// A number in decimal digits.
pub(crate) fn decimal_bytes(n: u32) -> (digits: Vec<u8>)
    ensures
        digits@ == decimal(n as nat),
    decreases n,
{
    if n < 10 {
        let mut digits: Vec<u8> = Vec::new();
        digits.push(48u8 + n as u8);
        assert(digits@ =~= decimal(n as nat));
        digits
    } else {
        let mut digits = decimal_bytes(n / 10);
        digits.push(48u8 + (n % 10) as u8);
        digits
    }
}

/// The session that the editor runs: the one that its arguments name, or else
/// one named by its process number.
pub open spec fn session_of(args: Seq<Seq<u8>>, child_id: u32) -> Seq<u8> {
    match named_session(args) {
        Some(name) => name,
        None => decimal(child_id as nat),
    }
}

/// The session that the editor runs.
pub fn resolve_kakoune_session(kak_args: &[Vec<u8>], child_id: u32) -> (session: Vec<u8>)
    ensures
        session@ == session_of(kak_args.deep_view(), child_id),
{
    match explicit_kakoune_session(kak_args) {
        Some(name) => name,
        None => decimal_bytes(child_id),
    }
}

/// The arguments that the editor is started with: with a single session they
/// name it, unless they name another already.
pub open spec fn session_args(
    single_session: bool,
    session_name: Seq<char>,
    args: Seq<Seq<u8>>,
) -> Seq<Seq<u8>> {
    if !single_session || named_session(args) is Some {
        args
    } else {
        seq![text_bytes("-C"@), text_bytes(session_name)] + args
    }
}

/// The arguments that the editor is started with.
fn startup_kak_args(config: &AppConfig, kak_args: Vec<Vec<u8>>) -> (args: Vec<Vec<u8>>)
    ensures
        args.deep_view() == session_args(
            config.single_session,
            config.session_name@,
            kak_args.deep_view(),
        ),
{
    if !config.single_session || explicit_kakoune_session(kak_args.as_slice()).is_some() {
        return kak_args;
    }
    let mut args: Vec<Vec<u8>> = Vec::new();
    push_copy(&mut args, "-C".as_bytes());
    push_copy(&mut args, config.session_name.as_str().as_bytes());
    push_list(&mut args, kak_args.as_slice(), 0);
    assert(kak_args.deep_view().skip(0) =~= kak_args.deep_view());
    assert(args.deep_view() =~= session_args(
        config.single_session,
        config.session_name@,
        kak_args.deep_view(),
    ));
    args
}

/// The command line for the first window: that of the program, with files that
/// the system opens in place of its own arguments.
pub open spec fn first_args(
    base: ArgsView,
    single_session: bool,
    session_name: Seq<char>,
    paths: Seq<Seq<u8>>,
) -> ArgsView {
    ArgsView {
        show_config: base.show_config,
        kak_bin: base.kak_bin,
        kak_args: session_args(
            single_session,
            session_name,
            if paths.len() == 0 {
                base.kak_args
            } else {
                paths
            },
        ),
    }
}

/// The command line for the first window.
pub fn startup_args(base_args: &Args, config: &AppConfig, paths: &[Vec<u8>]) -> (args: Args)
    ensures
        args.deep_view() == first_args(
            base_args.deep_view(),
            config.single_session,
            config.session_name@,
            paths.deep_view(),
        ),
{
    let kak_args = if paths.len() == 0 {
        copied_list(base_args.kak_args.as_slice())
    } else {
        copied_list(paths)
    };
    Args {
        show_config: base_args.show_config,
        kak_bin: base_args.kak_bin.clone(),
        kak_args: startup_kak_args(config, kak_args),
    }
}

/// Whether files are expected that the system opens the program with: on macOS,
/// for a program that was started without arguments.
pub fn startup_open_state_for_launch(is_macos: bool, kak_args: &[Vec<u8>]) -> (state:
    StartupOpenState)
    ensures
        state == if is_macos && kak_args@.len() == 0 {
            StartupOpenState::WaitingForStartupOpenFiles
        } else {
            StartupOpenState::NoPendingStartupOpen
        },
        opens_first_window(state, false, false) <==> is_macos && kak_args@.len() == 0,
        needs_first_window(state, false, false),
{
    if is_macos && kak_args.len() == 0 {
        StartupOpenState::WaitingForStartupOpenFiles
    } else {
        StartupOpenState::NoPendingStartupOpen
    }
}

/// Whether files that the system opens make the first window.
pub open spec fn opens_first_window(
    state: StartupOpenState,
    has_clients: bool,
    has_session: bool,
) -> bool {
    state == StartupOpenState::WaitingForStartupOpenFiles && !has_clients && !has_session
}

/// Whether files that the system opens make the first window.
pub fn should_handle_startup_open_with_files(
    state: StartupOpenState,
    has_clients: bool,
    has_session: bool,
) -> (yes: bool)
    ensures
        yes == opens_first_window(state, has_clients, has_session),
{
    state == StartupOpenState::WaitingForStartupOpenFiles && !has_clients && !has_session
}

/// Whether a first window is still to be made when nothing else made one.
pub open spec fn needs_first_window(
    state: StartupOpenState,
    has_clients: bool,
    has_session: bool,
) -> bool {
    state != StartupOpenState::StartupOpenHandled && !has_clients && !has_session
}

/// Whether a first window is still to be made when nothing else made one.
pub fn should_create_fallback_startup_client(
    state: StartupOpenState,
    has_clients: bool,
    has_session: bool,
) -> (yes: bool)
    ensures
        yes == needs_first_window(state, has_clients, has_session),
{
    state != StartupOpenState::StartupOpenHandled && !has_clients && !has_session
}

/// Whether an argument is an option that takes the next argument as its value.
pub open spec fn takes_value(arg: Seq<u8>) -> bool {
    names_session(arg) || arg == text_bytes("-e"@)
}

/// The byte that options begin with.
pub const DASH: u8 = 0x2d;

/// Whether an argument is an option.
pub open spec fn is_option(arg: Seq<u8>) -> bool {
    arg.len() > 0 && arg[0] == DASH
}

/// The files among the arguments from `i` on: what is neither an option nor the
/// value of one, and everything behind a double dash.
pub open spec fn files_from(args: Seq<Seq<u8>>, i: nat) -> Seq<Seq<u8>>
    decreases args.len() + 1 - i,
{
    if i >= args.len() {
        Seq::empty()
    } else if args[i as int] == text_bytes("--"@) {
        args.skip((i + 1) as int)
    } else if takes_value(args[i as int]) {
        files_from(args, i + 2)
    } else if is_option(args[i as int]) {
        files_from(args, i + 1)
    } else {
        seq![args[i as int]] + files_from(args, i + 1)
    }
}

/// The files among the arguments.
pub fn startup_open_files(kak_args: &[Vec<u8>]) -> (files: Vec<Vec<u8>>)
    ensures
        files.deep_view() == files_from(kak_args.deep_view(), 0),
{
    let ghost args = kak_args.deep_view();
    let mut files: Vec<Vec<u8>> = Vec::new();
    let mut i: usize = 0;
    assert(files.deep_view() + files_from(args, 0) =~= files_from(args, 0));
    while i < kak_args.len()
        invariant
            args == kak_args.deep_view(),
            files.deep_view() + files_from(args, i as nat) == files_from(args, 0),
        decreases kak_args@.len() - i,
    {
        let arg = kak_args[i].as_slice();
        assert(args[i as int] =~= arg@);
        if same_bytes(arg, "--".as_bytes()) {
            push_list(&mut files, kak_args, i + 1);
            return files;
        }
        if is_session_option(arg) || same_bytes(arg, "-e".as_bytes()) {
            if i + 1 >= kak_args.len() {
                assert(files_from(args, (i + 2) as nat) =~= Seq::empty());
                assert(files.deep_view() + Seq::empty() =~= files.deep_view());
                return files;
            }
            i = i + 2;
        } else if arg.len() > 0 && arg[0] == DASH {
            i = i + 1;
        } else {
            let ghost before = files.deep_view();
            push_copy(&mut files, arg);
            assert(before.push(arg@) + files_from(args, (i + 1) as nat) =~= before + (seq![arg@]
                + files_from(args, (i + 1) as nat)));
            i = i + 1;
        }
    }
    assert(files.deep_view() + Seq::empty() =~= files.deep_view());
    files
}

/// Whether two lists of paths are written for the same places.
pub open spec fn same_places(a: Seq<Seq<u8>>, b: Seq<Seq<u8>>) -> bool {
    a.len() == b.len() && forall|i: int| 0 <= i < a.len() ==> same_place(#[trigger] a[i], b[i])
}

/// Whether two lists of paths are written for the same places.
fn same_paths(a: &[Vec<u8>], b: &[Vec<u8>]) -> (yes: bool)
    ensures
        yes == same_places(a.deep_view(), b.deep_view()),
{
    if a.len() != b.len() {
        return false;
    }
    for i in 0..a.len()
        invariant
            a@.len() == b@.len(),
            forall|k: int|
                0 <= k < i ==> same_place(#[trigger] a.deep_view()[k], b.deep_view()[k]),
    {
        assert(a.deep_view()[i as int] =~= a@[i as int]@);
        assert(b.deep_view()[i as int] =~= b@[i as int]@);
        if !same_path(a[i].as_slice(), b[i].as_slice()) {
            return false;
        }
    }
    true
}

/// Whether a request to open files only repeats the files of the command line.
/// Such a request is expected once.
pub fn should_ignore_startup_open_files(
    pending_startup_open_files: &mut Option<Vec<Vec<u8>>>,
    paths: &[Vec<u8>],
) -> (ignored: bool)
    ensures
        ignored == match *old(pending_startup_open_files) {
            Some(pending) => same_places(pending.deep_view(), paths.deep_view()),
            None => false,
        },
        ignored ==> *final(pending_startup_open_files) is None,
        !ignored ==> *final(pending_startup_open_files) == *old(pending_startup_open_files),
{
    let ignored = match &*pending_startup_open_files {
        Some(pending) => same_paths(pending.as_slice(), paths),
        None => false,
    };
    if ignored {
        *pending_startup_open_files = None;
    }
    ignored
}

/// The command line for a window on a session that runs already.
pub fn connected_kakoune_args(kak_bin: &str, kakoune_session: &[u8], paths: &[Vec<u8>]) -> (args:
    Args)
    ensures
        args.deep_view() == (ArgsView {
            show_config: false,
            kak_bin: kak_bin@,
            kak_args: seq![text_bytes("-c"@), kakoune_session@] + paths.deep_view(),
        }),
        named_session(args.kak_args.deep_view()) == Some(kakoune_session@),
        paths.deep_view().is_suffix_of(args.kak_args.deep_view()),
        args.kak_args@.len() == paths@.len() + 2,
        args.kak_bin@ == kak_bin@,
{
    let mut kak_args: Vec<Vec<u8>> = Vec::new();
    push_copy(&mut kak_args, "-c".as_bytes());
    push_copy(&mut kak_args, kakoune_session);
    push_list(&mut kak_args, paths, 0);
    assert(paths.deep_view().skip(0) =~= paths.deep_view());
    assert(kak_args.deep_view() =~= seq![text_bytes("-c"@), kakoune_session@] + paths.deep_view());
    proof {
        let all = kak_args.deep_view();
        assert(all[0] == text_bytes("-c"@));
        assert(all[1] == kakoune_session@);
        assert(all.subrange(2, all.len() as int) =~= paths.deep_view());
    }
    Args { show_config: false, kak_bin: kak_bin.to_string(), kak_args }
}

/// With a single session the editor's arguments name a session: the one that
/// they named, or else the one that is set. Naming it twice changes nothing.
pub proof fn law_single_session_is_named(session_name: Seq<char>, args: Seq<Seq<u8>>)
    ensures
        ({
            let named = session_args(true, session_name, args);
            &&& named_session(named) == match named_session(args) {
                Some(name) => Some(name),
                None => Some(text_bytes(session_name)),
            }
            &&& named_session(args) is Some ==> named == args
            &&& session_args(true, session_name, named) == named
        }),
{
    let named = session_args(true, session_name, args);
    if named_session(args) is None {
        assert(named[0] == text_bytes("-C"@));
        assert(named[1] == text_bytes(session_name));
    }
}

/// Without a single session the arguments stay as they are.
pub proof fn law_arguments_are_kept_without_single_session(
    session_name: Seq<char>,
    args: Seq<Seq<u8>>,
)
    ensures
        session_args(false, session_name, args) == args,
{
}

/// The files of a list of files, none of which looks like an option, are all of
/// them.
proof fn lemma_plain_files(args: Seq<Seq<u8>>, i: nat)
    requires
        i <= args.len(),
        forall|k: int| i <= k < args.len() ==> !is_option(#[trigger] args[k]),
    ensures
        files_from(args, i) == args.skip(i as int),
    decreases args.len() - i,
{
    if i < args.len() {
        lemma_plain_files(args, i + 1);
        lemma_option_bytes();
        assert(!is_option(args[i as int]));
        assert(seq![args[i as int]] + args.skip((i + 1) as int) =~= args.skip(i as int));
    } else {
        assert(args.skip(i as int) =~= Seq::empty());
    }
}

/// The options that are told apart begin as options do.
proof fn lemma_option_bytes()
    ensures
        is_option(text_bytes("--"@)),
        is_option(text_bytes("-e"@)),
        is_option(text_bytes("-c"@)),
        is_option(text_bytes("-C"@)),
        is_option(text_bytes("-s"@)),
        text_bytes("-c"@) != text_bytes("--"@),
{
    reveal_strlit("--");
    reveal_strlit("-e");
    reveal_strlit("-c");
    reveal_strlit("-C");
    reveal_strlit("-s");
    vstd::utf8::is_ascii_chars_encode_utf8("--"@);
    vstd::utf8::is_ascii_chars_encode_utf8("-e"@);
    vstd::utf8::is_ascii_chars_encode_utf8("-c"@);
    vstd::utf8::is_ascii_chars_encode_utf8("-C"@);
    vstd::utf8::is_ascii_chars_encode_utf8("-s"@);
    assert(text_bytes("-c"@)[1] != text_bytes("--"@)[1]);
}

/// A window on a session that runs already joins that session, and opens its
/// files, if none of them looks like an option.
pub proof fn law_connected_window_joins_its_session(
    session: Seq<u8>,
    paths: Seq<Seq<u8>>,
    child_id: u32,
)
    ensures
        ({
            let args = seq![text_bytes("-c"@), session] + paths;
            &&& session_of(args, child_id) == session
            &&& (forall|k: int| 0 <= k < paths.len() ==> !is_option(#[trigger] paths[k]))
                ==> files_from(args, 0) == paths
        }),
{
    let args = seq![text_bytes("-c"@), session] + paths;
    assert(args[0] == text_bytes("-c"@));
    assert(args[1] == session);
    lemma_option_bytes();
    if forall|k: int| 0 <= k < paths.len() ==> !is_option(#[trigger] paths[k]) {
        assert forall|k: int| 2 <= k < args.len() implies !is_option(#[trigger] args[k]) by {
            assert(args[k] == paths[k - 2]);
        }
        lemma_plain_files(args, 2);
        assert(args.skip(2) =~= paths);
    }
}

/// Whatever opens the first window, it is opened once: files only open it while
/// one is needed, and once it is opened neither files nor the fallback do.
pub proof fn law_first_window_is_opened_once(
    state: StartupOpenState,
    has_clients: bool,
    has_session: bool,
)
    ensures
        opens_first_window(state, has_clients, has_session) ==> needs_first_window(
            state,
            has_clients,
            has_session,
        ),
        has_session ==> !needs_first_window(state, has_clients, has_session),
        !needs_first_window(StartupOpenState::StartupOpenHandled, has_clients, has_session),
{
}

/// The session that arguments name is the argument behind the first `-c`, `-C` or
/// `-s`, and there is none where that option stands last or is not there.
pub proof fn law_session_follows_its_option(args: Seq<Seq<u8>>, i: nat)
    requires
        i < args.len(),
        args[i as int] == text_bytes("-c"@) || args[i as int] == text_bytes("-C"@) || args[i as int]
            == text_bytes("-s"@),
        forall|k: int|
            0 <= k < i ==> #[trigger] args[k] != text_bytes("-c"@) && args[k] != text_bytes("-C"@)
                && args[k] != text_bytes("-s"@),
    ensures
        i + 1 < args.len() ==> named_session(args) == Some(args[(i + 1) as int]),
        i + 1 == args.len() ==> named_session(args) is None,
{
    lemma_session_from(args, 0, i);
}

/// Arguments before the option make no difference.
proof fn lemma_session_from(args: Seq<Seq<u8>>, from: nat, i: nat)
    requires
        from <= i <= args.len(),
        forall|k: int|
            from <= k < i ==> #[trigger] args[k] != text_bytes("-c"@) && args[k] != text_bytes(
                "-C"@,
            ) && args[k] != text_bytes("-s"@),
    ensures
        session_from(args, from) == session_from(args, i),
    decreases i - from,
{
    if from < i {
        assert(args[from as int] != text_bytes("-c"@));
        lemma_session_from(args, from + 1, i);
    }
}

/// Arguments without such an option name no session, and the session then bears
/// the number of the process.
pub proof fn law_session_without_option_is_the_process(args: Seq<Seq<u8>>, child_id: u32)
    requires
        forall|k: int|
            0 <= k < args.len() ==> #[trigger] args[k] != text_bytes("-c"@) && args[k]
                != text_bytes("-C"@) && args[k] != text_bytes("-s"@),
    ensures
        named_session(args) is None,
        number_of(session_of(args, child_id)) == child_id,
{
    lemma_session_from(args, 0, args.len());
    law_decimal_is_read_back(child_id as nat);
}

/// The number that digits stand for.
pub open spec fn number_of(digits: Seq<u8>) -> int
    decreases digits.len(),
{
    if digits.len() == 0 {
        0
    } else {
        number_of(digits.drop_last()) * 10 + (digits.last() - 48)
    }
}

/// A number in digits is read back as the number: it has digits only, at least
/// one, and no zero too many at its front.
pub proof fn law_decimal_is_read_back(n: nat)
    ensures
        number_of(decimal(n)) == n,
        decimal(n).len() > 0,
        forall|k: int| 0 <= k < decimal(n).len() ==> 48 <= #[trigger] decimal(n)[k] <= 57,
        n > 0 ==> decimal(n)[0] != 48,
    decreases n,
{
    reveal_with_fuel(number_of, 2);
    if n >= 10 {
        law_decimal_is_read_back(n / 10);
        let digits = decimal(n);
        assert(digits.drop_last() =~= decimal(n / 10));
        assert(digits[0] == decimal(n / 10)[0]);
        assert forall|k: int| 0 <= k < digits.len() implies 48 <= #[trigger] digits[k] <= 57 by {
            if k < digits.len() - 1 {
                assert(digits[k] == decimal(n / 10)[k]);
            }
        }
    } else {
        assert(decimal(n).drop_last() =~= Seq::empty());
    }
}

/// The first window keeps the settings of the command line. It opens the files of
/// the system, where there are any, and otherwise what the command line names.
pub proof fn law_first_window_opens_its_files(
    base: ArgsView,
    single_session: bool,
    session_name: Seq<char>,
    paths: Seq<Seq<u8>>,
)
    ensures
        ({
            let args = first_args(base, single_session, session_name, paths);
            let opened = if paths.len() > 0 {
                paths
            } else {
                base.kak_args
            };
            &&& args.show_config == base.show_config
            &&& args.kak_bin == base.kak_bin
            &&& opened.is_suffix_of(args.kak_args)
            &&& !single_session || named_session(opened) is Some ==> args.kak_args == opened
            &&& single_session && named_session(opened) is None ==> args.kak_args.len()
                == opened.len() + 2 && args.kak_args[0] == text_bytes("-C"@) && args.kak_args[1]
                == text_bytes(session_name)
        }),
{
    let args = first_args(base, single_session, session_name, paths);
    let opened = if paths.len() > 0 {
        paths
    } else {
        base.kak_args
    };
    assert(args.kak_args.subrange(
        args.kak_args.len() - opened.len(),
        args.kak_args.len() as int,
    ) =~= opened);
}

/// The files among arguments do not depend on how many stand before them.
proof fn lemma_files_behind(head: Seq<Seq<u8>>, rest: Seq<Seq<u8>>, i: nat)
    ensures
        files_from(head + rest, head.len() + i) == files_from(rest, i),
    decreases rest.len() + 1 - i,
{
    let all = head + rest;
    if i < rest.len() {
        assert(all[(head.len() + i) as int] == rest[i as int]);
        lemma_files_behind(head, rest, i + 1);
        lemma_files_behind(head, rest, i + 2);
        assert(all.skip((head.len() + i + 1) as int) =~= rest.skip((i + 1) as int));
    }
}

/// An option that takes a value hides it: behind `-c`, `-C`, `-s` and `-e` neither
/// the option nor its value is a file.
pub proof fn law_option_values_are_no_files(
    option: Seq<u8>,
    value: Seq<u8>,
    rest: Seq<Seq<u8>>,
)
    requires
        option == text_bytes("-c"@) || option == text_bytes("-C"@) || option == text_bytes("-s"@)
            || option == text_bytes("-e"@),
    ensures
        files_from(seq![option, value] + rest, 0) == files_from(rest, 0),
        files_from(seq![option], 0) == Seq::<Seq<u8>>::empty(),
{
    lemma_options_are_told_apart();
    let all = seq![option, value] + rest;
    assert(all[0] == option);
    lemma_files_behind(seq![option, value], rest, 0);
    assert(seq![option][0] == option);
    assert(files_from(seq![option], 2) == Seq::<Seq<u8>>::empty());
}

/// The options with a value are no double dash.
proof fn lemma_options_are_told_apart()
    ensures
        text_bytes("-c"@) != text_bytes("--"@),
        text_bytes("-C"@) != text_bytes("--"@),
        text_bytes("-s"@) != text_bytes("--"@),
        text_bytes("-e"@) != text_bytes("--"@),
{
    reveal_strlit("--");
    reveal_strlit("-e");
    reveal_strlit("-c");
    reveal_strlit("-C");
    reveal_strlit("-s");
    vstd::utf8::is_ascii_chars_encode_utf8("--"@);
    vstd::utf8::is_ascii_chars_encode_utf8("-e"@);
    vstd::utf8::is_ascii_chars_encode_utf8("-c"@);
    vstd::utf8::is_ascii_chars_encode_utf8("-C"@);
    vstd::utf8::is_ascii_chars_encode_utf8("-s"@);
    assert(text_bytes("-c"@)[1] != text_bytes("--"@)[1]);
    assert(text_bytes("-C"@)[1] != text_bytes("--"@)[1]);
    assert(text_bytes("-s"@)[1] != text_bytes("--"@)[1]);
    assert(text_bytes("-e"@)[1] != text_bytes("--"@)[1]);
}

/// Any other argument that begins with a dash is no file, and hides nothing; what
/// begins otherwise is a file; and behind a double dash everything is.
pub proof fn law_files_are_told_from_options(arg: Seq<u8>, rest: Seq<Seq<u8>>)
    ensures
        arg.len() == 0 || arg[0] != 0x2d ==> files_from(seq![arg] + rest, 0) == seq![arg]
            + files_from(rest, 0),
        arg.len() > 0 && arg[0] == 0x2d && arg != text_bytes("-c"@) && arg != text_bytes("-C"@)
            && arg != text_bytes("-s"@) && arg != text_bytes("-e"@) && arg != text_bytes("--"@)
            ==> files_from(seq![arg] + rest, 0) == files_from(rest, 0),
        arg == text_bytes("--"@) ==> files_from(seq![arg] + rest, 0) == rest,
        files_from(Seq::empty(), 0) == Seq::<Seq<u8>>::empty(),
{
    lemma_option_bytes();
    let all = seq![arg] + rest;
    assert(all[0] == arg);
    lemma_files_behind(seq![arg], rest, 0);
    assert(all.skip(1) =~= rest);
}

/// Files of the system open the first window exactly while they are waited for
/// and no window and no session is there yet; with a window or a session no other
/// is needed, and without either one is needed until it has been opened.
pub proof fn law_first_window_needs_an_empty_start(
    state: StartupOpenState,
    has_clients: bool,
    has_session: bool,
)
    ensures
        has_clients || has_session ==> !opens_first_window(state, has_clients, has_session)
            && !needs_first_window(state, has_clients, has_session),
        opens_first_window(state, false, false) == (state is WaitingForStartupOpenFiles),
        needs_first_window(state, false, false) == !(state is StartupOpenHandled),
{
}

/// Two requests for the same files ask for as many, in the same order.
pub proof fn law_same_places_pair_up(a: Seq<Seq<u8>>, b: Seq<Seq<u8>>, i: int)
    requires
        same_places(a, b),
        0 <= i < a.len(),
    ensures
        a.len() == b.len(),
        crate::paths::path_parts(a[i]) == crate::paths::path_parts(b[i]),
{
    assert(same_place(a[i], b[i]));
}

} // verus!
