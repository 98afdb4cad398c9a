//! How the editor is run, and what it says on its way out.

use vstd::prelude::*;

use crate::paths::{
    copied_bytes, join_path, join_unix_paths, joined_list, joined_path, push_bytes, same_bytes,
    split_list, split_unix_path, text_bytes, SEPARATOR,
};
use crate::startup::{decimal, decimal_bytes, push_copy, push_list, Args};
use crate::strings::{occurs_at, pieces, trim_text, trimmed};
use crate::text::text_chars;
use crate::title::WINDOW_TITLE_UI_OPTION;

verus! {

/// `std::str::Utf8Error`, where bytes stop being text.
#[verifier::external_type_specification]
#[verifier::external_body]
pub struct ExUtf8Error(std::str::Utf8Error);

/// `std::str::from_utf8`.
///
/// Trusted: bytes that are valid UTF-8 give the text that they encode, and no
/// others give a text.
pub assume_specification [std::str::from_utf8](v: &[u8]) -> (text: Result<
    &str,
    std::str::Utf8Error,
>)
    ensures
        match text {
            Ok(found) => vstd::utf8::valid_utf8(v@) && found@ == vstd::utf8::decode_utf8(v@),
            Err(_) => !vstd::utf8::valid_utf8(v@),
        },
;

/// What bytes say as text, with replacement characters for what is no text.
pub uninterp spec fn lossy_text(bytes: Seq<u8>) -> Seq<char>;

/// `String::from_utf8_lossy`.
///
/// Trusted: the text is a function of the bytes, and for bytes that are valid
/// UTF-8 it is the text that they encode.
#[verifier::external_body]
pub(crate) fn lossy_string(bytes: &[u8]) -> (text: String)
    ensures
        text@ == lossy_text(bytes@),
        vstd::utf8::valid_utf8(bytes@) ==> text@ == vstd::utf8::decode_utf8(bytes@),
{
    String::from_utf8_lossy(bytes).into_owned()
}

/// What bytes say as text: what they encode, where they are valid UTF-8, and what
/// is left of them with replacement characters, where they are not.
pub open spec fn text_in(bytes: Seq<u8>) -> Seq<char> {
    if vstd::utf8::valid_utf8(bytes) {
        vstd::utf8::decode_utf8(bytes)
    } else {
        lossy_text(bytes)
    }
}

/// Bytes without the given byte at their end.
pub open spec fn without_last(bytes: Seq<u8>, byte: u8) -> Seq<u8> {
    if bytes.len() > 0 && bytes.last() == byte {
        bytes.drop_last()
    } else {
        bytes
    }
}

/// A line without its line ending: a line feed, a carriage return, or both.
pub open spec fn without_line_ending(line: Seq<u8>) -> Seq<u8> {
    without_last(without_last(line, 0x0a), 0x0d)
}

/// A line without its line ending.
pub fn trim_line_ending(line: &[u8]) -> (rest: &[u8])
    ensures
        rest@ == without_line_ending(line@),
{
    let mut end: usize = line.len();
    if end > 0 && line[end - 1] == 0x0a {
        end = end - 1;
    }
    assert(line@.subrange(0, end as int) =~= without_last(line@, 0x0a));
    if end > 0 && line[end - 1] == 0x0d {
        end = end - 1;
    }
    let rest = vstd::slice::slice_subrange(line, 0, end);
    assert(rest@ =~= without_line_ending(line@));
    rest
}

/// A line that the editor has written. Where it is no text, it is read with
/// replacement characters, and the fault is kept.
#[derive(Debug)]
pub struct JsonUiLine {
    pub text: String,
    pub utf8_error: Option<std::str::Utf8Error>,
    pub byte_len: usize,
}

/// Read a line that the editor has written.
pub fn decode_json_ui_line(raw_line: &[u8]) -> (line: JsonUiLine)
    ensures
        ({
            let bytes = without_line_ending(raw_line@);
            &&& line.byte_len == bytes.len()
            &&& line.utf8_error is None <==> vstd::utf8::valid_utf8(bytes)
            &&& line.text@ == text_in(bytes)
        }),
{
    let bytes = trim_line_ending(raw_line);
    match std::str::from_utf8(bytes) {
        Ok(text) => JsonUiLine {
            text: text.to_string(),
            utf8_error: None,
            byte_len: bytes.len(),
        },
        Err(error) => JsonUiLine {
            text: lossy_string(bytes),
            utf8_error: Some(error),
            byte_len: bytes.len(),
        },
    }
}

/// What a message about a closed client begins with.
pub const CLIENT_CLOSE_PREFIX: &'static str = "KAKVIDE_CLIENT_CLOSE:";

/// The first place of a character in a text.
pub open spec fn first_colon(text: Seq<char>, from: nat) -> Option<nat>
    decreases text.len() - from,
{
    if from >= text.len() {
        None
    } else if text[from as int] == ':' {
        Some(from)
    } else {
        first_colon(text, from + 1)
    }
}

/// A client that was closed, and the session that it belonged to.
pub struct ClosedView {
    pub session: Seq<char>,
    pub client: Seq<char>,
}

/// The session and the client in a message about a closed client: what stands
/// before and behind the first colon, if neither is empty.
pub open spec fn closed_client(message: Seq<char>) -> Option<ClosedView> {
    let prefix = CLIENT_CLOSE_PREFIX@;
    if !occurs_at(message, prefix, 0) {
        None
    } else {
        let rest = message.skip(prefix.len() as int);
        match first_colon(rest, 0) {
            Some(at) => if at > 0 && at + 1 < rest.len() {
                Some(
                    ClosedView {
                        session: rest.take(at as int),
                        client: rest.skip((at + 1) as int),
                    },
                )
            } else {
                None
            },
            None => None,
        }
    }
}

/// The first colon in a text, from a place on.
fn find_colon(text: &Vec<char>, from: usize) -> (place: Option<usize>)
    requires
        from <= text@.len(),
    ensures
        match place {
            Some(at) => first_colon(text@, from as nat) == Some(at as nat) && from <= at
                < text@.len(),
            None => first_colon(text@, from as nat) is None,
        },
{
    let mut at: usize = from;
    while at < text.len()
        invariant
            from <= at <= text@.len(),
            first_colon(text@, from as nat) == first_colon(text@, at as nat),
        decreases text@.len() - at,
    {
        if text[at] == ':' {
            return Some(at);
        }
        at = at + 1;
    }
    None
}

/// The place of the first colon does not depend on what stands before.
proof fn lemma_colon_in_rest(text: Seq<char>, from: nat, start: nat)
    requires
        start <= from,
        from <= text.len(),
    ensures
        first_colon(text.skip(start as int), (from - start) as nat) == match first_colon(
            text,
            from,
        ) {
            Some(at) => Some((at - start) as nat),
            None => None,
        },
    decreases text.len() - from,
{
    if from < text.len() {
        assert(text.skip(start as int)[from - start] == text[from as int]);
        if text[from as int] != ':' {
            lemma_colon_in_rest(text, from + 1, start);
        }
    }
}

/// The session and the client in a message about a closed client.
pub fn parse_client_close_message(message: &str) -> (closed: Option<(Vec<u8>, String)>)
    ensures
        match (closed, closed_client(message@)) {
            (Some(found), Some(expected)) => found.0@ == text_bytes(expected.session) && found.1@
                == expected.client,
            (None, None) => true,
            _ => false,
        },
{
    let chars = text_chars(message);
    let prefix = text_chars(CLIENT_CLOSE_PREFIX);
    if !crate::strings::chars_at(&chars, &prefix, 0) {
        return None;
    }
    let start: usize = prefix.len();
    let end: usize = chars.len();
    proof {
        lemma_colon_in_rest(message@, start as nat, start as nat);
    }
    match find_colon(&chars, start) {
        Some(at) => {
            if at > start && at + 1 < end {
                let session = message.substring_char(start, at);
                let client = message.substring_char(at + 1, end);
                let ghost rest = message@.skip(start as int);
                assert(session@ =~= rest.take(at - start));
                assert(client@ =~= rest.skip(at - start + 1));
                Some((copied_bytes(session.as_bytes()), client.to_string()))
            } else {
                None
            }
        },
        None => None,
    }
}

/// What a client that is closing has written: the session and the client, white
/// space at the ends aside.
pub fn read_client_close_message(message: &str) -> (closed: Option<(Vec<u8>, String)>)
    ensures
        match (closed, closed_client(trimmed(message@))) {
            (Some(found), Some(expected)) => found.0@ == text_bytes(expected.session) && found.1@
                == expected.client,
            (None, None) => true,
            _ => false,
        },
{
    parse_client_close_message(trim_text(message))
}

/// The lines of a text.
fn text_lines(text: &str) -> (lines: Vec<String>)
    ensures
        lines.deep_view() == pieces(text@, '\n'),
{
    let chars = text_chars(text);
    let mut lines: Vec<String> = Vec::new();
    let mut last = String::new();
    assert(lines.deep_view().push(last@) =~= pieces(text@.take(0), '\n'));
    for i in 0..chars.len()
        invariant
            chars@ == text@,
            lines.deep_view().push(last@) == pieces(text@.take(i as int), '\n'),
    {
        assert(text@.take(i + 1).drop_last() =~= text@.take(i as int));
        assert(text@.take(i + 1).last() == chars@[i as int]);
        let ghost before = lines.deep_view();
        let ghost tail = last@;
        assert(before.push(tail).last() == tail);
        assert(before.push(tail).drop_last() =~= before);
        if chars[i] == '\n' {
            lines.push(last);
            assert(lines.deep_view() =~= before.push(tail));
            last = String::new();
            assert(last@ =~= Seq::empty());
        } else {
            last.push(chars[i]);
        }
    }
    assert(text@.take(chars.len() as int) =~= text@);
    let ghost before = lines.deep_view();
    let ghost tail = last@;
    lines.push(last);
    assert(lines.deep_view() =~= before.push(tail));
    lines
}

/// The session names on the first `n` of some lines: what is left of each line
/// without the white space at its ends, if anything is.
pub open spec fn names_on_lines(lines: Seq<Seq<char>>, n: nat) -> Seq<Seq<u8>>
    decreases n,
{
    if n == 0 {
        Seq::empty()
    } else {
        let before = names_on_lines(lines, (n - 1) as nat);
        let name = trimmed(lines[n - 1]);
        if name.len() == 0 {
            before
        } else {
            before.push(text_bytes(name))
        }
    }
}

/// The session names in a list of sessions, one on a line.
pub open spec fn listed_sessions(text: Seq<char>) -> Seq<Seq<u8>> {
    let lines = pieces(text, '\n');
    names_on_lines(lines, lines.len())
}

/// The session names in a list of sessions, one on a line.
pub fn session_names(text: &str) -> (sessions: Vec<Vec<u8>>)
    ensures
        sessions.deep_view() == listed_sessions(text@),
{
    let lines = text_lines(text);
    let ghost views = lines.deep_view();
    let mut sessions: Vec<Vec<u8>> = Vec::new();
    assert(sessions.deep_view() =~= Seq::empty());
    for i in 0..lines.len()
        invariant
            views == lines.deep_view(),
            sessions.deep_view() == names_on_lines(views, i as nat),
    {
        assert(views[i as int] == lines@[i as int]@);
        let name = trim_text(lines[i].as_str());
        if !name.is_empty() {
            push_copy(&mut sessions, name.as_bytes());
        }
    }
    sessions
}

/// The session names that the editor has listed.
pub fn parse_kakoune_sessions(output: &[u8]) -> (sessions: Vec<Vec<u8>>)
    ensures
        sessions.deep_view() == listed_sessions(text_in(output@)),
{
    let text = lossy_string(output);
    session_names(text.as_str())
}

/// A text without the quotes at its front.
pub open spec fn without_leading_quotes(text: Seq<char>) -> Seq<char>
    decreases text.len(),
{
    if text.len() > 0 && text.first() == '\'' {
        without_leading_quotes(text.drop_first())
    } else {
        text
    }
}

/// A text as it stands inside quotes: a quote ends the quoted text, stands
/// escaped, and begins quoted text again.
pub open spec fn escaped(text: Seq<char>) -> Seq<char>
    decreases text.len(),
{
    if text.len() == 0 {
        Seq::empty()
    } else if text.last() == '\'' {
        escaped(text.drop_last()) + "'\\''"@
    } else {
        escaped(text.drop_last()).push(text.last())
    }
}

/// A text in quotes for the shell. Quotes at the front of the text are left out.
pub open spec fn shell_quoted(text: Seq<char>) -> Seq<char> {
    "'"@ + escaped(without_leading_quotes(text)) + "'"@
}

/// A text in quotes for the shell.
pub fn shell_quote(value: &str) -> (quoted: String)
    ensures
        quoted@ == shell_quoted(value@),
{
    let chars = text_chars(value);
    let mut start: usize = 0;
    assert(value@.skip(0) =~= value@);
    while start < chars.len() && chars[start] == '\''
        invariant
            chars@ == value@,
            start <= chars@.len(),
            without_leading_quotes(value@) == without_leading_quotes(value@.skip(start as int)),
        decreases chars@.len() - start,
    {
        assert(value@.skip(start as int).drop_first() =~= value@.skip(start + 1));
        start = start + 1;
    }
    let ghost rest = value@.skip(start as int);
    assert(without_leading_quotes(value@) == rest);
    let mut quoted = "'".to_string();
    assert(quoted@ =~= "'"@ + escaped(rest.take(0)));
    for i in start..chars.len()
        invariant
            chars@ == value@,
            start <= i <= chars@.len(),
            rest == value@.skip(start as int),
            quoted@ == "'"@ + escaped(rest.take(i - start)),
    {
        assert(rest.take(i - start + 1).drop_last() =~= rest.take(i - start));
        assert(rest.take(i - start + 1).last() == chars@[i as int]);
        if chars[i] == '\'' {
            quoted.append("'\\''");
            assert(quoted@ =~= "'"@ + (escaped(rest.take(i - start)) + "'\\''"@));
        } else {
            quoted.push(chars[i]);
            assert(quoted@ =~= "'"@ + escaped(rest.take(i - start)).push(chars@[i as int]));
        }
    }
    assert(rest.take(chars@.len() - start) =~= rest);
    quoted.append("'");
    quoted
}

/// What the shell reads from a word of quoted parts and escaped characters;
/// nothing where quotes are left open or where anything else stands in it.
pub open spec fn shell_word(word: Seq<char>, in_quotes: bool) -> Option<Seq<char>>
    decreases word.len(),
{
    if word.len() == 0 {
        if in_quotes {
            None
        } else {
            Some(Seq::empty())
        }
    } else if word.first() == '\'' {
        shell_word(word.drop_first(), !in_quotes)
    } else if in_quotes {
        match shell_word(word.drop_first(), true) {
            Some(rest) => Some(seq![word.first()] + rest),
            None => None,
        }
    } else if word.first() == '\\' && word.len() > 1 {
        match shell_word(word.skip(2), false) {
            Some(rest) => Some(seq![word[1]] + rest),
            None => None,
        }
    } else {
        None
    }
}

/// Reading an escaped quote inside quotes gives the quote, and goes on inside
/// quotes.
proof fn lemma_read_escaped_quote(after: Seq<char>)
    ensures
        shell_word("'\\''"@ + after, true) == match shell_word(after, true) {
            Some(rest) => Some(seq!['\''] + rest),
            None => None,
        },
{
    reveal_strlit("'\\''");
    let all = "'\\''"@ + after;
    let second = seq!['\\', '\'', '\''] + after;
    let third = seq!['\''] + after;
    assert(all.first() == '\'');
    assert(all.drop_first() =~= second);
    assert(shell_word(all, true) == shell_word(second, false));
    assert(second.first() == '\\');
    assert(second[1] == '\'');
    assert(second.skip(2) =~= third);
    assert(third.first() == '\'');
    assert(third.drop_first() =~= after);
    assert(shell_word(third, false) == shell_word(after, true));
}

/// Reading escaped text inside quotes gives the text, and goes on inside quotes.
proof fn lemma_read_escaped(text: Seq<char>, after: Seq<char>)
    ensures
        shell_word(escaped(text) + after, true) == match shell_word(after, true) {
            Some(rest) => Some(text + rest),
            None => None,
        },
    decreases text.len(),
{
    if text.len() == 0 {
        assert(escaped(text) + after =~= after);
        if let Some(rest) = shell_word(after, true) {
            assert(text + rest =~= rest);
        }
    } else {
        let shorter = text.drop_last();
        let tail = if text.last() == '\'' {
            "'\\''"@ + after
        } else {
            seq![text.last()] + after
        };
        assert(escaped(text) + after =~= escaped(shorter) + tail);
        lemma_read_escaped(shorter, tail);
        if text.last() == '\'' {
            lemma_read_escaped_quote(after);
        } else {
            assert(tail.drop_first() =~= after);
        }
        if let Some(rest) = shell_word(after, true) {
            assert(text + rest =~= shorter + (seq![text.last()] + rest));
        }
    }
}

/// The shell reads a quoted text as the text, without the quotes at its front.
pub proof fn law_shell_reads_quoted_text(text: Seq<char>)
    ensures
        shell_word(shell_quoted(text), false) == Some(without_leading_quotes(text)),
{
    reveal_strlit("'");
    let inner = without_leading_quotes(text);
    let tail = "'"@;
    lemma_read_escaped(inner, tail);
    reveal_with_fuel(shell_word, 3);
    assert(tail.drop_first() =~= Seq::empty());
    assert(shell_quoted(text).drop_first() =~= escaped(inner) + tail);
    assert(inner + Seq::empty() =~= inner);
}

/// The shell reads a quoted text as the text, if no quote stands at its front.
pub proof fn law_quoting_keeps_text(text: Seq<char>)
    requires
        text.len() > 0 ==> text.first() != '\'',
    ensures
        shell_word(shell_quoted(text), false) == Some(text),
{
    law_shell_reads_quoted_text(text);
}

/// The command that makes a closing client report to a socket.
pub open spec fn close_hook_text(socket: Seq<char>) -> Seq<char> {
    "hook -once global ClientClose \"^%val{client}$\" %{ nop %sh{ printf 'KAKVIDE_CLIENT_CLOSE:%s:%s\\n' \"$kak_session\" \"$kak_hook_param\" | nc -U "@
        + shell_quoted(socket) + " } }"@
}

/// The command that makes a closing client report to a socket.
pub fn kakvide_client_close_hook_command(socket: &[u8]) -> (command: String)
    ensures
        command@ == close_hook_text(text_in(socket@)),
{
    let name = lossy_string(socket);
    let quoted = shell_quote(name.as_str());
    let mut command =
    "hook -once global ClientClose \"^%val{client}$\" %{ nop %sh{ printf 'KAKVIDE_CLIENT_CLOSE:%s:%s\\n' \"$kak_session\" \"$kak_hook_param\" | nc -U ".to_string();
    command.append(quoted.as_str());
    command.append(" } }");
    command
}

/// The commands that make a new client keep its title up to date.
pub open spec fn title_hook_text() -> Seq<char> {
    "hook global EnterDirectory .* %{ set-option -add window ui_options \""@
        + WINDOW_TITLE_UI_OPTION@
        + "=%val{hook_param} - %val{client}\" }; set-option -add window ui_options \""@
        + WINDOW_TITLE_UI_OPTION@ + "=%sh{pwd} - %val{client}\""@
}

/// The commands for a new client: to keep its title up to date and, where there
/// is a socket for it, to report when it is closed.
pub fn kakvide_post_boot_command(client_close_socket: Option<&[u8]>) -> (command: String)
    ensures
        command@ == match client_close_socket {
            Some(socket) => title_hook_text() + "; "@ + close_hook_text(text_in(socket@)),
            None => title_hook_text(),
        },
{
    let mut command =
    "hook global EnterDirectory .* %{ set-option -add window ui_options \"".to_string();
    command.append(WINDOW_TITLE_UI_OPTION);
    command.append(
        "=%val{hook_param} - %val{client}\" }; set-option -add window ui_options \"",
    );
    command.append(WINDOW_TITLE_UI_OPTION);
    command.append("=%sh{pwd} - %val{client}\"");
    if let Some(socket) = client_close_socket {
        command.append("; ");
        let hook = kakvide_client_close_hook_command(socket);
        command.append(hook.as_str());
    }
    command
}

/// A place without a colon holds none.
proof fn lemma_no_colon(text: Seq<char>, from: nat, at: nat)
    requires
        from <= at < text.len(),
        text[at as int] == ':',
        forall|k: int| from <= k < at ==> text[k] != ':',
    ensures
        first_colon(text, from) == Some(at),
    decreases at - from,
{
    if from < at {
        lemma_no_colon(text, from + 1, at);
    }
}

/// What the command for a closing client prints, a session and a client on a
/// line, is read back as that session and that client, unless the session holds
/// a colon or the client ends in white space.
pub proof fn law_close_message_is_read_back(session: Seq<char>, client: Seq<char>)
    requires
        session.len() > 0,
        client.len() > 0,
        forall|k: int| 0 <= k < session.len() ==> session[k] != ':',
        !crate::strings::is_white_space(client.last()),
    ensures
        closed_client(
            trimmed(CLIENT_CLOSE_PREFIX@ + session + ":"@ + client + "\n"@),
        ) == Some(ClosedView { session, client }),
{
    reveal_strlit("KAKVIDE_CLIENT_CLOSE:");
    reveal_strlit(":");
    reveal_strlit("\n");
    let prefix = CLIENT_CLOSE_PREFIX@;
    let message = prefix + session + ":"@ + client;
    let line = message + "\n"@;
    assert(line =~= prefix + session + ":"@ + client + "\n"@);
    assert(line.first() == 'K');
    assert(line.last() == '\n');
    assert(line.drop_last() =~= message);
    assert(message.first() == 'K');
    assert(message.last() == client.last());
    assert(trimmed(line) == trimmed(message));
    assert(trimmed(message) == message);
    assert(message.subrange(0, prefix.len() as int) =~= prefix);
    let rest = message.skip(prefix.len() as int);
    assert(rest =~= session + ":"@ + client);
    lemma_no_colon(rest, 0, session.len());
    assert(rest.take(session.len() as int) =~= session);
    assert(rest.skip((session.len() + 1) as int) =~= client);
}

/// A program to run: its arguments, and its search path if that is not to stay
/// as it is.
#[derive(Debug, PartialEq, Eq)]
pub struct CommandPlan {
    pub program: Vec<u8>,
    pub args: Vec<Vec<u8>>,
    pub path: Option<Vec<u8>>,
}

/// A program to run, as sequences.
pub struct CommandView {
    pub program: Seq<u8>,
    pub args: Seq<Seq<u8>>,
    pub path: Option<Seq<u8>>,
}

impl DeepView for CommandPlan {
    type V = CommandView;

    open spec fn deep_view(&self) -> CommandView {
        CommandView {
            program: self.program@,
            args: self.args.deep_view(),
            path: match self.path {
                Some(path) => Some(path@),
                None => None,
            },
        }
    }
}

/// The search path that a program without a shell gets: the usual places for
/// programs, before its own search path.
pub open spec fn app_path(path: Option<Seq<u8>>) -> Seq<u8> {
    let usual = seq![
        text_bytes("/usr/local/bin/"@),
        text_bytes("/opt/homebrew/bin"@),
        text_bytes("~/.local/bin"@),
    ];
    joined_list(
        if path is Some && path->0.len() > 0 {
            usual.push(path->0)
        } else {
            usual
        },
    )
}

/// The search path that a program without a shell gets.
pub fn constrained_app_path(path: Option<&[u8]>) -> (search: Vec<u8>)
    ensures
        search@ == app_path(crate::config::optional_bytes(path)),
{
    let mut paths: Vec<Vec<u8>> = Vec::new();
    push_copy(&mut paths, "/usr/local/bin/".as_bytes());
    push_copy(&mut paths, "/opt/homebrew/bin".as_bytes());
    push_copy(&mut paths, "~/.local/bin".as_bytes());
    assert(paths.deep_view() =~= seq![
        text_bytes("/usr/local/bin/"@),
        text_bytes("/opt/homebrew/bin"@),
        text_bytes("~/.local/bin"@),
    ]);
    if let Some(own) = path {
        if own.len() > 0 {
            push_copy(&mut paths, own);
        }
    }
    join_unix_paths(paths)
}

/// A path with the home directory in place of a tilde at its front. A path that
/// is no text stays as it is, unless it is the tilde alone.
pub open spec fn expanded(path: Seq<u8>, home: Option<Seq<u8>>) -> Seq<u8> {
    let tilde = text_bytes("~/"@);
    if home is Some && path == text_bytes("~"@) {
        home->0
    } else if home is Some && vstd::utf8::valid_utf8(path) && occurs_at(path, tilde, 0) {
        joined_path(home->0, path.skip(tilde.len() as int))
    } else {
        path
    }
}

/// A path with the home directory in place of a tilde at its front.
pub fn expand_home_dir_with_home(path: &[u8], home: Option<&[u8]>) -> (full: Vec<u8>)
    ensures
        full@ == expanded(path@, crate::config::optional_bytes(home)),
{
    let home = match home {
        Some(home) => home,
        None => return copied_bytes(path),
    };
    if same_bytes(path, "~".as_bytes()) {
        return copied_bytes(home);
    }
    let tilde = "~/".as_bytes();
    if std::str::from_utf8(path).is_ok() && tilde.len() <= path.len() && same_bytes(
        vstd::slice::slice_subrange(path, 0, tilde.len()),
        tilde,
    ) {
        let rest = vstd::slice::slice_subrange(path, tilde.len(), path.len());
        assert(rest@ =~= path@.skip(tilde@.len() as int));
        return join_path(home, rest);
    }
    copied_bytes(path)
}

/// The files that a program may be, by the first `n` entries of a search path.
pub open spec fn candidates_in(
    program: Seq<u8>,
    entries: Seq<Seq<u8>>,
    home: Option<Seq<u8>>,
    n: nat,
) -> Seq<Seq<u8>>
    decreases n,
{
    if n == 0 {
        Seq::empty()
    } else {
        candidates_in(program, entries, home, (n - 1) as nat).push(
            joined_path(expanded(entries[n - 1], home), program),
        )
    }
}

/// The files that a program may be, in the order in which they are tried. A
/// program with a separator in its name is looked for nowhere.
pub open spec fn candidates(program: Seq<u8>, path: Seq<u8>, home: Option<Seq<u8>>) -> Seq<
    Seq<u8>,
> {
    let entries = split_list(path);
    if program.contains(SEPARATOR) {
        Seq::empty()
    } else {
        candidates_in(program, entries, home, entries.len())
    }
}

/// Whether a byte stands among others.
fn contains_byte(bytes: &[u8], byte: u8) -> (yes: bool)
    ensures
        yes == bytes@.contains(byte),
{
    for i in 0..bytes.len()
        invariant
            forall|k: int| 0 <= k < i ==> bytes@[k] != byte,
    {
        if bytes[i] == byte {
            assert(bytes@[i as int] == byte);
            return true;
        }
    }
    false
}

/// The files that a program may be, in the order in which they are tried.
pub fn program_candidates(program: &[u8], path: &[u8], home: Option<&[u8]>) -> (files: Vec<
    Vec<u8>,
>)
    ensures
        files.deep_view() == candidates(
            program@,
            path@,
            crate::config::optional_bytes(home),
        ),
{
    let mut files: Vec<Vec<u8>> = Vec::new();
    assert(files.deep_view() =~= Seq::empty());
    if contains_byte(program, SEPARATOR) {
        return files;
    }
    let entries = split_unix_path(path);
    let ghost views = entries.deep_view();
    for i in 0..entries.len()
        invariant
            views == entries.deep_view(),
            files.deep_view() == candidates_in(
                program@,
                views,
                crate::config::optional_bytes(home),
                i as nat,
            ),
    {
        assert(views[i as int] =~= entries@[i as int]@);
        let directory = expand_home_dir_with_home(entries[i].as_slice(), home);
        let file = join_path(directory.as_slice(), program);
        push_copy(&mut files, file.as_slice());
    }
    files
}

/// How the editor is run with some arguments: by the user's shell, or where
/// there is none, straight from the file that was found for it.
pub open spec fn run_plan(
    program: Seq<u8>,
    tail: Seq<Seq<u8>>,
    shell: Option<Seq<u8>>,
    path: Option<Seq<u8>>,
    found: Option<Seq<u8>>,
) -> CommandView {
    if shell is Some && shell->0.len() > 0 {
        CommandView {
            program: shell->0,
            args: seq![
                text_bytes("-lc"@),
                text_bytes("exec \"$@\""@),
                text_bytes("kakvide-kak"@),
                program,
            ] + tail,
            path: None,
        }
    } else {
        CommandView {
            program: match found {
                Some(file) => file,
                None => program,
            },
            args: tail,
            path: Some(app_path(path)),
        }
    }
}

/// How the editor is run with some arguments, by the values of `SHELL` and
/// `PATH` and the first of the candidates that is a file.
fn plan_command(
    program: &[u8],
    tail: Vec<Vec<u8>>,
    shell: Option<&[u8]>,
    path: Option<&[u8]>,
    found: Option<&[u8]>,
) -> (plan: CommandPlan)
    ensures
        plan.deep_view() == run_plan(
            program@,
            tail.deep_view(),
            crate::config::optional_bytes(shell),
            crate::config::optional_bytes(path),
            crate::config::optional_bytes(found),
        ),
{
    if let Some(shell) = shell {
        if shell.len() > 0 {
            let mut args: Vec<Vec<u8>> = Vec::new();
            push_copy(&mut args, "-lc".as_bytes());
            push_copy(&mut args, "exec \"$@\"".as_bytes());
            push_copy(&mut args, "kakvide-kak".as_bytes());
            push_copy(&mut args, program);
            assert(args.deep_view() =~= seq![
                text_bytes("-lc"@),
                text_bytes("exec \"$@\""@),
                text_bytes("kakvide-kak"@),
                program@,
            ]);
            push_list(&mut args, tail.as_slice(), 0);
            assert(tail.deep_view().skip(0) =~= tail.deep_view());
            return CommandPlan { program: copied_bytes(shell), args, path: None };
        }
    }
    let file = match found {
        Some(file) => copied_bytes(file),
        None => copied_bytes(program),
    };
    CommandPlan { program: file, args: tail, path: Some(constrained_app_path(path)) }
}

/// The arguments that make the editor talk to a front end.
pub open spec fn json_ui_args(args: Seq<Seq<u8>>) -> Seq<Seq<u8>> {
    seq![text_bytes("-ui"@), text_bytes("json"@)] + args
}

/// How the editor is run for a window.
pub fn build_kakoune_command(
    args: &Args,
    shell: Option<&[u8]>,
    path: Option<&[u8]>,
    found: Option<&[u8]>,
) -> (plan: CommandPlan)
    ensures
        plan.deep_view() == run_plan(
            text_bytes(args.kak_bin@),
            json_ui_args(args.kak_args.deep_view()),
            crate::config::optional_bytes(shell),
            crate::config::optional_bytes(path),
            crate::config::optional_bytes(found),
        ),
        words_run(plan.deep_view(), shell) == seq![
            match (shell, found) {
                (Some(name), _) if name@.len() > 0 => text_bytes(args.kak_bin@),
                (_, Some(file)) => file@,
                _ => text_bytes(args.kak_bin@),
            },
            text_bytes("-ui"@),
            text_bytes("json"@),
        ] + args.kak_args.deep_view(),
{
    let mut tail: Vec<Vec<u8>> = Vec::new();
    push_copy(&mut tail, "-ui".as_bytes());
    push_copy(&mut tail, "json".as_bytes());
    assert(tail.deep_view() =~= seq![text_bytes("-ui"@), text_bytes("json"@)]);
    push_list(&mut tail, args.kak_args.as_slice(), 0);
    assert(args.kak_args.deep_view().skip(0) =~= args.kak_args.deep_view());
    let plan = plan_command(args.kak_bin.as_str().as_bytes(), tail, shell, path, found);
    proof {
        let words = json_ui_args(args.kak_args.deep_view());
        lemma_words_run(text_bytes(args.kak_bin@), words, shell, path, found);
        let first = words_run(plan.deep_view(), shell)[0];
        assert(seq![first] + words =~= seq![first, text_bytes("-ui"@), text_bytes("json"@)]
            + args.kak_args.deep_view());
    }
    plan
}

/// How the editor is asked for its help.
pub fn build_kakoune_help_command(
    kak_bin: &[u8],
    shell: Option<&[u8]>,
    path: Option<&[u8]>,
    found: Option<&[u8]>,
) -> (plan: CommandPlan)
    ensures
        plan.deep_view() == run_plan(
            kak_bin@,
            seq![text_bytes("--help"@)],
            crate::config::optional_bytes(shell),
            crate::config::optional_bytes(path),
            crate::config::optional_bytes(found),
        ),
        words_run(plan.deep_view(), shell) == seq![
            match (shell, found) {
                (Some(name), _) if name@.len() > 0 => kak_bin@,
                (_, Some(file)) => file@,
                _ => kak_bin@,
            },
            text_bytes("--help"@),
        ],
{
    let mut tail: Vec<Vec<u8>> = Vec::new();
    push_copy(&mut tail, "--help".as_bytes());
    assert(tail.deep_view() =~= seq![text_bytes("--help"@)]);
    let plan = plan_command(kak_bin, tail, shell, path, found);
    proof {
        let words = seq![text_bytes("--help"@)];
        lemma_words_run(kak_bin@, words, shell, path, found);
        let first = words_run(plan.deep_view(), shell)[0];
        assert(seq![first] + words =~= seq![first, text_bytes("--help"@)]);
    }
    plan
}

/// How the editor is asked for its sessions.
pub fn build_kakoune_list_sessions_command(
    kak_bin: &[u8],
    shell: Option<&[u8]>,
    path: Option<&[u8]>,
    found: Option<&[u8]>,
) -> (plan: CommandPlan)
    ensures
        plan.deep_view() == run_plan(
            kak_bin@,
            seq![text_bytes("-l"@)],
            crate::config::optional_bytes(shell),
            crate::config::optional_bytes(path),
            crate::config::optional_bytes(found),
        ),
        words_run(plan.deep_view(), shell) == seq![
            match (shell, found) {
                (Some(name), _) if name@.len() > 0 => kak_bin@,
                (_, Some(file)) => file@,
                _ => kak_bin@,
            },
            text_bytes("-l"@),
        ],
{
    let mut tail: Vec<Vec<u8>> = Vec::new();
    push_copy(&mut tail, "-l".as_bytes());
    assert(tail.deep_view() =~= seq![text_bytes("-l"@)]);
    let plan = plan_command(kak_bin, tail, shell, path, found);
    proof {
        let words = seq![text_bytes("-l"@)];
        lemma_words_run(kak_bin@, words, shell, path, found);
        let first = words_run(plan.deep_view(), shell)[0];
        assert(seq![first] + words =~= seq![first, text_bytes("-l"@)]);
    }
    plan
}

/// Where closing clients report to.
#[derive(Debug)]
pub struct ClientCloseListener {
    path: Vec<u8>,
}

impl ClientCloseListener {
    /// The path of the socket.
    pub closed spec fn socket(&self) -> Seq<u8> {
        self.path@
    }

    /// The socket of a process, in the directory for temporary files.
    pub fn for_process(temp_dir: &[u8], process_id: u32) -> (listener: Self)
        ensures
            listener.socket() == joined_path(
                temp_dir@,
                text_bytes("kakvide-client-close-"@) + decimal(process_id as nat) + text_bytes(
                    ".sock"@,
                ),
            ),
    {
        let mut name = copied_bytes("kakvide-client-close-".as_bytes());
        let digits = decimal_bytes(process_id);
        push_bytes(&mut name, digits.as_slice());
        push_bytes(&mut name, ".sock".as_bytes());
        ClientCloseListener { path: join_path(temp_dir, name.as_slice()) }
    }

    /// The path of the socket.
    pub fn path(&self) -> (path: &[u8])
        ensures
            path@ == self.socket(),
    {
        self.path.as_slice()
    }
}

/// Whatever way the editor is run, the arguments for it come last and in order.
pub proof fn law_arguments_reach_the_editor(
    program: Seq<u8>,
    tail: Seq<Seq<u8>>,
    shell: Option<Seq<u8>>,
    path: Option<Seq<u8>>,
    found: Option<Seq<u8>>,
)
    ensures
        tail.is_suffix_of(run_plan(program, tail, shell, path, found).args),
{
    let args = run_plan(program, tail, shell, path, found).args;
    assert(args.subrange(args.len() - tail.len(), args.len() as int) =~= tail);
}

/// A line is the same with and without a line ending, if it does not itself end
/// in one.
pub proof fn law_line_endings_do_not_count(line: Seq<u8>)
    requires
        line.len() > 0 ==> line.last() != 0x0a && line.last() != 0x0d,
    ensures
        without_line_ending(line) == line,
        without_line_ending(line.push(0x0a)) == line,
        without_line_ending(line.push(0x0d).push(0x0a)) == line,
{
    assert(line.push(0x0a).drop_last() =~= line);
    assert(line.push(0x0d).push(0x0a).drop_last() =~= line.push(0x0d));
    assert(line.push(0x0d).drop_last() =~= line);
}

/// What a shell runs that is given these arguments: with `-lc`, the command that
/// hands its own arguments on, and a name, it runs the arguments behind the name.
pub open spec fn run_by_shell(args: Seq<Seq<u8>>) -> Option<Seq<Seq<u8>>> {
    if args.len() > 3 && args[0] == text_bytes("-lc"@) && args[1] == text_bytes("exec \"$@\""@) {
        Some(args.skip(3))
    } else {
        None
    }
}

/// By a shell the given program is run, with the given arguments behind it, and
/// with the search path as it is.
pub proof fn law_shell_runs_the_program(
    program: Seq<u8>,
    tail: Seq<Seq<u8>>,
    shell: Seq<u8>,
    path: Option<Seq<u8>>,
    found: Option<Seq<u8>>,
)
    requires
        shell.len() > 0,
    ensures
        ({
            let plan = run_plan(program, tail, Some(shell), path, found);
            &&& plan.program == shell
            &&& run_by_shell(plan.args) == Some(seq![program] + tail)
            &&& plan.args[plan.args.len() - tail.len() - 1] == program
            &&& plan.path is None
        }),
{
    let plan = run_plan(program, tail, Some(shell), path, found);
    assert(plan.args.skip(3) =~= seq![program] + tail);
}

/// Without a shell the file that was found is run, or the given program where none
/// was, with the given arguments and nothing else, and with a search path of its
/// own.
pub proof fn law_program_runs_without_shell(
    program: Seq<u8>,
    tail: Seq<Seq<u8>>,
    shell: Option<Seq<u8>>,
    path: Option<Seq<u8>>,
    found: Option<Seq<u8>>,
)
    requires
        shell matches Some(name) ==> name.len() == 0,
    ensures
        ({
            let plan = run_plan(program, tail, shell, path, found);
            &&& found matches Some(file) ==> plan.program == file
            &&& found is None ==> plan.program == program
            &&& plan.args == tail
            &&& plan.path == Some(app_path(path))
        }),
{
}

/// The editor for a window is told to talk to a front end before anything else,
/// and then gets its own arguments in order.
pub proof fn law_editor_talks_to_a_front_end(args: Seq<Seq<u8>>)
    ensures
        json_ui_args(args).len() == args.len() + 2,
        json_ui_args(args)[0] == text_bytes("-ui"@),
        json_ui_args(args)[1] == text_bytes("json"@),
        json_ui_args(args).skip(2) == args,
{
    assert(json_ui_args(args).skip(2) =~= args);
}

/// A program without a shell is looked for in the usual places first, and then in
/// every place of the given search path, in its order.
pub proof fn law_usual_places_come_first(path: Seq<u8>)
    requires
        path.len() > 0,
    ensures
        split_list(app_path(Some(path))) == seq![
            text_bytes("/usr/local/bin/"@),
            text_bytes("/opt/homebrew/bin"@),
            text_bytes("~/.local/bin"@),
        ] + split_list(path),
        split_list(app_path(None)) == seq![
            text_bytes("/usr/local/bin/"@),
            text_bytes("/opt/homebrew/bin"@),
            text_bytes("~/.local/bin"@),
        ],
        app_path(Some(Seq::empty())) == app_path(None),
{
    let usual = seq![
        text_bytes("/usr/local/bin/"@),
        text_bytes("/opt/homebrew/bin"@),
        text_bytes("~/.local/bin"@),
    ];
    lemma_usual_places_are_plain();
    assert forall|i: int| 0 <= i < usual.len() implies crate::paths::is_plain_entry(
        #[trigger] usual[i],
    ) by {
        assert(i == 0 || i == 1 || i == 2);
    }
    crate::paths::law_split_undoes_join(usual);
    let all = usual.push(path);
    assert(all.drop_last() =~= usual);
    let head = joined_list(usual);
    assert(joined_list(all) == head.push(0x3a) + path);
    crate::strings::law_separator_parts_the_pieces(head, path, 0x3au8);
}

/// The usual places for programs hold no separator.
proof fn lemma_usual_places_are_plain()
    ensures
        crate::paths::is_plain_entry(text_bytes("/usr/local/bin/"@)),
        crate::paths::is_plain_entry(text_bytes("/opt/homebrew/bin"@)),
        crate::paths::is_plain_entry(text_bytes("~/.local/bin"@)),
{
    reveal_strlit("/usr/local/bin/");
    reveal_strlit("/opt/homebrew/bin");
    reveal_strlit("~/.local/bin");
    vstd::utf8::is_ascii_chars_encode_utf8("/usr/local/bin/"@);
    vstd::utf8::is_ascii_chars_encode_utf8("/opt/homebrew/bin"@);
    vstd::utf8::is_ascii_chars_encode_utf8("~/.local/bin"@);
    assert forall|i: int| 0 <= i < text_bytes("/usr/local/bin/"@).len() implies text_bytes(
        "/usr/local/bin/"@,
    )[i] != 0x3a by {
        assert("/usr/local/bin/"@[i] != ':');
    }
    assert forall|i: int| 0 <= i < text_bytes("/opt/homebrew/bin"@).len() implies text_bytes(
        "/opt/homebrew/bin"@,
    )[i] != 0x3a by {
        assert("/opt/homebrew/bin"@[i] != ':');
    }
    assert forall|i: int| 0 <= i < text_bytes("~/.local/bin"@).len() implies text_bytes(
        "~/.local/bin"@,
    )[i] != 0x3a by {
        assert("~/.local/bin"@[i] != ':');
    }
}

/// A tilde stands for the home directory at the front of a path, alone or before a
/// separator, and nowhere else; without a home directory it stands for itself.
pub proof fn law_tilde_is_the_home_directory(path: Seq<u8>, rest: Seq<u8>, home: Seq<u8>)
    ensures
        expanded(seq![0x7eu8], Some(home)) == home,
        path == seq![0x7eu8, 0x2fu8] + rest && vstd::utf8::valid_utf8(path) ==> expanded(
            path,
            Some(home),
        ) == joined_path(home, rest),
        path.len() == 0 || path[0] != 0x7e || (path.len() > 1 && path[1] != 0x2f) ==> expanded(
            path,
            Some(home),
        ) == path,
        expanded(path, None) == path,
{
    reveal_strlit("~");
    reveal_strlit("~/");
    vstd::utf8::is_ascii_chars_encode_utf8("~"@);
    vstd::utf8::is_ascii_chars_encode_utf8("~/"@);
    let tilde = text_bytes("~/"@);
    assert(text_bytes("~"@) =~= seq![0x7eu8]);
    assert(tilde =~= seq![0x7eu8, 0x2fu8]);
    if path == seq![0x7eu8, 0x2fu8] + rest {
        assert(path.subrange(0, 2) =~= tilde);
        assert(path.skip(2) =~= rest);
        assert(path.len() != seq![0x7eu8].len());
    }
    if path.len() == 0 || path[0] != 0x7e || (path.len() > 1 && path[1] != 0x2f) {
        if occurs_at(path, tilde, 0) {
            assert(path.subrange(0, 2)[0] == tilde[0]);
            assert(path.subrange(0, 2)[1] == tilde[1]);
        }
    }
}

/// A program is looked for in every place of the search path, in its order, as a
/// file of its own name below that place; a name with a separator nowhere.
pub proof fn law_program_is_looked_for_in_every_place(
    program: Seq<u8>,
    path: Seq<u8>,
    home: Option<Seq<u8>>,
    i: int,
)
    requires
        0 <= i < split_list(path).len(),
    ensures
        program.contains(0x2f) ==> candidates(program, path, home) == Seq::<Seq<u8>>::empty(),
        !program.contains(0x2f) ==> candidates(program, path, home).len() == split_list(path).len()
            && candidates(program, path, home)[i] == joined_path(
            expanded(split_list(path)[i], home),
            program,
        ),
{
    lemma_candidates(program, split_list(path), home, split_list(path).len(), i);
}

/// The candidates of a search path, one by one.
proof fn lemma_candidates(
    program: Seq<u8>,
    entries: Seq<Seq<u8>>,
    home: Option<Seq<u8>>,
    n: nat,
    i: int,
)
    requires
        n <= entries.len(),
    ensures
        candidates_in(program, entries, home, n).len() == n,
        0 <= i < n ==> candidates_in(program, entries, home, n)[i] == joined_path(
            expanded(entries[i], home),
            program,
        ),
    decreases n,
{
    if n > 0 {
        lemma_candidates(program, entries, home, (n - 1) as nat, i);
    }
}

/// A message about a closed client is the prefix, the session, a colon and the
/// client that are read from it, and the session holds no colon.
pub proof fn law_close_message_holds_its_parts(message: Seq<char>, k: int)
    requires
        closed_client(message) is Some,
    ensures
        ({
            let closed = closed_client(message)->0;
            &&& message == CLIENT_CLOSE_PREFIX@ + closed.session + seq![':'] + closed.client
            &&& closed.session.len() > 0
            &&& closed.client.len() > 0
            &&& 0 <= k < closed.session.len() ==> closed.session[k] != ':'
        }),
{
    let prefix = CLIENT_CLOSE_PREFIX@;
    let rest = message.skip(prefix.len() as int);
    lemma_found_colon(rest, 0, k);
    let closed = closed_client(message)->0;
    assert(message.subrange(0, prefix.len() as int) == prefix);
    assert(message =~= prefix + rest);
    assert(rest =~= closed.session + seq![':'] + closed.client);
    assert(message =~= prefix + closed.session + seq![':'] + closed.client);
}

/// A colon stands where it was found, and none before.
proof fn lemma_found_colon(text: Seq<char>, from: nat, k: int)
    ensures
        first_colon(text, from) matches Some(at) ==> from <= at < text.len() && text[at as int]
            == ':' && (from <= k < at ==> text[k] != ':'),
    decreases text.len() - from,
{
    if from < text.len() && text[from as int] != ':' {
        lemma_found_colon(text, from + 1, k);
    }
}

/// The sessions on a list are those above a line end and those below it; a single
/// line holds one session, what is left of it without white space at its ends, or
/// none where nothing is left.
pub proof fn law_sessions_stand_on_lines(
    above: Seq<char>,
    below: Seq<char>,
    line: Seq<char>,
)
    requires
        forall|k: int| 0 <= k < line.len() ==> #[trigger] line[k] != '\n',
    ensures
        listed_sessions(above.push('\n') + below) == listed_sessions(above) + listed_sessions(
            below,
        ),
        trimmed(line).len() > 0 ==> listed_sessions(line) == seq![text_bytes(trimmed(line))],
        trimmed(line).len() == 0 ==> listed_sessions(line) == Seq::<Seq<u8>>::empty(),
{
    crate::strings::law_separator_parts_the_pieces(above, below, '\n');
    crate::strings::law_run_without_separator_is_one_piece(line, '\n');
    let head = pieces(above, '\n');
    let tail = pieces(below, '\n');
    lemma_names_on_more_lines(head, tail, tail.len());
    reveal_with_fuel(names_on_lines, 2);
    assert(seq![line][0] == line);
    if trimmed(line).len() > 0 {
        assert(listed_sessions(line) =~= seq![text_bytes(trimmed(line))]);
    }
}

/// The names on lines are those on the first and those on the others.
proof fn lemma_names_on_more_lines(head: Seq<Seq<char>>, tail: Seq<Seq<char>>, n: nat)
    requires
        n <= tail.len(),
    ensures
        names_on_lines(head + tail, head.len() + n) == names_on_lines(head, head.len())
            + names_on_lines(tail, n),
    decreases n,
{
    let first = names_on_lines(head, head.len());
    if n == 0 {
        lemma_names_on_first_lines(head, tail, head.len());
        assert(first + names_on_lines(tail, 0) =~= first);
    } else {
        lemma_names_on_more_lines(head, tail, (n - 1) as nat);
        assert((head + tail)[head.len() + n - 1] == tail[n - 1]);
        let before = names_on_lines(tail, (n - 1) as nat);
        let name = text_bytes(trimmed(tail[n - 1]));
        assert((first + before).push(name) =~= first + before.push(name));
    }
}

/// The names on the first lines do not depend on the others.
proof fn lemma_names_on_first_lines(head: Seq<Seq<char>>, tail: Seq<Seq<char>>, n: nat)
    requires
        n <= head.len(),
    ensures
        names_on_lines(head + tail, n) == names_on_lines(head, n),
    decreases n,
{
    if n > 0 {
        lemma_names_on_first_lines(head, tail, (n - 1) as nat);
        assert((head + tail)[n - 1] == head[n - 1]);
    }
}

/// Taking the line ending from a line takes a line feed, a carriage return, or one
/// behind the other, and nothing else.
pub proof fn law_only_line_endings_are_taken(line: Seq<u8>)
    ensures
        ({
            let rest = without_line_ending(line);
            ||| line == rest && (line.len() == 0 || line.last() != 0x0a && line.last() != 0x0d)
            ||| line == rest.push(0x0a) && (rest.len() == 0 || rest.last() != 0x0d)
            ||| line == rest.push(0x0d)
            ||| line == rest.push(0x0d).push(0x0a)
        }),
{
    let first = without_last(line, 0x0a);
    let rest = without_last(first, 0x0d);
    if line.len() > 0 && line.last() == 0x0a {
        assert(line =~= first.push(0x0a));
    }
    if first.len() > 0 && first.last() == 0x0d {
        assert(first =~= rest.push(0x0d));
    }
}

/// Only quotes are taken from the front of a text, and all of them.
pub proof fn law_leading_quotes_are_taken(text: Seq<char>) -> (n: int)
    ensures
        0 <= n <= text.len(),
        without_leading_quotes(text) == text.skip(n),
        forall|k: int| 0 <= k < n ==> #[trigger] text[k] == '\'',
        n < text.len() ==> text[n] != '\'',
    decreases text.len(),
{
    if text.len() > 0 && text.first() == '\'' {
        let rest = text.drop_first();
        let n = law_leading_quotes_are_taken(rest);
        assert(rest.skip(n) =~= text.skip(n + 1));
        assert forall|k: int| 0 <= k < n + 1 implies #[trigger] text[k] == '\'' by {
            if k > 0 {
                assert(rest[k - 1] == text[k]);
            }
        }
        n + 1
    } else {
        assert(text.skip(0) =~= text);
        0
    }
}

/// A closing client reports to the socket: the word that the command hands to the
/// shell at its end reads as the name of the socket.
pub proof fn law_close_hook_reports_to_its_socket(socket: Seq<char>)
    requires
        socket.len() > 0 ==> socket.first() != '\'',
    ensures
        ({
            let command = close_hook_text(socket);
            let end = seq![' ', '}', ' ', '}'];
            let start =
                "hook -once global ClientClose \"^%val{client}$\" %{ nop %sh{ printf 'KAKVIDE_CLIENT_CLOSE:%s:%s\\n' \"$kak_session\" \"$kak_hook_param\" | nc -U "@;
            let word = command.subrange(start.len() as int, command.len() - end.len());
            &&& start.is_prefix_of(command)
            &&& end.is_suffix_of(command)
            &&& shell_word(word, false) == Some(socket)
        }),
{
    reveal_strlit(" } }");
    let command = close_hook_text(socket);
    let end = seq![' ', '}', ' ', '}'];
    let start =
        "hook -once global ClientClose \"^%val{client}$\" %{ nop %sh{ printf 'KAKVIDE_CLIENT_CLOSE:%s:%s\\n' \"$kak_session\" \"$kak_hook_param\" | nc -U "@;
    assert(" } }"@ =~= end);
    law_quoting_keeps_text(socket);
    let word = command.subrange(start.len() as int, command.len() - end.len());
    assert(word =~= shell_quoted(socket));
    assert(command.subrange(0, start.len() as int) =~= start);
    assert(command.subrange(command.len() - 4, command.len() as int) =~= end);
}

/// The program and the arguments that are run in the end, whether by a shell or
/// without one.
pub open spec fn words_run(plan: CommandView, shell: Option<&[u8]>) -> Seq<Seq<u8>> {
    match shell {
        Some(name) if name@.len() > 0 => match run_by_shell(plan.args) {
            Some(words) => words,
            None => Seq::empty(),
        },
        _ => seq![plan.program] + plan.args,
    }
}

/// What is run in the end is the program, or the file that was found for it where
/// there is no shell, and its arguments.
proof fn lemma_words_run(
    program: Seq<u8>,
    tail: Seq<Seq<u8>>,
    shell: Option<&[u8]>,
    path: Option<&[u8]>,
    found: Option<&[u8]>,
)
    ensures
        words_run(
            run_plan(
                program,
                tail,
                crate::config::optional_bytes(shell),
                crate::config::optional_bytes(path),
                crate::config::optional_bytes(found),
            ),
            shell,
        ) == seq![
            match (shell, found) {
                (Some(name), _) if name@.len() > 0 => program,
                (_, Some(file)) => file@,
                _ => program,
            },
        ] + tail,
{
    let by_shell = crate::config::optional_bytes(shell);
    let plan = run_plan(
        program,
        tail,
        by_shell,
        crate::config::optional_bytes(path),
        crate::config::optional_bytes(found),
    );
    if by_shell is Some && by_shell->0.len() > 0 {
        assert(plan.args.skip(3) =~= seq![program] + tail);
    }
}

} // verus!
