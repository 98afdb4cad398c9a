//! Window titles, as the editor announces them.

use vstd::prelude::*;

use crate::messages::{option_text, ui_option_text};
use crate::strings::{
    is_white_space, last_place, last_place_of, occurs_at, trim_text, trimmed,
};
use crate::text::text_chars;

verus! {

/// The title of a window that has none of its own.
pub const DEFAULT_WINDOW_TITLE: &'static str = "kakvide";

/// The user interface option that holds the title.
pub const WINDOW_TITLE_UI_OPTION: &'static str = "kakvide_title";

/// What stands between the parts of a title.
pub const TITLE_SEPARATOR: &'static str = " - ";

/// A title that the editor announced, and the name of the client in it.
#[derive(Debug, PartialEq, Eq)]
pub struct TitleUpdate {
    pub window_title: String,
    pub client_name: Option<String>,
}

/// A title and a client name as sequences of characters.
pub struct TitleView {
    pub window_title: Seq<char>,
    pub client_name: Option<Seq<char>>,
}

impl DeepView for TitleUpdate {
    type V = TitleView;

    open spec fn deep_view(&self) -> TitleView {
        TitleView {
            window_title: self.window_title@,
            client_name: match self.client_name {
                Some(name) => Some(name@),
                None => None,
            },
        }
    }
}

/// The client in a title: what follows the last separator, if anything does.
pub open spec fn titled_client(title: Seq<char>) -> Option<Seq<char>> {
    match last_place(title, TITLE_SEPARATOR@, title.len()) {
        Some(at) => if at + TITLE_SEPARATOR@.len() < title.len() {
            Some(title.skip((at + TITLE_SEPARATOR@.len()) as int))
        } else {
            None
        },
        None => None,
    }
}

/// What an announced title means: a blank one asks for the default.
pub open spec fn title_of(text: Seq<char>) -> TitleView {
    let title = trimmed(text);
    if title.len() == 0 {
        TitleView { window_title: DEFAULT_WINDOW_TITLE@, client_name: None }
    } else {
        TitleView {
            window_title: DEFAULT_WINDOW_TITLE@ + TITLE_SEPARATOR@ + title,
            client_name: titled_client(title),
        }
    }
}

/// The title that a set of options announces.
pub open spec fn title_in(
    options: serde_json::Map<String, serde_json::Value>,
) -> Option<TitleView> {
    match option_text(options, WINDOW_TITLE_UI_OPTION@) {
        Some(text) => Some(title_of(text)),
        None => None,
    }
}

/// The client in a title.
fn client_in_title(title: &str) -> (client: Option<String>)
    ensures
        match client {
            Some(name) => titled_client(title@) == Some(name@),
            None => titled_client(title@) is None,
        },
{
    let chars = text_chars(title);
    let separator = text_chars(TITLE_SEPARATOR);
    match last_place_of(&chars, &separator) {
        Some(at) => {
            let end: usize = chars.len();
            let from: usize = at + separator.len();
            if from < end {
                let name = title.substring_char(from, end);
                assert(name@ =~= title@.skip(from as int));
                Some(name.to_string())
            } else {
                None
            }
        },
        None => None,
    }
}

/// What an announced title means.
pub fn title_update(text: &str) -> (update: TitleUpdate)
    ensures
        update.deep_view() == title_of(text@),
{
    let title = trim_text(text);
    if title.is_empty() {
        return TitleUpdate { window_title: DEFAULT_WINDOW_TITLE.to_string(), client_name: None };
    }
    let mut window_title = DEFAULT_WINDOW_TITLE.to_string();
    window_title.append(TITLE_SEPARATOR);
    window_title.append(title);
    TitleUpdate { window_title, client_name: client_in_title(title) }
}

/// The title that a set of options announces.
pub fn decode_title_update(
    options: &serde_json::Map<String, serde_json::Value>,
) -> (update: Option<TitleUpdate>)
    ensures
        match update {
            Some(found) => title_in(*options) == Some(found.deep_view()),
            None => title_in(*options) is None,
        },
{
    match ui_option_text(options, WINDOW_TITLE_UI_OPTION) {
        Some(text) => Some(title_update(text.as_str())),
        None => None,
    }
}

/// A title that ends in a separator and a client's name names that client,
/// unless the name holds the separator itself or runs into white space.
pub proof fn law_title_names_its_client(place: Seq<char>, client: Seq<char>)
    requires
        place.len() > 0,
        client.len() > 0,
        !is_white_space(place.first()),
        !is_white_space(client.last()),
        forall|k: int| place.len() < k ==> !occurs_at(
            place + TITLE_SEPARATOR@ + client,
            TITLE_SEPARATOR@,
            k,
        ),
    ensures
        title_of(place + TITLE_SEPARATOR@ + client).client_name == Some(client),
{
    reveal_strlit(" - ");
    let title = place + TITLE_SEPARATOR@ + client;
    assert(title.first() == place.first());
    assert(title.last() == client.last());
    assert(trimmed(title) == title);
    assert(title.subrange(place.len() as int, (place.len() + 3) as int) =~= TITLE_SEPARATOR@);
    lemma_last_place_is(title, place.len(), title.len());
    assert(title.skip((place.len() + 3) as int) =~= client);
}

/// The last place is the one after which the separator does not stand.
proof fn lemma_last_place_is(title: Seq<char>, at: nat, end: nat)
    requires
        at < end,
        occurs_at(title, TITLE_SEPARATOR@, at as int),
        forall|k: int| at < k ==> !occurs_at(title, TITLE_SEPARATOR@, k),
    ensures
        last_place(title, TITLE_SEPARATOR@, end) == Some(at),
    decreases end,
{
    if end - 1 > at {
        lemma_last_place_is(title, at, (end - 1) as nat);
    }
}

/// A window bears the program's name and, behind it, what was announced without
/// the white space round it; a blank title leaves the program's name alone.
pub proof fn law_title_shows_what_was_announced(text: Seq<char>)
    ensures
        ({
            let shown = title_of(text).window_title;
            let announced = trimmed(text);
            if announced.len() == 0 {
                shown == seq!['k', 'a', 'k', 'v', 'i', 'd', 'e'] && title_of(text).client_name
                    is None
            } else {
                shown == seq!['k', 'a', 'k', 'v', 'i', 'd', 'e', ' ', '-', ' '] + announced
            }
        }),
{
    reveal_strlit("kakvide");
    reveal_strlit(" - ");
    assert("kakvide"@ =~= seq!['k', 'a', 'k', 'v', 'i', 'd', 'e']);
    assert("kakvide"@ + " - "@ =~= seq!['k', 'a', 'k', 'v', 'i', 'd', 'e', ' ', '-', ' ']);
}

/// The client of a title stands at its end, behind a separator, and no separator
/// stands in it.
pub proof fn law_client_ends_the_title(text: Seq<char>, k: int)
    requires
        title_of(text).client_name is Some,
    ensures
        ({
            let title = trimmed(text);
            let client = title_of(text).client_name->0;
            &&& client.len() > 0
            &&& (seq![' ', '-', ' '] + client).is_suffix_of(title)
            &&& k > title.len() - client.len() - 3 ==> !occurs_at(title, seq![' ', '-', ' '], k)
        }),
{
    reveal_strlit(" - ");
    let title = trimmed(text);
    let client = title_of(text).client_name->0;
    assert(" - "@ =~= seq![' ', '-', ' ']);
    crate::strings::law_found_place_holds_the_pattern(title, TITLE_SEPARATOR@, title.len());
    let at = last_place(title, TITLE_SEPARATOR@, title.len())->0;
    assert(title.subrange(at as int, (at + 3) as int) == seq![' ', '-', ' ']);
    assert(title.subrange(at as int, title.len() as int) =~= seq![' ', '-', ' '] + client);
    assert((seq![' ', '-', ' '] + client).len() == title.len() - at);
    if k > at && occurs_at(title, seq![' ', '-', ' '], k) {
        crate::strings::law_last_place_is_the_last(title, TITLE_SEPARATOR@, title.len(), k);
    }
}

} // verus!
