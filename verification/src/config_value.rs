//! Configuration files as trees of values.

use vstd::prelude::*;

use crate::strings::same_text;

verus! {

/// A value of a configuration file. Numbers with a fraction are kept by their
/// bits, dates by their text.
#[derive(Debug, PartialEq, Eq)]
pub enum ConfigValue {
    Text(String),
    Integer(i64),
    Float(u64),
    Boolean(bool),
    Datetime(String),
    Array(Vec<ConfigValue>),
    Table(Vec<ConfigEntry>),
}

/// A named value of a table.
#[derive(Debug, PartialEq, Eq)]
pub struct ConfigEntry {
    pub key: String,
    pub value: ConfigValue,
}

/// A value of a configuration file, with its texts as sequences of characters.
pub enum ConfigView {
    Text(Seq<char>),
    Integer(i64),
    Float(u64),
    Boolean(bool),
    Datetime(Seq<char>),
    Array(Seq<ConfigView>),
    Table(Seq<EntryView>),
}

/// A named value of a table, with its texts as sequences of characters.
pub struct EntryView {
    pub key: Seq<char>,
    pub value: ConfigView,
}

/// What a value says.
pub open spec fn config_view(value: ConfigValue) -> ConfigView
    decreases value,
{
    match value {
        ConfigValue::Text(text) => ConfigView::Text(text@),
        ConfigValue::Integer(number) => ConfigView::Integer(number),
        ConfigValue::Float(bits) => ConfigView::Float(bits),
        ConfigValue::Boolean(flag) => ConfigView::Boolean(flag),
        ConfigValue::Datetime(text) => ConfigView::Datetime(text@),
        ConfigValue::Array(items) => ConfigView::Array(
            Seq::new(
                items@.len(),
                |i: int|
                    if 0 <= i < items@.len() {
                        config_view(items@[i])
                    } else {
                        ConfigView::Boolean(false)
                    },
            ),
        ),
        ConfigValue::Table(entries) => ConfigView::Table(
            Seq::new(
                entries@.len(),
                |i: int|
                    if 0 <= i < entries@.len() {
                        EntryView {
                            key: entries@[i].key@,
                            value: config_view(entries@[i].value),
                        }
                    } else {
                        EntryView { key: Seq::empty(), value: ConfigView::Boolean(false) }
                    },
            ),
        ),
    }
}

impl DeepView for ConfigValue {
    type V = ConfigView;

    open spec fn deep_view(&self) -> ConfigView {
        config_view(*self)
    }
}

impl DeepView for ConfigEntry {
    type V = EntryView;

    open spec fn deep_view(&self) -> EntryView {
        EntryView { key: self.key@, value: config_view(self.value) }
    }
}

/// The place of a key among the first `n` entries.
pub open spec fn key_place(entries: Seq<EntryView>, key: Seq<char>, n: nat) -> Option<nat>
    decreases n,
{
    if n == 0 {
        None
    } else {
        match key_place(entries, key, (n - 1) as nat) {
            Some(place) => Some(place),
            None => if entries[n - 1].key == key {
                Some((n - 1) as nat)
            } else {
                None
            },
        }
    }
}

/// The value under a key.
pub open spec fn entry_value(entries: Seq<EntryView>, key: Seq<char>) -> Option<ConfigView> {
    match key_place(entries, key, entries.len()) {
        Some(place) => Some(entries[place as int].value),
        None => None,
    }
}

/// The value under a key, if this is a table that has one.
pub open spec fn lookup(value: ConfigView, key: Seq<char>) -> Option<ConfigView> {
    match value {
        ConfigView::Table(entries) => entry_value(entries, key),
        _ => None,
    }
}

/// The base with the first `n` entries of an overlay put into it: where the base
/// has the key its value takes the overlay's, else the entry is added.
pub open spec fn merged_entries(
    base: Seq<EntryView>,
    overlay: Seq<EntryView>,
    n: nat,
) -> Seq<EntryView>
    decreases overlay, n,
{
    if n == 0 || n > overlay.len() {
        base
    } else {
        let before = merged_entries(base, overlay, (n - 1) as nat);
        let entry = overlay[n - 1];
        match key_place(before, entry.key, before.len()) {
            Some(place) => before.update(
                place as int,
                EntryView {
                    key: before[place as int].key,
                    value: merged(before[place as int].value, entry.value),
                },
            ),
            None => before.push(entry),
        }
    }
}

/// A value that another is laid over: tables are merged key by key, and any
/// other value gives way.
pub open spec fn merged(base: ConfigView, overlay: ConfigView) -> ConfigView
    decreases overlay, 0nat,
{
    match (base, overlay) {
        (ConfigView::Table(entries), ConfigView::Table(over)) => ConfigView::Table(
            merged_entries(entries, over, over.len()),
        ),
        _ => overlay,
    }
}

/// What a table says, entry by entry.
pub(crate) proof fn lemma_table_view(entries: Vec<ConfigEntry>)
    ensures
        config_view(ConfigValue::Table(entries)) == ConfigView::Table(entries.deep_view()),
{
    if let ConfigView::Table(views) = config_view(ConfigValue::Table(entries)) {
        assert(views =~= entries.deep_view());
    }
}

/// What the place of a key means: it is the first with that key.
proof fn lemma_key_place(entries: Seq<EntryView>, key: Seq<char>, n: nat)
    requires
        n <= entries.len(),
    ensures
        match key_place(entries, key, n) {
            Some(place) => {
                &&& place < n
                &&& entries[place as int].key == key
                &&& forall|k: int| 0 <= k < place ==> (#[trigger] entries[k]).key != key
            },
            None => forall|k: int| 0 <= k < n ==> (#[trigger] entries[k]).key != key,
        },
    decreases n,
{
    if n > 0 {
        lemma_key_place(entries, key, (n - 1) as nat);
    }
}

/// The place of a key.
fn find_key(entries: &Vec<ConfigEntry>, key: &str) -> (place: Option<usize>)
    ensures
        match place {
            Some(found) => found < entries@.len() && key_place(
                entries.deep_view(),
                key@,
                entries@.len(),
            ) == Some(found as nat),
            None => key_place(entries.deep_view(), key@, entries@.len()) is None,
        },
{
    let ghost views = entries.deep_view();
    for i in 0..entries.len()
        invariant
            views == entries.deep_view(),
            key_place(views, key@, i as nat) is None,
    {
        assert(views[i as int].key == entries@[i as int].key@);
        if same_text(entries[i].key.as_str(), key) {
            proof {
                lemma_place_is_kept(views, key@, (i + 1) as nat, entries@.len());
            }
            return Some(i);
        }
    }
    None
}

/// A place found among the first entries is the place among all.
proof fn lemma_place_is_kept(entries: Seq<EntryView>, key: Seq<char>, n: nat, all: nat)
    requires
        n <= all,
        key_place(entries, key, n) is Some,
    ensures
        key_place(entries, key, all) == key_place(entries, key, n),
    decreases all,
{
    if n < all {
        lemma_place_is_kept(entries, key, n, (all - 1) as nat);
    }
}

impl ConfigValue {
    /// The value under a key, if this is a table that has one.
    pub fn get(&self, key: &str) -> (value: Option<&ConfigValue>)
        ensures
            match value {
                Some(found) => lookup(self.deep_view(), key@) == Some(found.deep_view()),
                None => lookup(self.deep_view(), key@) is None,
            },
    {
        match self {
            ConfigValue::Table(entries) => {
                proof {
                    lemma_table_view(*entries);
                }
                match find_key(entries, key) {
                    Some(place) => Some(&entries[place].value),
                    None => None,
                }
            },
            _ => None,
        }
    }

    /// The text, if this is one.
    pub fn as_str(&self) -> (text: Option<&str>)
        ensures
            match text {
                Some(found) => self.deep_view() == ConfigView::Text(found@),
                None => !(self.deep_view() is Text),
            },
    {
        match self {
            ConfigValue::Text(text) => Some(text.as_str()),
            _ => None,
        }
    }

    /// The bits of the number, if this is one with a fraction.
    pub fn as_float(&self) -> (bits: Option<u64>)
        ensures
            match bits {
                Some(found) => self.deep_view() == ConfigView::Float(found),
                None => !(self.deep_view() is Float),
            },
    {
        match self {
            ConfigValue::Float(bits) => Some(*bits),
            _ => None,
        }
    }

    /// The flag, if this is one.
    pub fn as_bool(&self) -> (flag: Option<bool>)
        ensures
            match flag {
                Some(found) => self.deep_view() == ConfigView::Boolean(found),
                None => !(self.deep_view() is Boolean),
            },
    {
        match self {
            ConfigValue::Boolean(flag) => Some(*flag),
            _ => None,
        }
    }
}

/// Put the entries of an overlay into a table.
fn merge_entries(base: &mut Vec<ConfigEntry>, overlay: Vec<ConfigEntry>)
    ensures
        final(base).deep_view() == merged_entries(
            old(base).deep_view(),
            overlay.deep_view(),
            overlay@.len(),
        ),
    decreases overlay,
{
    let ghost over = overlay;
    for entry in it: overlay
        invariant
            it.seq() == over@,
            base.deep_view() == merged_entries(
                old(base).deep_view(),
                over.deep_view(),
                it.index() as nat,
            ),
    {
        let ghost before = base.deep_view();
        let ghost n = it.index() as int;
        assert(entry == over@[n]);
        assert(over.deep_view()[n] == entry.deep_view());
        match find_key(base, entry.key.as_str()) {
            Some(place) => {
                merge_toml_value(&mut base[place].value, entry.value);
                assert(base.deep_view() =~= before.update(
                    place as int,
                    EntryView {
                        key: before[place as int].key,
                        value: merged(before[place as int].value, entry.value.deep_view()),
                    },
                ));
            },
            None => {
                base.push(entry);
                assert(base.deep_view() =~= before.push(entry.deep_view()));
            },
        }
    }
}

/// Lay a value over another: tables are merged key by key, and any other value
/// gives way.
pub fn merge_toml_value(base: &mut ConfigValue, overlay: ConfigValue)
    ensures
        final(base).deep_view() == merged(old(base).deep_view(), overlay.deep_view()),
    decreases overlay,
{
    match overlay {
        ConfigValue::Table(over) => {
            proof {
                lemma_table_view(over);
            }
            match base {
                ConfigValue::Table(entries) => {
                    proof {
                        lemma_table_view(*entries);
                    }
                    merge_entries(entries, over);
                    proof {
                        lemma_table_view(*entries);
                    }
                },
                _ => {
                    *base = ConfigValue::Table(over);
                },
            }
        },
        other => {
            *base = other;
        },
    }
}

/// Whether no table in a value has a key twice.
pub open spec fn distinct_keys(value: ConfigView) -> bool
    decreases value,
{
    match value {
        ConfigView::Array(items) => forall|i: int|
            0 <= i < items.len() ==> distinct_keys(#[trigger] items[i]),
        ConfigView::Table(entries) => {
            &&& unlike_keys(entries)
            &&& forall|i: int|
                0 <= i < entries.len() ==> distinct_keys((#[trigger] entries[i]).value)
        },
        _ => true,
    }
}

/// Whether no two entries have the same key.
pub open spec fn unlike_keys(entries: Seq<EntryView>) -> bool {
    forall|i: int, j: int|
        0 <= i < j < entries.len() ==> (#[trigger] entries[i]).key != (#[trigger] entries[j]).key
}

/// `toml::Value`, a parsed configuration file.
#[verifier::external_type_specification]
#[verifier::external_body]
pub struct ExTomlValue(toml::Value);

/// `toml::de::Error`, why a configuration file could not be parsed.
#[verifier::external_type_specification]
#[verifier::external_body]
pub struct ExTomlError(toml::de::Error);

/// What a parsed configuration file holds.
pub uninterp spec fn toml_tree(value: toml::Value) -> ConfigView;

/// What the text of a configuration file says, if it can be parsed.
pub uninterp spec fn toml_document(text: Seq<char>) -> Option<ConfigView>;

/// `toml::from_str`, into a `toml::Value`.
///
/// Trusted: whether the text can be parsed, and what it then holds, is a function
/// of the text.
#[verifier::external_body]
fn parse_toml(text: &str) -> (parsed: Result<toml::Value, toml::de::Error>)
    ensures
        match parsed {
            Ok(value) => toml_document(text@) == Some(toml_tree(value)),
            Err(_) => toml_document(text@) is None,
        },
{
    toml::from_str::<toml::Value>(text)
}

/// The variants of `toml::Value`, one for one.
///
/// Trusted: the tree is what the value holds, and since tables are maps no key
/// stands in one twice.
#[verifier::external_body]
fn config_value(value: toml::Value) -> (tree: ConfigValue)
    ensures
        tree.deep_view() == toml_tree(value),
        distinct_keys(tree.deep_view()),
{
    match value {
        toml::Value::String(text) => ConfigValue::Text(text),
        toml::Value::Integer(number) => ConfigValue::Integer(number),
        toml::Value::Float(number) => ConfigValue::Float(number.to_bits()),
        toml::Value::Boolean(flag) => ConfigValue::Boolean(flag),
        toml::Value::Datetime(date) => ConfigValue::Datetime(date.to_string()),
        toml::Value::Array(items) => ConfigValue::Array(
            items.into_iter().map(config_value).collect(),
        ),
        toml::Value::Table(entries) => ConfigValue::Table(
            entries.into_iter().map(|(key, value)| ConfigEntry { key, value: config_value(value) }).collect(),
        ),
    }
}

/// Why a configuration could not be read.
#[derive(Debug)]
pub enum ConfigError {
    /// The text is no configuration file.
    Syntax(toml::de::Error),
}

/// The values that a configuration file holds.
pub fn parse_config(text: &str) -> (parsed: Result<ConfigValue, ConfigError>)
    ensures
        match parsed {
            Ok(value) => toml_document(text@) == Some(value.deep_view()) && distinct_keys(
                value.deep_view(),
            ),
            Err(_) => toml_document(text@) is None,
        },
{
    match parse_toml(text) {
        Ok(value) => Ok(config_value(value)),
        Err(error) => Err(ConfigError::Syntax(error)),
    }
}

/// Changing the value of an entry moves no key.
proof fn lemma_place_after_update(
    entries: Seq<EntryView>,
    at: int,
    value: ConfigView,
    key: Seq<char>,
    n: nat,
)
    requires
        0 <= at < entries.len(),
        n <= entries.len(),
    ensures
        key_place(
            entries.update(at, EntryView { key: entries[at].key, value }),
            key,
            n,
        ) == key_place(entries, key, n),
    decreases n,
{
    if n > 0 {
        lemma_place_after_update(entries, at, value, key, (n - 1) as nat);
    }
}

/// An entry added at the end moves no key.
proof fn lemma_place_after_push(entries: Seq<EntryView>, entry: EntryView, key: Seq<char>, n: nat)
    requires
        n <= entries.len(),
    ensures
        key_place(entries.push(entry), key, n) == key_place(entries, key, n),
    decreases n,
{
    if n > 0 {
        lemma_place_after_push(entries, entry, key, (n - 1) as nat);
    }
}

/// What merging the first `n` entries of an overlay makes of a key.
proof fn lemma_merged_value(
    base: Seq<EntryView>,
    overlay: Seq<EntryView>,
    n: nat,
    key: Seq<char>,
)
    requires
        n <= overlay.len(),
        unlike_keys(overlay),
    ensures
        entry_value(merged_entries(base, overlay, n), key) == match key_place(overlay, key, n) {
            None => entry_value(base, key),
            Some(place) => match entry_value(base, key) {
                None => Some(overlay[place as int].value),
                Some(value) => Some(merged(value, overlay[place as int].value)),
            },
        },
        merged_entries(base, overlay, n).len() >= base.len(),
    decreases n,
{
    if n > 0 {
        lemma_merged_value(base, overlay, (n - 1) as nat, key);
        let before = merged_entries(base, overlay, (n - 1) as nat);
        let entry = overlay[n - 1];
        lemma_key_place(overlay, key, (n - 1) as nat);
        lemma_key_place(before, entry.key, before.len());
        lemma_key_place(before, key, before.len());
        match key_place(before, entry.key, before.len()) {
            Some(place) => {
                lemma_place_after_update(
                    before,
                    place as int,
                    merged(before[place as int].value, entry.value),
                    key,
                    before.len(),
                );
            },
            None => {
                lemma_place_after_push(before, entry, key, before.len());
            },
        }
    }
}

/// Laying a table over another goes key by key: a key that only one of them has
/// keeps its value, and where both have it the overlay's value is laid over the
/// other.
pub proof fn law_merge_goes_key_by_key(base: ConfigView, overlay: ConfigView, key: Seq<char>)
    requires
        base is Table,
        overlay is Table,
        distinct_keys(overlay),
    ensures
        lookup(merged(base, overlay), key) == match (lookup(base, key), lookup(overlay, key)) {
            (under, None) => under,
            (None, Some(over)) => Some(over),
            (Some(under), Some(over)) => Some(merged(under, over)),
        },
{
    let entries = base->Table_0;
    let over = overlay->Table_0;
    lemma_merged_value(entries, over, over.len(), key);
}

/// A value that is no table wins over any other, and over a value that is no
/// table any other wins.
pub proof fn law_overlay_wins(base: ConfigView, overlay: ConfigView)
    requires
        !(base is Table) || !(overlay is Table),
    ensures
        merged(base, overlay) == overlay,
{
}

/// An empty table changes nothing of a table.
pub proof fn law_empty_overlay_changes_nothing(base: ConfigView)
    requires
        base is Table,
    ensures
        merged(base, ConfigView::Table(Seq::empty())) == base,
{
}

/// Entries with unlike keys stay so when an overlay is put into them.
proof fn lemma_merged_keys(base: Seq<EntryView>, overlay: Seq<EntryView>, n: nat)
    requires
        n <= overlay.len(),
        distinct_keys(ConfigView::Table(base)),
        distinct_keys(ConfigView::Table(overlay)),
    ensures
        distinct_keys(ConfigView::Table(merged_entries(base, overlay, n))),
    decreases overlay, n,
{
    if n > 0 {
        lemma_merged_keys(base, overlay, (n - 1) as nat);
        let before = merged_entries(base, overlay, (n - 1) as nat);
        let after = merged_entries(base, overlay, n);
        let entry = overlay[n - 1];
        lemma_key_place(before, entry.key, before.len());
        assert(distinct_keys(entry.value));
        match key_place(before, entry.key, before.len()) {
            Some(place) => {
                assert(distinct_keys(before[place as int].value));
                law_merge_keeps_keys_distinct(before[place as int].value, entry.value);
                assert forall|i: int| 0 <= i < after.len() implies distinct_keys(
                    (#[trigger] after[i]).value,
                ) by {
                    if i != place {
                        assert(after[i] == before[i]);
                    }
                }
                assert forall|i: int, j: int| 0 <= i < j < after.len() implies (
                #[trigger] after[i]).key != (#[trigger] after[j]).key by {
                    assert(after[i].key == before[i].key && after[j].key == before[j].key);
                }
            },
            None => {
                assert forall|i: int| 0 <= i < after.len() implies distinct_keys(
                    (#[trigger] after[i]).value,
                ) by {
                    if i < before.len() {
                        assert(after[i] == before[i]);
                    }
                }
                assert forall|i: int, j: int| 0 <= i < j < after.len() implies (
                #[trigger] after[i]).key != (#[trigger] after[j]).key by {
                    assert(after[i] == before[i]);
                    if j < before.len() {
                        assert(after[j] == before[j]);
                    }
                }
            },
        }
    }
}

/// Values in which no key stands twice give a value in which none does.
pub proof fn law_merge_keeps_keys_distinct(base: ConfigView, overlay: ConfigView)
    requires
        distinct_keys(base),
        distinct_keys(overlay),
    ensures
        distinct_keys(merged(base, overlay)),
    decreases overlay, 0nat,
{
    match (base, overlay) {
        (ConfigView::Table(entries), ConfigView::Table(over)) => {
            lemma_merged_keys(entries, over, over.len());
        },
        _ => {},
    }
}

/// Entries that already say what an overlay says stay as they are.
proof fn lemma_settled_entries(entries: Seq<EntryView>, overlay: Seq<EntryView>, n: nat)
    requires
        n <= overlay.len(),
        forall|i: int|
            0 <= i < overlay.len() ==> match entry_value(
                entries,
                (#[trigger] overlay[i]).key,
            ) {
                Some(value) => merged(value, overlay[i].value) == value,
                None => false,
            },
    ensures
        merged_entries(entries, overlay, n) == entries,
    decreases n,
{
    if n > 0 {
        lemma_settled_entries(entries, overlay, (n - 1) as nat);
        let entry = overlay[n - 1];
        lemma_key_place(entries, entry.key, entries.len());
        assert(merged_entries(entries, overlay, n) =~= entries);
    }
}

/// The value of an entry is found under its key, where no key stands twice.
pub(crate) proof fn lemma_own_value(entries: Seq<EntryView>, i: int)
    requires
        0 <= i < entries.len(),
        unlike_keys(entries),
    ensures
        key_place(entries, entries[i].key, entries.len()) == Some(i as nat),
{
    lemma_key_place(entries, entries[i].key, entries.len());
    match key_place(entries, entries[i].key, entries.len()) {
        Some(place) => {
            if place < i {
                assert(entries[place as int].key != entries[i].key);
            } else if i < place {
                assert(entries[i].key != entries[place as int].key);
            }
        },
        None => {},
    }
}

/// A value laid over itself stays as it is.
proof fn lemma_merged_with_itself(value: ConfigView)
    requires
        distinct_keys(value),
    ensures
        merged(value, value) == value,
    decreases value,
{
    if let ConfigView::Table(entries) = value {
        assert forall|i: int| 0 <= i < entries.len() implies match entry_value(
            entries,
            (#[trigger] entries[i]).key,
        ) {
            Some(found) => merged(found, entries[i].value) == found,
            None => false,
        } by {
            lemma_own_value(entries, i);
            lemma_merged_with_itself(entries[i].value);
        }
        lemma_settled_entries(entries, entries, entries.len());
    }
}

/// Laying the same value over another a second time changes nothing.
pub proof fn law_merging_again_changes_nothing(base: ConfigView, overlay: ConfigView)
    requires
        distinct_keys(overlay),
    ensures
        merged(merged(base, overlay), overlay) == merged(base, overlay),
    decreases overlay,
{
    match (base, overlay) {
        (ConfigView::Table(entries), ConfigView::Table(over)) => {
            let once = merged_entries(entries, over, over.len());
            assert forall|i: int| 0 <= i < over.len() implies match entry_value(
                once,
                (#[trigger] over[i]).key,
            ) {
                Some(found) => merged(found, over[i].value) == found,
                None => false,
            } by {
                lemma_own_value(over, i);
                lemma_merged_value(entries, over, over.len(), over[i].key);
                lemma_merged_with_itself(over[i].value);
                if let Some(under) = entry_value(entries, over[i].key) {
                    law_merging_again_changes_nothing(under, over[i].value);
                }
            }
            lemma_settled_entries(once, over, over.len());
        },
        _ => {
            lemma_merged_with_itself(overlay);
        },
    }
}

/// A value in which no key stands twice holds only such values.
pub(crate) proof fn lemma_value_is_distinct(value: ConfigView, key: Seq<char>)
    requires
        distinct_keys(value),
        lookup(value, key) is Some,
    ensures
        distinct_keys(lookup(value, key)->0),
{
    let entries = value->Table_0;
    lemma_key_place(entries, key, entries.len());
    let place = key_place(entries, key, entries.len())->0;
    assert(distinct_keys(entries[place as int].value));
}

/// The value under a key is that of the entry with the key, where no key stands
/// twice, and there is none under a key that no entry has.
pub proof fn law_values_are_found_by_their_keys(entries: Seq<EntryView>, i: int, key: Seq<char>)
    requires
        unlike_keys(entries),
    ensures
        0 <= i < entries.len() ==> lookup(ConfigView::Table(entries), entries[i].key) == Some(
            entries[i].value,
        ),
        (forall|k: int| 0 <= k < entries.len() ==> (#[trigger] entries[k]).key != key) ==> lookup(
            ConfigView::Table(entries),
            key,
        ) is None,
{
    if 0 <= i < entries.len() {
        lemma_own_value(entries, i);
    }
    lemma_key_place(entries, key, entries.len());
}

} // verus!
