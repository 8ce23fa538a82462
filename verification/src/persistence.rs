//! The state that outlives the program: snoozes, preferences and the window's place.

use vstd::prelude::*;
use vstd::string::*;

use crate::table::{in_order, Table};
use crate::text::{debug_text, joined, quoted, Text};
use crate::timestamp::{format_rfc3339, in_calendar, parse_rfc3339, rfc3339_reading, rfc3339_text,
    rfc3339_writing, Timestamp};

verus! {

/// The name of the state file in the home directory.
pub const STATE_FILENAME: &'static str = ".salmon-watch-state.json";

/// The name under which the state of earlier versions is kept.
pub const LEGACY_STATE_FILENAME: &'static str = ".salmon-watch-legacy-state.json";

/// The first version whose state file says its version.
pub const SCHEMA_VERSION: u32 = 1;

/// The name of the field with the version.
pub const SCHEMA_VERSION_FIELD: &'static str = "schema_version";

/// Fields of the state file that this version does not know, by name. The values are JSON texts.
/// They are written back as they were read.
pub type UnknownFields = Table<String>;

/// A stored snooze.
#[derive(Debug, PartialEq, Eq)]
pub struct SnoozeEntry {
    /// The deadline as an RFC 3339 text.
    pub snoozed_until: String,
    pub extra: UnknownFields,
}

/// What a [`SnoozeEntry`] says.
#[verifier::ext_equal]
pub struct EntryModel {
    pub snoozed_until: Text,
    pub extra: Map<Text, Text>,
}

impl View for SnoozeEntry {
    type V = EntryModel;

    open spec fn view(&self) -> EntryModel {
        EntryModel { snoozed_until: self.snoozed_until@, extra: self.extra@ }
    }
}

impl DeepView for SnoozeEntry {
    type V = EntryModel;

    open spec fn deep_view(&self) -> EntryModel {
        self.view()
    }
}

impl Clone for SnoozeEntry {
    fn clone(&self) -> (copy: Self)
        ensures
            copy@ == self@,
    {
        SnoozeEntry { snoozed_until: self.snoozed_until.clone(), extra: self.extra.duplicate() }
    }
}

/// The colours of the window.
#[derive(Clone, Copy, Debug, PartialEq, Eq, Structural)]
pub enum Theme {
    Dark,
    Light,
}

impl Default for Theme {
    fn default() -> (theme: Self)
        ensures
            theme == Theme::Dark,
    {
        Theme::Dark
    }
}

/// Which sections of the window are open.
#[derive(Debug, PartialEq, Eq)]
pub struct SectionPreferences {
    pub servers_expanded: bool,
    pub active_incidents_expanded: bool,
    pub snoozed_incidents_expanded: bool,
    pub extra: UnknownFields,
}

/// Whether a section is open where nothing was stored.
pub fn default_expanded() -> (expanded: bool)
    ensures
        expanded,
{
    true
}

/// The version that a state file has where it says none.
pub fn schema_version() -> (version: u32)
    ensures
        version == 1,
{
    SCHEMA_VERSION
}

impl Default for SectionPreferences {
    fn default() -> (sections: Self)
        ensures
            sections.servers_expanded,
            sections.active_incidents_expanded,
            !sections.snoozed_incidents_expanded,
            sections.extra@ == Map::<Text, Text>::empty(),
    {
        SectionPreferences {
            servers_expanded: true,
            active_incidents_expanded: true,
            snoozed_incidents_expanded: false,
            extra: Table::new(),
        }
    }
}

/// The place of the window in physical pixels.
///
/// The bounds are always those of the window when it is neither maximized nor fullscreen.
#[derive(Clone, Copy, Debug, PartialEq, Eq, Structural)]
pub struct WindowGeometry {
    pub x: i32,
    pub y: i32,
    pub width: u32,
    pub height: u32,
    pub maximized: bool,
}

impl WindowGeometry {
    /// The same bounds, not maximized.
    pub fn as_normal(self) -> (normal: Self)
        ensures
            normal == (WindowGeometry { maximized: false, ..self }),
    {
        WindowGeometry { maximized: false, ..self }
    }
}

/// What the user chose.
#[derive(Debug, PartialEq, Eq)]
pub struct Preferences {
    pub theme: Theme,
    pub sections: SectionPreferences,
    pub window_geometry: Option<WindowGeometry>,
    pub launch_minimized: bool,
    pub extra: UnknownFields,
}

impl Default for Preferences {
    fn default() -> (preferences: Self)
        ensures
            preferences.theme == Theme::Dark,
            preferences.sections.servers_expanded,
            preferences.sections.active_incidents_expanded,
            !preferences.sections.snoozed_incidents_expanded,
            preferences.sections.extra@ == Map::<Text, Text>::empty(),
            preferences.window_geometry is None,
            !preferences.launch_minimized,
            preferences.extra@ == Map::<Text, Text>::empty(),
    {
        Preferences {
            theme: Theme::Dark,
            sections: SectionPreferences::default(),
            window_geometry: None,
            launch_minimized: false,
            extra: Table::new(),
        }
    }
}

/// What the state file holds.
#[derive(Debug, PartialEq, Eq)]
pub struct StateFile {
    pub schema_version: u32,
    pub snoozed: Table<SnoozeEntry>,
    pub preferences: Preferences,
    pub extra: UnknownFields,
}

impl Default for StateFile {
    fn default() -> (state: Self)
        ensures
            state.schema_version == 1,
            state.snoozed@ == Map::<Text, EntryModel>::empty(),
            state.preferences.theme == Theme::Dark,
            state.preferences.sections.servers_expanded,
            state.preferences.sections.active_incidents_expanded,
            !state.preferences.sections.snoozed_incidents_expanded,
            state.preferences.window_geometry is None,
            !state.preferences.launch_minimized,
            state.preferences.sections.extra@ == Map::<Text, Text>::empty(),
            state.preferences.extra@ == Map::<Text, Text>::empty(),
            state.extra@ == Map::<Text, Text>::empty(),
    {
        StateFile {
            schema_version: schema_version(),
            snoozed: Table::new(),
            preferences: Preferences::default(),
            extra: Table::new(),
        }
    }
}

/// Why snoozes cannot be read or written.
#[derive(Debug, PartialEq, Eq)]
pub enum DeadlineError {
    /// The deadline of this key is no RFC 3339 text, with the words for why.
    Unreadable { key: String, reason: String },
    /// A deadline has no RFC 3339 text, with the words for why.
    Unwritable { reason: String },
}

impl DeadlineError {
    /// The words for why snoozes cannot be read or written.
    pub open spec fn words(self) -> Text {
        match self {
            DeadlineError::Unreadable { key, reason } => "invalid snooze deadline for "@
                + debug_text(key@) + ": "@ + reason@,
            DeadlineError::Unwritable { reason } => "failed to format snooze deadline: "@
                + reason@,
        }
    }

    /// The words for why snoozes cannot be read or written.
    pub fn message(&self) -> (message: String)
        ensures
            message@ == self.words(),
    {
        match self {
            DeadlineError::Unreadable { key, reason } => joined(
                "invalid snooze deadline for ",
                quoted(key.as_str()).as_str(),
            ).concat(": ").concat(reason.as_str()),
            DeadlineError::Unwritable { reason } => joined(
                "failed to format snooze deadline: ",
                reason.as_str(),
            ),
        }
    }
}

/// The first of the keys from `from` on whose deadline cannot be read.
pub open spec fn first_unreadable(
    snoozed: Map<Text, EntryModel>,
    keys: Seq<Text>,
    from: int,
) -> Option<Text>
    decreases keys.len() - from,
{
    if from >= keys.len() {
        None
    } else if rfc3339_reading(snoozed[keys[from]].snoozed_until) is Err {
        Some(keys[from])
    } else {
        first_unreadable(snoozed, keys, from + 1)
    }
}

/// The deadlines of stored snoozes.
pub open spec fn deadlines(snoozed: Map<Text, EntryModel>) -> Map<Text, Timestamp> {
    snoozed.map_values(|entry: EntryModel| rfc3339_reading(entry.snoozed_until)->Ok_0)
}

/// The first of the keys from `from` on whose deadline cannot be written.
pub open spec fn first_unwritable(
    snoozes: Map<Text, Timestamp>,
    keys: Seq<Text>,
    from: int,
) -> Option<int>
    decreases keys.len() - from,
{
    if from >= keys.len() {
        None
    } else if !in_calendar(snoozes[keys[from]]) {
        Some(from)
    } else {
        first_unwritable(snoozes, keys, from + 1)
    }
}

/// The entry for a deadline. What an entry had besides its deadline stays.
pub open spec fn entry_for(
    before: Map<Text, EntryModel>,
    key: Text,
    until: Timestamp,
) -> EntryModel {
    EntryModel {
        snoozed_until: rfc3339_text(until),
        extra: if before.contains_key(key) {
            before[key].extra
        } else {
            Map::empty()
        },
    }
}

/// The entries once the first `count` of the keys in order were written: entries of other keys
/// are gone, those of the keys that follow stand as they were.
pub open spec fn replaced(
    before: Map<Text, EntryModel>,
    snoozes: Map<Text, Timestamp>,
    written: Seq<Text>,
) -> Map<Text, EntryModel> {
    Map::new(
        |key: Text| snoozes.contains_key(key) && (before.contains_key(key) || written.contains(key)),
        |key: Text|
            if written.contains(key) {
                entry_for(before, key, snoozes[key])
            } else {
                before[key]
            },
    )
}

impl StateFile {
    /// The deadlines of the stored snoozes.
    pub fn decoded_snoozes(&self) -> (outcome: Result<Table<Timestamp>, DeadlineError>)
        ensures
            ({
                let keys = in_order(self.snoozed@.dom());
                let bad = first_unreadable(self.snoozed@, keys, 0);
                &&& outcome is Ok <==> bad is None
                &&& outcome matches Ok(snoozes) ==> snoozes@ == deadlines(self.snoozed@)
                &&& outcome matches Err(error) ==> (error matches DeadlineError::Unreadable {
                    key,
                    reason,
                } && bad == Some(key@) && reason@ == rfc3339_reading(
                    self.snoozed@[key@].snoozed_until,
                )->Err_0)
            }),
    {
        let ghost snoozed = self.snoozed@;
        let count: usize = self.snoozed.len();
        let ghost keys = self.snoozed.keys();
        let mut decoded: Table<Timestamp> = Table::new();
        let mut i: usize = 0;
        assert(keys.take(0) =~= Seq::<Text>::empty());
        while i < count
            invariant
                snoozed == self.snoozed@,
                keys == self.snoozed.keys(),
                keys == in_order(snoozed.dom()),
                count == keys.len(),
                i <= count,
                first_unreadable(snoozed, keys, 0) == first_unreadable(snoozed, keys, i as int),
                decoded@ == Map::new(
                    |key: Text| keys.take(i as int).contains(key),
                    |key: Text| rfc3339_reading(snoozed[key].snoozed_until)->Ok_0,
                ),
            decreases count - i,
        {
            let key = self.snoozed.key_at(i);
            let entry = self.snoozed.value_at(i);
            match parse_rfc3339(entry.snoozed_until.as_str()) {
                Err(reason) => {
                    return Err(DeadlineError::Unreadable { key: key.to_owned(), reason });
                },
                Ok(until) => {
                    proof {
                        lemma_one_more_key(keys, i as int);
                        let next = keys.take(i + 1);
                        assert(decoded@.insert(key@, until) =~= Map::new(
                            |other: Text| next.contains(other),
                            |other: Text| rfc3339_reading(snoozed[other].snoozed_until)->Ok_0,
                        ));
                    }
                    decoded.insert(key.to_owned(), until);
                },
            }
            i += 1;
        }
        proof {
            assert(keys.take(i as int) =~= keys);
            self.snoozed.lemma_members();
            assert forall|key: Text| keys.contains(key) <==> snoozed.contains_key(key) by {}
            assert(decoded@ =~= deadlines(snoozed));
        }
        Ok(decoded)
    }

    /// Makes the stored snoozes these. Entries that stay keep the fields that are not known.
    /// Where a deadline cannot be written, the snoozes before it are replaced and the error is
    /// returned.
    pub fn replace_snoozes(&mut self, snoozes: &Table<Timestamp>) -> (outcome: Result<
        (),
        DeadlineError,
    >)
        ensures
            ({
                let keys = in_order(snoozes@.dom());
                let bad = first_unwritable(snoozes@, keys, 0);
                &&& outcome is Ok <==> bad is None
                &&& outcome is Ok ==> final(self).snoozed@ == replaced(
                    old(self).snoozed@,
                    snoozes@,
                    keys,
                )
                &&& outcome matches Err(error) ==> final(self).snoozed@ == replaced(
                    old(self).snoozed@,
                    snoozes@,
                    keys.take(bad->0),
                ) && (error matches DeadlineError::Unwritable { reason } && reason@
                    == rfc3339_writing(snoozes@[keys[bad->0]])->Err_0)
            }),
            outcome is Ok ==> are_read_back(final(self).snoozed@, snoozes@),
            final(self).schema_version == old(self).schema_version,
            final(self).preferences == old(self).preferences,
            final(self).extra == old(self).extra,
    {
        let ghost before = self.snoozed@;
        let ghost wanted = snoozes@;
        let count: usize = snoozes.len();
        let ghost keys = snoozes.keys();
        self.retain_keys(snoozes);
        let mut i: usize = 0;
        assert(keys.take(0) =~= Seq::<Text>::empty());
        assert(self.snoozed@ =~= replaced(before, wanted, keys.take(0)));
        while i < count
            invariant
                before == old(self).snoozed@,
                wanted == snoozes@,
                wanted.dom().finite(),
                keys == snoozes.keys(),
                keys == in_order(wanted.dom()),
                count == keys.len(),
                i <= count,
                forall|j: int| 0 <= j < i ==> is_read_back(wanted[#[trigger] keys[j]]),
                forall|j: int| 0 <= j < count ==> wanted.contains_key(#[trigger] keys[j]),
                first_unwritable(wanted, keys, 0) == first_unwritable(wanted, keys, i as int),
                self.snoozed@ == replaced(before, wanted, keys.take(i as int)),
                self.schema_version == old(self).schema_version,
                self.preferences == old(self).preferences,
                self.extra == old(self).extra,
            decreases count - i,
        {
            let key = snoozes.key_at(i);
            let until: Timestamp = *snoozes.value_at(i);
            let formatted = match format_rfc3339(until) {
                Ok(text) => text,
                Err(reason) => {
                    return Err(DeadlineError::Unwritable { reason });
                },
            };
            let ghost seen = keys.take(i as int);
            let ghost next = keys.take(i + 1);
            proof {
                lemma_one_more_key(keys, i as int);
                snoozes.lemma_distinct(i as int);
            }
            let extra: UnknownFields = match self.snoozed.get(key) {
                Some(entry) => entry.extra.duplicate(),
                None => Table::new(),
            };
            let entry = SnoozeEntry { snoozed_until: formatted, extra };
            proof {
                assert(entry@ == entry_for(before, key@, wanted[key@]));
                assert(self.snoozed@.insert(key@, entry@) =~= replaced(before, wanted, next));
            }
            self.snoozed.insert(key.to_owned(), entry);
            i += 1;
        }
        proof {
            assert(keys.take(i as int) =~= keys);
            snoozes.lemma_members();
            assert forall|key: Text| #[trigger] wanted.contains_key(key) implies is_read_back(wanted[key]) by {
                assert(keys.contains(key));
                let n = choose|n: int| 0 <= n < keys.len() && keys[n] == key;
                assert(is_read_back(wanted[keys[n]]));
            }
            stored_snoozes_are_read_back(before, wanted);
        }
        Ok(())
    }

    /// Drops the entries of other keys.
    fn retain_keys(&mut self, snoozes: &Table<Timestamp>)
        ensures
            final(self).snoozed@ == Map::new(
                |key: Text| old(self).snoozed@.contains_key(key) && snoozes@.contains_key(key),
                |key: Text| old(self).snoozed@[key],
            ),
            final(self).schema_version == old(self).schema_version,
            final(self).preferences == old(self).preferences,
            final(self).extra == old(self).extra,
    {
        let ghost before = self.snoozed@;
        let count: usize = self.snoozed.len();
        let ghost keys = self.snoozed.keys();
        let mut kept: Table<SnoozeEntry> = Table::new();
        let mut i: usize = 0;
        assert(keys.take(0) =~= Seq::<Text>::empty());
        while i < count
            invariant
                before == self.snoozed@,
                *self == *old(self),
                keys == self.snoozed.keys(),
                count == keys.len(),
                i <= count,
                kept@ == Map::new(
                    |key: Text| keys.take(i as int).contains(key) && snoozes@.contains_key(key),
                    |key: Text| before[key],
                ),
            decreases count - i,
        {
            let key = self.snoozed.key_at(i);
            let entry = self.snoozed.value_at(i);
            let ghost next = keys.take(i + 1);
            proof {
                lemma_one_more_key(keys, i as int);
            }
            if snoozes.contains_key(key) {
                assert(kept@.insert(key@, entry@) =~= Map::new(
                    |other: Text| next.contains(other) && snoozes@.contains_key(other),
                    |other: Text| before[other],
                ));
                kept.insert(key.to_owned(), entry.clone());
            } else {
                assert(kept@ =~= Map::new(
                    |other: Text| next.contains(other) && snoozes@.contains_key(other),
                    |other: Text| before[other],
                ));
            }
            i += 1;
        }
        proof {
            assert(keys.take(i as int) =~= keys);
            self.snoozed.lemma_members();
            assert forall|key: Text| keys.contains(key) <==> before.contains_key(key) by {}
            assert(kept@ =~= Map::new(
                |key: Text| before.contains_key(key) && snoozes@.contains_key(key),
                |key: Text| before[key],
            ));
        }
        self.snoozed = kept;
    }
}

proof fn lemma_one_more_key(keys: Seq<Text>, i: int)
    requires
        0 <= i < keys.len(),
    ensures
        forall|key: Text|
            #[trigger] keys.take(i + 1).contains(key) <==> keys.take(i).contains(key) || key
                == keys[i],
{
    let seen = keys.take(i);
    let next = keys.take(i + 1);
    assert forall|key: Text| #[trigger] next.contains(key) <==> seen.contains(key) || key == keys[i] by {
        if seen.contains(key) {
            let n = choose|n: int| 0 <= n < seen.len() && seen[n] == key;
            assert(next[n] == key);
        }
        if next.contains(key) && key != keys[i] {
            let n = choose|n: int| 0 <= n < next.len() && next[n] == key;
            assert(seen[n] == key);
        }
        assert(next[i] == keys[i]);
    }
}

/// Whether the stored entries can be read, and give these snoozes to the nanosecond.
pub open spec fn are_read_back(stored: Map<Text, EntryModel>, snoozes: Map<Text, Timestamp>) -> bool {
    &&& first_unreadable(stored, in_order(stored.dom()), 0) is None
    &&& deadlines(stored) == snoozes
}

/// Snoozes whose texts are read back are stored and read again without a change.
pub proof fn stored_snoozes_are_read_back(
    before: Map<Text, EntryModel>,
    snoozes: Map<Text, Timestamp>,
)
    requires
        snoozes.dom().finite(),
        forall|key: Text| #[trigger] snoozes.contains_key(key) ==> is_read_back(snoozes[key]),
    ensures
        are_read_back(replaced(before, snoozes, in_order(snoozes.dom())), snoozes),
{
    let keys = in_order(snoozes.dom());
    crate::table::in_order_has_the_members(snoozes.dom());
    assert forall|key: Text| keys.contains(key) <==> snoozes.contains_key(key) by {
        assert(keys.to_set().contains(key) <==> snoozes.dom().contains(key));
    }
    let stored = replaced(before, snoozes, keys);
    assert forall|key: Text| snoozes.contains_key(key) implies deadlines(stored)[key] == snoozes[key] by {
        assert(is_read_back(snoozes[key]));
    }
    assert(deadlines(stored) =~= snoozes);
    assert(stored.dom() =~= snoozes.dom());
    assert forall|i: int| 0 <= i < keys.len() implies rfc3339_reading(
        stored[#[trigger] keys[i]].snoozed_until,
    ) is Ok by {
        assert(keys.contains(keys[i]));
        assert(is_read_back(snoozes[keys[i]]));
    }
    lemma_all_readable(stored, keys, 0);
}

proof fn lemma_all_readable(stored: Map<Text, EntryModel>, keys: Seq<Text>, from: int)
    requires
        0 <= from,
        forall|i: int|
            0 <= i < keys.len() ==> rfc3339_reading(stored[#[trigger] keys[i]].snoozed_until) is Ok,
    ensures
        first_unreadable(stored, keys, from) is None,
    decreases keys.len() - from,
{
    if from < keys.len() {
        assert(rfc3339_reading(stored[keys[from]].snoozed_until) is Ok);
        lemma_all_readable(stored, keys, from + 1);
    }
}

/// Whether the text of an instant is read back as the instant.
pub open spec fn is_read_back(at: Timestamp) -> bool {
    rfc3339_reading(rfc3339_text(at)) is Ok && rfc3339_reading(rfc3339_text(at))->Ok_0 == at
}

/// What is not known of an entry survives a change of its deadline.
pub proof fn unknown_fields_survive(
    before: Map<Text, EntryModel>,
    snoozes: Map<Text, Timestamp>,
    written: Seq<Text>,
    key: Text,
)
    requires
        before.contains_key(key),
        snoozes.contains_key(key),
    ensures
        replaced(before, snoozes, written).contains_key(key),
        replaced(before, snoozes, written)[key].extra == before[key].extra,
{
}

// ---------------------------------------------------------------------------------------------
// State of earlier versions
// ---------------------------------------------------------------------------------------------

/// What `serde_json` finds in a file: the words for why it is no JSON; or, where it is an object
/// and has the field, whether that is a whole number that is not negative, and which.
pub uninterp spec fn field_reading(data: Seq<u8>, field: Seq<char>) -> Result<
    Option<Option<Option<u64>>>,
    Seq<char>,
>;

/// Reads one field of a JSON object with `serde_json::from_slice` and the accessors of its
/// `Value`.
#[verifier::external_body]
fn read_field(data: &[u8], field: &str) -> (reading: Result<Option<Option<Option<u64>>>, String>)
    ensures
        reading is Ok <==> field_reading(data@, field@) is Ok,
        reading matches Ok(found) ==> found == field_reading(data@, field@)->Ok_0,
        reading matches Err(words) ==> words@ == field_reading(data@, field@)->Err_0,
{
    let value: Result<serde_json::Value, serde_json::Error> = serde_json::from_slice(data);
    value.map(
        |value| value.as_object().map(|fields| fields.get(field).map(|version| version.as_u64())),
    ).map_err(|error| format!("{:#}", anyhow::Error::from(error)))
}

/// Why the version of a state file cannot be told.
#[derive(Debug, PartialEq, Eq)]
pub enum SchemaError {
    /// It is no JSON, with the words for why.
    Unreadable(String),
    NotAnObject,
    /// Its version is no whole number, or negative.
    Version,
}

/// Whether a state file is of a version before the first that says its version.
pub open spec fn is_legacy(version: Option<Option<u64>>) -> Option<bool> {
    match version {
        None => Some(true),
        Some(None) => None,
        Some(Some(number)) => Some(number < 1),
    }
}

/// Tells from what was found in a state file whether it is of an earlier version.
pub fn legacy_verdict(found: Option<Option<Option<u64>>>) -> (verdict: Result<bool, SchemaError>)
    ensures
        verdict == (match found {
            None => Err::<bool, SchemaError>(SchemaError::NotAnObject),
            Some(version) => match is_legacy(version) {
                None => Err::<bool, SchemaError>(SchemaError::Version),
                Some(legacy) => Ok::<bool, SchemaError>(legacy),
            },
        }),
{
    match found {
        None => Err(SchemaError::NotAnObject),
        Some(None) => Ok(true),
        Some(Some(None)) => Err(SchemaError::Version),
        Some(Some(Some(number))) => Ok(number < 1),
    }
}

/// Tells whether a state file is of an earlier version, so that it is to be kept for it.
pub fn is_legacy_state(data: &[u8]) -> (verdict: Result<bool, SchemaError>)
    ensures
        match field_reading(data@, SCHEMA_VERSION_FIELD@) {
            Err(words) => verdict matches Err(error) && (error matches SchemaError::Unreadable(
                reason,
            ) && reason@ == words),
            Ok(None) => verdict == Err::<bool, SchemaError>(SchemaError::NotAnObject),
            Ok(Some(version)) => verdict == (match is_legacy(version) {
                None => Err::<bool, SchemaError>(SchemaError::Version),
                Some(legacy) => Ok::<bool, SchemaError>(legacy),
            }),
        },
{
    match read_field(data, SCHEMA_VERSION_FIELD) {
        Ok(found) => legacy_verdict(found),
        Err(words) => Err(SchemaError::Unreadable(words)),
    }
}

impl SchemaError {
    /// The words for why the version of the state file at a path cannot be told.
    pub open spec fn words(self, path: Text) -> Text {
        match self {
            SchemaError::Unreadable(words) => "failed to inspect state file for migration "@ + path
                + ": "@ + words@,
            SchemaError::NotAnObject => "state file for migration is not a JSON object: "@ + path,
            SchemaError::Version => "state schema_version is not a non-negative integer"@,
        }
    }

    /// The words for why the version of the state file at a path cannot be told.
    pub fn message(&self, path: &str) -> (message: String)
        ensures
            message@ == self.words(path@),
    {
        match self {
            SchemaError::Unreadable(words) => joined(
                "failed to inspect state file for migration ",
                path,
            ).concat(": ").concat(words.as_str()),
            SchemaError::NotAnObject => joined(
                "state file for migration is not a JSON object: ",
                path,
            ),
            SchemaError::Version => "state schema_version is not a non-negative integer".to_owned(),
        }
    }
}

/// Whether the deadline of this key cannot be read, while those of all keys before it can.
pub open spec fn is_first_fault(
    snoozed: Map<Text, EntryModel>,
    keys: Seq<Text>,
    from: int,
    at: int,
) -> bool {
    &&& from <= at < keys.len()
    &&& rfc3339_reading(snoozed[keys[at]].snoozed_until) is Err
    &&& forall|i: int|
        from <= i < at ==> rfc3339_reading(snoozed[#[trigger] keys[i]].snoozed_until) is Ok
}

/// Stored snoozes are read exactly where every deadline can be, and the first in the order of the
/// keys that cannot be read is the one that is told.
pub proof fn unreadable_deadlines_are_told(snoozed: Map<Text, EntryModel>, keys: Seq<Text>)
    ensures
        first_unreadable(snoozed, keys, 0) is None <==> forall|i: int|
            0 <= i < keys.len() ==> rfc3339_reading(snoozed[#[trigger] keys[i]].snoozed_until)
                is Ok,
        first_unreadable(snoozed, keys, 0) matches Some(key) ==> exists|at: int|
            #[trigger] is_first_fault(snoozed, keys, 0, at) && keys[at] == key,
{
    let at = lemma_first_unreadable(snoozed, keys, 0);
    if first_unreadable(snoozed, keys, 0) is Some {
        assert(is_first_fault(snoozed, keys, 0, at));
        assert(!(rfc3339_reading(snoozed[keys[at]].snoozed_until) is Ok));
    }
}

proof fn lemma_first_unreadable(snoozed: Map<Text, EntryModel>, keys: Seq<Text>, from: int) -> (at:
    int)
    requires
        0 <= from <= keys.len(),
    ensures
        first_unreadable(snoozed, keys, from) is None ==> forall|i: int|
            from <= i < keys.len() ==> rfc3339_reading(snoozed[#[trigger] keys[i]].snoozed_until)
                is Ok,
        first_unreadable(snoozed, keys, from) matches Some(key) ==> is_first_fault(
            snoozed,
            keys,
            from,
            at,
        ) && keys[at] == key,
    decreases keys.len() - from,
{
    if from < keys.len() && rfc3339_reading(snoozed[keys[from]].snoozed_until) is Ok {
        lemma_first_unreadable(snoozed, keys, from + 1)
    } else {
        from
    }
}

/// Snoozes are written exactly where every deadline has a text, and the first in the order of the
/// keys that has none is where writing stops.
pub proof fn unwritable_deadlines_are_told(snoozes: Map<Text, Timestamp>, keys: Seq<Text>)
    ensures
        first_unwritable(snoozes, keys, 0) is None <==> forall|i: int|
            0 <= i < keys.len() ==> in_calendar(snoozes[#[trigger] keys[i]]),
        first_unwritable(snoozes, keys, 0) matches Some(bad) ==> 0 <= bad < keys.len()
            && !in_calendar(snoozes[keys[bad]]) && forall|i: int|
            0 <= i < bad ==> in_calendar(snoozes[#[trigger] keys[i]]),
{
    lemma_first_unwritable(snoozes, keys, 0);
}

proof fn lemma_first_unwritable(snoozes: Map<Text, Timestamp>, keys: Seq<Text>, from: int)
    requires
        0 <= from <= keys.len(),
    ensures
        first_unwritable(snoozes, keys, from) is None <==> forall|i: int|
            from <= i < keys.len() ==> in_calendar(snoozes[#[trigger] keys[i]]),
        first_unwritable(snoozes, keys, from) matches Some(bad) ==> from <= bad < keys.len()
            && !in_calendar(snoozes[keys[bad]]) && forall|i: int|
            from <= i < bad ==> in_calendar(snoozes[#[trigger] keys[i]]),
    decreases keys.len() - from,
{
    if from < keys.len() && in_calendar(snoozes[keys[from]]) {
        lemma_first_unwritable(snoozes, keys, from + 1);
    }
}

/// What is stored once all snoozes were written: an entry for each of them and for nothing else,
/// with the text of its deadline, and with the fields that it had before or none.
pub proof fn stored_entries_are_those_asked_for(
    before: Map<Text, EntryModel>,
    snoozes: Map<Text, Timestamp>,
    key: Text,
)
    requires
        snoozes.dom().finite(),
    ensures
        ({
            let after = replaced(before, snoozes, in_order(snoozes.dom()));
            &&& after.dom().contains(key) <==> snoozes.dom().contains(key)
            &&& snoozes.dom().contains(key) ==> {
                &&& after[key].snoozed_until == rfc3339_text(snoozes[key])
                &&& before.dom().contains(key) ==> after[key].extra == before[key].extra
                &&& !before.dom().contains(key) ==> forall|field: Text|
                    !after[key].extra.dom().contains(field)
            }
        }),
{
    let keys = in_order(snoozes.dom());
    crate::table::in_order_has_the_members(snoozes.dom());
    assert(keys.to_set().contains(key) <==> snoozes.dom().contains(key));
}

/// The deadlines that are read are those of the texts, one for each entry.
pub proof fn read_deadlines_are_those_of_the_texts(snoozed: Map<Text, EntryModel>, key: Text)
    ensures
        deadlines(snoozed).dom().contains(key) <==> snoozed.dom().contains(key),
        snoozed.dom().contains(key) && rfc3339_reading(snoozed[key].snoozed_until) is Ok
            ==> deadlines(snoozed)[key] == rfc3339_reading(snoozed[key].snoozed_until)->Ok_0,
{
}

/// A state file is of an earlier version where it names none or version zero; one that names a
/// version from one on is not; and one whose version is no such number cannot be told.
pub proof fn versions_from_one_on_are_current(number: u64)
    ensures
        is_legacy(None) == Some(true),
        is_legacy(Some(None)) is None,
        number >= 1 ==> is_legacy(Some(Some(number))) == Some(false),
        number == 0 ==> is_legacy(Some(Some(number))) == Some(true),
{
}

} // verus!
