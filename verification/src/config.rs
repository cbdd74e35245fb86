use vstd::prelude::*;
use crate::shapes::{ShapeKind, shape_kind_name, shape_kind_named};
use crate::text::{bytes_less, joined, leading_chars, sorts_first, str_less, utf8_bytes};

verus! {

/// Registry key under which the application keeps its settings.
pub const REGISTRY_PATH_CONFIG: &'static str = "SOFTWARE\\Dekharen\\materialize_config\\";

/// Registry key under which each profile has a subkey of its own.
pub const CONFIG_LIST: &'static str = "SOFTWARE\\Dekharen\\materialize_config\\list";

/// Version of the settings layout written by this build.
pub const VERSION: &'static str = "0.0.1";

/// How the profile stored in the registry relates to this build.
#[derive(Debug, Clone, Copy, PartialEq, Eq, Structural)]
pub enum UpdateStatus {
    UpToDate,
    NewerAlreadyInstalled,
    OlderAlreadyInstalled,
}

/// A value as stored in the registry: a string or a 32-bit number.
#[derive(Debug, Clone)]
pub enum RegistryValue {
    Text(String),
    Number(u32),
}

/// A named registry value.
#[derive(Debug, Clone)]
pub struct RegistryEntry {
    pub name: String,
    pub value: RegistryValue,
}

/// What a registry value holds, as a mathematical value.
pub enum StoredValue {
    Text(Seq<char>),
    Number(u32),
}

/// The mathematical value of a registry value.
pub open spec fn stored_value(value: RegistryValue) -> StoredValue {
    match value {
        RegistryValue::Text(text) => StoredValue::Text(text@),
        RegistryValue::Number(number) => StoredValue::Number(number),
    }
}

/// The name and mathematical value of a registry entry.
pub open spec fn stored_entry(entry: RegistryEntry) -> (Seq<char>, StoredValue) {
    (entry.name@, stored_value(entry.value))
}

/// The names of the saved profiles.
#[derive(Debug, Clone)]
pub struct ConfigList(Vec<String>);

impl View for ConfigList {
    type V = Seq<String>;

    closed spec fn view(&self) -> Seq<String> {
        self.0@
    }
}

impl ConfigList {
    /// An empty list.
    pub fn new() -> (list: ConfigList)
        ensures
            list@ == Seq::<String>::empty(),
    {
        ConfigList(Vec::new())
    }

    /// Replaces the list by the profile names read from the registry.
    pub fn refresh(&mut self, names: Vec<String>)
        ensures
            final(self)@ == names@,
    {
        self.0 = names;
    }

    /// The profile names.
    pub fn values(&self) -> (names: Vec<String>)
        ensures
            names@ == self@,
    {
        let mut names: Vec<String> = Vec::new();
        let mut i: usize = 0;
        while i < self.0.len()
            invariant
                i <= self.0@.len(),
                names@ == self.0@.take(i as int),
            decreases self.0.len() - i,
        {
            names.push(self.0[i].clone());
            i = i + 1;
            assert(names@ =~= self.0@.take(i as int));
        }
        assert(self.0@.take(self.0@.len() as int) =~= self.0@);
        names
    }
}

/// A configuration value together with the name it is stored under.
#[derive(Debug, Clone)]
pub struct ConfigurationField<T> {
    pub value: T,
    pub key: String,
}

/// A visualiser profile.
#[derive(Debug, Clone)]
pub struct Configuration {
    pub version: ConfigurationField<String>,
    /// Window width and height, in pixels.
    pub screen_size: ConfigurationField<(u32, u32)>,
    /// Number of audio samples in each analysed window.
    pub size_arr: ConfigurationField<usize>,
    /// Highest frequency shown.
    pub viewed_frequencies: ConfigurationField<u32>,
    /// Highest frequency kept from the analysis.
    pub polled_frequencies: ConfigurationField<u32>,
    pub double_precision: ConfigurationField<bool>,
    /// Number of frequency bands drawn.
    pub number_of_items: ConfigurationField<u32>,
    /// Name of the profile.
    pub key: String,
    pub kind: ShapeKind,
}

/// Every field is stored under its usual name.
pub open spec fn has_standard_keys(c: Configuration) -> bool {
    &&& c.version.key@ == "version"@
    &&& c.screen_size.key@ == "screen_size"@
    &&& c.size_arr.key@ == "size_arr"@
    &&& c.viewed_frequencies.key@ == "viewed_frequencies"@
    &&& c.polled_frequencies.key@ == "polled_frequencies"@
    &&& c.double_precision.key@ == "double_precision"@
    &&& c.number_of_items.key@ == "number_of_items"@
}

/// The default profile, named "default": rounded bars, 64 bands over 2000 Hz out of
/// 4000 Hz polled, double precision, a 1920 by 1080 window and 8192-sample windows.
pub open spec fn is_default_configuration(c: Configuration) -> bool {
    &&& has_default_settings(c)
    &&& c.key@ == "default"@
}

/// The settings of the default profile, whatever the profile's name.
pub open spec fn has_default_settings(c: Configuration) -> bool {
    &&& has_standard_keys(c)
    &&& c.kind == ShapeKind::RoundedRectangular
    &&& c.version.value@ == VERSION@
    &&& c.number_of_items.value == 64
    &&& c.double_precision.value == true
    &&& c.viewed_frequencies.value == 2000
    &&& c.screen_size.value == (1920u32, 1080u32)
    &&& c.size_arr.value == 8192
    &&& c.polled_frequencies.value == 4000
}

/// The frequencies shown for a given number of polled frequencies: half of them in double
/// precision, all of them otherwise.
pub open spec fn viewed_for(polled: u32, double_precision: bool) -> u32 {
    if double_precision {
        polled / 2
    } else {
        polled
    }
}

/// The number that stands for a flag in the registry.
pub open spec fn flag_number(flag: bool) -> u32 {
    if flag {
        1
    } else {
        0
    }
}

/// The registry values that make up a saved profile, in the order they are written.
pub open spec fn registry_model(c: Configuration) -> Seq<(Seq<char>, StoredValue)> {
    seq![
        ("kind"@, StoredValue::Text(shape_kind_name(c.kind))),
        (c.version.key@, StoredValue::Text(c.version.value@)),
        (c.polled_frequencies.key@, StoredValue::Number(c.polled_frequencies.value)),
        (c.viewed_frequencies.key@, StoredValue::Number(c.viewed_frequencies.value)),
        (c.screen_size.key@ + "_x"@, StoredValue::Number(c.screen_size.value.0)),
        (c.screen_size.key@ + "_y"@, StoredValue::Number(c.screen_size.value.1)),
        (c.double_precision.key@, StoredValue::Number(flag_number(c.double_precision.value))),
        (c.size_arr.key@, StoredValue::Number(c.size_arr.value as u32)),
    ]
}

/// Whether a value read back has the form that the value at position `i` is written in.
pub open spec fn fits_slot(i: int, value: StoredValue) -> bool {
    if i < 2 {
        value is Text
    } else {
        value is Number
    }
}

/// The text of a stored text value.
pub open spec fn text_of(value: StoredValue) -> Seq<char> {
    match value {
        StoredValue::Text(text) => text,
        StoredValue::Number(_) => Seq::empty(),
    }
}

/// The number of a stored number value.
pub open spec fn number_of(value: StoredValue) -> u32 {
    match value {
        StoredValue::Text(_) => 0,
        StoredValue::Number(number) => number,
    }
}

/// `new` is `old` after reading back the stored values `values`, a prefix of the values that
/// `registry_model` lists (a read that fails ends the prefix). Each value goes to its field;
/// both screen coordinates must be read before the screen size changes; a kind name that no
/// kind has leaves the kind unchanged. Keys, the number of bands and the profile name are
/// not stored and do not change.
pub open spec fn retrieved(old: Configuration, new: Configuration, values: Seq<StoredValue>) -> bool {
    let n = values.len();
    &&& new.kind == (if n > 0 {
        match shape_kind_named(text_of(values[0])) {
            Some(kind) => kind,
            None => old.kind,
        }
    } else {
        old.kind
    })
    &&& new.version.value@ == (if n > 1 { text_of(values[1]) } else { old.version.value@ })
    &&& new.polled_frequencies.value == (if n > 2 { number_of(values[2]) } else { old.polled_frequencies.value })
    &&& new.viewed_frequencies.value == (if n > 3 { number_of(values[3]) } else { old.viewed_frequencies.value })
    &&& new.screen_size.value == (if n > 5 {
        (number_of(values[4]), number_of(values[5]))
    } else {
        old.screen_size.value
    })
    &&& new.double_precision.value == (if n > 6 { number_of(values[6]) == 1 } else { old.double_precision.value })
    &&& new.size_arr.value == (if n > 7 { number_of(values[7]) as usize } else { old.size_arr.value })
    &&& new.number_of_items == old.number_of_items
    &&& new.key == old.key
    &&& new.version.key == old.version.key
    &&& new.polled_frequencies.key == old.polled_frequencies.key
    &&& new.viewed_frequencies.key == old.viewed_frequencies.key
    &&& new.screen_size.key == old.screen_size.key
    &&& new.double_precision.key == old.double_precision.key
    &&& new.size_arr.key == old.size_arr.key
}

/// The settings that a saved profile keeps.
pub open spec fn same_stored_settings(a: Configuration, b: Configuration) -> bool {
    &&& a.kind == b.kind
    &&& a.version.value@ == b.version.value@
    &&& a.polled_frequencies.value == b.polled_frequencies.value
    &&& a.viewed_frequencies.value == b.viewed_frequencies.value
    &&& a.screen_size.value == b.screen_size.value
    &&& a.double_precision.value == b.double_precision.value
    &&& a.size_arr.value == b.size_arr.value
}


/// The values alone of the saved registry entries, in order.
pub open spec fn registry_values(c: Configuration) -> Seq<StoredValue> {
    registry_model(c).map_values(|e: (Seq<char>, StoredValue)| e.1)
}

/// What saving writes can be read back: each value has the form its slot is read in, and
/// the precision flag is 0 or 1.
pub proof fn lemma_registry_values_readable(c: Configuration)
    ensures
        registry_values(c).len() == 8,
        forall|i: int| 0 <= i < 8 ==> fits_slot(i, #[trigger] registry_values(c)[i]),
        number_of(registry_values(c)[6]) <= 1,
{
}

/// Saving a profile and reading all of it back restores every stored setting, provided the
/// window size fits in the 32 bits it is stored in; the profile read into keeps its name,
/// band count and keys.
pub proof fn lemma_registry_roundtrip(saved: Configuration, before: Configuration, after: Configuration)
    requires
        saved.size_arr.value <= u32::MAX,
        retrieved(before, after, registry_values(saved)),
    ensures
        same_stored_settings(after, saved),
        after.key == before.key,
        after.number_of_items == before.number_of_items,
{
    crate::shapes::lemma_shape_kind_name_roundtrip(saved.kind);
}

/// Two profiles whose fields have the same keys save their values under the same names, so
/// that reading one profile's names finds what the other saved.
pub proof fn lemma_registry_names_follow_keys(a: Configuration, b: Configuration)
    requires
        a.version.key@ == b.version.key@,
        a.polled_frequencies.key@ == b.polled_frequencies.key@,
        a.viewed_frequencies.key@ == b.viewed_frequencies.key@,
        a.screen_size.key@ == b.screen_size.key@,
        a.double_precision.key@ == b.double_precision.key@,
        a.size_arr.key@ == b.size_arr.key@,
    ensures
        forall|i: int| 0 <= i < 8 ==> (#[trigger] registry_model(a)[i]).0 == registry_model(b)[i].0,
{
}

/// In double precision the profile shows half of the polled frequencies (rounded down), in
/// single precision all of them, whatever the number of polled frequencies.
pub proof fn lemma_viewed_frequencies(polled: u32)
    ensures
        viewed_for(polled, false) == polled,
        2 * viewed_for(polled, true) <= polled < 2 * viewed_for(polled, true) + 2,
{
}

/// Each saved entry holds the value of the field whose key names it (with the usual keys,
/// which are all different): the entry named after a field carries that field's value.
pub proof fn lemma_registry_entries_hold_their_fields(c: Configuration)
    requires
        has_standard_keys(c),
    ensures
        forall|i: int| 0 <= i < 8 && (#[trigger] registry_model(c)[i]).0 == "kind"@ ==> registry_model(c)[i].1
            == StoredValue::Text(shape_kind_name(c.kind)),
        forall|i: int| 0 <= i < 8 && (#[trigger] registry_model(c)[i]).0 == "version"@ ==> registry_model(c)[i].1
            == StoredValue::Text(c.version.value@),
        forall|i: int| 0 <= i < 8 && (#[trigger] registry_model(c)[i]).0 == "polled_frequencies"@
            ==> registry_model(c)[i].1 == StoredValue::Number(c.polled_frequencies.value),
        forall|i: int| 0 <= i < 8 && (#[trigger] registry_model(c)[i]).0 == "viewed_frequencies"@
            ==> registry_model(c)[i].1 == StoredValue::Number(c.viewed_frequencies.value),
        forall|i: int| 0 <= i < 8 && (#[trigger] registry_model(c)[i]).0 == "screen_size_x"@ ==> registry_model(c)[i].1
            == StoredValue::Number(c.screen_size.value.0),
        forall|i: int| 0 <= i < 8 && (#[trigger] registry_model(c)[i]).0 == "screen_size_y"@ ==> registry_model(c)[i].1
            == StoredValue::Number(c.screen_size.value.1),
        forall|i: int| 0 <= i < 8 && (#[trigger] registry_model(c)[i]).0 == "double_precision"@
            ==> registry_model(c)[i].1 == StoredValue::Number(if c.double_precision.value { 1u32 } else { 0u32 }),
        forall|i: int| 0 <= i < 8 && (#[trigger] registry_model(c)[i]).0 == "size_arr"@ ==> registry_model(c)[i].1
            == StoredValue::Number(c.size_arr.value as u32),
{
    lemma_standard_names_distinct(c);
}

/// Reading back sets each field from the value read under that field's key (with the usual
/// keys): the value read under the name of the polled frequencies becomes the polled
/// frequencies, and so on for every stored field.
pub proof fn lemma_retrieve_reads_each_field_by_name(
    before: Configuration,
    after: Configuration,
    values: Seq<StoredValue>,
)
    requires
        has_standard_keys(before),
        values.len() == 8,
        retrieved(before, after, values),
    ensures
        forall|i: int| 0 <= i < 8 && (#[trigger] registry_model(before)[i]).0 == "version"@
            ==> after.version.value@ == text_of(values[i]),
        forall|i: int| 0 <= i < 8 && (#[trigger] registry_model(before)[i]).0 == "polled_frequencies"@
            ==> after.polled_frequencies.value == number_of(values[i]),
        forall|i: int| 0 <= i < 8 && (#[trigger] registry_model(before)[i]).0 == "viewed_frequencies"@
            ==> after.viewed_frequencies.value == number_of(values[i]),
        forall|i: int| 0 <= i < 8 && (#[trigger] registry_model(before)[i]).0 == "screen_size_x"@
            ==> after.screen_size.value.0 == number_of(values[i]),
        forall|i: int| 0 <= i < 8 && (#[trigger] registry_model(before)[i]).0 == "screen_size_y"@
            ==> after.screen_size.value.1 == number_of(values[i]),
        forall|i: int| 0 <= i < 8 && (#[trigger] registry_model(before)[i]).0 == "double_precision"@
            ==> after.double_precision.value == (number_of(values[i]) == 1),
        forall|i: int| 0 <= i < 8 && (#[trigger] registry_model(before)[i]).0 == "size_arr"@
            ==> after.size_arr.value == number_of(values[i]) as usize,
{
    lemma_standard_names_distinct(before);
}

/// The eight names a profile is saved under are all different when the keys are the usual ones.
proof fn lemma_standard_names_distinct(c: Configuration)
    requires
        has_standard_keys(c),
    ensures
        registry_model(c)[0].0 == "kind"@,
        registry_model(c)[1].0 == "version"@,
        registry_model(c)[2].0 == "polled_frequencies"@,
        registry_model(c)[3].0 == "viewed_frequencies"@,
        registry_model(c)[4].0 == "screen_size_x"@,
        registry_model(c)[5].0 == "screen_size_y"@,
        registry_model(c)[6].0 == "double_precision"@,
        registry_model(c)[7].0 == "size_arr"@,
        forall|i: int, k: int| 0 <= i < k < 8 ==> #[trigger] registry_model(c)[i].0 != #[trigger] registry_model(c)[k].0,
{
    reveal_strlit("kind");
    reveal_strlit("version");
    reveal_strlit("polled_frequencies");
    reveal_strlit("viewed_frequencies");
    reveal_strlit("screen_size");
    reveal_strlit("screen_size_x");
    reveal_strlit("screen_size_y");
    reveal_strlit("_x");
    reveal_strlit("_y");
    reveal_strlit("double_precision");
    reveal_strlit("size_arr");
    let m = registry_model(c);
    assert(m[4].0 =~= "screen_size_x"@);
    assert(m[5].0 =~= "screen_size_y"@);
    let names = seq![
        "kind"@, "version"@, "polled_frequencies"@, "viewed_frequencies"@, "screen_size_x"@,
        "screen_size_y"@, "double_precision"@, "size_arr"@,
    ];
    assert(names[2][0] != names[3][0]);
    assert(names[4][12] != names[5][12]);
    assert forall|i: int, k: int| 0 <= i < k < 8 implies #[trigger] m[i].0 != #[trigger] m[k].0 by {
        assert(m[i].0 == names[i]);
        assert(m[k].0 == names[k]);
        if i == 2 && k == 3 {
            assert(m[i].0[0] != m[k].0[0]);
        } else if i == 4 && k == 5 {
            assert(m[i].0[12] != m[k].0[12]);
        } else {
            assert(m[i].0.len() != m[k].0.len() || m[i].0[0] != m[k].0[0]);
        }
    }
}

/// Joining a profile name onto `CONFIG_LIST`: the path always ends with the name; a name that
/// neither starts with a separator nor has `:` as its second character lands under
/// `CONFIG_LIST`; and the name stands alone exactly when it starts with a separator or with an
/// ASCII letter followed by `:`.
pub proof fn lemma_profile_path_joins(name: Seq<char>)
    ensures
        profile_path(name).len() >= name.len(),
        profile_path(name).subrange(profile_path(name).len() - name.len(), profile_path(name).len() as int)
            == name,
        (name.len() == 0 || (name[0] != '\\' && name[0] != '/' && !(name.len() > 1 && name[1] == ':')))
            ==> profile_path(name) == CONFIG_LIST@ + "\\"@ + name,
        ((name.len() > 0 && (name[0] == '\\' || name[0] == '/')) || (name.len() > 1 && name[1] == ':' && ((
        'a' <= name[0] && name[0] <= 'z') || ('A' <= name[0] && name[0] <= 'Z')))) ==> profile_path(name)
            == name,
        profile_path(name) == name ==> ((name.len() > 0 && (name[0] == '\\' || name[0] == '/')) || (
        name.len() > 1 && name[1] == ':' && (('a' <= name[0] && name[0] <= 'z') || ('A' <= name[0]
            && name[0] <= 'Z')))),
{
    let p = profile_path(name);
    assert(p.subrange(p.len() - name.len(), p.len() as int) =~= name);
    if !has_own_root(name) {
        reveal_strlit("\\");
        assert(p.len() > name.len());
    }
}

/// The status of a stored profile of version `stored` against this build's version `current`.
pub open spec fn spec_status(stored: Seq<char>, current: Seq<char>) -> UpdateStatus {
    if bytes_less(utf8_bytes(stored), utf8_bytes(current)) {
        UpdateStatus::OlderAlreadyInstalled
    } else if stored == current {
        UpdateStatus::UpToDate
    } else {
        UpdateStatus::NewerAlreadyInstalled
    }
}


/// A profile saved by this very version is up to date.
pub proof fn lemma_status_same_version(version: Seq<char>)
    ensures
        spec_status(version, version) == UpdateStatus::UpToDate,
{
    crate::text::lemma_bytes_less_irreflexive(utf8_bytes(version));
}

/// Swapping the stored and the current version swaps "older" and "newer".
pub proof fn lemma_status_swapped(stored: Seq<char>, current: Seq<char>)
    ensures
        spec_status(stored, current) == UpdateStatus::OlderAlreadyInstalled <==> spec_status(current, stored)
            == UpdateStatus::NewerAlreadyInstalled,
        spec_status(stored, current) == UpdateStatus::UpToDate <==> stored == current,
{
    let a = utf8_bytes(stored);
    let b = utf8_bytes(current);
    crate::text::lemma_bytes_less_total(a, b);
    crate::text::lemma_bytes_less_total(b, a);
    crate::text::lemma_bytes_less_irreflexive(a);
    if a == b {
        crate::text::lemma_utf8_bytes_injective(stored, current);
    }
}

/// Whether a Windows path starts from a root or a prefix of its own (a backslash, a slash or
/// a drive such as `C:`), so that joining it onto another path gives the path itself.
pub open spec fn has_own_root(path: Seq<char>) -> bool {
    ||| path.len() > 0 && (path[0] == '\\' || path[0] == '/')
    ||| path.len() > 1 && path[1] == ':' && (('a' <= path[0] && path[0] <= 'z') || ('A' <= path[0]
        && path[0] <= 'Z'))
}

/// How a stored version compares with the current one, as Rust orders strings: it is older
/// when its UTF-8 bytes sort first (a proper prefix, or a smaller byte at the first
/// difference), up to date when it is the same, and newer when the current version's bytes
/// sort first.
pub proof fn lemma_status_meaning(stored: Seq<char>, current: Seq<char>)
    ensures
        spec_status(stored, current) == UpdateStatus::OlderAlreadyInstalled <==> sorts_first(
            utf8_bytes(stored),
            utf8_bytes(current),
        ),
        spec_status(stored, current) == UpdateStatus::UpToDate <==> stored == current,
        spec_status(stored, current) == UpdateStatus::NewerAlreadyInstalled <==> sorts_first(
            utf8_bytes(current),
            utf8_bytes(stored),
        ),
{
    let a = utf8_bytes(stored);
    let b = utf8_bytes(current);
    crate::text::lemma_bytes_less_meaning(a, b);
    crate::text::lemma_bytes_less_meaning(b, a);
    lemma_status_swapped(stored, current);
    lemma_status_swapped(current, stored);
    crate::text::lemma_bytes_less_total(a, b);
    crate::text::lemma_bytes_less_irreflexive(a);
    if a == b {
        crate::text::lemma_utf8_bytes_injective(stored, current);
    }
}

/// The registry key of a profile: `name` joined onto `CONFIG_LIST` as Windows joins paths,
/// that is `name` under `CONFIG_LIST`, or `name` itself when it has a root or prefix of its own.
pub open spec fn profile_path(name: Seq<char>) -> Seq<char> {
    if has_own_root(name) {
        name
    } else {
        CONFIG_LIST@ + "\\"@ + name
    }
}

impl ConfigurationField<u32> {
    /// A numeric field.
    fn number(key: &str, value: u32) -> (field: ConfigurationField<u32>)
        ensures
            field.key@ == key@,
            field.value == value,
    {
        ConfigurationField { value, key: key.to_owned() }
    }
}

impl<T> ConfigurationField<T> {
    /// The registry key that holds the values of the profile `name`.
    pub fn get_key(&self, name: &str) -> (path: String)
        ensures
            path@ == profile_path(name@),
    {
        let (first, second) = leading_chars(name);
        let own_root = match (first, second) {
            (Some(c), _) if c == '\\' || c == '/' => true,
            (Some(c), Some(':')) => ('a' <= c && c <= 'z') || ('A' <= c && c <= 'Z'),
            _ => false,
        };
        if own_root {
            name.to_owned()
        } else {
            let base = joined(CONFIG_LIST, "\\");
            joined(base.as_str(), name)
        }
    }
}

impl Configuration {
    /// A profile with the given settings; in double precision only half of the polled
    /// frequencies are shown.
    pub fn new(
        size_arr: usize,
        polled_frequencies: u32,
        screen_size: (u32, u32),
        double_precision: bool,
        number_of_items: u32,
        key: String,
        kind: ShapeKind,
    ) -> (c: Configuration)
        ensures
            has_standard_keys(c),
            c.size_arr.value == size_arr,
            c.polled_frequencies.value == polled_frequencies,
            c.viewed_frequencies.value == viewed_for(polled_frequencies, double_precision),
            c.screen_size.value == screen_size,
            c.double_precision.value == double_precision,
            c.number_of_items.value == number_of_items,
            c.version.value@ == VERSION@,
            c.key == key,
            c.kind == kind,
    {
        let viewed_frequencies = if double_precision {
            polled_frequencies / 2
        } else {
            polled_frequencies
        };
        Configuration {
            key,
            kind,
            version: ConfigurationField { key: "version".to_owned(), value: VERSION.to_owned() },
            number_of_items: ConfigurationField::number("number_of_items", number_of_items),
            double_precision: ConfigurationField {
                value: double_precision,
                key: "double_precision".to_owned(),
            },
            viewed_frequencies: ConfigurationField::number("viewed_frequencies", viewed_frequencies),
            screen_size: ConfigurationField { key: "screen_size".to_owned(), value: screen_size },
            size_arr: ConfigurationField { key: "size_arr".to_owned(), value: size_arr },
            polled_frequencies: ConfigurationField::number("polled_frequencies", polled_frequencies),
        }
    }

    /// Turns double precision on or off.
    pub fn switch_precision(&mut self)
        ensures
            final(self).double_precision.value == !old(self).double_precision.value,
            final(self).double_precision.key == old(self).double_precision.key,
            final(self).version == old(self).version,
            final(self).screen_size == old(self).screen_size,
            final(self).size_arr == old(self).size_arr,
            final(self).viewed_frequencies == old(self).viewed_frequencies,
            final(self).polled_frequencies == old(self).polled_frequencies,
            final(self).number_of_items == old(self).number_of_items,
            final(self).key == old(self).key,
            final(self).kind == old(self).kind,
    {
        self.double_precision.value = !self.double_precision.value;
    }

    /// How the profile's stored version `stored_version` relates to this profile's version:
    /// an older stored version sorts before it (as strings do), an equal one is up to date.
    pub fn status(&self, stored_version: &String) -> (status: UpdateStatus)
        ensures
            status == spec_status(stored_version@, self.version.value@),
    {
        if str_less(stored_version.as_str(), self.version.value.as_str()) {
            UpdateStatus::OlderAlreadyInstalled
        } else if *stored_version == self.version.value {
            UpdateStatus::UpToDate
        } else {
            UpdateStatus::NewerAlreadyInstalled
        }
    }

    /// The values that saving this profile writes under its registry key, in the order they
    /// are written: the shape kind by name, the version, the polled and viewed frequencies,
    /// the two screen coordinates, the precision flag as 1 or 0, and the window size cut to
    /// 32 bits.
    pub fn update_to_registry(&self) -> (entries: Vec<RegistryEntry>)
        ensures
            entries@.map_values(|e: RegistryEntry| stored_entry(e)) == registry_model(*self),
    {
        let mut entries: Vec<RegistryEntry> = Vec::new();
        entries.push(RegistryEntry {
            name: "kind".to_owned(),
            value: RegistryValue::Text(self.kind.to_str().to_owned()),
        });
        entries.push(RegistryEntry {
            name: self.version.key.clone(),
            value: RegistryValue::Text(self.version.value.clone()),
        });
        entries.push(RegistryEntry {
            name: self.polled_frequencies.key.clone(),
            value: RegistryValue::Number(self.polled_frequencies.value),
        });
        entries.push(RegistryEntry {
            name: self.viewed_frequencies.key.clone(),
            value: RegistryValue::Number(self.viewed_frequencies.value),
        });
        entries.push(RegistryEntry {
            name: joined(self.screen_size.key.as_str(), "_x"),
            value: RegistryValue::Number(self.screen_size.value.0),
        });
        entries.push(RegistryEntry {
            name: joined(self.screen_size.key.as_str(), "_y"),
            value: RegistryValue::Number(self.screen_size.value.1),
        });
        let flag: u32 = if self.double_precision.value {
            1
        } else {
            0
        };
        entries.push(RegistryEntry {
            name: self.double_precision.key.clone(),
            value: RegistryValue::Number(flag),
        });
        entries.push(RegistryEntry {
            name: self.size_arr.key.clone(),
            value: RegistryValue::Number(self.size_arr.value as u32),
        });
        assert(entries@.map_values(|e: RegistryEntry| stored_entry(e)) =~= registry_model(*self));
        entries
    }

    /// Reads back the values listed by `update_to_registry`, in that order; `stored` holds
    /// those that were read before the first failed read.
    pub fn retrieve_from_registry(&mut self, stored: &Vec<RegistryValue>)
        requires
            stored@.len() <= 8,
            forall|i: int| 0 <= i < stored@.len() ==> fits_slot(i, stored_value(#[trigger] stored@[i])),
            stored@.len() > 6 ==> number_of(stored_value(stored@[6])) <= 1,
        ensures
            retrieved(*old(self), *final(self), stored@.map_values(|v: RegistryValue| stored_value(v))),
    {
        let ghost values = stored@.map_values(|v: RegistryValue| stored_value(v));
        let n = stored.len();
        if n > 0 {
            if let RegistryValue::Text(name) = &stored[0] {
                match ShapeKind::from_str(name.as_str()) {
                    Some(kind) => self.kind = kind,
                    None => {},
                }
            }
        }
        if n > 1 {
            if let RegistryValue::Text(version) = &stored[1] {
                self.version.value = version.clone();
            }
        }
        if n > 2 {
            if let RegistryValue::Number(polled) = &stored[2] {
                self.polled_frequencies.value = *polled;
            }
        }
        if n > 3 {
            if let RegistryValue::Number(viewed) = &stored[3] {
                self.viewed_frequencies.value = *viewed;
            }
        }
        if n > 5 {
            if let (RegistryValue::Number(x), RegistryValue::Number(y)) = (&stored[4], &stored[5]) {
                self.screen_size.value = (*x, *y);
            }
        }
        if n > 6 {
            if let RegistryValue::Number(flag) = &stored[6] {
                self.double_precision.value = *flag == 1;
            }
        }
        if n > 7 {
            if let RegistryValue::Number(size) = &stored[7] {
                self.size_arr.value = *size as usize;
            }
        }
    }

    /// The values that `set` writes under `REGISTRY_PATH_CONFIG`: the polled frequencies and
    /// a marker value.
    pub fn set(&self) -> (entries: Vec<RegistryEntry>)
        ensures
            entries@.map_values(|e: RegistryEntry| stored_entry(e)) == seq![
                ("polled_frequencies"@, StoredValue::Number(self.polled_frequencies.value)),
                ("hello"@, StoredValue::Text("world"@)),
            ],
    {
        let mut entries: Vec<RegistryEntry> = Vec::new();
        entries.push(RegistryEntry {
            name: "polled_frequencies".to_owned(),
            value: RegistryValue::Number(self.polled_frequencies.value),
        });
        entries.push(RegistryEntry {
            name: "hello".to_owned(),
            value: RegistryValue::Text("world".to_owned()),
        });
        assert(entries@.map_values(|e: RegistryEntry| stored_entry(e)) =~= seq![
            ("polled_frequencies"@, StoredValue::Number(self.polled_frequencies.value)),
            ("hello"@, StoredValue::Text("world"@)),
        ]);
        entries
    }
}


/// The application state around the active profile: the saved profiles and the state of
/// the options menu.
#[derive(Debug, Clone)]
pub struct GlobalConfiguration {
    pub cfg_list: ConfigList,
    pub configuration: Configuration,
    /// Whether the options menu is hidden.
    pub open: bool,
    pub cfg_list_open: bool,
    pub new_profile_name: String,
    pub shape_list_open: bool,
}

/// The name offered for a new profile.
pub const NEW_PROFILE_NAME: &'static str = "New Profile";

impl GlobalConfiguration {
    /// The starting state: the default profile, the given saved profile names, the menu
    /// shown and both of its side panels closed.
    pub fn new(profiles: Vec<String>) -> (g: GlobalConfiguration)
        ensures
            g.cfg_list@ == profiles@,
            is_default_configuration(g.configuration),
            !g.open,
            !g.cfg_list_open,
            !g.shape_list_open,
            g.new_profile_name@ == NEW_PROFILE_NAME@,
    {
        let mut list = ConfigList::new();
        list.refresh(profiles);
        GlobalConfiguration {
            cfg_list: list,
            configuration: Configuration::default(),
            open: false,
            cfg_list_open: false,
            shape_list_open: false,
            new_profile_name: NEW_PROFILE_NAME.to_owned(),
        }
    }

    /// Renaming a profile is not offered yet; this leaves everything as it is.
    pub fn rename(&self) {
    }
}

impl Default for Configuration {
    /// The default profile (see `is_default_configuration`).
    fn default() -> (c: Configuration)
        ensures
            is_default_configuration(c),
    {
        Configuration {
            kind: ShapeKind::RoundedRectangular,
            key: "default".to_owned(),
            version: ConfigurationField { key: "version".to_owned(), value: VERSION.to_owned() },
            number_of_items: ConfigurationField::number("number_of_items", 64),
            double_precision: ConfigurationField {
                value: true,
                key: "double_precision".to_owned(),
            },
            viewed_frequencies: ConfigurationField::number("viewed_frequencies", 2000),
            screen_size: ConfigurationField { key: "screen_size".to_owned(), value: (1920, 1080) },
            size_arr: ConfigurationField { key: "size_arr".to_owned(), value: 8192 },
            polled_frequencies: ConfigurationField::number("polled_frequencies", 4000),
        }
    }
}

} // verus!
