use materialize::config::{
    ConfigList, Configuration, ConfigurationField, GlobalConfiguration, RegistryEntry,
    RegistryValue, UpdateStatus, CONFIG_LIST, VERSION,
};
use materialize::shapes::ShapeKind;

fn text(v: &RegistryValue) -> Option<&str> {
    match v {
        RegistryValue::Text(t) => Some(t.as_str()),
        RegistryValue::Number(_) => None,
    }
}

fn number(v: &RegistryValue) -> Option<u32> {
    match v {
        RegistryValue::Number(n) => Some(*n),
        RegistryValue::Text(_) => None,
    }
}

fn names(entries: &[RegistryEntry]) -> Vec<String> {
    entries.iter().map(|e| e.name.clone()).collect()
}

#[test]
fn default_configuration_values() {
    let c = Configuration::default();
    assert_eq!(c.key, "default");
    assert_eq!(c.kind, ShapeKind::RoundedRectangular);
    assert_eq!(c.version.value, "0.0.1");
    assert_eq!(c.version.key, "version");
    assert_eq!(c.number_of_items.value, 64);
    assert!(c.double_precision.value);
    assert_eq!(c.viewed_frequencies.value, 2000);
    assert_eq!(c.polled_frequencies.value, 4000);
    assert_eq!(c.screen_size.value, (1920, 1080));
    assert_eq!(c.size_arr.value, 8192);
}

#[test]
fn new_configuration_halves_viewed_frequencies_in_double_precision() {
    let c = Configuration::new(4096, 4001, (800, 600), true, 32, String::from("p"), ShapeKind::Cyclic);
    assert_eq!(c.viewed_frequencies.value, 2000);
    assert_eq!(c.polled_frequencies.value, 4001);
    assert_eq!(c.size_arr.value, 4096);
    assert_eq!(c.screen_size.value, (800, 600));
    assert_eq!(c.number_of_items.value, 32);
    assert_eq!(c.key, "p");
    assert_eq!(c.kind, ShapeKind::Cyclic);
    assert_eq!(c.version.value, VERSION);
    assert_eq!(c.size_arr.key, "size_arr");
}

#[test]
fn new_configuration_shows_all_frequencies_in_single_precision() {
    let c = Configuration::new(4096, 4001, (800, 600), false, 32, String::from("p"), ShapeKind::Cyclic);
    assert_eq!(c.viewed_frequencies.value, 4001);
    assert!(!c.double_precision.value);
}

#[test]
fn switch_precision_toggles() {
    let mut c = Configuration::default();
    c.switch_precision();
    assert!(!c.double_precision.value);
    c.switch_precision();
    assert!(c.double_precision.value);
    assert_eq!(c.viewed_frequencies.value, 2000);
}

#[test]
fn status_compares_versions_as_strings() {
    let c = Configuration::default();
    assert_eq!(c.status(&String::from("0.0.0")), UpdateStatus::OlderAlreadyInstalled);
    assert_eq!(c.status(&String::from("0.0.1")), UpdateStatus::UpToDate);
    assert_eq!(c.status(&String::from("0.1.0")), UpdateStatus::NewerAlreadyInstalled);
    assert_eq!(c.status(&String::from("0.0")), UpdateStatus::OlderAlreadyInstalled);
    assert_eq!(c.status(&String::from("0.0.10")), UpdateStatus::NewerAlreadyInstalled);
    assert_eq!(c.status(&String::from("")), UpdateStatus::OlderAlreadyInstalled);
}

#[test]
fn status_orders_like_strings() {
    let versions = ["", "0", "0.0.1", "0.0.10", "0.0.9", "1.0", "é", "z"];
    for stored in versions {
        for current in versions {
            let mut c = Configuration::default();
            c.version.value = String::from(current);
            let expected = if stored < current {
                UpdateStatus::OlderAlreadyInstalled
            } else if stored == current {
                UpdateStatus::UpToDate
            } else {
                UpdateStatus::NewerAlreadyInstalled
            };
            assert_eq!(c.status(&String::from(stored)), expected);
        }
    }
}

#[test]
fn saved_entries_of_a_profile() {
    let c = Configuration::new(4096, 3000, (800, 600), false, 32, String::from("p"), ShapeKind::Cyclic);
    let entries = c.update_to_registry();
    assert_eq!(
        names(&entries),
        vec![
            "kind",
            "version",
            "polled_frequencies",
            "viewed_frequencies",
            "screen_size_x",
            "screen_size_y",
            "double_precision",
            "size_arr"
        ]
    );
    assert_eq!(text(&entries[0].value), Some("Cyclic"));
    assert_eq!(text(&entries[1].value), Some("0.0.1"));
    assert_eq!(number(&entries[2].value), Some(3000));
    assert_eq!(number(&entries[3].value), Some(3000));
    assert_eq!(number(&entries[4].value), Some(800));
    assert_eq!(number(&entries[5].value), Some(600));
    assert_eq!(number(&entries[6].value), Some(0));
    assert_eq!(number(&entries[7].value), Some(4096));
}

#[test]
fn saved_flag_and_renamed_fields() {
    let mut c = Configuration::default();
    c.screen_size.key = String::from("window");
    let entries = c.update_to_registry();
    assert_eq!(entries[4].name, "window_x");
    assert_eq!(entries[5].name, "window_y");
    assert_eq!(number(&entries[6].value), Some(1));
    assert_eq!(text(&entries[0].value), Some("RoundedRectangular"));
}

#[test]
fn saved_window_size_is_cut_to_32_bits() {
    let mut c = Configuration::default();
    c.size_arr.value = usize::MAX;
    let entries = c.update_to_registry();
    assert_eq!(number(&entries[7].value), Some(u32::MAX));
    c.size_arr.value = (u32::MAX as usize) + 6;
    let entries = c.update_to_registry();
    let expected = if usize::BITS > 32 { 5 } else { u32::MAX };
    assert_eq!(number(&entries[7].value), Some(expected));
}

#[test]
fn saved_profile_reads_back() {
    let saved = Configuration::new(2048, 1234, (640, 480), false, 12, String::from("a"), ShapeKind::Cyclic);
    let stored: Vec<RegistryValue> = saved.update_to_registry().into_iter().map(|e| e.value).collect();
    let mut read = Configuration::default();
    read.retrieve_from_registry(&stored);
    assert_eq!(read.kind, ShapeKind::Cyclic);
    assert_eq!(read.version.value, saved.version.value);
    assert_eq!(read.polled_frequencies.value, 1234);
    assert_eq!(read.viewed_frequencies.value, 1234);
    assert_eq!(read.screen_size.value, (640, 480));
    assert!(!read.double_precision.value);
    assert_eq!(read.size_arr.value, 2048);
    assert_eq!(read.key, "default");
    assert_eq!(read.number_of_items.value, 64);
}

#[test]
fn interrupted_read_keeps_the_rest() {
    let saved = Configuration::new(2048, 1234, (640, 480), false, 12, String::from("a"), ShapeKind::Cyclic);
    let stored: Vec<RegistryValue> =
        saved.update_to_registry().into_iter().map(|e| e.value).take(5).collect();
    let mut read = Configuration::default();
    read.retrieve_from_registry(&stored);
    assert_eq!(read.kind, ShapeKind::Cyclic);
    assert_eq!(read.polled_frequencies.value, 1234);
    assert_eq!(read.viewed_frequencies.value, 1234);
    assert_eq!(read.screen_size.value, (1920, 1080));
    assert!(read.double_precision.value);
    assert_eq!(read.size_arr.value, 8192);
}

#[test]
fn unknown_stored_kind_keeps_the_kind() {
    let mut read = Configuration::default();
    read.retrieve_from_registry(&vec![RegistryValue::Text(String::from("Hexagon"))]);
    assert_eq!(read.kind, ShapeKind::RoundedRectangular);
    read.retrieve_from_registry(&vec![RegistryValue::Text(String::from("Cyclic"))]);
    assert_eq!(read.kind, ShapeKind::Cyclic);
}

#[test]
fn profile_registry_path() {
    let field = ConfigurationField { value: 3u32, key: String::from("x") };
    assert_eq!(
        field.get_key("my profile"),
        "SOFTWARE\\Dekharen\\materialize_config\\list\\my profile"
    );
    assert_eq!(field.get_key("p"), format!("{}\\p", CONFIG_LIST));
    assert_eq!(field.get_key(""), format!("{}\\", CONFIG_LIST));
    assert_eq!(field.get_key("1:x"), format!("{}\\1:x", CONFIG_LIST));
    assert_eq!(field.get_key("é:x"), format!("{}\\é:x", CONFIG_LIST));
    assert_eq!(field.get_key("a\\b"), format!("{}\\a\\b", CONFIG_LIST));
}

#[test]
fn profile_registry_path_with_its_own_root() {
    let field = ConfigurationField { value: true, key: String::from("x") };
    assert_eq!(field.get_key("\\x"), "\\x");
    assert_eq!(field.get_key("/x"), "/x");
    assert_eq!(field.get_key("C:x"), "C:x");
    assert_eq!(field.get_key("z:\\y"), "z:\\y");
    assert_eq!(field.get_key("\\\\server\\share"), "\\\\server\\share");
}

#[test]
fn set_entries() {
    let c = Configuration::default();
    let entries = c.set();
    assert_eq!(names(&entries), vec!["polled_frequencies", "hello"]);
    assert_eq!(number(&entries[0].value), Some(4000));
    assert_eq!(text(&entries[1].value), Some("world"));
}

#[test]
fn config_list_holds_the_refreshed_names() {
    let mut list = ConfigList::new();
    assert!(list.values().is_empty());
    list.refresh(vec![String::from("a"), String::from("b")]);
    assert_eq!(list.values(), vec!["a", "b"]);
    list.refresh(vec![]);
    assert!(list.values().is_empty());
}

#[test]
fn global_configuration_starts_with_the_default_profile() {
    let g = GlobalConfiguration::new(vec![String::from("x")]);
    assert_eq!(g.cfg_list.values(), vec!["x"]);
    assert_eq!(g.configuration.key, "default");
    assert!(!g.open);
    assert!(!g.cfg_list_open);
    assert!(!g.shape_list_open);
    assert_eq!(g.new_profile_name, "New Profile");
    g.rename();
}
