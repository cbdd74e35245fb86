use materialize::config::GlobalConfiguration;
use materialize::menu::{size_exponent, size_for_exponent, KeyPress, MenuEvent};
use materialize::shapes::ShapeKind;

#[test]
fn size_exponents() {
    assert_eq!(size_exponent(1), 0);
    assert_eq!(size_exponent(2), 1);
    assert_eq!(size_exponent(8192), 13);
    assert_eq!(size_exponent(9000), 13);
    assert_eq!(size_exponent(16383), 13);
    assert_eq!(size_exponent(usize::MAX), usize::BITS - 1);
    assert_eq!(size_for_exponent(0), 1);
    assert_eq!(size_for_exponent(9), 512);
    assert_eq!(size_for_exponent(14), 16384);
    for e in 0..usize::BITS {
        assert_eq!(size_exponent(size_for_exponent(e)), e);
        assert_eq!(size_exponent(1usize << e), e);
    }
}

#[test]
fn menu_toggles() {
    let mut g = GlobalConfiguration::new(vec![]);
    assert!(g.handle_menu_event(MenuEvent::ToggleProfileList).is_none());
    assert!(g.cfg_list_open);
    g.handle_menu_event(MenuEvent::ToggleShapeList);
    assert!(g.shape_list_open);
    g.handle_menu_event(MenuEvent::Close);
    assert!(g.open);
    g.handle_menu_event(MenuEvent::ToggleProfileList);
    assert!(!g.cfg_list_open);
    assert!(g.shape_list_open);
}

#[test]
fn menu_selects_shape() {
    let mut g = GlobalConfiguration::new(vec![]);
    g.handle_menu_event(MenuEvent::SelectShape(ShapeKind::Cyclic));
    assert_eq!(g.configuration.kind, ShapeKind::Cyclic);
    assert_eq!(g.configuration.size_arr.value, 8192);
}

#[test]
fn menu_size_slider() {
    let mut g = GlobalConfiguration::new(vec![]);
    g.handle_menu_event(MenuEvent::SetSizeExponent(13));
    assert_eq!(g.configuration.size_arr.value, 8192);
    g.handle_menu_event(MenuEvent::SetSizeExponent(10));
    assert_eq!(g.configuration.size_arr.value, 1024);
    g.configuration.size_arr.value = 9000;
    g.handle_menu_event(MenuEvent::SetSizeExponent(13));
    assert_eq!(g.configuration.size_arr.value, 9000);
    g.handle_menu_event(MenuEvent::SetSizeExponent(14));
    assert_eq!(g.configuration.size_arr.value, 16384);
}

#[test]
fn menu_creates_profile() {
    let mut g = GlobalConfiguration::new(vec![]);
    g.new_profile_name = String::from("Loud");
    let created = g.handle_menu_event(MenuEvent::CreateProfile).unwrap();
    assert_eq!(created.key, "Loud");
    assert_eq!(created.number_of_items.value, 64);
    assert_eq!(g.new_profile_name, "New Profile");
    assert_eq!(g.configuration.key, "default");
}

#[test]
fn keys_toggle_menu_and_quit() {
    let mut g = GlobalConfiguration::new(vec![]);
    assert!(!g.key_down_event(Some(KeyPress::Space)));
    assert!(g.open);
    assert!(!g.key_down_event(Some(KeyPress::Other)));
    assert!(g.open);
    assert!(!g.key_down_event(None));
    assert!(g.key_down_event(Some(KeyPress::Escape)));
    assert!(g.open);
    assert!(!g.key_down_event(Some(KeyPress::Space)));
    assert!(!g.open);
}
