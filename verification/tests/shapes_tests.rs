use materialize::shapes::{bar_color, BarColor, Shape, ShapeBuilder, ShapeKind};

#[test]
fn shape_builder_builds_the_requested_kind() {
    assert!(matches!(ShapeBuilder::new(ShapeKind::Cyclic), Shape::Cyclic(_)));
    assert!(matches!(
        ShapeBuilder::new(ShapeKind::RoundedRectangular),
        Shape::RoundedRectangular(_)
    ));
}

#[test]
fn shape_kind_names() {
    assert_eq!(ShapeKind::RoundedRectangular.to_str(), "RoundedRectangular");
    assert_eq!(ShapeKind::Cyclic.to_str(), "Cyclic");
}

#[test]
fn shape_kind_name_reads_back() {
    for kind in ShapeKind::iterator() {
        assert_eq!(ShapeKind::from_str(kind.to_str()), Some(kind));
    }
}

#[test]
fn shape_kind_unknown_name() {
    assert_eq!(ShapeKind::from_str("Triangle"), None);
    assert_eq!(ShapeKind::from_str("cyclic"), None);
    assert_eq!(ShapeKind::from_str(""), None);
}

#[test]
fn shape_kind_iterator_lists_every_kind_once() {
    assert_eq!(
        ShapeKind::iterator(),
        vec![ShapeKind::RoundedRectangular, ShapeKind::Cyclic]
    );
}

#[test]
fn bar_colors_cycle_every_four_bands() {
    assert_eq!(bar_color(0), BarColor::White);
    assert_eq!(bar_color(1), BarColor::Cyan);
    assert_eq!(bar_color(2), BarColor::Red);
    assert_eq!(bar_color(3), BarColor::Yellow);
    assert_eq!(bar_color(4), BarColor::White);
    assert_eq!(bar_color(7), BarColor::Yellow);
    for i in 0..40 {
        assert_eq!(bar_color(i), bar_color(i + 4));
    }
}
