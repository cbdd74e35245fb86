use vstd::prelude::*;

verus! {

/// The kinds of shape the visualiser can draw for each frequency band.
#[derive(Debug, Clone, Copy, PartialEq, Eq, Structural)]
pub enum ShapeKind {
    RoundedRectangular,
    Cyclic,
}

/// The name under which a shape kind is shown in the menu and stored in the registry.
pub open spec fn shape_kind_name(kind: ShapeKind) -> Seq<char> {
    match kind {
        ShapeKind::RoundedRectangular => "RoundedRectangular"@,
        ShapeKind::Cyclic => "Cyclic"@,
    }
}

/// The shape kind that a stored name denotes, if any.
pub open spec fn shape_kind_named(name: Seq<char>) -> Option<ShapeKind> {
    if name == "RoundedRectangular"@ {
        Some(ShapeKind::RoundedRectangular)
    } else if name == "Cyclic"@ {
        Some(ShapeKind::Cyclic)
    } else {
        None
    }
}

/// Every shape kind, in menu order.
pub open spec fn all_shape_kinds() -> Seq<ShapeKind> {
    seq![ShapeKind::RoundedRectangular, ShapeKind::Cyclic]
}

impl ShapeKind {
    /// The name of this kind.
    pub fn to_str(&self) -> (name: &'static str)
        ensures
            name@ == shape_kind_name(*self),
    {
        match self {
            ShapeKind::RoundedRectangular => "RoundedRectangular",
            ShapeKind::Cyclic => "Cyclic",
        }
    }

    /// The kind with the given name; `None` for a name that no kind has.
    pub fn from_str(name: &str) -> (kind: Option<ShapeKind>)
        ensures
            kind == shape_kind_named(name@),
    {
        let owned = name.to_owned();
        if owned == "RoundedRectangular".to_owned() {
            Some(ShapeKind::RoundedRectangular)
        } else if owned == "Cyclic".to_owned() {
            Some(ShapeKind::Cyclic)
        } else {
            None
        }
    }

    /// Every kind, in the order the menu lists them.
    pub fn iterator() -> (kinds: Vec<ShapeKind>)
        ensures
            kinds@ == all_shape_kinds(),
    {
        let mut kinds = Vec::new();
        kinds.push(ShapeKind::RoundedRectangular);
        kinds.push(ShapeKind::Cyclic);
        kinds
    }
}

/// A shape of rounded bars laid side by side.
#[derive(Clone, Copy)]
pub struct RoundedRectangularShape {}

/// A shape of concentric rings laid out along a spiral.
#[derive(Clone, Copy)]
pub struct Cyclic {}

/// A drawable shape.
#[derive(Clone, Copy)]
pub enum Shape {
    RoundedRectangular(RoundedRectangularShape),
    Cyclic(Cyclic),
}

/// The shape that is drawn for a kind.
pub open spec fn shape_of_kind(kind: ShapeKind) -> Shape {
    match kind {
        ShapeKind::RoundedRectangular => Shape::RoundedRectangular(RoundedRectangularShape {}),
        ShapeKind::Cyclic => Shape::Cyclic(Cyclic {}),
    }
}

/// The kind of a shape.
pub open spec fn kind_of_shape(shape: Shape) -> ShapeKind {
    match shape {
        Shape::RoundedRectangular(_) => ShapeKind::RoundedRectangular,
        Shape::Cyclic(_) => ShapeKind::Cyclic,
    }
}

/// Builds the shape for a kind.
#[derive(Debug)]
pub struct ShapeBuilder {}

impl ShapeBuilder {
    /// The shape of the given kind.
    pub fn new(kind: ShapeKind) -> (shape: Shape)
        ensures
            shape == shape_of_kind(kind),
            kind_of_shape(shape) == kind,
    {
        match kind {
            ShapeKind::RoundedRectangular => Shape::RoundedRectangular(RoundedRectangularShape {}),
            ShapeKind::Cyclic => Shape::Cyclic(Cyclic {}),
        }
    }
}

/// Naming a kind and reading the name back gives the same kind.
pub proof fn lemma_shape_kind_name_roundtrip(kind: ShapeKind)
    ensures
        shape_kind_named(shape_kind_name(kind)) == Some(kind),
{
    reveal_strlit("RoundedRectangular");
    reveal_strlit("Cyclic");
    assert("Cyclic"@.len() != "RoundedRectangular"@.len());
}

/// The menu lists every kind exactly once.
pub proof fn lemma_all_shape_kinds_complete(kind: ShapeKind)
    ensures
        all_shape_kinds().contains(kind),
        all_shape_kinds().no_duplicates(),
{
    assert(all_shape_kinds()[0] == ShapeKind::RoundedRectangular);
    assert(all_shape_kinds()[1] == ShapeKind::Cyclic);
    match kind {
        ShapeKind::RoundedRectangular => assert(all_shape_kinds()[0] == kind),
        ShapeKind::Cyclic => assert(all_shape_kinds()[1] == kind),
    }
}

/// The colour of a frequency band: bands cycle through white, cyan, red and yellow.
#[derive(Debug, Clone, Copy, PartialEq, Eq, Structural)]
pub enum BarColor {
    White,
    Cyan,
    Red,
    Yellow,
}

pub open spec fn spec_bar_color(index: nat) -> BarColor {
    if index % 4 == 0 {
        BarColor::White
    } else if index % 4 == 1 {
        BarColor::Cyan
    } else if index % 4 == 2 {
        BarColor::Red
    } else {
        BarColor::Yellow
    }
}

/// The colour of the band at `index`.
pub fn bar_color(index: usize) -> (color: BarColor)
    ensures
        color == spec_bar_color(index as nat),
{
    match index % 4 {
        0 => BarColor::White,
        1 => BarColor::Cyan,
        2 => BarColor::Red,
        _ => BarColor::Yellow,
    }
}

/// Band colours repeat every four bands, in the order white, cyan, red, yellow, starting with
/// white at the first band.
pub proof fn lemma_bar_color_period(index: nat)
    ensures
        spec_bar_color(index + 4) == spec_bar_color(index),
        spec_bar_color(index) == seq![BarColor::White, BarColor::Cyan, BarColor::Red, BarColor::Yellow][(index
            % 4) as int],
{
    assert((index + 4) % 4 == index % 4) by (nonlinear_arith);
}

} // verus!
