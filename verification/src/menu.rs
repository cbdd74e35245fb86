use vstd::prelude::*;
use vstd::arithmetic::power2::{pow2, lemma_pow2, lemma_pow2_unfold, lemma_pow2_strictly_increases};
use crate::config::{
    Configuration, ConfigurationField, GlobalConfiguration, NEW_PROFILE_NAME,
    has_default_settings,
};
use crate::shapes::ShapeKind;

verus! {

/// The exponent `e` of a window size: `2^e <= size < 2^(e + 1)`.
pub open spec fn is_size_exponent(size: nat, e: nat) -> bool {
    pow2(e) <= size < pow2(e + 1)
}

/// The exponent of a window size, rounded down (the menu's slider works on exponents).
pub fn size_exponent(size: usize) -> (e: u32)
    requires
        size > 0,
    ensures
        is_size_exponent(size as nat, e as nat),
{
    let mut power: usize = 1;
    let mut e: u32 = 0;
    proof {
        lemma_pow2(0);
        reveal(vstd::arithmetic::power::pow);
    }
    while power <= size / 2
        invariant
            1 <= power <= size,
            power == pow2(e as nat),
            e < 64,
        decreases size - power,
    {
        proof {
            lemma_pow2_unfold((e + 1) as nat);
        }
        power = power * 2;
        e = e + 1;
        proof {
            assert(e < 64) by {
                if e >= 64 {
                    vstd::arithmetic::power2::lemma2_to64();
                    vstd::arithmetic::power2::lemma2_to64_rest();
                    if e > 64 {
                        lemma_pow2_strictly_increases(64, e as nat);
                    }
                }
            }
        }
    }
    proof {
        lemma_pow2_unfold((e + 1) as nat);
    }
    e
}

/// `2^e`, the window size for an exponent.
pub fn size_for_exponent(e: u32) -> (size: usize)
    requires
        pow2(e as nat) <= usize::MAX,
    ensures
        size == pow2(e as nat),
{
    let mut size: usize = 1;
    let mut i: u32 = 0;
    proof {
        lemma_pow2(0);
        reveal(vstd::arithmetic::power::pow);
    }
    while i < e
        invariant
            i <= e,
            size == pow2(i as nat),
            pow2(e as nat) <= usize::MAX,
        decreases e - i,
    {
        proof {
            lemma_pow2_unfold((i + 1) as nat);
            if i + 1 < e {
                lemma_pow2_strictly_increases((i + 1) as nat, e as nat);
            }
        }
        size = size * 2;
        i = i + 1;
    }
    size
}

/// The exponent of a power of two is its exponent: moving the size slider to `e` and reading
/// it back gives `e`.
pub proof fn lemma_size_exponent_of_power(e: nat, f: nat)
    requires
        is_size_exponent(pow2(e), f),
    ensures
        f == e,
{
    lemma_pow2_unfold(e + 1);
    lemma_pow2_unfold(f + 1);
    if f < e {
        if f + 1 < e {
            lemma_pow2_strictly_increases(f + 1, e);
        }
    } else if f > e {
        lemma_pow2_strictly_increases(e, f);
    }
}

/// What the user did in the options menu.
#[derive(Debug, Clone, Copy, PartialEq, Eq, Structural)]
pub enum MenuEvent {
    /// "Select Profile" was clicked.
    ToggleProfileList,
    /// "Create" was clicked in the profile panel.
    CreateProfile,
    /// "Select Shape" was clicked.
    ToggleShapeList,
    /// A shape was picked in the shape panel.
    SelectShape(ShapeKind),
    /// The window size slider now shows this exponent.
    SetSizeExponent(u32),
    /// "Close" was clicked.
    Close,
}

/// A key that the visualiser reacts to.
#[derive(Debug, Clone, Copy, PartialEq, Eq, Structural)]
pub enum KeyPress {
    Space,
    Escape,
    Other,
}

/// `new` is `old` with only the named flags and fields possibly different.
pub open spec fn same_except_flags(old: GlobalConfiguration, new: GlobalConfiguration) -> bool {
    &&& new.cfg_list == old.cfg_list
    &&& new.configuration == old.configuration
    &&& new.new_profile_name == old.new_profile_name
}

impl GlobalConfiguration {
    /// Applies one menu action. Toggles flip their panel (or, for "Close", the hidden flag);
    /// picking a shape makes it the profile's shape; moving the size slider to a new exponent
    /// sets the window size to that power of two. Creating a profile returns a default profile
    /// named after the entered name and resets the entered name.
    pub fn handle_menu_event(&mut self, event: MenuEvent) -> (created: Option<Configuration>)
        requires
            event matches MenuEvent::SetSizeExponent(e) ==> old(self).configuration.size_arr.value > 0
                && pow2(e as nat) <= usize::MAX,
        ensures
            created is Some <==> event == MenuEvent::CreateProfile,
            final(self).cfg_list == old(self).cfg_list,
            event != MenuEvent::CreateProfile ==> final(self).new_profile_name == old(self).new_profile_name,
            final(self).open == (if event == MenuEvent::Close { !old(self).open } else { old(self).open }),
            final(self).cfg_list_open == (if event == MenuEvent::ToggleProfileList {
                !old(self).cfg_list_open
            } else {
                old(self).cfg_list_open
            }),
            final(self).shape_list_open == (if event == MenuEvent::ToggleShapeList {
                !old(self).shape_list_open
            } else {
                old(self).shape_list_open
            }),
            match event {
                MenuEvent::CreateProfile => {
                    &&& final(self).new_profile_name@ == NEW_PROFILE_NAME@
                    &&& final(self).configuration == old(self).configuration
                    &&& created matches Some(c) && c.key@ == old(self).new_profile_name@
                        && has_default_settings(c)
                },
                MenuEvent::SelectShape(kind) => final(self).configuration == (Configuration {
                    kind,
                    ..old(self).configuration
                }),
                MenuEvent::SetSizeExponent(e) => {
                    let size = old(self).configuration.size_arr.value;
                    final(self).configuration == (if is_size_exponent(size as nat, e as nat) {
                        old(self).configuration
                    } else {
                        Configuration {
                            size_arr: ConfigurationField {
                                value: pow2(e as nat) as usize,
                                key: old(self).configuration.size_arr.key,
                            },
                            ..old(self).configuration
                        }
                    })
                },
                _ => final(self).configuration == old(self).configuration,
            },
    {
        match event {
            MenuEvent::ToggleProfileList => {
                self.cfg_list_open = !self.cfg_list_open;
                None
            },
            MenuEvent::CreateProfile => {
                let mut new_cfg = Configuration::default();
                new_cfg.key = self.new_profile_name.clone();
                self.new_profile_name = NEW_PROFILE_NAME.to_owned();
                Some(new_cfg)
            },
            MenuEvent::ToggleShapeList => {
                self.shape_list_open = !self.shape_list_open;
                None
            },
            MenuEvent::SelectShape(kind) => {
                self.configuration.kind = kind;
                None
            },
            MenuEvent::SetSizeExponent(e) => {
                let current = size_exponent(self.configuration.size_arr.value);
                proof {
                    let size = self.configuration.size_arr.value as nat;
                    if is_size_exponent(size, e as nat) {
                        lemma_size_exponent_unique(size, e as nat, current as nat);
                    }
                }
                if e != current {
                    self.configuration.size_arr.value = size_for_exponent(e);
                }
                None
            },
            MenuEvent::Close => {
                self.open = !self.open;
                None
            },
        }
    }

    /// Reacts to a key: space hides or shows the menu; the result says whether the key asks
    /// to quit (escape).
    pub fn key_down_event(&mut self, key: Option<KeyPress>) -> (quit: bool)
        ensures
            quit == (key == Some(KeyPress::Escape)),
            final(self).open == (if key == Some(KeyPress::Space) { !old(self).open } else { old(self).open }),
            final(self).cfg_list_open == old(self).cfg_list_open,
            final(self).shape_list_open == old(self).shape_list_open,
            same_except_flags(*old(self), *final(self)),
    {
        match key {
            Some(KeyPress::Space) => {
                self.open = !self.open;
                false
            },
            Some(KeyPress::Escape) => true,
            _ => false,
        }
    }
}

/// A window size has only one exponent.
pub proof fn lemma_size_exponent_unique(size: nat, e: nat, f: nat)
    requires
        is_size_exponent(size, e),
        is_size_exponent(size, f),
    ensures
        e == f,
{
    lemma_pow2_unfold(e + 1);
    lemma_pow2_unfold(f + 1);
    if e < f {
        if e + 1 < f {
            lemma_pow2_strictly_increases(e + 1, f);
        }
    } else if f < e {
        if f + 1 < e {
            lemma_pow2_strictly_increases(f + 1, e);
        }
    }
}

} // verus!
