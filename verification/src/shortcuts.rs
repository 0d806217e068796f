//! The global shortcut, as the record spells it: modifier names and a key
//! name, joined by `+`, as in `Alt+Space` or `Command+Shift+P`.

use vstd::prelude::*;
use crate::text::{chars_of, lowercase, split, split_on, str_eq, to_lowercase};

verus! {

/// The modifier keys of a shortcut.
#[derive(Debug, Clone, Copy, PartialEq, Eq)]
pub struct Modifiers {
    pub alt: bool,
    pub control: bool,
    pub shift: bool,
    /// The command key.
    pub meta: bool,
}

/// The key of a shortcut.
#[derive(Debug, Clone, Copy, PartialEq, Eq)]
pub enum Key {
    Space,
    /// One of the letters `a` to `z`, in lower case.
    Letter(char),
}

/// A shortcut: at least one modifier, and a key.
#[derive(Debug, Clone, Copy, PartialEq, Eq)]
pub struct Shortcut {
    pub modifiers: Modifiers,
    pub key: Key,
}

/// No modifier at all.
pub open spec fn no_modifiers() -> Modifiers {
    Modifiers { alt: false, control: false, shift: false, meta: false }
}

/// `held` with the modifier that `name` names, for a name in lower case; or
/// nothing where `name` names none.
pub open spec fn with_modifier(held: Modifiers, name: Seq<char>) -> Option<Modifiers> {
    if name == "alt"@ || name == "option"@ {
        Some(Modifiers { alt: true, ..held })
    } else if name == "command"@ || name == "cmd"@ || name == "super"@ {
        Some(Modifiers { meta: true, ..held })
    } else if name == "control"@ || name == "ctrl"@ {
        Some(Modifiers { control: true, ..held })
    } else if name == "shift"@ {
        Some(Modifiers { shift: true, ..held })
    } else {
        None
    }
}

/// The modifiers that `names` name, for names in lower case; or nothing where
/// one of them names none.
pub open spec fn modifiers_of(names: Seq<Seq<char>>) -> Option<Modifiers>
    decreases names.len(),
{
    if names.len() == 0 {
        Some(no_modifiers())
    } else {
        match modifiers_of(names.drop_last()) {
            Some(held) => with_modifier(held, names.last()),
            None => None,
        }
    }
}

/// The key that `name` names, for a name in lower case.
pub open spec fn key_of(name: Seq<char>) -> Option<Key> {
    if name == "space"@ {
        Some(Key::Space)
    } else if name.len() == 1 && 'a' <= name[0] && name[0] <= 'z' {
        Some(Key::Letter(name[0]))
    } else {
        None
    }
}

/// The shortcut that the parts of a spelling stand for, each part in lower
/// case: all parts but the last name modifiers, the last names the key.
pub open spec fn shortcut_of(parts: Seq<Seq<char>>) -> Option<Shortcut> {
    if parts.len() < 2 {
        None
    } else {
        match modifiers_of(parts.drop_last()) {
            Some(modifiers) => if modifiers == no_modifiers() {
                None
            } else {
                match key_of(parts.last()) {
                    Some(key) => Some(Shortcut { modifiers, key }),
                    None => None,
                }
            },
            None => None,
        }
    }
}

/// The shortcut that a spelling stands for.
pub open spec fn parsed_shortcut(spelling: Seq<char>) -> Option<Shortcut> {
    shortcut_of(split_on(spelling, '+').map_values(|part: Seq<char>| lowercase(part)))
}

/// `held` with the modifier that `name` names.
fn add_modifier(held: Modifiers, name: &str) -> (out: Option<Modifiers>)
    ensures
        out == with_modifier(held, name@),
{
    if str_eq(name, "alt") || str_eq(name, "option") {
        Some(Modifiers { alt: true, control: held.control, shift: held.shift, meta: held.meta })
    } else if str_eq(name, "command") || str_eq(name, "cmd") || str_eq(name, "super") {
        Some(Modifiers { alt: held.alt, control: held.control, shift: held.shift, meta: true })
    } else if str_eq(name, "control") || str_eq(name, "ctrl") {
        Some(Modifiers { alt: held.alt, control: true, shift: held.shift, meta: held.meta })
    } else if str_eq(name, "shift") {
        Some(Modifiers { alt: held.alt, control: held.control, shift: true, meta: held.meta })
    } else {
        None
    }
}

/// The key that `name` names.
fn key_named(name: &str) -> (out: Option<Key>)
    ensures
        out == key_of(name@),
{
    if str_eq(name, "space") {
        return Some(Key::Space);
    }
    let chars = chars_of(name);
    if chars.len() == 1 && 'a' <= chars[0] && chars[0] <= 'z' {
        Some(Key::Letter(chars[0]))
    } else {
        None
    }
}

/// The shortcut that the parts of a spelling stand for, each part in lower
/// case.
pub fn shortcut_from_parts(parts: &Vec<String>) -> (out: Option<Shortcut>)
    ensures
        out == shortcut_of(parts.deep_view()),
{
    if parts.len() < 2 {
        return None;
    }
    let ghost all = parts.deep_view();
    let ghost names = all.drop_last();
    let last: usize = parts.len() - 1;
    let mut held = Modifiers { alt: false, control: false, shift: false, meta: false };
    let mut i: usize = 0;
    assert(names.take(0) =~= Seq::<Seq<char>>::empty());
    while i < last
        invariant
            i <= last,
            last == parts@.len() - 1,
            all == parts.deep_view(),
            names == all.drop_last(),
            modifiers_of(names.take(i as int)) == Some(held),
        decreases last - i,
    {
        proof {
            assert(names.take(i + 1).drop_last() =~= names.take(i as int));
            assert(names.take(i + 1).last() == parts@[i as int]@);
        }
        match add_modifier(held, parts[i].as_str()) {
            Some(more) => {
                held = more;
            },
            None => {
                proof {
                    lemma_unknown_modifier(names, i as int + 1);
                    assert(names.take(names.len() as int) =~= names);
                }
                return None;
            },
        }
        i += 1;
    }
    assert(names.take(last as int) =~= names);
    if !held.alt && !held.control && !held.shift && !held.meta {
        return None;
    }
    assert(all.last() == parts@[last as int]@);
    match key_named(parts[last].as_str()) {
        Some(key) => Some(Shortcut { modifiers: held, key }),
        None => None,
    }
}

/// Names of which the first `upto` name no modifiers name none as a whole.
proof fn lemma_unknown_modifier(names: Seq<Seq<char>>, upto: int)
    requires
        0 <= upto <= names.len(),
        modifiers_of(names.take(upto)) is None,
    ensures
        modifiers_of(names.take(names.len() as int)) is None,
    decreases names.len() - upto,
{
    if upto < names.len() {
        assert(names.take(upto + 1).drop_last() =~= names.take(upto));
        lemma_unknown_modifier(names, upto + 1);
    }
}

/// Reads a shortcut from its spelling. The case of the names does not matter.
pub fn parse_shortcut(spelling: &str) -> (out: Option<Shortcut>)
    ensures
        out == parsed_shortcut(spelling@),
{
    let parts = split(spelling, '+');
    let ghost all = parts.deep_view();
    let mut lowered: Vec<String> = Vec::new();
    let mut i: usize = 0;
    while i < parts.len()
        invariant
            i <= parts@.len(),
            lowered@.len() == i,
            forall|k: int| 0 <= k < i ==> lowered@[k]@ == lowercase(parts@[k]@),
        decreases parts@.len() - i,
    {
        lowered.push(to_lowercase(parts[i].as_str()));
        i += 1;
    }
    assert(lowered.deep_view() =~= all.map_values(|part: Seq<char>| lowercase(part)));
    shortcut_from_parts(&lowered)
}

} // verus!
