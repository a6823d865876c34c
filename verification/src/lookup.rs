//! The table that maps the class of an application window to the short label
//! shown in workspace names.

use vstd::hash_map::StringHashMap;
use vstd::prelude::*;

verus! {

/// From window class to display label. The table is filled once, before the
/// first plan is computed, and only read afterwards. Classes are matched
/// exactly.
pub struct Lookup {
    entries: StringHashMap<String>,
}

impl View for Lookup {
    type V = Map<Seq<char>, Seq<char>>;

    closed spec fn view(&self) -> Map<Seq<char>, Seq<char>> {
        self.entries@.map_values(|label: String| label@)
    }
}

/// The entries of the table that `Lookup::standard` builds.
pub open spec fn standard_entries() -> Map<Seq<char>, Seq<char>> {
    Map::<Seq<char>, Seq<char>>::empty().insert("Alacritty"@, "A"@).insert(
        "Joplin"@,
        "J"@,
    ).insert("Firefox"@, "F"@).insert("Code"@, "C"@)
}

impl Lookup {
    /// A table without entries.
    pub fn new() -> (table: Lookup)
        ensures
            table@ == Map::<Seq<char>, Seq<char>>::empty(),
    {
        let table = Lookup { entries: StringHashMap::new() };
        assert(table@ =~= Map::<Seq<char>, Seq<char>>::empty());
        table
    }

    /// Maps `class` to `label`, in place of what `class` was mapped to before.
    pub fn insert(&mut self, class: String, label: String)
        ensures
            final(self)@ == old(self)@.insert(class@, label@),
    {
        self.entries.insert(class, label);
        assert(self@ =~= old(self)@.insert(class@, label@));
    }

    /// The label of `class`, if the table has one.
    pub fn get(&self, class: &str) -> (found: Option<&String>)
        ensures
            match found {
                Some(label) => self@.contains_key(class@) && label@ == self@[class@],
                None => !self@.contains_key(class@),
            },
    {
        self.entries.get(class)
    }

    /// The table for the applications that are labelled when nothing else is
    /// configured.
    pub fn standard() -> (table: Lookup)
        ensures
            table@ == standard_entries(),
    {
        let mut table = Lookup::new();
        table.insert("Alacritty".to_owned(), "A".to_owned());
        table.insert("Joplin".to_owned(), "J".to_owned());
        table.insert("Firefox".to_owned(), "F".to_owned());
        table.insert("Code".to_owned(), "C".to_owned());
        table
    }
}

} // verus!
