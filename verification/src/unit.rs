use vstd::prelude::*;

verus! {

/// The mathematical content of a [`Unit`]: its identifier and its name.
pub ghost struct UnitView {
    pub id: u64,
    pub name: Seq<char>,
}

/// A registry record: an identifier fixed at creation and a name that
/// may be changed afterwards.
#[derive(Debug, Clone, PartialEq)]
pub struct Unit {
    id: u64,
    name: String,
}

impl View for Unit {
    type V = UnitView;

    closed spec fn view(&self) -> UnitView {
        UnitView { id: self.id, name: self.name@ }
    }
}

impl Unit {
    /// Constructs a record with the given identifier and name. The name
    /// is not validated: empty strings and duplicates are permitted.
    pub fn new(id: u64, name: &str) -> (unit: Unit)
        ensures
            unit@ == (UnitView { id, name: name@ }),
    {
        Unit { id, name: name.to_owned() }
    }

    /// Returns the immutable identifier.
    pub fn id(&self) -> (id: u64)
        ensures
            id == self@.id,
    {
        self.id
    }

    /// Returns the current name.
    pub fn name(&self) -> (name: &str)
        ensures
            name@ == self@.name,
    {
        self.name.as_str()
    }

    /// Replaces the name unconditionally; the identifier is untouched.
    pub fn set_name(&mut self, name: &str)
        ensures
            final(self)@ == (UnitView { name: name@, ..old(self)@ }),
    {
        self.name = name.to_owned();
    }
}

} // verus!
