use vstd::prelude::*;

verus! {

/// A label defined during assembly: its name, its address and how often it is referenced.
#[derive(Debug)]
pub struct Label {
    name: String,
    address: u16,
    references: u16,
}

impl Label {
    pub closed spec fn spec_name(&self) -> Seq<char> {
        self.name@
    }

    pub closed spec fn spec_address(&self) -> u16 {
        self.address
    }

    pub closed spec fn spec_references(&self) -> u16 {
        self.references
    }

    pub fn new(name: &str, address: u16) -> (label: Self)
        ensures
            label.spec_name() == name@,
            label.spec_address() == address,
            label.spec_references() == 0,
    {
        Label { name: name.to_owned(), address, references: 0 }
    }

    pub fn name(&self) -> (name: &str)
        ensures
            name@ == self.spec_name(),
    {
        self.name.as_str()
    }

    pub fn address(&self) -> (address: u16)
        ensures
            address == self.spec_address(),
    {
        self.address
    }

    pub fn references(&self) -> (references: u16)
        ensures
            references == self.spec_references(),
    {
        self.references
    }

    /// Counts one more reference, staying at the largest count once there.
    pub fn increment_references(&mut self)
        ensures
            final(self).spec_name() == old(self).spec_name(),
            final(self).spec_address() == old(self).spec_address(),
            final(self).spec_references() == (if old(self).spec_references() < u16::MAX {
                (old(self).spec_references() + 1) as u16
            } else {
                u16::MAX
            }),
    {
        self.references = self.references.saturating_add(1);
    }
}

impl Clone for Label {
    fn clone(&self) -> (label: Self)
        ensures
            label.spec_name() == self.spec_name(),
            label.spec_address() == self.spec_address(),
            label.spec_references() == self.spec_references(),
    {
        Label { name: self.name.clone(), address: self.address, references: self.references }
    }
}

/// Labels are equal when their names are.
impl PartialEq for Label {
    fn eq(&self, other: &Self) -> (equal: bool) {
        self.name == other.name
    }
}

impl vstd::std_specs::cmp::PartialEqSpecImpl for Label {
    open spec fn obeys_eq_spec() -> bool {
        true
    }

    open spec fn eq_spec(&self, other: &Self) -> bool {
        self.spec_name() == other.spec_name()
    }
}

} // verus!
