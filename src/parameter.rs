//! GRIB parameters: abbreviation, name and unit.
use vstd::prelude::*;

verus! {

/// The short name of a GRIB parameter, such as `TMP`.
///
/// An empty abbreviation means that no short form was published.
#[derive(Debug, PartialEq, Eq, Hash, PartialOrd, Ord)]
pub struct Abbrev(pub String);

impl Clone for Abbrev {
    fn clone(&self) -> (r: Self)
        ensures
            r == *self,
    {
        Abbrev(self.0.clone())
    }
}

impl View for Abbrev {
    type V = Seq<char>;

    open spec fn view(&self) -> Seq<char> {
        self.0@
    }
}

/// A GRIB parameter: its abbreviation, its full name and its unit.
///
/// Abbreviations are not unique: one abbreviation may belong to several parameters, for
/// example in the local tables of different originating centers.
#[derive(Debug, PartialEq, Eq)]
pub struct Parameter {
    /// The short name ("short_name" in the GDAL tables).
    pub abbrev: Abbrev,
    /// The full name.
    pub name: String,
    pub unit: String,
}

impl Clone for Parameter {
    fn clone(&self) -> (r: Self)
        ensures
            r == *self,
    {
        Parameter { abbrev: self.abbrev.clone(), name: self.name.clone(), unit: self.unit.clone() }
    }
}

impl Parameter {
    pub fn new(abbrev: &str, name: &str, unit: &str) -> (r: Self)
        ensures
            r.abbrev@ == abbrev@,
            r.name@ == name@,
            r.unit@ == unit@,
    {
        Parameter { abbrev: Abbrev(abbrev.to_owned()), name: name.to_owned(), unit: unit.to_owned() }
    }

    pub fn abbrev(&self) -> (r: &Abbrev)
        ensures
            *r == self.abbrev,
    {
        &self.abbrev
    }

    pub fn name(&self) -> (r: &str)
        ensures
            r@ == self.name@,
    {
        self.name.as_str()
    }

    pub fn unit(&self) -> (r: &str)
        ensures
            r@ == self.unit@,
    {
        self.unit.as_str()
    }
}

} // verus!
