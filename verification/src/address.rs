//! The address record and its mathematical model.

use vstd::prelude::*;

verus! {

/// How many coordinate units make one degree. Coordinates are held as whole
/// numbers of units, so one unit is a hundred-millionth of a degree.
pub const UNITS_PER_DEGREE: i64 = 100_000_000;

/// One address, or one alias of an address.
///
/// `alias_of` and `child_of` name another record by its `id`; nothing asks
/// that such a record exists. `latitude` and `longitude` are decimal degrees
/// counted in units of `1 / UNITS_PER_DEGREE`.
#[derive(Clone, Debug, PartialEq, Eq)]
pub struct Address {
    pub id: String,
    pub display: String,
    pub site_name: Option<String>,
    pub building_name: Option<String>,
    pub flat_type: Option<String>,
    pub flat_number: Option<String>,
    pub level_type: Option<String>,
    pub level_number: Option<String>,
    pub number_first: Option<String>,
    pub number_last: Option<String>,
    pub lot_number: Option<String>,
    pub street_name: String,
    pub street_type: Option<String>,
    pub street_suffix: Option<String>,
    pub locality: String,
    pub state: String,
    pub postcode: String,
    pub alias_of: Option<String>,
    pub child_of: Option<String>,
    pub latitude: i64,
    pub longitude: i64,
}

/// What an `Address` holds, as plain mathematical values.
pub struct AddressView {
    pub id: Seq<char>,
    pub display: Seq<char>,
    pub site_name: Option<Seq<char>>,
    pub building_name: Option<Seq<char>>,
    pub flat_type: Option<Seq<char>>,
    pub flat_number: Option<Seq<char>>,
    pub level_type: Option<Seq<char>>,
    pub level_number: Option<Seq<char>>,
    pub number_first: Option<Seq<char>>,
    pub number_last: Option<Seq<char>>,
    pub lot_number: Option<Seq<char>>,
    pub street_name: Seq<char>,
    pub street_type: Option<Seq<char>>,
    pub street_suffix: Option<Seq<char>>,
    pub locality: Seq<char>,
    pub state: Seq<char>,
    pub postcode: Seq<char>,
    pub alias_of: Option<Seq<char>>,
    pub child_of: Option<Seq<char>>,
    pub latitude: int,
    pub longitude: int,
}

/// The text of an optional string.
pub open spec fn text_of(s: Option<String>) -> Option<Seq<char>> {
    match s {
        Some(t) => Some(t@),
        None => None,
    }
}

impl View for Address {
    type V = AddressView;

    open spec fn view(&self) -> AddressView {
        AddressView {
            id: self.id@,
            display: self.display@,
            site_name: text_of(self.site_name),
            building_name: text_of(self.building_name),
            flat_type: text_of(self.flat_type),
            flat_number: text_of(self.flat_number),
            level_type: text_of(self.level_type),
            level_number: text_of(self.level_number),
            number_first: text_of(self.number_first),
            number_last: text_of(self.number_last),
            lot_number: text_of(self.lot_number),
            street_name: self.street_name@,
            street_type: text_of(self.street_type),
            street_suffix: text_of(self.street_suffix),
            locality: self.locality@,
            state: self.state@,
            postcode: self.postcode@,
            alias_of: text_of(self.alias_of),
            child_of: text_of(self.child_of),
            latitude: self.latitude as int,
            longitude: self.longitude as int,
        }
    }
}

impl AddressView {
    /// This record names `other` as the address it is an alias of or a child
    /// of.
    pub open spec fn refers_to(self, other: AddressView) -> bool {
        self.child_of == Some(other.id) || self.alias_of == Some(other.id)
    }
}

impl Address {
    /// Whether this record names `other` as the address it is an alias of or
    /// a child of.
    pub fn refers_to(&self, other: &Address) -> (r: bool)
        ensures
            r == self@.refers_to(other@),
    {
        let by_child = match &self.child_of {
            Some(target) => *target == other.id,
            None => false,
        };
        let by_alias = match &self.alias_of {
            Some(target) => *target == other.id,
            None => false,
        };
        by_child || by_alias
    }
}

} // verus!
