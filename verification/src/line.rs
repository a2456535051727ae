//! Decoding one line of the address extract.
//!
//! A line holds `FIELDS_PER_LINE` fields parted by `FIELD_SEPARATOR`. Each
//! attribute of an address sits at a fixed position. An empty field stands
//! for an absent value, which the required attributes do not allow.

use vstd::prelude::*;
use crate::address::{Address, AddressView, text_of};
use crate::coordinate::{coordinate_of, parse_coordinate};
use crate::fields::{FIELD_SEPARATOR, pieces, split_fields, texts_of};

verus! {

/// How many fields a line holds.
pub const FIELDS_PER_LINE: usize = 27;

/// Where `id` stands in a line, counted from 0.
pub const ID_FIELD: usize = 0;

/// Where `display` stands in a line, counted from 0.
pub const DISPLAY_FIELD: usize = 2;

/// Where `site_name` stands in a line, counted from 0.
pub const SITE_NAME_FIELD: usize = 3;

/// Where `building_name` stands in a line, counted from 0.
pub const BUILDING_NAME_FIELD: usize = 4;

/// Where `flat_type` stands in a line, counted from 0.
pub const FLAT_TYPE_FIELD: usize = 5;

/// Where `flat_number` stands in a line, counted from 0.
pub const FLAT_NUMBER_FIELD: usize = 6;

/// Where `level_type` stands in a line, counted from 0.
pub const LEVEL_TYPE_FIELD: usize = 7;

/// Where `level_number` stands in a line, counted from 0.
pub const LEVEL_NUMBER_FIELD: usize = 8;

/// Where `number_first` stands in a line, counted from 0.
pub const NUMBER_FIRST_FIELD: usize = 9;

/// Where `number_last` stands in a line, counted from 0.
pub const NUMBER_LAST_FIELD: usize = 10;

/// Where `lot_number` stands in a line, counted from 0.
pub const LOT_NUMBER_FIELD: usize = 11;

/// Where `street_name` stands in a line, counted from 0.
pub const STREET_NAME_FIELD: usize = 12;

/// Where `street_type` stands in a line, counted from 0.
pub const STREET_TYPE_FIELD: usize = 13;

/// Where `street_suffix` stands in a line, counted from 0.
pub const STREET_SUFFIX_FIELD: usize = 14;

/// Where `locality` stands in a line, counted from 0.
pub const LOCALITY_FIELD: usize = 15;

/// Where `state` stands in a line, counted from 0.
pub const STATE_FIELD: usize = 16;

/// Where `postcode` stands in a line, counted from 0.
pub const POSTCODE_FIELD: usize = 17;

/// Where `alias_of` stands in a line, counted from 0.
pub const ALIAS_OF_FIELD: usize = 21;

/// Where `child_of` stands in a line, counted from 0.
pub const CHILD_OF_FIELD: usize = 23;

/// Where `longitude` stands in a line: before the latitude.
pub const LONGITUDE_FIELD: usize = 25;

/// Where `latitude` stands in a line, counted from 0.
pub const LATITUDE_FIELD: usize = 26;

/// An attribute that every address must have.
#[derive(Clone, Copy, Debug, PartialEq, Eq, Structural)]
pub enum Required {
    Id,
    Display,
    StreetName,
    Locality,
    State,
    Postcode,
}

/// One of the two coordinates.
#[derive(Clone, Copy, Debug, PartialEq, Eq, Structural)]
pub enum Axis {
    Latitude,
    Longitude,
}

/// Why a line is not an address.
#[derive(Clone, Copy, Debug, PartialEq, Eq, Structural)]
pub enum LineError {
    /// The line does not hold `FIELDS_PER_LINE` fields but `found`.
    FieldCount { found: usize },
    /// The field of a required attribute is empty.
    Missing(Required),
    /// The field of a coordinate is not a coordinate.
    Coordinate(Axis),
}

/// The value of a field: absent where the field is empty.
pub open spec fn absent_if_empty(field: Seq<char>) -> Option<Seq<char>> {
    if field.len() == 0 {
        None
    } else {
        Some(field)
    }
}

/// The text of an optional string slice.
pub open spec fn slice_text(s: Option<&str>) -> Option<Seq<char>> {
    match s {
        Some(t) => Some(t@),
        None => None,
    }
}

/// The first required attribute whose field is empty, in the order `id`,
/// `display`, `street_name`, `locality`, `state`, `postcode`.
pub open spec fn first_missing(fields: Seq<Seq<char>>) -> Option<Required> {
    if fields[ID_FIELD as int].len() == 0 {
        Some(Required::Id)
    } else if fields[DISPLAY_FIELD as int].len() == 0 {
        Some(Required::Display)
    } else if fields[STREET_NAME_FIELD as int].len() == 0 {
        Some(Required::StreetName)
    } else if fields[LOCALITY_FIELD as int].len() == 0 {
        Some(Required::Locality)
    } else if fields[STATE_FIELD as int].len() == 0 {
        Some(Required::State)
    } else if fields[POSTCODE_FIELD as int].len() == 0 {
        Some(Required::Postcode)
    } else {
        None
    }
}

/// The address that the fields of a line spell out, given its coordinates.
pub open spec fn record_of(fields: Seq<Seq<char>>, latitude: int, longitude: int) -> AddressView {
    AddressView {
        id: fields[ID_FIELD as int],
        display: fields[DISPLAY_FIELD as int],
        site_name: absent_if_empty(fields[SITE_NAME_FIELD as int]),
        building_name: absent_if_empty(fields[BUILDING_NAME_FIELD as int]),
        flat_type: absent_if_empty(fields[FLAT_TYPE_FIELD as int]),
        flat_number: absent_if_empty(fields[FLAT_NUMBER_FIELD as int]),
        level_type: absent_if_empty(fields[LEVEL_TYPE_FIELD as int]),
        level_number: absent_if_empty(fields[LEVEL_NUMBER_FIELD as int]),
        number_first: absent_if_empty(fields[NUMBER_FIRST_FIELD as int]),
        number_last: absent_if_empty(fields[NUMBER_LAST_FIELD as int]),
        lot_number: absent_if_empty(fields[LOT_NUMBER_FIELD as int]),
        street_name: fields[STREET_NAME_FIELD as int],
        street_type: absent_if_empty(fields[STREET_TYPE_FIELD as int]),
        street_suffix: absent_if_empty(fields[STREET_SUFFIX_FIELD as int]),
        locality: fields[LOCALITY_FIELD as int],
        state: fields[STATE_FIELD as int],
        postcode: fields[POSTCODE_FIELD as int],
        alias_of: absent_if_empty(fields[ALIAS_OF_FIELD as int]),
        child_of: absent_if_empty(fields[CHILD_OF_FIELD as int]),
        latitude,
        longitude,
    }
}

/// What a line decodes to. Of several faults the first in this order is
/// reported: the number of fields, an empty required field, the latitude,
/// the longitude.
pub open spec fn decoded(line: Seq<char>) -> Result<AddressView, LineError> {
    let fields = pieces(line, FIELD_SEPARATOR);
    if fields.len() != FIELDS_PER_LINE {
        Err(LineError::FieldCount { found: fields.len() as usize })
    } else if first_missing(fields) is Some {
        Err(LineError::Missing(first_missing(fields)->0))
    } else if coordinate_of(fields[LATITUDE_FIELD as int]) is None {
        Err(LineError::Coordinate(Axis::Latitude))
    } else if coordinate_of(fields[LONGITUDE_FIELD as int]) is None {
        Err(LineError::Coordinate(Axis::Longitude))
    } else {
        Ok(
            record_of(
                fields,
                coordinate_of(fields[LATITUDE_FIELD as int])->0,
                coordinate_of(fields[LONGITUDE_FIELD as int])->0,
            ),
        )
    }
}

/// The value agrees with its field: it is absent exactly where the field
/// is empty, and else it is the field, which is then not empty.
pub open spec fn agrees(value: Option<Seq<char>>, field: Seq<char>) -> bool {
    &&& value is None <==> field.len() == 0
    &&& value matches Some(text) ==> text == field && text.len() > 0
}

/// A line with an empty field for a required attribute does not decode. In
/// a line that decodes, no required attribute is empty, and each optional
/// attribute is absent exactly where its field is empty: an absent value is
/// never held as an empty text.
pub proof fn lemma_empty_fields(line: Seq<char>)
    ensures
        first_missing(pieces(line, FIELD_SEPARATOR)) is Some ==> decoded(line) is Err,
        decoded(line) matches Ok(a) ==> {
            let fields = pieces(line, FIELD_SEPARATOR);
            &&& a.id.len() > 0
            &&& a.display.len() > 0
            &&& a.street_name.len() > 0
            &&& a.locality.len() > 0
            &&& a.state.len() > 0
            &&& a.postcode.len() > 0
            &&& agrees(a.site_name, fields[SITE_NAME_FIELD as int])
            &&& agrees(a.building_name, fields[BUILDING_NAME_FIELD as int])
            &&& agrees(a.flat_type, fields[FLAT_TYPE_FIELD as int])
            &&& agrees(a.flat_number, fields[FLAT_NUMBER_FIELD as int])
            &&& agrees(a.level_type, fields[LEVEL_TYPE_FIELD as int])
            &&& agrees(a.level_number, fields[LEVEL_NUMBER_FIELD as int])
            &&& agrees(a.number_first, fields[NUMBER_FIRST_FIELD as int])
            &&& agrees(a.number_last, fields[NUMBER_LAST_FIELD as int])
            &&& agrees(a.lot_number, fields[LOT_NUMBER_FIELD as int])
            &&& agrees(a.street_type, fields[STREET_TYPE_FIELD as int])
            &&& agrees(a.street_suffix, fields[STREET_SUFFIX_FIELD as int])
            &&& agrees(a.alias_of, fields[ALIAS_OF_FIELD as int])
            &&& agrees(a.child_of, fields[CHILD_OF_FIELD as int])
        },
{
}

/// An empty field stands for a value that is absent.
pub fn e(s: &str) -> (r: Option<&str>)
    ensures
        slice_text(r) == absent_if_empty(s@),
{
    if s.is_empty() {
        None
    } else {
        Some(s)
    }
}

/// The value of the field at `at`, as a string of its own.
fn value_at(fields: &Vec<String>, at: usize) -> (r: Option<String>)
    requires
        at < fields.len(),
    ensures
        text_of(r) == absent_if_empty(texts_of(fields@)[at as int]),
{
    match e(fields[at].as_str()) {
        Some(text) => Some(text.to_owned()),
        None => None,
    }
}

/// The value of the field of a required attribute.
fn required_at(fields: &Vec<String>, at: usize, which: Required) -> (r: Result<String, LineError>)
    requires
        at < fields.len(),
    ensures
        match r {
            Ok(text) => text@ == texts_of(fields@)[at as int] && text@.len() > 0,
            Err(error) => error == LineError::Missing(which) && texts_of(fields@)[at as int].len()
                == 0,
        },
{
    match value_at(fields, at) {
        Some(text) => Ok(text),
        None => Err(LineError::Missing(which)),
    }
}

/// Decodes one line of the extract into an address.
///
/// Fails where the line does not hold `FIELDS_PER_LINE` fields, where the
/// field of a required attribute is empty, or where a coordinate cannot be
/// read. An empty field of an optional attribute gives an absent value.
pub fn decode_line(line: &str) -> (r: Result<Address, LineError>)
    ensures
        match r {
            Ok(address) => decoded(line@) == Ok::<AddressView, LineError>(address@),
            Err(error) => decoded(line@) == Err::<AddressView, LineError>(error),
        },
{
    let fields = split_fields(line);
    if fields.len() != FIELDS_PER_LINE {
        return Err(LineError::FieldCount { found: fields.len() });
    }
    let id = required_at(&fields, ID_FIELD, Required::Id)?;
    let display = required_at(&fields, DISPLAY_FIELD, Required::Display)?;
    let street_name = required_at(&fields, STREET_NAME_FIELD, Required::StreetName)?;
    let locality = required_at(&fields, LOCALITY_FIELD, Required::Locality)?;
    let state = required_at(&fields, STATE_FIELD, Required::State)?;
    let postcode = required_at(&fields, POSTCODE_FIELD, Required::Postcode)?;
    let latitude = match parse_coordinate(fields[LATITUDE_FIELD].as_str()) {
        Some(units) => units,
        None => {
            return Err(LineError::Coordinate(Axis::Latitude));
        },
    };
    let longitude = match parse_coordinate(fields[LONGITUDE_FIELD].as_str()) {
        Some(units) => units,
        None => {
            return Err(LineError::Coordinate(Axis::Longitude));
        },
    };
    Ok(
        Address {
            id,
            display,
            site_name: value_at(&fields, SITE_NAME_FIELD),
            building_name: value_at(&fields, BUILDING_NAME_FIELD),
            flat_type: value_at(&fields, FLAT_TYPE_FIELD),
            flat_number: value_at(&fields, FLAT_NUMBER_FIELD),
            level_type: value_at(&fields, LEVEL_TYPE_FIELD),
            level_number: value_at(&fields, LEVEL_NUMBER_FIELD),
            number_first: value_at(&fields, NUMBER_FIRST_FIELD),
            number_last: value_at(&fields, NUMBER_LAST_FIELD),
            lot_number: value_at(&fields, LOT_NUMBER_FIELD),
            street_name,
            street_type: value_at(&fields, STREET_TYPE_FIELD),
            street_suffix: value_at(&fields, STREET_SUFFIX_FIELD),
            locality,
            state,
            postcode,
            alias_of: value_at(&fields, ALIAS_OF_FIELD),
            child_of: value_at(&fields, CHILD_OF_FIELD),
            latitude,
            longitude,
        },
    )
}

} // verus!
