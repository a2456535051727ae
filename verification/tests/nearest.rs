use gnafr::address::Address;
use gnafr::nearest::{nearest, Candidate};

fn address(id: &str, alias_of: Option<&str>, child_of: Option<&str>) -> Address {
    Address {
        id: id.to_string(),
        display: id.to_string(),
        site_name: None,
        building_name: None,
        flat_type: None,
        flat_number: None,
        level_type: None,
        level_number: None,
        number_first: None,
        number_last: None,
        lot_number: None,
        street_name: "MAIN".to_string(),
        street_type: None,
        street_suffix: None,
        locality: "SYDNEY".to_string(),
        state: "NSW".to_string(),
        postcode: "2000".to_string(),
        alias_of: alias_of.map(|s| s.to_string()),
        child_of: child_of.map(|s| s.to_string()),
        latitude: 0,
        longitude: 0,
    }
}

fn chosen(list: &[(&Address, u64)]) -> Option<String> {
    let candidates: Vec<Candidate> =
        list.iter().map(|(a, d)| Candidate { address: *a, distance: *d }).collect();
    nearest(&candidates).map(|at| candidates[at].address.id.clone())
}

#[test]
fn no_candidate_no_choice() {
    assert_eq!(nearest(&Vec::new()), None);
}

#[test]
fn single_candidate_is_chosen() {
    let a = address("A", None, None);
    assert_eq!(nearest(&vec![Candidate { address: &a, distance: u64::MAX }]), Some(0));
}

#[test]
fn smallest_distance_is_chosen() {
    let a = address("A", None, None);
    let b = address("B", None, None);
    let c = address("C", None, None);
    assert_eq!(chosen(&[(&a, 5), (&b, 3), (&c, 4)]), Some("B".to_string()));
    assert_eq!(chosen(&[(&a, 3), (&b, 5), (&c, 4)]), Some("A".to_string()));
    assert_eq!(chosen(&[(&a, 5), (&b, 4), (&c, 0)]), Some("C".to_string()));
}

#[test]
fn unrelated_tie_keeps_the_earlier() {
    let a = address("A", None, None);
    let b = address("B", Some("Z"), Some("Y"));
    assert_eq!(chosen(&[(&a, 3), (&b, 3)]), Some("A".to_string()));
    assert_eq!(chosen(&[(&b, 3), (&a, 3)]), Some("B".to_string()));
}

#[test]
fn tie_goes_to_the_record_an_alias_names() {
    let alias = address("ALIAS", Some("MAIN"), None);
    let main = address("MAIN", None, None);
    assert_eq!(chosen(&[(&alias, 7), (&main, 7)]), Some("MAIN".to_string()));
    assert_eq!(chosen(&[(&main, 7), (&alias, 7)]), Some("MAIN".to_string()));
}

#[test]
fn tie_goes_to_the_record_a_child_names() {
    let unit = address("UNIT", None, Some("BUILDING"));
    let building = address("BUILDING", None, None);
    assert_eq!(chosen(&[(&unit, 7), (&building, 7)]), Some("BUILDING".to_string()));
    assert_eq!(chosen(&[(&building, 7), (&unit, 7)]), Some("BUILDING".to_string()));
}

#[test]
fn reference_does_not_outweigh_distance() {
    let unit = address("UNIT", None, Some("BUILDING"));
    let building = address("BUILDING", None, None);
    assert_eq!(chosen(&[(&unit, 6), (&building, 7)]), Some("UNIT".to_string()));
    assert_eq!(chosen(&[(&building, 7), (&unit, 6)]), Some("UNIT".to_string()));
}

#[test]
fn mutual_reference_goes_to_the_later() {
    let a = address("A", Some("B"), None);
    let b = address("B", None, Some("A"));
    assert_eq!(chosen(&[(&a, 1), (&b, 1)]), Some("B".to_string()));
    assert_eq!(chosen(&[(&b, 1), (&a, 1)]), Some("A".to_string()));
}

#[test]
fn ties_are_settled_pair_by_pair() {
    let unit = address("UNIT", None, Some("BUILDING"));
    let other = address("OTHER", None, None);
    let building = address("BUILDING", None, Some("SITE"));
    let site = address("SITE", None, None);
    assert_eq!(chosen(&[(&unit, 2), (&other, 2), (&building, 2)]), Some("BUILDING".to_string()));
    assert_eq!(chosen(&[(&other, 2), (&unit, 2), (&building, 2)]), Some("OTHER".to_string()));
    assert_eq!(chosen(&[(&unit, 2), (&building, 2), (&site, 2)]), Some("SITE".to_string()));
    assert_eq!(chosen(&[(&site, 2), (&unit, 2), (&building, 2)]), Some("SITE".to_string()));
    assert_eq!(chosen(&[(&unit, 2), (&site, 2), (&building, 2)]), Some("BUILDING".to_string()));
}
