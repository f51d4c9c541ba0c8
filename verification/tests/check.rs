use stellar_guesser::check::{check, parse_u32, QuestionObject};
use stellar_guesser::filter::{ConstellationGroups, Keyword, Node};
use stellar_guesser::objects::{DeepskyType, ObjectType, StarType};
use stellar_guesser::parser::Parser;

fn keyword(query: &str) -> Keyword {
    match Parser::new(query).parse(&ConstellationGroups { groups: Vec::new() }) {
        Ok(Some(Node::Keyword(k))) => k,
        other => panic!("{:?}", other),
    }
}

fn vega() -> QuestionObject {
    QuestionObject {
        object_id: 91200,
        object_type: ObjectType::Star(StarType::Single),
        proper_names: vec!["Vega".to_string(), " Wega".to_string()],
        bayer_designation: Some("α{ Lyr}".to_string()),
        flamsteed_designation: Some("3{ Lyr}".to_string()),
        hipparcos_number: Some(91262),
        hd_number: Some(172167),
        messier_number: None,
        caldwell_number: None,
        ngc_number: None,
        ic_number: None,
        constellations_abbreviations: vec!["Lyr".to_string()],
        colour: None,
    }
}

fn m31() -> QuestionObject {
    QuestionObject {
        object_id: 31,
        object_type: ObjectType::Deepsky(DeepskyType::Galaxy),
        proper_names: Vec::new(),
        bayer_designation: None,
        flamsteed_designation: None,
        hipparcos_number: None,
        hd_number: None,
        messier_number: Some(31),
        caldwell_number: None,
        ngc_number: Some(224),
        ic_number: None,
        constellations_abbreviations: vec!["AND".to_string()],
        colour: None,
    }
}

#[test]
fn catalogues() {
    assert!(check(&keyword("CATALOGUE(MESSIER)"), &m31(), &[]));
    assert!(!check(&keyword("CATALOGUE(MESSIER)"), &vega(), &[]));
    assert!(check(&keyword("CATALOGUE(CALDWELL, PROPER_NAME)"), &vega(), &[]));
    assert!(!check(&keyword("CATALOGUE(PROPER_NAME)"), &m31(), &[]));
}

#[test]
fn constellations_ignore_case() {
    assert!(check(&keyword("CONSTELLATION(lyr)"), &vega(), &[]));
    assert!(check(&keyword("CONSTELLATION(ORI, and)"), &m31(), &[]));
    assert!(!check(&keyword("CONSTELLATION(ORI)"), &m31(), &[]));
}

#[test]
fn types() {
    assert!(check(&keyword("TYPE(STAR)"), &vega(), &[]));
    assert!(check(&Keyword::Type(vec![ObjectType::Star(StarType::Single)]), &vega(), &[]));
    assert!(!check(&Keyword::Type(vec![ObjectType::Star(StarType::Double)]), &vega(), &[]));
    assert!(check(&keyword("TYPE(DEEPSKY)"), &m31(), &[]));
    assert!(check(
        &Keyword::Type(vec![ObjectType::Deepsky(DeepskyType::Nebula), ObjectType::Deepsky(DeepskyType::Galaxy)]),
        &m31(),
        &[]
    ));
    assert!(!check(&Keyword::Type(vec![ObjectType::Deepsky(DeepskyType::Nebula)]), &m31(), &[]));
    assert!(!check(&keyword("TYPE(DEEPSKY)"), &vega(), &[]));
}

#[test]
fn logic() {
    assert!(check(&keyword("AND(TYPE(STAR), CATALOGUE(HIP))"), &vega(), &[]));
    assert!(!check(&keyword("AND(TYPE(STAR), CATALOGUE(MESSIER))"), &vega(), &[]));
    assert!(check(&keyword("OR(TYPE(DEEPSKY), CATALOGUE(HIP))"), &vega(), &[]));
    assert!(!check(&keyword("OR(TYPE(DEEPSKY), CATALOGUE(NGC))"), &vega(), &[]));
    assert!(check(&keyword("NOT(TYPE(DEEPSKY))"), &vega(), &[]));
    assert!(!check(&keyword("NOT(NOT(TYPE(DEEPSKY)))"), &vega(), &[]));
}

#[test]
fn object_ids() {
    assert!(check(&keyword("OBJECT_ID(1, 91200)"), &vega(), &[]));
    assert!(!check(&keyword("OBJECT_ID(1, 2)"), &vega(), &[]));
}

#[test]
fn designations() {
    assert!(check(&keyword("CATALOGUE_DESIGNATION(MESSIER:31)"), &m31(), &[]));
    assert!(!check(&keyword("CATALOGUE_DESIGNATION(MESSIER:32)"), &m31(), &[]));
    assert!(check(&keyword("CATALOGUE_DESIGNATION(NGC:224)"), &m31(), &[]));
    assert!(check(&keyword("CATALOGUE_DESIGNATION(HIP:91262)"), &vega(), &[]));
    // proper names are compared trimmed and without regard to case
    assert!(check(&keyword("CATALOGUE_DESIGNATION(PROPER_NAME:VEGA)"), &vega(), &[]));
    assert!(check(&keyword("CATALOGUE_DESIGNATION(PROPER_NAME:wega)"), &vega(), &[]));
    assert!(!check(&keyword("CATALOGUE_DESIGNATION(PROPER_NAME:Deneb)"), &vega(), &[]));
    // Bayer and Flamsteed designations match any of their name variants
    assert!(check(&keyword("CATALOGUE_DESIGNATION(BAYER:α)"), &vega(), &[]));
    assert!(check(&keyword("CATALOGUE_DESIGNATION(FLAMSTEED:3)"), &vega(), &[]));
    assert!(!check(&keyword("CATALOGUE_DESIGNATION(BAYER:β)"), &vega(), &[]));
    assert!(!check(&keyword("CATALOGUE_DESIGNATION(BAYER:α)"), &m31(), &[]));
}

#[test]
fn numeric_conditions_come_from_the_table() {
    // the DEC condition's opening parenthesis is at offset 3
    let k = keyword("DEC(10, 20)");
    let mut table = vec![false; 12];
    assert!(!check(&k, &vega(), &table));
    table[3] = true;
    assert!(check(&k, &vega(), &table));
    // a condition without an entry is not met
    assert!(!check(&k, &vega(), &[]));
    let k = keyword("AND(MAG_BELOW(1), TYPE(STAR))");
    let mut table = vec![false; 20];
    table[13] = true;
    assert!(check(&k, &vega(), &table));
    assert!(!check(&k, &m31(), &table));
}

#[test]
fn parse_u32_as_std_does() {
    assert_eq!(parse_u32("42"), Some(42));
    assert_eq!(parse_u32("+7"), Some(7));
    assert_eq!(parse_u32("4294967295"), Some(u32::MAX));
    assert_eq!(parse_u32("4294967296"), None);
    assert_eq!(parse_u32(""), None);
    assert_eq!(parse_u32("-1"), None);
    assert_eq!(parse_u32(" 1"), None);
}

#[test]
fn ic_objects_are_found_by_catalogue() {
    let mut horsehead = m31();
    horsehead.messier_number = None;
    horsehead.ngc_number = None;
    horsehead.ic_number = Some(434);
    assert!(check(&keyword("CATALOGUE(IC)"), &horsehead, &[]));
    assert!(!check(&keyword("CATALOGUE(IC)"), &m31(), &[]));
    assert!(check(&keyword("CATALOGUE_DESIGNATION(IC:434)"), &horsehead, &[]));
    assert!(!check(&keyword("CATALOGUE_DESIGNATION(IC:435)"), &horsehead, &[]));
}
