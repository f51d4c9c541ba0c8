use stellar_guesser::filter::{Catalogue, ConstellationGroup, ConstellationGroups, Keyword, KeywordName, Node};
use stellar_guesser::objects::{DeepskyType, ObjectType, StarType};
use stellar_guesser::parser::Parser;

fn no_groups() -> ConstellationGroups {
    ConstellationGroups { groups: Vec::new() }
}

fn parse(query: &str) -> Result<Option<Node>, String> {
    Parser::new(query).parse(&no_groups())
}

fn parse_keyword(query: &str) -> Keyword {
    match parse(query) {
        Ok(Some(Node::Keyword(k))) => k,
        other => panic!("expected a keyword, got {:?}", other),
    }
}

fn parse_error(query: &str) -> String {
    match parse(query) {
        Err(e) => e,
        other => panic!("expected an error, got {:?}", other),
    }
}

#[test]
fn parses_nested_query() {
    let k = parse_keyword(
        "OR(AND(CONSTELLATION(AND, VIR, LEP, ORI), DEC(17, 98), NOT(RA_DEG(170, 321))), RA(0, 12.5), CATALOGUE(Messier, Caldwell, HIP, PROPER_NAME))",
    );
    let Keyword::Or(parts) = k else { panic!("not an OR") };
    assert_eq!(parts.len(), 3);
    let Keyword::And(inner) = &parts[0] else { panic!("not an AND") };
    assert_eq!(inner.len(), 3);
    match &inner[0] {
        Keyword::Constellation(cs) => assert_eq!(cs, &vec!["AND".to_string(), "VIR".to_string(), "LEP".to_string(), "ORI".to_string()]),
        other => panic!("{:?}", other),
    }
    match &inner[1] {
        Keyword::Dec(r) => {
            assert_eq!(r.id, 45);
            assert_eq!(r.first, "17");
            assert_eq!(r.second, "98");
        }
        other => panic!("{:?}", other),
    }
    match &inner[2] {
        Keyword::Not(b) => match &**b {
            Keyword::RaDeg(r) => {
                assert_eq!(r.id, 65);
                assert_eq!(r.first, "170");
                assert_eq!(r.second, "321");
            }
            other => panic!("{:?}", other),
        },
        other => panic!("{:?}", other),
    }
    match &parts[1] {
        Keyword::Ra(r) => {
            assert_eq!(r.id, 81);
            assert_eq!(r.first, "0");
            assert_eq!(r.second, "12.5");
        }
        other => panic!("{:?}", other),
    }
    match &parts[2] {
        Keyword::Catalogue(cs) => {
            assert_eq!(cs.len(), 4);
            assert!(matches!(cs[0], Catalogue::Messier));
            assert!(matches!(cs[1], Catalogue::Caldwell));
            assert!(matches!(cs[2], Catalogue::Hip));
            assert!(matches!(cs[3], Catalogue::ProperName));
        }
        other => panic!("{:?}", other),
    }
}

#[test]
fn blank_query_gives_nothing() {
    assert!(matches!(parse(""), Ok(None)));
    assert!(matches!(parse("   \t "), Ok(None)));
}

#[test]
fn bare_value_is_a_value() {
    match parse("  Vega ") {
        Ok(Some(Node::Value(v))) => assert_eq!(v, "Vega"),
        other => panic!("{:?}", other),
    }
}

#[test]
fn unknown_keyword_reports_position() {
    assert_eq!(parse_error("FOO(1)"), "Unknown keyword 'FOO' at position 0");
    // the position counts the whitespace between the keyword and its parenthesis
    assert_eq!(parse_error("FOO (1)"), "Unknown keyword 'FOO' at position 1");
}

#[test]
fn logical_keyword_errors() {
    assert_eq!(parse_error("AND()"), "Keyword 'AND' at position 0 expects at least 1 argument, found 0");
    assert_eq!(parse_error("OR(x)"), "Keyword 'OR' can only take other keywords, not values (position 0)");
    assert_eq!(parse_error("NOT(A)"), "Keyword 'NOT' can only take other keywords, not values (position 0)");
    assert_eq!(
        parse_error("NOT(MAG(1, 2), MAG(3, 4))"),
        "Keyword 'NOT' at position 0 expects exactly 1 argument, found 2"
    );
}

#[test]
fn numeric_keyword_errors() {
    assert_eq!(parse_error("DEC(1)"), "Keyword 'DEC' at position 0 expects exactly 2 arguments, found 1");
    assert_eq!(
        parse_error("DEC(a, 2)"),
        "Keyword 'DEC' at position 0 expects numbers as arguments, found 'a' ('invalid float literal')"
    );
    assert_eq!(
        parse_error("MAG_BELOW(x)"),
        "Keyword 'MAG_BELOW' at position 0 expects a numbers as argument, found 'x' ('invalid float literal')"
    );
    assert_eq!(parse_error("MAG_ABOVE(1, 2)"), "Keyword 'MAG_ABOVE' at position 0 expects exactly 1 argument, found 2");
    assert_eq!(parse_error("RA(TYPE(STAR), 2)"), "Keyword 'RA' can only take values, not other keywords (position 0)");
    // a lone sign starts no value
    assert_eq!(parse_error("DEC(-, 5)"), "Keyword 'DEC' at position 0 expects exactly 2 arguments, found 0");
    assert_eq!(parse_error("DEC(--5, 5)"), "Keyword 'DEC' at position 0 expects exactly 2 arguments, found 0");
}

#[test]
fn signed_numbers_are_values() {
    match parse_keyword("DEC(-30, 0)") {
        Keyword::Dec(r) => {
            assert_eq!(r.first, "-30");
            assert_eq!(r.second, "0");
        }
        other => panic!("{:?}", other),
    }
    match parse_keyword("RA(+1.5, -0.5)") {
        Keyword::Ra(r) => {
            assert_eq!(r.first, "+1.5");
            assert_eq!(r.second, "-0.5");
        }
        other => panic!("{:?}", other),
    }
    match parse_keyword("MAG_BELOW( -1 )") {
        Keyword::MagBelow(b) => assert_eq!(b.value, "-1"),
        other => panic!("{:?}", other),
    }
    assert_eq!(parse_error("-DEC(1, 2)"), "Unknown keyword '-DEC' at position 0");
}

#[test]
fn numeric_keywords_keep_their_text() {
    match parse_keyword("MAG_BELOW(2.5)") {
        Keyword::MagBelow(b) => {
            assert_eq!(b.id, 9);
            assert_eq!(b.value, "2.5");
        }
        other => panic!("{:?}", other),
    }
    match parse_keyword("MAG(inf, 1e3)") {
        Keyword::Mag(r) => {
            assert_eq!(r.first, "inf");
            assert_eq!(r.second, "1e3");
        }
        other => panic!("{:?}", other),
    }
}

#[test]
fn catalogue_and_type_errors() {
    assert_eq!(
        parse_error("CATALOGUE(FOO)"),
        "Invalid catalogue, the only accepted ones are: BAYER, FLAMSTEED, MESSIER, CALDWELL, NGC, IC, HD, HIP, PROPER_NAME"
    );
    assert_eq!(
        parse_error("TYPE(PLANET)"),
        "Unknown object type 'PLANET'. Allowed types are: STAR, STAR(SINGLE), STAR(DOUBLE), STAR(MULTIPLE), STAR(UNKNOWN), DEEPSKY, DEEPSKY(NEBULA), DEEPSKY(PLANETARY_NEBULA), DEEPSKY(OPEN_CLUSTER), DEEPSKY(GLOBULAR_CLUSTER), DEEPSKY(GALAXY), DEEPSKY(UNKNOWN)"
    );
    assert_eq!(parse_error("CONSTELLATION()"), "Keyword 'CONSTELLATION' at position 0 expects at least 1 argument, found 0");
}

#[test]
fn type_keyword_reads_types() {
    match parse_keyword("TYPE(star, DEEPSKY)") {
        Keyword::Type(ts) => {
            assert_eq!(ts, vec![ObjectType::Star(StarType::Any), ObjectType::Deepsky(DeepskyType::Any)]);
        }
        other => panic!("{:?}", other),
    }
}

#[test]
fn parenthesised_type_names_read_as_keywords() {
    // inside a query, `STAR(` starts a keyword, which does not exist
    assert_eq!(parse_error("TYPE(STAR(SINGLE))"), "Unknown keyword 'STAR' at position 5");
}

#[test]
fn plus_sign_ends_a_value() {
    assert_eq!(
        parse_error("CATALOGUE_DESIGNATION(MESSIER:+31)"),
        "The catalogue number has to be a whole number, found  (cannot parse integer from empty string) as an argument of 'CATALOGUE_DESIGNATION' at position 0"
    );
}

#[test]
fn object_ids_and_designations() {
    match parse_keyword("OBJECT_ID(7, 42)") {
        Keyword::ObjectId(ids) => assert_eq!(ids, vec![7u64, 42]),
        other => panic!("{:?}", other),
    }
    assert_eq!(
        parse_error("OBJECT_ID(abc)"),
        "Keyword 'OBJECT_ID' at position 0 expects a whole numbers as argument, found 'abc' ('invalid digit found in string')"
    );
    match parse_keyword("CATALOGUE_DESIGNATION(MESSIER:31, proper_name:Vega)") {
        Keyword::CatalogueDesignation(ds) => {
            assert_eq!(ds.len(), 2);
            assert!(matches!(ds[0].0, Catalogue::Messier));
            assert_eq!(ds[0].1, "31");
            assert!(matches!(ds[1].0, Catalogue::ProperName));
            assert_eq!(ds[1].1, "Vega");
        }
        other => panic!("{:?}", other),
    }
    assert_eq!(
        parse_error("CATALOGUE_DESIGNATION(MESSIER)"),
        "Each argument of 'CATALOGUE_DESIGNATION' has to be in the format <catalogue>:<catalogue number>, did not get the correct amount of colons at position 0 "
    );
    assert_eq!(
        parse_error("CATALOGUE_DESIGNATION(MESSIER:x)"),
        "The catalogue number has to be a whole number, found x (invalid digit found in string) as an argument of 'CATALOGUE_DESIGNATION' at position 0"
    );
    assert_eq!(
        parse_error("CATALOGUE_DESIGNATION(NGC:)"),
        "The catalogue number has to be a whole number, found  (cannot parse integer from empty string) as an argument of 'CATALOGUE_DESIGNATION' at position 0"
    );
}

#[test]
fn constellation_groups_expand_sorted() {
    let groups = ConstellationGroups {
        groups: vec![
            ConstellationGroup {
                name: "winter".to_string(),
                constellations: vec![("ori".to_string(), true), ("tau".to_string(), false), ("cma".to_string(), true)],
            },
            ConstellationGroup { name: "summer".to_string(), constellations: vec![("lyr".to_string(), true), ("ORI".to_string(), true)] },
        ],
    };
    match Parser::new("CONSTELLATION_GROUP(winter, summer)").parse(&groups) {
        Ok(Some(Node::Keyword(Keyword::Constellation(cs)))) => {
            assert_eq!(cs, vec!["CMA".to_string(), "LYR".to_string(), "ORI".to_string()]);
        }
        other => panic!("{:?}", other),
    }
    match Parser::new("CONSTELLATION_GROUP(autumn)").parse(&groups) {
        Err(e) => assert_eq!(e, "Could not find constellation group named 'autumn'"),
        other => panic!("{:?}", other),
    }
}

#[test]
fn from_raw_on_given_arguments() {
    let args = vec![Node::Value(String::new()), Node::Value("1".to_string())];
    match Keyword::from_raw(KeywordName::Dec, args, 0, 3, &no_groups()) {
        Err(e) => assert_eq!(e, "Keyword 'DEC' at position 0 expects numbers as arguments, found '' ('cannot parse float from empty string')"),
        other => panic!("{:?}", other),
    }
    let args = vec![Node::Value("2".to_string()), Node::Value("1".to_string())];
    match Keyword::from_raw(KeywordName::Mag, args, 5, 8, &no_groups()) {
        Ok(Keyword::Mag(r)) => {
            assert_eq!((r.id, r.first.as_str(), r.second.as_str()), (8, "2", "1"));
        }
        other => panic!("{:?}", other),
    }
    assert_eq!(KeywordName::from_ident("RA_DEG").map(|k| k.text()), Some("RA_DEG"));
    assert!(KeywordName::from_ident("ra_deg").is_none());
}

#[test]
fn the_ic_catalogue_is_known() {
    match parse_keyword("CATALOGUE(ic, NGC)") {
        Keyword::Catalogue(cs) => {
            assert_eq!(cs.len(), 2);
            assert!(matches!(cs[0], Catalogue::Ic));
            assert!(matches!(cs[1], Catalogue::Ngc));
        }
        other => panic!("{:?}", other),
    }
    match parse_keyword("CATALOGUE_DESIGNATION(IC:434)") {
        Keyword::CatalogueDesignation(ds) => {
            assert_eq!(ds.len(), 1);
            assert!(matches!(ds[0].0, Catalogue::Ic));
            assert_eq!(ds[0].1, "434");
        }
        other => panic!("{:?}", other),
    }
    assert_eq!(
        parse_error("CATALOGUE_DESIGNATION(IC:x)"),
        parse_error("CATALOGUE_DESIGNATION(NGC:x)")
    );
}
