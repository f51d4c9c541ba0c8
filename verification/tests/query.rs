use stellar_guesser::filter::{ConstellationGroups, Node};
use stellar_guesser::parser::Parser;
use stellar_guesser::query::{
    basic_filter, catalogue_conditions, generate_query_from_basic, replace_all, split_query_line, write_query_line, BasicQuery,
};

#[test]
fn query_line_with_filter() {
    let line = r#"FIND_THIS_OBJECT({"correctness_threshold":1.0,"rotate_to_answer":true}): CATALOGUE(MESSIER)"#;
    let q = split_query_line(line).unwrap();
    assert_eq!(q.question_type, "FIND_THIS_OBJECT");
    assert_eq!(q.question_settings, r#"{"correctness_threshold":1.0,"rotate_to_answer":true}"#);
    assert_eq!(q.filter, Some("CATALOGUE(MESSIER)".to_string()));
}

#[test]
fn query_line_without_filter() {
    let q = split_query_line(r#"GUESS_DEC({"rotate_to_point": true})"#).unwrap();
    assert_eq!(q.question_type, "GUESS_DEC");
    assert_eq!(q.question_settings, r#"{"rotate_to_point":true}"#);
    assert_eq!(q.filter, None);
}

#[test]
fn spaces_are_removed_from_the_filter() {
    let q = split_query_line(r#"WHAT_IS_THIS_OBJECT({}): AND(TYPE(STAR), MAG_BELOW(1.5))"#).unwrap();
    assert_eq!(q.question_settings, "{}");
    assert_eq!(q.filter, Some("AND(TYPE(STAR),MAG_BELOW(1.5))".to_string()));
}

#[test]
fn lines_without_question_are_skipped() {
    assert!(split_query_line("").is_none());
    assert!(split_query_line("   ").is_none());
    assert!(split_query_line("GUESS_DEC").is_none());
    // a lone filter is read as a question type with settings
    let q = split_query_line("): CATALOGUE(MESSIER)").unwrap();
    assert_eq!((q.question_type.as_str(), q.question_settings.as_str(), q.filter), ("CATALOGUE", "MESSIER", None));
}

#[test]
fn basic_filters() {
    let conditions = catalogue_conditions(true, false, false, false, true, true);
    assert_eq!(
        conditions,
        vec!["CATALOGUE(MESSIER)".to_string(), "CATALOGUE(BAYER)".to_string(), "AND(TYPE(STAR), CATALOGUE(PROPER_NAME))".to_string()]
    );
    let f = basic_filter(&conditions[0..1], "6.5").unwrap();
    assert_eq!(f, "OR(AND(TYPE(STAR), MAG_BELOW(6.5), OR(CATALOGUE(MESSIER))), AND(NOT(TYPE(STAR)), OR(CATALOGUE(MESSIER))))");
    assert!(basic_filter(&[], "6.5").is_none());
    assert!(catalogue_conditions(false, false, false, false, false, false).is_empty());
}

#[test]
fn default_pack_queries_read() {
    let lines = [
        r#"FIND_THIS_OBJECT({"correctness_threshold":0.5,"rotate_to_answer":true,"replay_incorrect":true,"ask_messier":true,"ask_caldwell":false,"ask_ic":false,"ask_ngc":false,"ask_hd":false,"ask_hip":false,"ask_bayer":false,"ask_flamsteed":false,"ask_proper":false}): CATALOGUE(MESSIER)"#,
        r#"FIND_THIS_OBJECT({"correctness_threshold":1.0,"rotate_to_answer":true,"replay_incorrect":true,"ask_messier":false,"ask_caldwell":false,"ask_ic":false,"ask_ngc":false,"ask_hd":false,"ask_hip":false,"ask_bayer":false,"ask_flamsteed":false,"ask_proper":true}): AND(TYPE(STAR), MAG_BELOW(1), CATALOGUE(PROPER_NAME))"#,
        r#"FIND_THIS_OBJECT({"correctness_threshold":1.0,"rotate_to_answer":true,"replay_incorrect":true,"ask_messier":false,"ask_caldwell":false,"ask_ic":false,"ask_ngc":false,"ask_hd":false,"ask_hip":false,"ask_bayer":false,"ask_flamsteed":false,"ask_proper":true}): AND(TYPE(STAR), MAG_BELOW(1.5), OR(CATALOGUE(PROPER_NAME), CATALOGUE(BAYER), CATALOGUE(FLAMSTEED)))"#,
        r#"FIND_THIS_OBJECT({"correctness_threshold":1.0,"rotate_to_answer":true,"replay_incorrect":true,"ask_messier":false,"ask_caldwell":false,"ask_ic":false,"ask_ngc":false,"ask_hd":false,"ask_hip":false,"ask_bayer":true,"ask_flamsteed":false,"ask_proper":true}): AND(TYPE(STAR), MAG_BELOW(2.0), OR(CATALOGUE(PROPER_NAME), CATALOGUE(BAYER)))"#,
        r#"FIND_THIS_OBJECT({"correctness_threshold":1.0,"rotate_to_answer":true,"replay_incorrect":true,"ask_messier":false,"ask_caldwell":false,"ask_ic":false,"ask_ngc":false,"ask_hd":false,"ask_hip":false,"ask_bayer":true,"ask_flamsteed":false,"ask_proper":true}): AND(TYPE(STAR), MAG_BELOW(2.0), OR(CATALOGUE(PROPER_NAME), CATALOGUE(BAYER), CATALOGUE(FLAMSTEED)))"#,
        r#"FIND_THIS_OBJECT({"correctness_threshold":1.0,"rotate_to_answer":true,"replay_incorrect":true,"ask_messier":true,"ask_caldwell":false,"ask_ic":false,"ask_ngc":false,"ask_hd":false,"ask_hip":false,"ask_bayer":false,"ask_flamsteed":false,"ask_proper":false}): CATALOGUE(MESSIER)"#,
        r#"FIND_THIS_OBJECT({"correctness_threshold":2.0,"rotate_to_answer":true,"replay_incorrect":true,"ask_messier":true,"ask_caldwell":false,"ask_ic":false,"ask_ngc":false,"ask_hd":false,"ask_hip":false,"ask_bayer":false,"ask_flamsteed":false,"ask_proper":false}): CATALOGUE(MESSIER)"#,
        r#"FIND_THIS_OBJECT({"correctness_threshold":4.0,"rotate_to_answer":true,"replay_incorrect":true,"ask_messier":true,"ask_caldwell":false,"ask_ic":false,"ask_ngc":false,"ask_hd":false,"ask_hip":false,"ask_bayer":false,"ask_flamsteed":false,"ask_proper":false}): CATALOGUE(MESSIER)"#,
        r#"WHAT_IS_THIS_OBJECT({"rotate_to_point":true,"replay_incorrect":true,"accept_messier":false,"accept_caldwell":false,"accept_ngc":false,"accept_ic":false,"accept_hip":true,"accept_hd":true,"accept_proper":false,"accept_bayer":true,"accept_flamsteed":false}): AND(TYPE(STAR), MAG_BELOW(2.0), CATALOGUE(BAYER))"#,
        r#"WHAT_IS_THIS_OBJECT({"rotate_to_point":true,"replay_incorrect":true,"accept_messier":false,"accept_caldwell":false,"accept_ngc":false,"accept_ic":false,"accept_hip":true,"accept_hd":true,"accept_proper":true,"accept_bayer":false,"accept_flamsteed":false}): AND(TYPE(STAR), MAG_BELOW(2.0), CATALOGUE(PROPER_NAME))"#,
        r#"WHAT_IS_THIS_OBJECT({"rotate_to_point":true,"replay_incorrect":true,"accept_messier":false,"accept_caldwell":false,"accept_ngc":false,"accept_ic":false,"accept_hip":true,"accept_hd":true,"accept_proper":true,"accept_bayer":true,"accept_flamsteed":true}): AND(TYPE(STAR), MAG_BELOW(1), CATALOGUE(PROPER_NAME))"#,
        r#"WHAT_IS_THIS_OBJECT({"rotate_to_point":true,"replay_incorrect":true,"accept_messier":false,"accept_caldwell":false,"accept_ngc":false,"accept_ic":false,"accept_hip":true,"accept_hd":true,"accept_proper":true,"accept_bayer":true,"accept_flamsteed":true}): AND(TYPE(STAR), MAG_BELOW(1.5), OR(CATALOGUE(PROPER_NAME), CATALOGUE(BAYER), CATALOGUE(FLAMSTEED)))"#,
        r#"WHAT_IS_THIS_OBJECT({"rotate_to_point":true,"replay_incorrect":true,"accept_messier":false,"accept_caldwell":false,"accept_ngc":false,"accept_ic":false,"accept_hip":true,"accept_hd":true,"accept_proper":true,"accept_bayer":true,"accept_flamsteed":true}): AND(TYPE(STAR), MAG_BELOW(2.0), OR(CATALOGUE(PROPER_NAME), CATALOGUE(BAYER), CATALOGUE(FLAMSTEED)))"#,
        r#"WHAT_IS_THIS_OBJECT({"rotate_to_point":true,"replay_incorrect":true,"accept_messier":true,"accept_caldwell":false,"accept_ngc":false,"accept_ic":false,"accept_hip":false,"accept_hd":false,"accept_proper":false,"accept_bayer":false,"accept_flamsteed":false}): CATALOGUE(MESSIER)"#,
    ];
    for line in lines {
        let q = split_query_line(line).unwrap();
        assert!(q.question_type == "FIND_THIS_OBJECT" || q.question_type == "WHAT_IS_THIS_OBJECT");
        assert!(q.question_settings.starts_with('{') && q.question_settings.ends_with('}'));
        let filter = q.filter.unwrap();
        match Parser::new(&filter).parse(&ConstellationGroups { groups: Vec::new() }) {
            Ok(Some(Node::Keyword(_))) => {}
            other => panic!("{filter}: {:?}", other),
        }
    }
}

fn no_basic_questions() -> BasicQuery {
    BasicQuery {
        find_this_object: None,
        find_catalogues: [false; 6],
        what_is_this_object: None,
        what_catalogues: [false; 6],
        which_constellation: None,
        angular_separation: None,
        guess_ra_dec: None,
        guess_the_magnitude: None,
    }
}

#[test]
fn written_lines_read_back() {
    let settings = r#"{"rotate_to_point":true}"#;
    let line = write_query_line("GUESS_RA", settings, None);
    assert_eq!(line, r#"GUESS_RA({"rotate_to_point":true})"#);
    let back = split_query_line(&line).unwrap();
    assert_eq!((back.question_type.as_str(), back.question_settings.as_str(), back.filter), ("GUESS_RA", settings, None));
    let filter = "AND(TYPE(STAR), MAG_BELOW(2.5))";
    let line = write_query_line("WHAT_IS_THIS_OBJECT", settings, Some(filter));
    assert_eq!(line, r#"WHAT_IS_THIS_OBJECT({"rotate_to_point":true}): AND(TYPE(STAR), MAG_BELOW(2.5))"#);
    let back = split_query_line(&line).unwrap();
    assert_eq!(back.question_type, "WHAT_IS_THIS_OBJECT");
    assert_eq!(back.question_settings, settings);
    assert_eq!(back.filter, Some("AND(TYPE(STAR),MAG_BELOW(2.5))".to_string()));
}

#[test]
fn replacing_patterns() {
    assert_eq!(replace_all("SmallSettings {a} SmallSettings {", "SmallSettings {", "{"), "{a} {");
    assert_eq!(replace_all("aaa", "aa", "b"), "ba");
    assert_eq!(replace_all("", "x", "y"), "");
    assert_eq!(replace_all("abc", "x", "y"), "abc");
}

#[test]
fn basic_query_lines() {
    assert_eq!(generate_query_from_basic(&no_basic_questions()), "");
    let mut basic = no_basic_questions();
    basic.guess_ra_dec = Some("{\"rotate_to_point\":false}".to_string());
    basic.guess_the_magnitude = Some(("{\"rotate_to_point\":true}".to_string(), "6".to_string()));
    assert_eq!(
        generate_query_from_basic(&basic),
        "GUESS_DEC({\"rotate_to_point\":false})\nGUESS_RA({\"rotate_to_point\":false})\nGUESS_THE_MAGNITUDE({\"rotate_to_point\":true}): MAG_BELOW(6)"
    );
    // a catalogue question with no catalogue chosen is left out
    basic.what_is_this_object = Some(("{}".to_string(), "5".to_string()));
    assert!(!generate_query_from_basic(&basic).contains("WHAT_IS_THIS_OBJECT"));
    basic.what_catalogues = [true, false, false, false, false, true];
    basic.which_constellation = Some("{}".to_string());
    basic.angular_separation = Some("{\"rotate_to_midpoint\":true}".to_string());
    let query = generate_query_from_basic(&basic);
    let lines: Vec<&str> = query.split('\n').collect();
    assert_eq!(
        lines,
        vec![
            "WHAT_IS_THIS_OBJECT({}): OR(AND(TYPE(STAR), MAG_BELOW(5), OR(CATALOGUE(MESSIER), AND(TYPE(STAR), CATALOGUE(PROPER_NAME)))), AND(NOT(TYPE(STAR)), OR(CATALOGUE(MESSIER), AND(TYPE(STAR), CATALOGUE(PROPER_NAME)))))",
            "WHICH_CONSTELLATION_IS_THIS_POINT_IN({})",
            "ANGULAR_SEPARATION({\"rotate_to_midpoint\":true})",
            "GUESS_DEC({\"rotate_to_point\":false})",
            "GUESS_RA({\"rotate_to_point\":false})",
            "GUESS_THE_MAGNITUDE({\"rotate_to_point\":true}): MAG_BELOW(6)",
        ]
    );
    // every generated line reads back
    for line in lines {
        assert!(split_query_line(line).is_some());
    }
}

#[test]
fn every_generated_line_parses() {
    let groups = ConstellationGroups { groups: Vec::new() };
    for mask in 0u32..64 {
        let cats: [bool; 6] = core::array::from_fn(|i| mask & (1 << i) != 0);
        let mut basic = no_basic_questions();
        basic.find_this_object = Some((r#"{"replay_incorrect":true}"#.to_string(), "6.5".to_string()));
        basic.find_catalogues = cats;
        basic.what_is_this_object = Some((r#"{"rotate_to_point":true}"#.to_string(), "-1".to_string()));
        basic.what_catalogues = cats;
        basic.which_constellation = Some("{}".to_string());
        basic.angular_separation = Some("{}".to_string());
        basic.guess_ra_dec = Some("{}".to_string());
        basic.guess_the_magnitude = Some(("{}".to_string(), "4".to_string()));
        let query = generate_query_from_basic(&basic);
        let lines: Vec<&str> = query.split('\n').collect();
        let expected = if mask == 0 { 5 } else { 7 };
        assert_eq!(lines.len(), expected, "{query}");
        for line in lines {
            let q = split_query_line(line).unwrap();
            if let Some(filter) = q.filter {
                match Parser::new(&filter).parse(&groups) {
                    Ok(Some(Node::Keyword(_))) => {}
                    other => panic!("{filter}: {:?}", other),
                }
            }
        }
    }
}

#[test]
fn the_ic_condition_parses() {
    let mut basic = no_basic_questions();
    basic.find_this_object = Some(("{}".to_string(), "6".to_string()));
    basic.find_catalogues = [false, false, false, true, false, false];
    let query = generate_query_from_basic(&basic);
    assert_eq!(
        query,
        "FIND_THIS_OBJECT({}): OR(AND(TYPE(STAR), MAG_BELOW(6), OR(CATALOGUE(IC))), AND(NOT(TYPE(STAR)), OR(CATALOGUE(IC))))"
    );
    let filter = split_query_line(&query).unwrap().filter.unwrap();
    assert!(Parser::new(&filter).parse(&ConstellationGroups { groups: Vec::new() }).is_ok());
}
