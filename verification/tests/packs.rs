use stellar_guesser::packs::{add_default_packs, question_pack_to_string, question_packs_from_string, question_packs_to_string, StoredQuestionPack, StoredQuestionSet};
use stellar_guesser::query::remove_dividers;

fn pack(name: &str, sets: Vec<(&str, Vec<u64>)>) -> StoredQuestionPack {
    StoredQuestionPack {
        name: name.to_string(),
        query: "FIND_THIS_OBJECT({}): CATALOGUE(MESSIER)".to_string(),
        description: format!("About {name}"),
        sets: sets.into_iter().map(|(s, ids)| StoredQuestionSet { settings: s.to_string(), object_ids: ids }).collect(),
    }
}

fn same(a: &StoredQuestionPack, b: &StoredQuestionPack) -> bool {
    a.name == b.name
        && a.query == b.query
        && a.description == b.description
        && a.sets.len() == b.sets.len()
        && a.sets.iter().zip(b.sets.iter()).all(|(x, y)| x.settings == y.settings && x.object_ids == y.object_ids)
}

#[test]
fn stored_form_of_a_pack() {
    let p = pack("M", vec![("{\"a\":true}", vec![1, 2, 3]), ("{}", vec![])]);
    assert_eq!(question_pack_to_string(&p), "M&|||&FIND_THIS_OBJECT({}): CATALOGUE(MESSIER)&|||&About M&|||&{\"a\":true}&|&1,2,3&||&{}&|&");
}

#[test]
fn packs_read_back() {
    let packs = vec![
        pack("Messier", vec![("{\"x\":1}", vec![1, 110, 18446744073709551615])]),
        pack("Stars", vec![]),
        pack("Two", vec![("{}", vec![7]), ("{\"y\":[1,2]}", vec![])]),
    ];
    let stored = question_packs_to_string(&packs);
    let read = question_packs_from_string(&stored);
    assert_eq!(read.len(), packs.len());
    for (a, b) in read.iter().zip(packs.iter()) {
        assert!(same(a, b));
    }
    assert!(question_packs_from_string(&question_packs_to_string(&[])).is_empty());
}

#[test]
fn malformed_pieces_are_skipped() {
    let read = question_packs_from_string("only&|||&two&|||&parts&||||&n&|||&q&|||&d&|||&s&|&4, x ,5&||&lonely");
    assert_eq!(read.len(), 1);
    assert_eq!(read[0].name, "n");
    assert_eq!(read[0].sets.len(), 1);
    assert_eq!(read[0].sets[0].settings, "s");
    assert_eq!(read[0].sets[0].object_ids, vec![4u64, 5]);
    assert!(question_packs_from_string("").is_empty());
}

#[test]
fn texts_with_bars_read_back() {
    let mut p = pack("a|b", vec![("{\"s\":\"x|||y\"}", vec![3]), ("&&|||||&", vec![])]);
    p.description = "left & right || &|||||& ok".to_string();
    p.query = "|x|".to_string();
    let stored = question_packs_to_string(&[p]);
    let read = question_packs_from_string(&stored);
    assert_eq!(read.len(), 1);
    let p = pack("a|b", vec![("{\"s\":\"x|||y\"}", vec![3]), ("&&|||||&", vec![])]);
    assert_eq!(read[0].name, p.name);
    assert_eq!(read[0].query, "|x|");
    assert_eq!(read[0].description, "left & right || &|||||& ok");
    assert_eq!(read[0].sets.len(), 2);
    assert_eq!(read[0].sets[1].settings, "&&|||||&");
}

#[test]
fn a_name_ending_in_bars_after_amp_does_not_read_back() {
    // `x&|||` followed by the part divider `&|||&` holds a divider early
    let p = pack("x&|||", vec![]);
    let read = question_packs_from_string(&question_packs_to_string(&[p]));
    assert!(read.is_empty() || read[0].name != "x&|||");
}

#[test]
fn dividers_are_taken_out_of_new_pack_texts() {
    assert_eq!(remove_dividers("My&|&pack&||||&name"), "Mypackname");
    assert_eq!(remove_dividers("a&|||&b&||&c"), "abc");
    assert_eq!(remove_dividers("plain | text & more"), "plain | text & more");
    // taking one divider out can join the pieces of another
    assert_eq!(remove_dividers("&|&|||&&"), "");
}

#[test]
fn names_with_bars_next_to_an_amp_read_back() {
    for name in ["a&|", "a&||", "|", "|&x", "a&|&b", "||"] {
        let mut p = pack(name, vec![("{}", vec![1])]);
        p.query = name.to_string();
        p.description = name.to_string();
        let packs = vec![pack("first", vec![]), p];
        let read = question_packs_from_string(&question_packs_to_string(&packs));
        assert_eq!(read.len(), 2);
        assert!(same(&read[0], &packs[0]));
        assert!(same(&read[1], &packs[1]), "{name}");
    }
}

#[test]
fn a_query_of_three_bars_reads_back_but_one_of_four_does_not() {
    let mut p = pack("n", vec![]);
    p.query = "|||&x".to_string();
    let read = question_packs_from_string(&question_pack_to_string(&p));
    assert_eq!(read.len(), 1);
    assert_eq!(read[0].query, "|||&x");
    let mut p = pack("n", vec![]);
    p.query = "||||&x".to_string();
    let read = question_packs_from_string(&question_pack_to_string(&p));
    assert!(read.len() != 1 || read[0].query != "||||&x");
}

#[test]
fn default_packs_do_not_replace_existing_ones() {
    let mut packs = vec![("Mine".to_string(), 1u32), ("Stars".to_string(), 2)];
    let defaults = vec![("Stars".to_string(), 20u32), ("Messier".to_string(), 30), ("Messier".to_string(), 31), ("Deep sky".to_string(), 40)];
    add_default_packs(&mut packs, defaults);
    assert_eq!(
        packs,
        vec![("Mine".to_string(), 1), ("Stars".to_string(), 2), ("Messier".to_string(), 30), ("Deep sky".to_string(), 40)]
    );
    let before = packs.clone();
    add_default_packs(&mut packs, vec![("Mine".to_string(), 9)]);
    assert_eq!(packs, before);
    let mut empty: Vec<(String, u32)> = Vec::new();
    add_default_packs(&mut empty, Vec::new());
    assert!(empty.is_empty());
}
