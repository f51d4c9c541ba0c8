use stellar_guesser::answers::{
    check_answer, check_constellation_answer, generate_questions, is_correct_answer, normalized_names, possible_names, AcceptedNames,
};
use stellar_guesser::check::QuestionObject;
use stellar_guesser::enums::GameStage;
use stellar_guesser::objects::{DeepskyType, ObjectType, StarType};

fn vega() -> QuestionObject {
    QuestionObject {
        object_id: 91200,
        object_type: ObjectType::Star(StarType::Single),
        proper_names: vec!["Vega".to_string(), "Wega{ Star}".to_string()],
        bayer_designation: Some("α{ Lyr}".to_string()),
        flamsteed_designation: Some("3{ Lyr}".to_string()),
        hipparcos_number: Some(91262),
        hd_number: Some(172167),
        messier_number: None,
        caldwell_number: None,
        ngc_number: None,
        ic_number: None,
        constellations_abbreviations: vec!["Lyr".to_string()],
        colour: None,
    }
}

fn m31() -> QuestionObject {
    QuestionObject {
        object_id: 31,
        object_type: ObjectType::Deepsky(DeepskyType::Galaxy),
        proper_names: Vec::new(),
        bayer_designation: None,
        flamsteed_designation: None,
        hipparcos_number: None,
        hd_number: None,
        messier_number: Some(31),
        caldwell_number: None,
        ngc_number: Some(224),
        ic_number: None,
        constellations_abbreviations: vec!["AND".to_string()],
        colour: None,
    }
}

fn nothing_accepted() -> AcceptedNames {
    AcceptedNames {
        bayer: false,
        caldwell: false,
        flamsteed: false,
        hd: false,
        hip: false,
        ic: false,
        messier: false,
        ngc: false,
        proper: false,
    }
}

fn strings(v: &[&str]) -> Vec<String> {
    v.iter().map(|s| s.to_string()).collect()
}

#[test]
fn all_names_of_a_star_in_order() {
    let names = possible_names(&vega(), AcceptedNames::default()).unwrap();
    assert_eq!(
        names,
        strings(&["α", "α Lyr", "3", "3 Lyr", "HD172167", "HIP91262", "Vega", "Wega", "Wega Star"])
    );
}

#[test]
fn all_names_of_a_galaxy() {
    let names = possible_names(&m31(), AcceptedNames::default()).unwrap();
    assert_eq!(names, strings(&["M31", "NGC224"]));
}

#[test]
fn only_accepted_catalogues_count() {
    let mut accepted = nothing_accepted();
    accepted.ngc = true;
    accepted.hip = true;
    assert_eq!(possible_names(&m31(), accepted).unwrap(), strings(&["NGC224"]));
    assert_eq!(possible_names(&vega(), accepted).unwrap(), strings(&["HIP91262"]));
    assert!(possible_names(&vega(), nothing_accepted()).unwrap().is_empty());
}

#[test]
fn too_many_optional_parts_give_no_names() {
    let mut star = vega();
    star.bayer_designation = Some("x{a}".repeat(32));
    assert!(possible_names(&star, AcceptedNames::default()).is_none());
    let mut only_bayer = nothing_accepted();
    only_bayer.bayer = true;
    star.bayer_designation = Some("x{a}".repeat(31));
    assert!(possible_names(&star, only_bayer).unwrap().is_empty());
    let mut accepted = AcceptedNames::default();
    accepted.bayer = false;
    assert!(possible_names(&star, accepted).is_some());
}

#[test]
fn questions_only_for_nameable_objects() {
    let mut accepted = nothing_accepted();
    accepted.messier = true;
    let questions = generate_questions(&[vega(), m31(), vega()], accepted).unwrap();
    assert_eq!(questions, vec![(1, strings(&["M31"]))]);
    let all = generate_questions(&[vega(), m31()], AcceptedNames::default()).unwrap();
    assert_eq!(all.len(), 2);
    assert_eq!(all[0].0, 0);
    assert_eq!(all[1], (1, strings(&["M31", "NGC224"])));
}

#[test]
fn answers_ignore_spaces_and_case() {
    let names = strings(&["M31", "NGC224", "Andromeda Galaxy"]);
    assert!(is_correct_answer(&names, "m31"));
    assert!(is_correct_answer(&names, " M 3 1 "));
    assert!(is_correct_answer(&names, "ngc 224"));
    assert!(is_correct_answer(&names, "andromedagalaxy"));
    assert!(is_correct_answer(&names, "ANDROMEDA GALAXY"));
    assert!(!is_correct_answer(&names, "M32"));
    assert!(!is_correct_answer(&names, ""));
    assert!(!is_correct_answer(&[], "M31"));
}

#[test]
fn each_listed_name_is_a_right_answer() {
    let names = possible_names(&vega(), AcceptedNames::default()).unwrap();
    for name in &names {
        assert!(is_correct_answer(&names, name));
    }
}

#[test]
fn right_answer_review() {
    let names = strings(&["M31", "NGC224"]);
    let review = check_answer(&names, "m 31", "Galaxy", true);
    assert!(review.correct);
    assert_eq!(review.heading, "Correct!");
    assert_eq!(review.text, "Your answer was: m 31\nPossible answers: M31, NGC224\nObject type: Galaxy");
    assert_eq!(review.score_gain, 1);
    assert_eq!(review.possible_score_gain, 1);
    assert_eq!(review.stage, GameStage::Checked);
    assert!(review.mark_used);
}

#[test]
fn wrong_answer_review() {
    let names = strings(&["M31", "NGC224"]);
    let again = check_answer(&names, "M33", "Galaxy", true);
    assert!(!again.correct);
    assert_eq!(again.heading, "Incorrect!");
    assert_eq!(again.score_gain, 0);
    assert_eq!(again.possible_score_gain, 1);
    assert_eq!(again.stage, GameStage::Checked);
    assert!(!again.mark_used);
    let done = check_answer(&names, "M33", "Galaxy", false);
    assert!(done.mark_used);
}

#[test]
fn constellation_answers() {
    let names = strings(&["Ursa Major", "UMa", "Great Bear"]);
    assert_eq!(normalized_names(&names), strings(&["ursamajor", "uma", "greatbear"]));
    let right = check_constellation_answer(&names, "ursa  major");
    assert!(right.correct);
    assert_eq!(right.heading, "Correct!");
    assert_eq!(right.text, "Your answer was: ursa  major\nThe right answers were: ursamajor, uma, greatbear");
    assert_eq!(right.score_gain, 1);
    assert!(right.mark_used);
    let wrong = check_constellation_answer(&names, "Ursa Minor");
    assert!(!wrong.correct);
    assert_eq!(wrong.heading, "Incorrect!");
    assert_eq!(wrong.score_gain, 0);
    assert_eq!(wrong.possible_score_gain, 1);
    assert_eq!(wrong.stage, GameStage::Checked);
    assert!(wrong.mark_used);
    let none = check_constellation_answer(&[], "UMa");
    assert_eq!(none.text, "Your answer was: UMa\nThe right answers were: ");
}

#[test]
fn accepted_names_line() {
    assert_eq!(
        AcceptedNames::default().accepted_names_text(),
        "Accepted names: Bayer, Caldwell, Flamsteed, HD, HIP, IC, Messier, NGC, Proper name"
    );
    let mut accepted = nothing_accepted();
    assert_eq!(accepted.accepted_names_text(), "Accepted names: ");
    accepted.hip = true;
    accepted.messier = true;
    accepted.proper = true;
    assert_eq!(accepted.accepted_names_text(), "Accepted names: HIP, Messier, Proper name");
}
