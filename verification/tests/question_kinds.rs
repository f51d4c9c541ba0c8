use stellar_guesser::enums::GameStage;
use stellar_guesser::questions::{question_type_from_name, AfterQuestion, NextPart, QuestionKind, QuestionTypeName};

const ALL: [QuestionKind; 7] = [
    QuestionKind::AngularSeparation,
    QuestionKind::GuessDec,
    QuestionKind::GuessRa,
    QuestionKind::GuessTheMagnitude,
    QuestionKind::MarkMissingObject,
    QuestionKind::WhatIsThisObject,
    QuestionKind::WhichConstellationIsThisPointIn,
];

#[test]
fn only_missing_objects_are_answered_by_click() {
    for kind in ALL {
        let by_click = kind == QuestionKind::MarkMissingObject;
        assert_eq!(kind.add_marker_on_click(), by_click);
        assert_eq!(kind.should_display_input(), !by_click);
        assert_eq!(kind.show_tolerance_marker(), by_click);
        assert!(!kind.allow_multiple_player_markers());
    }
}

#[test]
fn circle_markers() {
    assert!(QuestionKind::GuessTheMagnitude.show_circle_marker(false, false));
    assert!(QuestionKind::WhatIsThisObject.show_circle_marker(true, false));
    assert!(QuestionKind::MarkMissingObject.show_circle_marker(false, true));
    assert!(!QuestionKind::MarkMissingObject.show_circle_marker(false, false));
    assert!(!QuestionKind::AngularSeparation.show_circle_marker(true, true));
    assert!(!QuestionKind::GuessRa.show_circle_marker(true, true));
}

#[test]
fn going_on_from_a_question() {
    assert_eq!(QuestionKind::WhatIsThisObject.next_part(GameStage::Guessing), NextPart::CheckAnswer);
    assert_eq!(QuestionKind::MarkMissingObject.next_part(GameStage::Guessing), NextPart::CheckAnswer);
    assert_eq!(QuestionKind::GuessRa.next_part(GameStage::Guessing), NextPart::CheckAnswer);
    assert_eq!(QuestionKind::AngularSeparation.next_part(GameStage::Guessing), NextPart::Nothing);
    assert_eq!(QuestionKind::GuessTheMagnitude.next_part(GameStage::Guessing), NextPart::Nothing);
    assert_eq!(
        QuestionKind::MarkMissingObject.next_part(GameStage::Checked),
        NextPart::NextQuestion(AfterQuestion::ShowObjectAgain)
    );
    assert_eq!(QuestionKind::GuessDec.next_part(GameStage::Checked), NextPart::NextQuestion(AfterQuestion::RemoveMarkers));
    assert_eq!(
        QuestionKind::WhichConstellationIsThisPointIn.next_part(GameStage::Checked),
        NextPart::NextQuestion(AfterQuestion::KeepMarkers)
    );
    for kind in ALL {
        assert_eq!(kind.next_part(GameStage::NotStartedYet), NextPart::Nothing);
        assert_eq!(kind.next_part(GameStage::NoMoreQuestions), NextPart::Nothing);
        assert_eq!(kind.next_part(GameStage::ScoredModeFinished), NextPart::Nothing);
        assert_eq!(kind.start_hides_object(), kind == QuestionKind::MarkMissingObject);
    }
}

#[test]
fn question_types_by_name() {
    assert_eq!(question_type_from_name("WHAT_IS_THIS_OBJECT"), Ok(QuestionTypeName::WhatIsThisObject));
    assert_eq!(question_type_from_name("what_is_this_object"), Ok(QuestionTypeName::WhatIsThisObject));
    assert_eq!(question_type_from_name("Guess_Ra"), Ok(QuestionTypeName::GuessRa));
    assert_eq!(question_type_from_name("guess_dec"), Ok(QuestionTypeName::GuessDec));
    assert_eq!(question_type_from_name("angular_separation"), Ok(QuestionTypeName::AngularSeparation));
    assert_eq!(question_type_from_name("find_this_object"), Ok(QuestionTypeName::FindThisObject));
    assert_eq!(question_type_from_name("guess_the_magnitude"), Ok(QuestionTypeName::GuessTheMagnitude));
    assert_eq!(
        question_type_from_name("which_constellation_is_this_point_in"),
        Ok(QuestionTypeName::WhichConstellationIsThisPointIn)
    );
    let refused = Err("Error when parsing the query, the question type could not be matched".to_string());
    assert_eq!(question_type_from_name("MARK_MISSING_OBJECT"), refused);
    assert_eq!(question_type_from_name(""), refused);
    assert_eq!(question_type_from_name(" GUESS_RA"), refused);
}
