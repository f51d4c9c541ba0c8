use stellar_guesser::enums::GameStage;
use stellar_guesser::game::{active_constellations, GameHandler, NextQuestion};

#[test]
fn questions_are_not_repeated() {
    let mut g = GameHandler::new();
    assert_eq!(g.stage, GameStage::NotStartedYet);
    let choosable = [true, false, true, true];
    assert_eq!(g.possible_questions(&choosable), vec![0usize, 2, 3]);
    let mut asked = Vec::new();
    assert!(!g.request_input_focus);
    for round in 0..3 {
        g.answer = "M 31".to_string();
        g.request_input_focus = false;
        match g.next_question(&choosable, false, 0) {
            NextQuestion::Ask { index, counter } => {
                assert!([0usize, 2, 3].contains(&index));
                assert!(!asked.contains(&index));
                assert_eq!(counter, format!("Question {}/3", round + 1));
                assert_eq!(g.current_question, index);
                assert_eq!(g.stage, GameStage::Guessing);
                assert_eq!(g.answer, "");
                assert!(g.request_input_focus);
                asked.push(index);
                g.use_up_current_question();
            }
            _ => panic!("a question should be left"),
        }
    }
    g.answer = "late".to_string();
    g.request_input_focus = false;
    assert!(matches!(g.next_question(&choosable, false, 0), NextQuestion::NoMoreQuestions));
    assert_eq!(g.stage, GameStage::NoMoreQuestions);
    assert_eq!(g.answer, "");
    assert!(!g.request_input_focus);
    assert!(g.no_more_questions());
    g.reset_used_questions();
    assert!(g.used_questions.is_empty());
    assert_eq!(g.possible_questions(&choosable).len(), 3);
}

#[test]
fn scored_game_ends() {
    let mut g = GameHandler::new();
    g.used_questions = vec![0, 1];
    assert!(matches!(g.next_question(&[true, true, true], true, 1), NextQuestion::ScoredModeFinished));
    assert_eq!(g.stage, GameStage::ScoredModeFinished);
    assert!(g.no_more_questions());
    let mut g = GameHandler::new();
    g.used_questions = vec![0];
    assert!(matches!(g.next_question(&[true, true], true, 1), NextQuestion::Ask { index: 1, .. }));
}

#[test]
fn scores() {
    let mut g = GameHandler::new();
    g.increment_possible_score(3);
    g.increment_possible_score(2);
    assert_eq!(g.get_possible_score(), 5);
    g.score = 4;
    g.reset_used_questions();
    assert_eq!((g.score, g.get_possible_score(), g.question_number), (0, 0, 0));
}

#[test]
fn active_constellations_from_storage() {
    let known = vec!["and".to_string(), "ori".to_string(), "uma".to_string()];
    let none = active_constellations(&known, None);
    assert_eq!(none, vec![("and".to_string(), true), ("ori".to_string(), true), ("uma".to_string(), true)]);
    let some = active_constellations(&known, Some("ori|xyz|ori"));
    assert_eq!(
        some,
        vec![("and".to_string(), true), ("ori".to_string(), false), ("uma".to_string(), true), ("xyz".to_string(), false)]
    );
    // the empty text stores one empty name, switched off
    let empty = active_constellations(&known, Some(""));
    assert_eq!(empty.len(), 4);
    assert_eq!(empty[3], (String::new(), false));
}

#[test]
fn pick_chooses_among_open_questions_in_order() {
    let mut g = GameHandler::new();
    g.used_questions = vec![1];
    match g.next_question_with_pick(&[true, true, false, true], false, 0, 1) {
        NextQuestion::Ask { index, counter } => {
            assert_eq!(index, 3);
            assert_eq!(counter, "Question 2/3");
        }
        _ => panic!("a question was expected"),
    }
    assert_eq!(g.current_question, 3);
    assert_eq!(g.stage, GameStage::Guessing);
    match g.next_question_with_pick(&[true, true, false, true], false, 0, 0) {
        NextQuestion::Ask { index, .. } => assert_eq!(index, 0),
        _ => panic!("a question was expected"),
    }
}
