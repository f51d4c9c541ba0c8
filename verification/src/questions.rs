//! The kinds of questions and how each is answered: by typing, or by
//! clicking a place in the sky, and which markers it shows.

use vstd::prelude::*;
use vstd::string::StringExecFns;
use crate::enums::GameStage;
use crate::text::{str_eq, to_uppercase, uppercase};

verus! {

/// The kinds of questions the game asks.
#[derive(Clone, Copy, PartialEq, Eq, Structural, Debug)]
pub enum QuestionKind {
    AngularSeparation,
    GuessDec,
    GuessRa,
    GuessTheMagnitude,
    MarkMissingObject,
    WhatIsThisObject,
    WhichConstellationIsThisPointIn,
}

/// Whether the kind of question shows a field to type the answer in.
pub open spec fn displays_input(k: QuestionKind) -> bool {
    match k {
        QuestionKind::AngularSeparation => true,
        QuestionKind::GuessDec => true,
        QuestionKind::GuessRa => true,
        QuestionKind::GuessTheMagnitude => true,
        QuestionKind::MarkMissingObject => false,
        QuestionKind::WhatIsThisObject => true,
        QuestionKind::WhichConstellationIsThisPointIn => true,
    }
}

/// Whether, in the kind of question, a click in the sky places the answer.
pub open spec fn marks_on_click(k: QuestionKind) -> bool {
    match k {
        QuestionKind::AngularSeparation => false,
        QuestionKind::GuessDec => false,
        QuestionKind::GuessRa => false,
        QuestionKind::GuessTheMagnitude => false,
        QuestionKind::MarkMissingObject => true,
        QuestionKind::WhatIsThisObject => false,
        QuestionKind::WhichConstellationIsThisPointIn => false,
    }
}

impl QuestionKind {
    /// Whether the question shows a field to type the answer in.
    pub fn should_display_input(&self) -> (r: bool)
        ensures
            r == displays_input(*self),
    {
        match self {
            QuestionKind::MarkMissingObject => false,
            _ => true,
        }
    }

    /// Whether a click in the sky puts the player's marker there.
    pub fn add_marker_on_click(&self) -> (r: bool)
        ensures
            r == marks_on_click(*self),
    {
        match self {
            QuestionKind::MarkMissingObject => true,
            _ => false,
        }
    }

    /// Whether the marker of the correct place shows the distance within
    /// which an answer counts as right.
    pub fn show_tolerance_marker(&self) -> (r: bool)
        ensures
            r == (*self == QuestionKind::MarkMissingObject),
    {
        matches!(self, QuestionKind::MarkMissingObject)
    }

    /// Whether the player may set more than one marker: no kind allows it.
    pub fn allow_multiple_player_markers(&self) -> (r: bool)
        ensures
            !r,
    {
        false
    }

    /// Whether the object is marked with a circle (rather than a cross):
    /// always when guessing a magnitude; for the questions about a named
    /// object, when it is a star or has a Bayer designation.
    pub fn show_circle_marker(&self, is_bayer: bool, is_starname: bool) -> (r: bool)
        ensures
            r == match *self {
                QuestionKind::GuessTheMagnitude => true,
                QuestionKind::MarkMissingObject | QuestionKind::WhatIsThisObject => is_bayer || is_starname,
                _ => false,
            },
    {
        match self {
            QuestionKind::GuessTheMagnitude => true,
            QuestionKind::MarkMissingObject | QuestionKind::WhatIsThisObject => is_bayer || is_starname,
            _ => false,
        }
    }
}

/// The question types that a line of a question pack query can name.
#[derive(Clone, Copy, PartialEq, Eq, Structural, Debug)]
pub enum QuestionTypeName {
    AngularSeparation,
    FindThisObject,
    GuessDec,
    GuessRa,
    GuessTheMagnitude,
    WhatIsThisObject,
    WhichConstellationIsThisPointIn,
}

/// The question type written `upper` in capitals, if there is one.
pub open spec fn question_type_named(upper: Seq<char>) -> Option<QuestionTypeName> {
    if upper == "ANGULAR_SEPARATION"@ {
        Some(QuestionTypeName::AngularSeparation)
    } else if upper == "FIND_THIS_OBJECT"@ {
        Some(QuestionTypeName::FindThisObject)
    } else if upper == "GUESS_DEC"@ {
        Some(QuestionTypeName::GuessDec)
    } else if upper == "GUESS_RA"@ {
        Some(QuestionTypeName::GuessRa)
    } else if upper == "GUESS_THE_MAGNITUDE"@ {
        Some(QuestionTypeName::GuessTheMagnitude)
    } else if upper == "WHAT_IS_THIS_OBJECT"@ {
        Some(QuestionTypeName::WhatIsThisObject)
    } else if upper == "WHICH_CONSTELLATION_IS_THIS_POINT_IN"@ {
        Some(QuestionTypeName::WhichConstellationIsThisPointIn)
    } else {
        None
    }
}

/// The question type that `name` names, in any letter case, or the error
/// shown for a name that none has.
pub fn question_type_from_name(name: &str) -> (r: Result<QuestionTypeName, String>)
    ensures
        match question_type_named(uppercase(name@)) {
            Some(t) => r == Ok::<QuestionTypeName, String>(t),
            None => r matches Err(e) && e@ == "Error when parsing the query, the question type could not be matched"@,
        },
{
    let upper = to_uppercase(name);
    let u = upper.as_str();
    if str_eq(u, "ANGULAR_SEPARATION") {
        Ok(QuestionTypeName::AngularSeparation)
    } else if str_eq(u, "FIND_THIS_OBJECT") {
        Ok(QuestionTypeName::FindThisObject)
    } else if str_eq(u, "GUESS_DEC") {
        Ok(QuestionTypeName::GuessDec)
    } else if str_eq(u, "GUESS_RA") {
        Ok(QuestionTypeName::GuessRa)
    } else if str_eq(u, "GUESS_THE_MAGNITUDE") {
        Ok(QuestionTypeName::GuessTheMagnitude)
    } else if str_eq(u, "WHAT_IS_THIS_OBJECT") {
        Ok(QuestionTypeName::WhatIsThisObject)
    } else if str_eq(u, "WHICH_CONSTELLATION_IS_THIS_POINT_IN") {
        Ok(QuestionTypeName::WhichConstellationIsThisPointIn)
    } else {
        Err(String::from_str("Error when parsing the query, the question type could not be matched"))
    }
}

/// What is cleaned up when the game moves on from a question.
#[derive(Clone, Copy, PartialEq, Eq, Structural, Debug)]
pub enum AfterQuestion {
    KeepMarkers,
    RemoveMarkers,
    /// Show again the object that the question hid.
    ShowObjectAgain,
}

/// What going on to the next part of a question does.
#[derive(Clone, Copy, PartialEq, Eq, Structural, Debug)]
pub enum NextPart {
    CheckAnswer,
    NextQuestion(AfterQuestion),
    Nothing,
}

/// Whether the kind of question hides its object from the sky while it is
/// asked.
pub open spec fn hides_object(k: QuestionKind) -> bool {
    k == QuestionKind::MarkMissingObject
}

/// Going on from a question: while guessing, its answer is checked (for
/// the questions answered in a text field of their own, only when no field
/// is shown); once checked, the next question comes, after the question's
/// markers are removed or its hidden object is shown again.
pub open spec fn spec_next_part(k: QuestionKind, stage: GameStage) -> NextPart {
    match stage {
        GameStage::Guessing => match k {
            QuestionKind::AngularSeparation | QuestionKind::GuessTheMagnitude | QuestionKind::WhichConstellationIsThisPointIn => {
                if displays_input(k) {
                    NextPart::Nothing
                } else {
                    NextPart::CheckAnswer
                }
            },
            _ => NextPart::CheckAnswer,
        },
        GameStage::Checked => match k {
            QuestionKind::MarkMissingObject => NextPart::NextQuestion(AfterQuestion::ShowObjectAgain),
            QuestionKind::WhatIsThisObject | QuestionKind::GuessDec | QuestionKind::GuessRa => NextPart::NextQuestion(
                AfterQuestion::RemoveMarkers,
            ),
            _ => NextPart::NextQuestion(AfterQuestion::KeepMarkers),
        },
        _ => NextPart::Nothing,
    }
}

impl QuestionKind {
    /// Whether starting the question hides its object from the sky.
    pub fn start_hides_object(&self) -> (r: bool)
        ensures
            r == hides_object(*self),
    {
        match self {
            QuestionKind::MarkMissingObject => true,
            _ => false,
        }
    }

    /// What going on to the next part of the question does at `stage`.
    pub fn next_part(&self, stage: GameStage) -> (r: NextPart)
        ensures
            r == spec_next_part(*self, stage),
    {
        match stage {
            GameStage::Guessing => match self {
                QuestionKind::AngularSeparation | QuestionKind::GuessTheMagnitude | QuestionKind::WhichConstellationIsThisPointIn => {
                    if self.should_display_input() {
                        NextPart::Nothing
                    } else {
                        NextPart::CheckAnswer
                    }
                },
                _ => NextPart::CheckAnswer,
            },
            GameStage::Checked => match self {
                QuestionKind::MarkMissingObject => NextPart::NextQuestion(AfterQuestion::ShowObjectAgain),
                QuestionKind::WhatIsThisObject | QuestionKind::GuessDec | QuestionKind::GuessRa => NextPart::NextQuestion(
                    AfterQuestion::RemoveMarkers,
                ),
                _ => NextPart::NextQuestion(AfterQuestion::KeepMarkers),
            },
            _ => NextPart::Nothing,
        }
    }
}

/// An object hidden while its question is asked is shown again when the
/// game moves on, and no other question shows an object again.
pub proof fn lemma_hidden_object_shown_again(k: QuestionKind)
    ensures
        hides_object(k) <==> spec_next_part(k, GameStage::Checked) == NextPart::NextQuestion(AfterQuestion::ShowObjectAgain),
{
}

/// Going on from a question moves to the next question only once its
/// answer was checked, and does nothing before the game starts or after it
/// ends.
pub proof fn lemma_next_question_only_after_check(k: QuestionKind, stage: GameStage)
    ensures
        spec_next_part(k, stage) is NextQuestion <==> stage == GameStage::Checked,
        spec_next_part(k, stage) == NextPart::CheckAnswer ==> stage == GameStage::Guessing,
{
}

/// Every question is answered in exactly one way: either a field takes the
/// typed answer, or a click in the sky places the answer, never both and
/// never neither.
pub proof fn lemma_one_way_to_answer(k: QuestionKind)
    ensures
        displays_input(k) == !marks_on_click(k),
{
}

/// The questions that mark something in the sky for the player to answer
/// about (the object to name, the point whose declination or right
/// ascension is guessed) take their markers away when the game moves on
/// from them; the one that hides an object shows it again; the others leave
/// the markers as they are.
pub proof fn lemma_markers_after_check(k: QuestionKind)
    ensures
        spec_next_part(k, GameStage::Checked) == NextPart::NextQuestion(AfterQuestion::RemoveMarkers) <==> (k
            == QuestionKind::WhatIsThisObject || k == QuestionKind::GuessDec || k == QuestionKind::GuessRa),
        spec_next_part(k, GameStage::Checked) == NextPart::NextQuestion(AfterQuestion::ShowObjectAgain) <==> k
            == QuestionKind::MarkMissingObject,
        spec_next_part(k, GameStage::Checked) == NextPart::NextQuestion(AfterQuestion::KeepMarkers) <==> (k
            == QuestionKind::AngularSeparation || k == QuestionKind::GuessTheMagnitude || k
            == QuestionKind::WhichConstellationIsThisPointIn),
{
}

} // verus!
