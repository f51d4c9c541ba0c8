//! "What is this object?" questions: the names under which an object may be
//! given, which objects can be asked about, and the judgement of a typed
//! answer.

use vstd::prelude::*;
use vstd::string::StringExecFns;
use crate::check::QuestionObject;
use crate::enums::GameStage;
use crate::names::{generate_name_combinations, name_variants, strings_view, SpecificName};
use crate::text::{
    chars_of, decimal, join_seq, join_with, lowercase, remove_spaces, str_eq, string_from_chars, to_lowercase, u64_to_decimal, without_spaces,
};

verus! {

broadcast use vstd::string::group_string_axioms;

/// Which kinds of names count as an answer.
#[derive(Clone, Copy, Debug)]
pub struct AcceptedNames {
    pub bayer: bool,
    pub caldwell: bool,
    pub flamsteed: bool,
    pub hd: bool,
    pub hip: bool,
    pub ic: bool,
    pub messier: bool,
    pub ngc: bool,
    pub proper: bool,
}

impl Default for AcceptedNames {
    /// Every kind of name is accepted.
    fn default() -> (r: AcceptedNames)
        ensures
            r.bayer && r.caldwell && r.flamsteed && r.hd && r.hip,
            r.ic && r.messier && r.ngc && r.proper,
    {
        AcceptedNames {
            bayer: true,
            caldwell: true,
            flamsteed: true,
            hd: true,
            hip: true,
            ic: true,
            messier: true,
            ngc: true,
            proper: true,
        }
    }
}

/// `label` where `on`, nothing otherwise.
pub open spec fn label_if(on: bool, label: Seq<char>) -> Seq<Seq<char>> {
    if on {
        seq![label]
    } else {
        seq![]
    }
}

/// The kinds of names accepted, in the order they are listed to the player.
pub open spec fn accepted_labels(acc: AcceptedNames) -> Seq<Seq<char>> {
    label_if(acc.bayer, "Bayer"@) + label_if(acc.caldwell, "Caldwell"@) + label_if(acc.flamsteed, "Flamsteed"@) + label_if(
        acc.hd,
        "HD"@,
    ) + label_if(acc.hip, "HIP"@) + label_if(acc.ic, "IC"@) + label_if(acc.messier, "Messier"@) + label_if(acc.ngc, "NGC"@)
        + label_if(acc.proper, "Proper name"@)
}

/// Appends `label` where `on`.
fn push_label(labels: &mut Vec<String>, on: bool, label: &str)
    ensures
        strings_view(final(labels)@) == strings_view(old(labels)@) + label_if(on, label@),
{
    let ghost before = strings_view(labels@);
    if on {
        labels.push(String::from_str(label));
    }
    assert(strings_view(labels@) =~= before + label_if(on, label@));
}

impl AcceptedNames {
    /// The line that tells the player which names are accepted, as in
    /// `Accepted names: HIP, Messier, Proper name`.
    pub fn accepted_names_text(&self) -> (r: String)
        ensures
            r@ == "Accepted names: "@ + join_seq(accepted_labels(*self), ", "@),
    {
        let mut labels: Vec<String> = Vec::new();
        push_label(&mut labels, self.bayer, "Bayer");
        push_label(&mut labels, self.caldwell, "Caldwell");
        push_label(&mut labels, self.flamsteed, "Flamsteed");
        push_label(&mut labels, self.hd, "HD");
        push_label(&mut labels, self.hip, "HIP");
        push_label(&mut labels, self.ic, "IC");
        push_label(&mut labels, self.messier, "Messier");
        push_label(&mut labels, self.ngc, "NGC");
        push_label(&mut labels, self.proper, "Proper name");
        assert(strings_view(labels@) =~= accepted_labels(*self));
        assert(labels@.map_values(|p: String| p@) == strings_view(labels@));
        let mut text = String::from_str("Accepted names: ");
        text.append(join_with(labels.as_slice(), ", ").as_str());
        text
    }
}

/// The catalogue name `prefix` followed by the number, if the object has a
/// number there and that catalogue is accepted.
pub open spec fn numbered(prefix: Seq<char>, n: Option<u32>, accept: bool) -> Seq<Seq<char>> {
    match n {
        Some(k) if accept => seq![prefix + decimal(k as nat)],
        _ => seq![],
    }
}

/// The variants of a designation with optional parts, if it is there and
/// accepted.
pub open spec fn designation_names(d: Option<String>, accept: bool) -> Option<Seq<Seq<char>>> {
    match d {
        Some(s) if accept => name_variants(s@),
        _ => Some(seq![]),
    }
}

/// The variants of each proper name, one name after the other.
pub open spec fn proper_name_variants(names: Seq<String>) -> Option<Seq<Seq<char>>>
    decreases names.len(),
{
    if names.len() == 0 {
        Some(seq![])
    } else {
        match (proper_name_variants(names.drop_last()), name_variants(names.last()@)) {
            (Some(a), Some(b)) => Some(a + b),
            _ => None,
        }
    }
}

/// Every name under which the object may be given, in this order: Bayer,
/// Caldwell, Flamsteed, HD, HIP, IC, Messier, NGC, proper names. `None` when
/// one of its designations has more optional parts than can be expanded.
pub open spec fn possible_names_of(o: QuestionObject, acc: AcceptedNames) -> Option<Seq<Seq<char>>> {
    let proper = if acc.proper {
        proper_name_variants(o.proper_names@)
    } else {
        Some(seq![])
    };
    match (designation_names(o.bayer_designation, acc.bayer), designation_names(o.flamsteed_designation, acc.flamsteed), proper) {
        (Some(b), Some(f), Some(p)) => Some(
            b + numbered("C"@, o.caldwell_number, acc.caldwell) + f + numbered("HD"@, o.hd_number, acc.hd)
                + numbered("HIP"@, o.hipparcos_number, acc.hip) + numbered("IC"@, o.ic_number, acc.ic)
                + numbered("M"@, o.messier_number, acc.messier) + numbered("NGC"@, o.ngc_number, acc.ngc) + p,
        ),
        _ => None,
    }
}

/// Appends the catalogue name `prefix` and the number, where there is one and
/// it is accepted.
fn push_numbered(names: &mut Vec<String>, prefix: &str, n: Option<u32>, accept: bool)
    ensures
        strings_view(final(names)@) == strings_view(old(names)@) + numbered(prefix@, n, accept),
{
    let ghost before = strings_view(names@);
    if accept {
        if let Some(k) = n {
            let mut name = String::from_str(prefix);
            name.append(u64_to_decimal(k as u64).as_str());
            names.push(name);
            assert(strings_view(names@) =~= before + numbered(prefix@, n, accept));
            return;
        }
    }
    assert(strings_view(names@) =~= before + numbered(prefix@, n, accept));
}

/// Appends the variants of `d`; false, with `names` unchanged, where they
/// cannot be expanded.
fn push_variants(names: &mut Vec<String>, d: &str) -> (ok: bool)
    ensures
        ok == (name_variants(d@) is Some),
        ok ==> strings_view(final(names)@) == strings_view(old(names)@) + name_variants(d@)->0,
{
    let ghost before = strings_view(names@);
    match generate_name_combinations(d, SpecificName::AllCombinations) {
        Some(vs) => {
            let mut k: usize = 0;
            while k < vs.len()
                invariant
                    k <= vs@.len(),
                    strings_view(names@) == before + strings_view(vs@).take(k as int),
                decreases vs@.len() - k,
            {
                let ghost prev = names@;
                names.push(vs[k].clone());
                assert(strings_view(names@) =~= strings_view(prev).push(vs@[k as int]@));
                assert(strings_view(vs@).take(k + 1) =~= strings_view(vs@).take(k as int).push(vs@[k as int]@));
                k = k + 1;
                assert(strings_view(names@) =~= before + strings_view(vs@).take(k as int));
            }
            assert(strings_view(vs@).take(k as int) =~= strings_view(vs@));
            true
        },
        None => false,
    }
}

/// Appends the variants of the designation `d` where it is there and
/// accepted; false where they cannot be expanded.
fn push_designation(names: &mut Vec<String>, d: &Option<String>, accept: bool) -> (ok: bool)
    ensures
        ok == (designation_names(*d, accept) is Some),
        ok ==> strings_view(final(names)@) == strings_view(old(names)@) + designation_names(*d, accept)->0,
{
    if accept {
        if let Some(text) = d {
            return push_variants(names, text.as_str());
        }
    }
    assert(strings_view(names@) =~= strings_view(names@) + seq![]);
    true
}

/// Appends the variants of every proper name in turn; false where some
/// cannot be expanded.
fn push_proper_names(names: &mut Vec<String>, proper: &Vec<String>) -> (ok: bool)
    ensures
        ok == (proper_name_variants(proper@) is Some),
        ok ==> strings_view(final(names)@) == strings_view(old(names)@) + proper_name_variants(proper@)->0,
{
    let ghost before = strings_view(names@);
    let mut k: usize = 0;
    assert(proper@.take(0) =~= Seq::<String>::empty());
    assert(before =~= before + seq![]);
    while k < proper.len()
        invariant
            k <= proper@.len(),
            proper_name_variants(proper@.take(k as int)) matches Some(p) && strings_view(names@) == before + p,
        decreases proper@.len() - k,
    {
        let ghost prev = proper_name_variants(proper@.take(k as int))->0;
        assert(proper@.take(k + 1).drop_last() =~= proper@.take(k as int));
        assert(proper@.take(k + 1).last() == proper@[k as int]);
        if !push_variants(names, proper[k].as_str()) {
            assert(proper_name_variants(proper@.take(k + 1)) is None);
            proof {
                lemma_proper_none_extends(proper@, (k + 1) as nat);
            }
            return false;
        }
        k = k + 1;
        assert(strings_view(names@) =~= before + (prev + name_variants(proper@[k - 1]@)->0));
    }
    assert(proper@.take(k as int) =~= proper@);
    true
}

/// Every name under which `object` may be given, as far as `accepted`
/// allows, in the order of `possible_names_of`; `None` when a designation has
/// more optional parts than `most_parts` allows (31), whose masks no 32-bit
/// signed count holds.
pub fn possible_names(object: &QuestionObject, accepted: AcceptedNames) -> (res: Option<Vec<String>>)
    ensures
        match res {
            Some(v) => possible_names_of(*object, accepted) == Some(strings_view(v@)),
            None => possible_names_of(*object, accepted) is None,
        },
{
    let mut names: Vec<String> = Vec::new();
    if !push_designation(&mut names, &object.bayer_designation, accepted.bayer) {
        return None;
    }
    push_numbered(&mut names, "C", object.caldwell_number, accepted.caldwell);
    if !push_designation(&mut names, &object.flamsteed_designation, accepted.flamsteed) {
        return None;
    }
    push_numbered(&mut names, "HD", object.hd_number, accepted.hd);
    push_numbered(&mut names, "HIP", object.hipparcos_number, accepted.hip);
    push_numbered(&mut names, "IC", object.ic_number, accepted.ic);
    push_numbered(&mut names, "M", object.messier_number, accepted.messier);
    push_numbered(&mut names, "NGC", object.ngc_number, accepted.ngc);
    if accepted.proper {
        if !push_proper_names(&mut names, &object.proper_names) {
            return None;
        }
    }
    assert(strings_view(names@) =~= possible_names_of(*object, accepted)->0);
    Some(names)
}

/// Once the variants of the first `k` proper names cannot be expanded,
/// neither can those of all of them.
proof fn lemma_proper_none_extends(names: Seq<String>, k: nat)
    requires
        k <= names.len(),
        proper_name_variants(names.take(k as int)) is None,
    ensures
        proper_name_variants(names) is None,
    decreases names.len() - k,
{
    if k < names.len() {
        assert(names.take(k + 1 as int).drop_last() =~= names.take(k as int));
        lemma_proper_none_extends(names, k + 1);
    } else {
        assert(names.take(k as int) =~= names);
    }
}

/// The objects that can be asked about, by their index in `objs`, each with
/// its possible names: those with at least one accepted name. `None` when
/// the names of one of them cannot be expanded.
pub open spec fn asked_objects(objs: Seq<QuestionObject>, acc: AcceptedNames) -> Option<Seq<(int, Seq<Seq<char>>)>>
    decreases objs.len(),
{
    if objs.len() == 0 {
        Some(seq![])
    } else {
        match (asked_objects(objs.drop_last(), acc), possible_names_of(objs.last(), acc)) {
            (Some(q), Some(n)) => Some(
                if n.len() > 0 {
                    q.push(((objs.len() - 1) as int, n))
                } else {
                    q
                },
            ),
            _ => None,
        }
    }
}

pub open spec fn questions_view(v: Seq<(usize, Vec<String>)>) -> Seq<(int, Seq<Seq<char>>)> {
    v.map_values(|p: (usize, Vec<String>)| (p.0 as int, strings_view(p.1@)))
}

/// One "what is this object?" question for each object that has an accepted
/// name: its index among `objects` and the names that count as an answer.
pub fn generate_questions(objects: &[QuestionObject], accepted: AcceptedNames) -> (res: Option<Vec<(usize, Vec<String>)>>)
    ensures
        match res {
            Some(v) => asked_objects(objects@, accepted) == Some(questions_view(v@)),
            None => asked_objects(objects@, accepted) is None,
        },
{
    let mut questions: Vec<(usize, Vec<String>)> = Vec::new();
    let mut k: usize = 0;
    assert(objects@.take(0) =~= Seq::<QuestionObject>::empty());
    assert(questions_view(questions@) =~= seq![]);
    while k < objects.len()
        invariant
            k <= objects@.len(),
            asked_objects(objects@.take(k as int), accepted) == Some(questions_view(questions@)),
        decreases objects@.len() - k,
    {
        assert(objects@.take(k + 1).drop_last() =~= objects@.take(k as int));
        assert(objects@.take(k + 1).last() == objects@[k as int]);
        match possible_names(&objects[k], accepted) {
            None => {
                assert(asked_objects(objects@.take(k + 1), accepted) is None);
                proof {
                    lemma_asked_none_extends(objects@, accepted, (k + 1) as nat);
                }
                return None;
            },
            Some(names) => {
                if names.len() > 0 {
                    let ghost prev = questions@;
                    questions.push((k, names));
                    assert(questions_view(questions@) =~= questions_view(prev).push((k as int, strings_view(names@))));
                }
            },
        }
        k = k + 1;
    }
    assert(objects@.take(k as int) =~= objects@);
    Some(questions)
}

/// Once the first `k` objects cannot all be named, neither can all of them.
proof fn lemma_asked_none_extends(objs: Seq<QuestionObject>, acc: AcceptedNames, k: nat)
    requires
        k <= objs.len(),
        asked_objects(objs.take(k as int), acc) is None,
    ensures
        asked_objects(objs, acc) is None,
    decreases objs.len() - k,
{
    if k < objs.len() {
        assert(objs.take(k + 1 as int).drop_last() =~= objs.take(k as int));
        lemma_asked_none_extends(objs, acc, k + 1);
    } else {
        assert(objs.take(k as int) =~= objs);
    }
}

/// The form in which names and answers are compared: without spaces, in
/// lower case.
pub open spec fn normalized(s: Seq<char>) -> Seq<char> {
    lowercase(without_spaces(s))
}

/// Whether `answer` is one of `names`, spaces and letter case aside.
pub open spec fn answer_accepted(names: Seq<Seq<char>>, answer: Seq<char>) -> bool {
    exists|i: int| 0 <= i < names.len() && #[trigger] normalized(names[i]) == normalized(answer)
}

/// `s` in the form in which answers are compared.
fn normalize(s: &str) -> (r: String)
    ensures
        r@ == normalized(s@),
{
    let bare = string_from_chars(remove_spaces(chars_of(s).as_slice()).as_slice());
    to_lowercase(bare.as_str())
}

/// Whether `answer` is one of the possible names, spaces and letter case
/// aside.
pub fn is_correct_answer(possible_names: &[String], answer: &str) -> (r: bool)
    ensures
        r == answer_accepted(strings_view(possible_names@), answer@),
{
    let ghost names = strings_view(possible_names@);
    let given = normalize(answer);
    let mut k: usize = 0;
    while k < possible_names.len()
        invariant
            k <= possible_names@.len(),
            names == strings_view(possible_names@),
            given@ == normalized(answer@),
            forall|i: int| 0 <= i < k ==> #[trigger] normalized(names[i]) != normalized(answer@),
        decreases possible_names@.len() - k,
    {
        let candidate = normalize(possible_names[k].as_str());
        assert(names[k as int] == possible_names@[k as int]@);
        if str_eq(candidate.as_str(), given.as_str()) {
            assert(normalized(names[k as int]) == normalized(answer@));
            return true;
        }
        k = k + 1;
    }
    false
}

/// What follows an answer: whether it was right, the heading and text shown
/// for it, the points it earns and the points it could have earned, whether
/// its question is done with (or comes again later), and the stage the game
/// goes on to.
pub struct AnswerReview {
    pub correct: bool,
    pub heading: String,
    pub text: String,
    pub score_gain: u32,
    pub possible_score_gain: u32,
    pub mark_used: bool,
    pub stage: GameStage,
}

/// The text shown after an answer.
pub open spec fn review_text(names: Seq<Seq<char>>, answer: Seq<char>, object_type: Seq<char>) -> Seq<char> {
    "Your answer was: "@ + answer + "\nPossible answers: "@ + join_seq(names, ", "@) + "\nObject type: "@ + object_type
}

/// Judges `answer` against the possible names of the object: a right answer
/// earns one point, and the question is done with unless it was answered
/// wrongly and wrong answers are asked again.
pub fn check_answer(possible_names: &[String], answer: &str, object_type: &str, replay_incorrect: bool) -> (r: AnswerReview)
    ensures
        r.correct == answer_accepted(strings_view(possible_names@), answer@),
        r.heading@ == (if r.correct { "Correct!"@ } else { "Incorrect!"@ }),
        r.text@ == review_text(strings_view(possible_names@), answer@, object_type@),
        r.score_gain == (if r.correct { 1u32 } else { 0u32 }),
        r.possible_score_gain == 1,
        r.mark_used == (!replay_incorrect || r.correct),
        r.stage == GameStage::Checked,
{
    let correct = is_correct_answer(possible_names, answer);
    let heading = if correct {
        String::from_str("Correct!")
    } else {
        String::from_str("Incorrect!")
    };
    let mut text = String::from_str("Your answer was: ");
    text.append(answer);
    text.append("\nPossible answers: ");
    text.append(join_with(possible_names, ", ").as_str());
    text.append("\nObject type: ");
    text.append(object_type);
    assert(possible_names@.map_values(|p: String| p@) == strings_view(possible_names@));
    AnswerReview {
        correct,
        heading,
        text,
        score_gain: if correct { 1 } else { 0 },
        possible_score_gain: 1,
        mark_used: !replay_incorrect || correct,
        stage: GameStage::Checked,
    }
}

/// The names in the form in which they are compared.
pub fn normalized_names(names: &[String]) -> (r: Vec<String>)
    ensures
        strings_view(r@) == strings_view(names@).map_values(|n: Seq<char>| normalized(n)),
{
    let mut out: Vec<String> = Vec::new();
    let mut k: usize = 0;
    while k < names.len()
        invariant
            k <= names@.len(),
            strings_view(out@) == strings_view(names@).take(k as int).map_values(|n: Seq<char>| normalized(n)),
        decreases names@.len() - k,
    {
        let ghost before = out@;
        out.push(normalize(names[k].as_str()));
        assert(strings_view(out@) =~= strings_view(before).push(normalized(names@[k as int]@)));
        assert(strings_view(names@).take(k + 1) =~= strings_view(names@).take(k as int).push(names@[k as int]@));
        k = k + 1;
        assert(strings_view(out@) =~= strings_view(names@).take(k as int).map_values(|n: Seq<char>| normalized(n)));
    }
    assert(strings_view(names@).take(k as int) =~= strings_view(names@));
    out
}

/// The text shown after an answer to a question about the constellation
/// of a point.
pub open spec fn constellation_review_text(names: Seq<Seq<char>>, answer: Seq<char>) -> Seq<char> {
    "Your answer was: "@ + answer + "\nThe right answers were: "@ + join_seq(
        names.map_values(|n: Seq<char>| normalized(n)),
        ", "@,
    )
}

/// Judges `answer` to a question about the constellation of a point against
/// the names of the constellations the point lies in: a right answer earns
/// one point, and the question is done with either way.
pub fn check_constellation_answer(possible_names: &[String], answer: &str) -> (r: AnswerReview)
    ensures
        r.correct == answer_accepted(strings_view(possible_names@), answer@),
        r.heading@ == (if r.correct { "Correct!"@ } else { "Incorrect!"@ }),
        r.text@ == constellation_review_text(strings_view(possible_names@), answer@),
        r.score_gain == (if r.correct { 1u32 } else { 0u32 }),
        r.possible_score_gain == 1,
        r.mark_used,
        r.stage == GameStage::Checked,
{
    let correct = is_correct_answer(possible_names, answer);
    let heading = if correct {
        String::from_str("Correct!")
    } else {
        String::from_str("Incorrect!")
    };
    let shown = normalized_names(possible_names);
    let mut text = String::from_str("Your answer was: ");
    text.append(answer);
    text.append("\nThe right answers were: ");
    text.append(join_with(shown.as_slice(), ", ").as_str());
    assert(shown@.map_values(|p: String| p@) == strings_view(shown@));
    AnswerReview {
        correct,
        heading,
        text,
        score_gain: if correct { 1 } else { 0 },
        possible_score_gain: 1,
        mark_used: true,
        stage: GameStage::Checked,
    }
}

/// Leaving out spaces a second time changes nothing.
proof fn lemma_without_spaces_idempotent(s: Seq<char>)
    ensures
        without_spaces(without_spaces(s)) == without_spaces(s),
    decreases s.len(),
{
    if s.len() > 0 {
        lemma_without_spaces_idempotent(s.drop_last());
        let rest = without_spaces(s.drop_last());
        if s.last() != ' ' {
            let t = rest.push(s.last());
            assert(t.drop_last() =~= rest);
        }
    }
}

/// Each of the possible names, typed as it is, is a right answer.
pub proof fn lemma_listed_name_accepted(names: Seq<Seq<char>>, i: int)
    requires
        0 <= i < names.len(),
    ensures
        answer_accepted(names, names[i]),
{
    assert(normalized(names[i]) == normalized(names[i]));
}

/// Spaces in an answer do not matter: an answer is right exactly when it is
/// right with its spaces left out.
pub proof fn lemma_spaces_ignored(names: Seq<Seq<char>>, answer: Seq<char>)
    ensures
        answer_accepted(names, answer) == answer_accepted(names, without_spaces(answer)),
{
    lemma_without_spaces_idempotent(answer);
    assert(normalized(without_spaces(answer)) == normalized(answer));
}

/// An object with a number in an accepted catalogue can be named by that
/// catalogue's prefix and the number: `M31`, `NGC224`, `C14`, `IC434`,
/// `HD48915`, `HIP32349`.
pub proof fn lemma_catalogue_names_listed(o: QuestionObject, acc: AcceptedNames)
    requires
        possible_names_of(o, acc) is Some,
    ensures
        ({
            let ns = possible_names_of(o, acc)->0;
            &&& (acc.messier && o.messier_number is Some) ==> ns.contains("M"@ + decimal(o.messier_number->0 as nat))
            &&& (acc.ngc && o.ngc_number is Some) ==> ns.contains("NGC"@ + decimal(o.ngc_number->0 as nat))
            &&& (acc.caldwell && o.caldwell_number is Some) ==> ns.contains("C"@ + decimal(o.caldwell_number->0 as nat))
            &&& (acc.ic && o.ic_number is Some) ==> ns.contains("IC"@ + decimal(o.ic_number->0 as nat))
            &&& (acc.hd && o.hd_number is Some) ==> ns.contains("HD"@ + decimal(o.hd_number->0 as nat))
            &&& (acc.hip && o.hipparcos_number is Some) ==> ns.contains("HIP"@ + decimal(o.hipparcos_number->0 as nat))
        }),
{
    let ns = possible_names_of(o, acc)->0;
    let b = designation_names(o.bayer_designation, acc.bayer)->0;
    let f = designation_names(o.flamsteed_designation, acc.flamsteed)->0;
    let p = if acc.proper { proper_name_variants(o.proper_names@)->0 } else { seq![] };
    let c = numbered("C"@, o.caldwell_number, acc.caldwell);
    let hd = numbered("HD"@, o.hd_number, acc.hd);
    let hip = numbered("HIP"@, o.hipparcos_number, acc.hip);
    let ic = numbered("IC"@, o.ic_number, acc.ic);
    let m = numbered("M"@, o.messier_number, acc.messier);
    let ngc = numbered("NGC"@, o.ngc_number, acc.ngc);
    assert(ns == b + c + f + hd + hip + ic + m + ngc + p);
    lemma_numbered_parts_listed(b, c, f, hd, hip, ic, m, ngc, p);
}

/// The numbered parts of the list of names are in the whole list.
proof fn lemma_numbered_parts_listed(
    b: Seq<Seq<char>>,
    c: Seq<Seq<char>>,
    f: Seq<Seq<char>>,
    hd: Seq<Seq<char>>,
    hip: Seq<Seq<char>>,
    ic: Seq<Seq<char>>,
    m: Seq<Seq<char>>,
    ngc: Seq<Seq<char>>,
    p: Seq<Seq<char>>,
)
    ensures
        c.len() > 0 ==> (b + c + f + hd + hip + ic + m + ngc + p).contains(c[0]),
        hd.len() > 0 ==> (b + c + f + hd + hip + ic + m + ngc + p).contains(hd[0]),
        hip.len() > 0 ==> (b + c + f + hd + hip + ic + m + ngc + p).contains(hip[0]),
        ic.len() > 0 ==> (b + c + f + hd + hip + ic + m + ngc + p).contains(ic[0]),
        m.len() > 0 ==> (b + c + f + hd + hip + ic + m + ngc + p).contains(m[0]),
        ngc.len() > 0 ==> (b + c + f + hd + hip + ic + m + ngc + p).contains(ngc[0]),
{
    assert(c.len() > 0 ==> (b + c + f + hd + hip + ic + m + ngc + p).contains(c[0])) by {
        lemma_part_listed(b, c, f + hd + hip + ic + m + ngc + p);
        assert(b + c + f + hd + hip + ic + m + ngc + p =~= b + c + (f + hd + hip + ic + m + ngc + p));
    }
    assert(hd.len() > 0 ==> (b + c + f + hd + hip + ic + m + ngc + p).contains(hd[0])) by {
        lemma_part_listed(b + c + f, hd, hip + ic + m + ngc + p);
        assert(b + c + f + hd + hip + ic + m + ngc + p =~= b + c + f + hd + (hip + ic + m + ngc + p));
    }
    assert(hip.len() > 0 ==> (b + c + f + hd + hip + ic + m + ngc + p).contains(hip[0])) by {
        lemma_part_listed(b + c + f + hd, hip, ic + m + ngc + p);
        assert(b + c + f + hd + hip + ic + m + ngc + p =~= b + c + f + hd + hip + (ic + m + ngc + p));
    }
    assert(ic.len() > 0 ==> (b + c + f + hd + hip + ic + m + ngc + p).contains(ic[0])) by {
        lemma_part_listed(b + c + f + hd + hip, ic, m + ngc + p);
        assert(b + c + f + hd + hip + ic + m + ngc + p =~= b + c + f + hd + hip + ic + (m + ngc + p));
    }
    assert(m.len() > 0 ==> (b + c + f + hd + hip + ic + m + ngc + p).contains(m[0])) by {
        lemma_part_listed(b + c + f + hd + hip + ic, m, ngc + p);
        assert(b + c + f + hd + hip + ic + m + ngc + p =~= b + c + f + hd + hip + ic + m + (ngc + p));
    }
    assert(ngc.len() > 0 ==> (b + c + f + hd + hip + ic + m + ngc + p).contains(ngc[0])) by {
        lemma_part_listed(b + c + f + hd + hip + ic + m, ngc, p);
        assert(b + c + f + hd + hip + ic + m + ngc + p =~= b + c + f + hd + hip + ic + m + ngc + (p));
    }
}

/// A part of a list of names, set between two others, is in the whole.
proof fn lemma_part_listed(front: Seq<Seq<char>>, part: Seq<Seq<char>>, back: Seq<Seq<char>>)
    ensures
        part.len() > 0 ==> (front + part + back).contains(part[0]),
{
    if part.len() > 0 {
        assert((front + part + back)[front.len() as int] == part[0]);
    }
}

/// Only accepted names count: two objects that agree on every kind of name
/// that is accepted have the same possible names, whatever their names of
/// the kinds that are not accepted.
pub proof fn lemma_unaccepted_names_ignored(o1: QuestionObject, o2: QuestionObject, acc: AcceptedNames)
    requires
        acc.bayer ==> o1.bayer_designation == o2.bayer_designation,
        acc.flamsteed ==> o1.flamsteed_designation == o2.flamsteed_designation,
        acc.caldwell ==> o1.caldwell_number == o2.caldwell_number,
        acc.hd ==> o1.hd_number == o2.hd_number,
        acc.hip ==> o1.hipparcos_number == o2.hipparcos_number,
        acc.ic ==> o1.ic_number == o2.ic_number,
        acc.messier ==> o1.messier_number == o2.messier_number,
        acc.ngc ==> o1.ngc_number == o2.ngc_number,
        acc.proper ==> o1.proper_names@ == o2.proper_names@,
    ensures
        possible_names_of(o1, acc) == possible_names_of(o2, acc),
{
}

/// The accepted names with only one numbered catalogue accepted.
pub open spec fn only_numbered(messier: bool, caldwell: bool, ngc: bool, ic: bool, hd: bool, hip: bool) -> AcceptedNames {
    AcceptedNames {
        bayer: false,
        caldwell: caldwell,
        flamsteed: false,
        hd: hd,
        hip: hip,
        ic: ic,
        messier: messier,
        ngc: ngc,
        proper: false,
    }
}

/// With only one numbered catalogue accepted, an object's one possible name
/// is that catalogue's prefix and its number there (`M31`, `C14`, `NGC224`,
/// `IC434`, `HD48915`, `HIP32349`), and it has none when it has no number
/// there; so a quiz on that catalogue asks about no other object.
pub proof fn lemma_one_catalogue_names(o: QuestionObject)
    ensures
        possible_names_of(o, only_numbered(true, false, false, false, false, false)) == Some(match o.messier_number {
            Some(n) => seq!["M"@ + decimal(n as nat)],
            None => Seq::<Seq<char>>::empty(),
        }),
        possible_names_of(o, only_numbered(false, true, false, false, false, false)) == Some(match o.caldwell_number {
            Some(n) => seq!["C"@ + decimal(n as nat)],
            None => Seq::<Seq<char>>::empty(),
        }),
        possible_names_of(o, only_numbered(false, false, true, false, false, false)) == Some(match o.ngc_number {
            Some(n) => seq!["NGC"@ + decimal(n as nat)],
            None => Seq::<Seq<char>>::empty(),
        }),
        possible_names_of(o, only_numbered(false, false, false, true, false, false)) == Some(match o.ic_number {
            Some(n) => seq!["IC"@ + decimal(n as nat)],
            None => Seq::<Seq<char>>::empty(),
        }),
        possible_names_of(o, only_numbered(false, false, false, false, true, false)) == Some(match o.hd_number {
            Some(n) => seq!["HD"@ + decimal(n as nat)],
            None => Seq::<Seq<char>>::empty(),
        }),
        possible_names_of(o, only_numbered(false, false, false, false, false, true)) == Some(match o.hipparcos_number {
            Some(n) => seq!["HIP"@ + decimal(n as nat)],
            None => Seq::<Seq<char>>::empty(),
        }),
{
    let e = Seq::<Seq<char>>::empty();
    assert(possible_names_of(o, only_numbered(true, false, false, false, false, false))->0 =~= e + e + e + e + e + e
        + numbered("M"@, o.messier_number, true) + e + e);
    assert(possible_names_of(o, only_numbered(false, true, false, false, false, false))->0 =~= e + numbered(
        "C"@,
        o.caldwell_number,
        true,
    ) + e + e + e + e + e + e + e);
    assert(possible_names_of(o, only_numbered(false, false, true, false, false, false))->0 =~= e + e + e + e + e + e
        + e + numbered("NGC"@, o.ngc_number, true) + e);
    assert(possible_names_of(o, only_numbered(false, false, false, true, false, false))->0 =~= e + e + e + e + e
        + numbered("IC"@, o.ic_number, true) + e + e + e);
    assert(possible_names_of(o, only_numbered(false, false, false, false, true, false))->0 =~= e + e + e + numbered(
        "HD"@,
        o.hd_number,
        true,
    ) + e + e + e + e + e);
    assert(possible_names_of(o, only_numbered(false, false, false, false, false, true))->0 =~= e + e + e + e
        + numbered("HIP"@, o.hipparcos_number, true) + e + e + e + e);
}

/// The questions asked are about objects that have an accepted name, each
/// with exactly its possible names, in the order of the objects; every
/// object with an accepted name is asked about.
pub proof fn lemma_asked_objects(objs: Seq<QuestionObject>, acc: AcceptedNames)
    requires
        asked_objects(objs, acc) is Some,
    ensures
        ({
            let q = asked_objects(objs, acc)->0;
            &&& forall|i: int| 0 <= i < q.len() ==> 0 <= (#[trigger] q[i]).0 < objs.len()
                && possible_names_of(objs[q[i].0], acc) == Some(q[i].1) && q[i].1.len() > 0
            &&& forall|i: int, j: int| 0 <= i < j < q.len() ==> (#[trigger] q[i]).0 < (#[trigger] q[j]).0
            &&& forall|k: int| 0 <= k < objs.len() && (#[trigger] possible_names_of(objs[k], acc))->0.len() > 0
                ==> exists|i: int| 0 <= i < q.len() && (#[trigger] q[i]).0 == k
        }),
    decreases objs.len(),
{
    if objs.len() > 0 {
        let init = objs.drop_last();
        assert(asked_objects(init, acc) is Some);
        lemma_asked_objects(init, acc);
        let q0 = asked_objects(init, acc)->0;
        let q = asked_objects(objs, acc)->0;
        let last = objs.len() - 1;
        let n = possible_names_of(objs.last(), acc)->0;
        assert forall|i: int| 0 <= i < q0.len() implies objs[(#[trigger] q0[i]).0] == init[q0[i].0] by {}
        assert forall|k: int| 0 <= k < init.len() implies objs[k] == init[k] by {}
        if n.len() > 0 {
            assert(q == q0.push((last, n)));
            assert forall|k: int| 0 <= k < objs.len() && (#[trigger] possible_names_of(objs[k], acc))->0.len() > 0
                implies exists|i: int| 0 <= i < q.len() && (#[trigger] q[i]).0 == k by {
                if k == last {
                    assert(q[q0.len() as int].0 == k);
                } else {
                    assert(possible_names_of(init[k], acc)->0.len() > 0);
                    let i = choose|i: int| 0 <= i < q0.len() && (#[trigger] q0[i]).0 == k;
                    assert(q[i] == q0[i]);
                }
            }
            assert forall|i: int| 0 <= i < q.len() implies 0 <= (#[trigger] q[i]).0 < objs.len()
                && possible_names_of(objs[q[i].0], acc) == Some(q[i].1) && q[i].1.len() > 0 by {
                if i < q0.len() {
                    assert(q[i] == q0[i]);
                }
            }
            assert forall|i: int, j: int| 0 <= i < j < q.len() implies (#[trigger] q[i]).0 < (#[trigger] q[j]).0 by {
                assert(q[i] == q0[i]);
                if j < q0.len() {
                    assert(q[j] == q0[j]);
                }
            }
        } else {
            assert(q == q0);
            assert forall|k: int| 0 <= k < objs.len() && (#[trigger] possible_names_of(objs[k], acc))->0.len() > 0
                implies exists|i: int| 0 <= i < q.len() && (#[trigger] q[i]).0 == k by {
                assert(k != last);
                assert(possible_names_of(init[k], acc)->0.len() > 0);
            }
        }
    }
}

} // verus!
