//! The progress of a game: which questions were asked, the score, and how
//! the next question is chosen.

use rand::Rng;
use vstd::prelude::*;
use vstd::string::StringExecFns;
use crate::enums::GameStage;
use crate::settings::entries_view;
use crate::text::{decimal, split_on, split_seq, str_eq, usize_to_decimal};

verus! {

broadcast use vstd::string::group_string_axioms;

/// Draws a number uniformly from `0..n` with `rand::Rng::gen_range` on the
/// thread's generator. As the crate documents, the result lies in the range
/// (which must not be empty); which number comes out is left to chance.
#[verifier::external_body]
fn random_below(n: usize) -> (r: usize)
    requires
        n > 0,
    ensures
        r < n,
{
    rand::thread_rng().gen_range(0..n)
}

/// Where a game stands: the questions asked, the current one, the score.
pub struct GameHandler {
    pub current_question: usize,
    pub used_questions: Vec<usize>,
    pub question_number: usize,
    pub score: u32,
    pub possible_score: u32,
    pub stage: GameStage,
    /// The answer typed so far.
    pub answer: String,
    /// Whether the answer field should take the keyboard focus.
    pub request_input_focus: bool,
}

/// The questions that can come next: those that may be chosen and were not
/// asked yet, in increasing order.
pub open spec fn open_questions(choosable: Seq<bool>, used: Seq<usize>) -> Seq<usize>
    decreases choosable.len(),
{
    if choosable.len() == 0 {
        seq![]
    } else {
        let i = (choosable.len() - 1) as usize;
        let rest = open_questions(choosable.drop_last(), used);
        if choosable.last() && !used.contains(i) {
            rest.push(i)
        } else {
            rest
        }
    }
}

/// The counter shown with a question: `Question <n>/<total>`.
pub open spec fn question_counter(used: nat, number: nat, open: nat) -> Seq<char> {
    "Question "@ + decimal(used + number + 1) + "/"@ + decimal(open + used + number)
}

/// What choosing the next question leads to.
pub enum NextQuestion {
    /// No question is left to ask.
    NoMoreQuestions,
    /// The scored game has asked all its questions.
    ScoredModeFinished,
    /// Question `index` is asked, shown with `counter`.
    Ask { index: usize, counter: String },
}

pub proof fn lemma_open_questions(choosable: Seq<bool>, used: Seq<usize>)
    requires
        choosable.len() <= usize::MAX,
    ensures
        open_questions(choosable, used).len() <= choosable.len(),
        forall|j: int|
            0 <= j < open_questions(choosable, used).len() ==> {
                let q = #[trigger] open_questions(choosable, used)[j];
                q < choosable.len() && choosable[q as int] && !used.contains(q)
            },
        forall|j: int, k: int|
            0 <= j < k < open_questions(choosable, used).len() ==> #[trigger] open_questions(choosable, used)[j]
                < #[trigger] open_questions(choosable, used)[k],
    decreases choosable.len(),
{
    if choosable.len() > 0 {
        let init = choosable.drop_last();
        lemma_open_questions(init, used);
        let rest = open_questions(init, used);
        let all = open_questions(choosable, used);
        let i = (choosable.len() - 1) as usize;
        assert(i == choosable.len() - 1);
        assert(choosable[i as int] == choosable.last());
        assert forall|j: int| 0 <= j < all.len() implies {
            let q = #[trigger] all[j];
            q < choosable.len() && choosable[q as int] && !used.contains(q)
        } by {
            if j < rest.len() {
                assert(all[j] == rest[j]);
                assert(choosable[rest[j] as int] == init[rest[j] as int]);
            } else {
                assert(all[j] == i);
            }
        }
        assert forall|j: int, k: int| 0 <= j < k < all.len() implies #[trigger] all[j] < #[trigger] all[k] by {
            if k < rest.len() {
                assert(all[j] == rest[j] && all[k] == rest[k]);
            } else {
                assert(all[k] == i);
                assert(all[j] == rest[j]);
                assert(rest[j] < init.len());
            }
        }
    }
}

impl GameHandler {
    /// A game that has not started.
    pub fn new() -> (r: GameHandler)
        ensures
            r.current_question == 0,
            r.used_questions@.len() == 0,
            r.question_number == 0,
            r.score == 0,
            r.possible_score == 0,
            r.stage == GameStage::NotStartedYet,
            r.answer@ == Seq::<char>::empty(),
            !r.request_input_focus,
    {
        GameHandler {
            current_question: 0,
            used_questions: Vec::new(),
            question_number: 0,
            score: 0,
            possible_score: 0,
            stage: GameStage::NotStartedYet,
            answer: String::new(),
            request_input_focus: false,
        }
    }

    /// Adds `inc` to the score that could have been reached.
    pub fn increment_possible_score(&mut self, inc: u32)
        requires
            old(self).possible_score + inc <= u32::MAX,
        ensures
            final(self).possible_score == old(self).possible_score + inc,
            final(self).score == old(self).score,
            final(self).used_questions@ == old(self).used_questions@,
            final(self).current_question == old(self).current_question,
            final(self).question_number == old(self).question_number,
            final(self).stage == old(self).stage,
    {
        self.possible_score = self.possible_score + inc;
    }

    /// Marks the current question as asked.
    pub fn use_up_current_question(&mut self)
        ensures
            final(self).used_questions@ == old(self).used_questions@.push(old(self).current_question),
            final(self).current_question == old(self).current_question,
            final(self).question_number == old(self).question_number,
            final(self).score == old(self).score,
            final(self).possible_score == old(self).possible_score,
            final(self).stage == old(self).stage,
    {
        let q = self.current_question;
        self.used_questions.push(q);
    }

    /// Whether the game has run out of questions or finished its scored round.
    pub fn no_more_questions(&self) -> (r: bool)
        ensures
            r == (self.stage == GameStage::NoMoreQuestions || self.stage == GameStage::ScoredModeFinished),
    {
        match self.stage {
            GameStage::NoMoreQuestions | GameStage::ScoredModeFinished => true,
            _ => false,
        }
    }

    /// The score that could have been reached so far.
    pub fn get_possible_score(&self) -> (r: u32)
        ensures
            r == self.possible_score,
    {
        self.possible_score
    }

    /// Starts over: no question asked, no score.
    pub fn reset_used_questions(&mut self)
        ensures
            final(self).used_questions@.len() == 0,
            final(self).score == 0,
            final(self).possible_score == 0,
            final(self).question_number == 0,
            final(self).current_question == old(self).current_question,
            final(self).stage == old(self).stage,
    {
        self.used_questions = Vec::new();
        self.score = 0;
        self.possible_score = 0;
        self.question_number = 0;
    }

    /// Whether question `q` was asked already.
    fn was_used(&self, q: usize) -> (r: bool)
        ensures
            r == self.used_questions@.contains(q),
    {
        let mut k: usize = 0;
        while k < self.used_questions.len()
            invariant
                k <= self.used_questions@.len(),
                forall|j: int| 0 <= j < k ==> self.used_questions@[j] != q,
            decreases self.used_questions@.len() - k,
        {
            if self.used_questions[k] == q {
                return true;
            }
            k = k + 1;
        }
        false
    }

    /// The questions that can come next, of those for which `choosable` says
    /// whether they may be chosen now.
    pub fn possible_questions(&self, choosable: &[bool]) -> (r: Vec<usize>)
        ensures
            r@ == open_questions(choosable@, self.used_questions@),
    {
        let mut r: Vec<usize> = Vec::new();
        let mut i: usize = 0;
        while i < choosable.len()
            invariant
                i <= choosable@.len(),
                r@ == open_questions(choosable@.take(i as int), self.used_questions@),
            decreases choosable@.len() - i,
        {
            assert(choosable@.take(i + 1).drop_last() =~= choosable@.take(i as int));
            assert(choosable@.take(i + 1).last() == choosable@[i as int]);
            if choosable[i] && !self.was_used(i) {
                r.push(i);
            }
            i = i + 1;
        }
        assert(choosable@.take(i as int) =~= choosable@);
        r
    }

    /// Chooses the next question among those that `choosable` allows and were
    /// not asked yet, at random. Without any, the game has no more questions;
    /// a scored game that has asked more than `no_of_questions` questions is
    /// over. Otherwise the chosen question becomes the current one and the
    /// game waits for a guess.
    pub fn next_question(&mut self, choosable: &[bool], is_scored_mode: bool, no_of_questions: u32) -> (r: NextQuestion)
        requires
            old(self).used_questions@.len() + old(self).question_number + choosable@.len() < usize::MAX,
        ensures
            ({
                let open = open_questions(choosable@, old(self).used_questions@);
                &&& final(self).used_questions@ == old(self).used_questions@
                &&& final(self).question_number == old(self).question_number
                &&& final(self).score == old(self).score
                &&& final(self).possible_score == old(self).possible_score
                &&& final(self).answer@ == Seq::<char>::empty()
                &&& match r {
                    NextQuestion::NoMoreQuestions => open.len() == 0 && final(self).stage
                        == GameStage::NoMoreQuestions && final(self).current_question
                        == old(self).current_question && final(self).request_input_focus == old(self).request_input_focus,
                    NextQuestion::ScoredModeFinished => open.len() > 0 && is_scored_mode
                        && (old(self).used_questions@.len() as u32) > no_of_questions && final(self).stage
                        == GameStage::ScoredModeFinished && final(self).current_question
                        == old(self).current_question && final(self).request_input_focus == old(self).request_input_focus,
                    NextQuestion::Ask { index, counter } => open.len() > 0 && !(is_scored_mode
                        && (old(self).used_questions@.len() as u32) > no_of_questions) && open.contains(index)
                        && final(self).current_question == index && final(self).stage == GameStage::Guessing
                        && final(self).request_input_focus && counter@ == question_counter(
                        old(self).used_questions@.len(),
                        old(self).question_number as nat,
                        open.len(),
                    ),
                }
            }),
    {
        let possible = self.possible_questions(choosable);
        proof {
            lemma_open_questions(choosable@, self.used_questions@);
        }
        let pick = if possible.len() > 0 && !(is_scored_mode && (self.used_questions.len() as u32) > no_of_questions) {
            random_below(possible.len())
        } else {
            0
        };
        let r = self.next_question_with_pick(choosable, is_scored_mode, no_of_questions, pick);
        proof {
            if r is Ask {
                assert(open_questions(choosable@, old(self).used_questions@)[pick as int] == r->index);
            }
        }
        r
    }

    /// Goes on to the next question as `next_question` does, with `pick` in
    /// place of the random draw: the question asked is the one at `pick` among
    /// those that can come next, in the order of their indices.
    pub fn next_question_with_pick(
        &mut self,
        choosable: &[bool],
        is_scored_mode: bool,
        no_of_questions: u32,
        pick: usize,
    ) -> (r: NextQuestion)
        requires
            old(self).used_questions@.len() + old(self).question_number + choosable@.len() < usize::MAX,
            open_questions(choosable@, old(self).used_questions@).len() > 0 ==> pick < open_questions(
                choosable@,
                old(self).used_questions@,
            ).len(),
        ensures
            ({
                let open = open_questions(choosable@, old(self).used_questions@);
                &&& final(self).used_questions@ == old(self).used_questions@
                &&& final(self).question_number == old(self).question_number
                &&& final(self).score == old(self).score
                &&& final(self).possible_score == old(self).possible_score
                &&& final(self).answer@ == Seq::<char>::empty()
                &&& match r {
                    NextQuestion::NoMoreQuestions => open.len() == 0 && final(self).stage
                        == GameStage::NoMoreQuestions && final(self).current_question
                        == old(self).current_question && final(self).request_input_focus == old(self).request_input_focus,
                    NextQuestion::ScoredModeFinished => open.len() > 0 && is_scored_mode
                        && (old(self).used_questions@.len() as u32) > no_of_questions && final(self).stage
                        == GameStage::ScoredModeFinished && final(self).current_question
                        == old(self).current_question && final(self).request_input_focus == old(self).request_input_focus,
                    NextQuestion::Ask { index, counter } => open.len() > 0 && !(is_scored_mode
                        && (old(self).used_questions@.len() as u32) > no_of_questions) && index == open[pick as int]
                        && final(self).current_question == index && final(self).stage == GameStage::Guessing
                        && final(self).request_input_focus && counter@ == question_counter(
                        old(self).used_questions@.len(),
                        old(self).question_number as nat,
                        open.len(),
                    ),
                }
            }),
    {
        self.answer = String::new();
        let possible = self.possible_questions(choosable);
        proof {
            lemma_open_questions(choosable@, self.used_questions@);
        }
        if possible.len() == 0 {
            self.stage = GameStage::NoMoreQuestions;
            return NextQuestion::NoMoreQuestions;
        }
        if is_scored_mode && (self.used_questions.len() as u32) > no_of_questions {
            self.stage = GameStage::ScoredModeFinished;
            return NextQuestion::ScoredModeFinished;
        }
        let index = possible[pick];
        self.current_question = index;
        let used = self.used_questions.len();
        let asked = used + self.question_number + 1;
        let total = possible.len() + used + self.question_number;
        let mut counter = String::from_str("Question ");
        counter.append(usize_to_decimal(asked).as_str());
        counter.append("/");
        counter.append(usize_to_decimal(total).as_str());
        self.request_input_focus = true;
        self.stage = GameStage::Guessing;
        NextQuestion::Ask { index, counter }
    }
}

/// A question that was asked is never chosen again before a reset: every
/// question that can come next was not asked yet, may be chosen, and exists.
pub proof fn lemma_no_question_twice(choosable: Seq<bool>, used: Seq<usize>, q: usize)
    requires
        choosable.len() <= usize::MAX,
        open_questions(choosable, used).contains(q),
    ensures
        !used.contains(q),
        q < choosable.len(),
        choosable[q as int],
{
    lemma_open_questions(choosable, used);
    let j = choose|j: int| 0 <= j < open_questions(choosable, used).len() && open_questions(choosable, used)[j] == q;
    assert(open_questions(choosable, used)[j] == q);
}

/// The names listed as switched off in the stored text: the pieces between
/// its `|` separators; none where nothing is stored.
pub open spec fn stored_inactive_names(stored: Option<Seq<char>>) -> Seq<Seq<char>> {
    match stored {
        Some(s) => split_seq(s, '|'),
        None => seq![],
    }
}

/// Whether no name occurs twice among the entries.
pub open spec fn entry_names_distinct(es: Seq<(Seq<char>, bool)>) -> bool {
    forall|i: int, j: int| 0 <= i < j < es.len() ==> (#[trigger] es[i]).0 != (#[trigger] es[j]).0
}

/// Whether some entry is for `name`.
pub open spec fn has_entry(es: Seq<(Seq<char>, bool)>, name: Seq<char>) -> bool {
    exists|i: int| 0 <= i < es.len() && (#[trigger] es[i]).0 == name
}

/// The position of the entry for `name`, if there is one.
fn find_entry(entries: &Vec<(String, bool)>, name: &str) -> (r: Option<usize>)
    ensures
        match r {
            Some(j) => j < entries@.len() && entries@[j as int].0@ == name@,
            None => !has_entry(entries_view(entries@), name@),
        },
{
    let ghost ev = entries_view(entries@);
    let mut j: usize = 0;
    while j < entries.len()
        invariant
            j <= entries@.len() == ev.len(),
            ev == entries_view(entries@),
            forall|i: int| 0 <= i < j ==> (#[trigger] ev[i]).0 != name@,
        decreases entries@.len() - j,
    {
        assert(ev[j as int].0 == entries@[j as int].0@);
        if str_eq(entries[j].0.as_str(), name) {
            return Some(j);
        }
        j = j + 1;
    }
    None
}

/// Sets the entry for `name` to `on`, adding it at the end if it is new.
fn set_entry(entries: &mut Vec<(String, bool)>, name: &str, on: bool)
    requires
        entry_names_distinct(entries_view(old(entries)@)),
    ensures
        entry_names_distinct(entries_view(final(entries)@)),
        forall|i: int| 0 <= i < final(entries)@.len() ==> {
            let e = #[trigger] entries_view(final(entries)@)[i];
            if e.0 == name@ {
                e.1 == on
            } else {
                has_entry(entries_view(old(entries)@), e.0) && exists|k: int| 0 <= k < old(entries)@.len() && #[trigger] entries_view(old(entries)@)[k] == e
            }
        },
        forall|n: Seq<char>| has_entry(entries_view(old(entries)@), n) ==> has_entry(entries_view(final(entries)@), n),
        has_entry(entries_view(final(entries)@), name@),
{
    let ghost before = entries_view(entries@);
    match find_entry(entries, name) {
        Some(j) => {
            let owned = String::from_str(name);
            entries.set(j, (owned, on));
            let ghost after = entries_view(entries@);
            assert(after =~= before.update(j as int, (name@, on)));
            assert forall|n: Seq<char>| has_entry(before, n) implies has_entry(after, n) by {
                let i = choose|i: int| 0 <= i < before.len() && (#[trigger] before[i]).0 == n;
                assert(after[i].0 == n);
            }
            assert(after[j as int].0 == name@);
            assert(before[j as int].0 == name@);
            assert forall|a: int, b: int| 0 <= a < b < after.len() implies (#[trigger] after[a]).0 != (#[trigger] after[b]).0 by {
                if a != j && b != j {
                    assert(before[a].0 != before[b].0);
                } else if a == j {
                    assert(before[a].0 != before[b].0);
                } else {
                    assert(before[a].0 != before[b].0);
                }
            }
            assert forall|i: int| 0 <= i < after.len() implies {
                let e = #[trigger] after[i];
                if e.0 == name@ {
                    e.1 == on
                } else {
                    has_entry(before, e.0) && exists|k: int| 0 <= k < before.len() && #[trigger] before[k] == e
                }
            } by {
                if i != j {
                    assert(before[i] == after[i]);
                    if after[i].0 == name@ {
                        if i < j {
                            assert(before[i].0 != before[j as int].0);
                        } else {
                            assert(before[j as int].0 != before[i].0);
                        }
                    }
                }
            }
        },
        None => {
            let owned = String::from_str(name);
            entries.push((owned, on));
            let ghost after = entries_view(entries@);
            assert(after =~= before.push((name@, on)));
            assert forall|n: Seq<char>| has_entry(before, n) implies has_entry(after, n) by {
                let i = choose|i: int| 0 <= i < before.len() && (#[trigger] before[i]).0 == n;
                assert(after[i].0 == n);
            }
            assert(after[before.len() as int].0 == name@);
            assert forall|a: int, b: int| 0 <= a < b < after.len() implies (#[trigger] after[a]).0 != (#[trigger] after[b]).0 by {
                if b < before.len() {
                    assert(before[a].0 != before[b].0);
                } else {
                    assert(before[a].0 != name@);
                }
            }
            assert forall|i: int| 0 <= i < after.len() implies {
                let e = #[trigger] after[i];
                if e.0 == name@ {
                    e.1 == on
                } else {
                    has_entry(before, e.0) && exists|k: int| 0 <= k < before.len() && #[trigger] before[k] == e
                }
            } by {
                if i < before.len() {
                    assert(before[i] == after[i]);
                    assert(before[i].0 != name@);
                }
            }
        },
    }
}

/// Which constellations questions may be asked in: every known one, except
/// those stored as switched off (the pieces of the stored text between its
/// `|` separators, which are listed switched off even where unknown). No
/// name occurs twice.
pub fn active_constellations(known: &[String], stored_inactive: Option<&str>) -> (res: Vec<(String, bool)>)
    ensures
        entry_names_distinct(entries_view(res@)),
        forall|i: int| 0 <= i < res@.len() ==> {
            let e = #[trigger] entries_view(res@)[i];
            let off = stored_inactive_names(match stored_inactive {
                Some(s) => Some(s@),
                None => None,
            });
            &&& e.1 == !off.contains(e.0)
            &&& (known@.map_values(|n: String| n@).contains(e.0) || off.contains(e.0))
        },
        forall|n: Seq<char>|
            known@.map_values(|k: String| k@).contains(n) || stored_inactive_names(match stored_inactive {
                Some(s) => Some(s@),
                None => None,
            }).contains(n) ==> has_entry(entries_view(res@), n),
{
    let ghost kv = known@.map_values(|n: String| n@);
    let ghost off = stored_inactive_names(match stored_inactive {
        Some(s) => Some(s@),
        None => None,
    });
    let mut res: Vec<(String, bool)> = Vec::new();
    let mut k: usize = 0;
    while k < known.len()
        invariant
            k <= known@.len(),
            kv == known@.map_values(|n: String| n@),
            entry_names_distinct(entries_view(res@)),
            forall|i: int| 0 <= i < res@.len() ==> {
                let e = #[trigger] entries_view(res@)[i];
                e.1 && exists|m: int| 0 <= m < k && kv[m] == e.0
            },
            forall|m: int| 0 <= m < k ==> has_entry(entries_view(res@), #[trigger] kv[m]),
        decreases known@.len() - k,
    {
        let ghost before = entries_view(res@);
        set_entry(&mut res, known[k].as_str(), true);
        proof {
            let after = entries_view(res@);
            assert forall|i: int| 0 <= i < after.len() implies {
                let e = #[trigger] after[i];
                e.1 && exists|m: int| 0 <= m < k + 1 && kv[m] == e.0
            } by {
                let e = after[i];
                if e.0 == kv[k as int] {
                    assert(kv[k as int] == e.0);
                } else {
                    let kk = choose|kk: int| 0 <= kk < before.len() && #[trigger] before[kk] == e;
                    assert(before[kk] == e);
                }
            }
        }
        k = k + 1;
    }
    let parts: Vec<String> = match stored_inactive {
        Some(s) => split_on(s, '|'),
        None => Vec::new(),
    };
    assert(parts@.map_values(|p: String| p@) == off);
    let mut m: usize = 0;
    while m < parts.len()
        invariant
            m <= parts@.len(),
            parts@.map_values(|p: String| p@) == off,
            kv == known@.map_values(|n: String| n@),
            entry_names_distinct(entries_view(res@)),
            forall|i: int| 0 <= i < res@.len() ==> {
                let e = #[trigger] entries_view(res@)[i];
                &&& e.1 == !off.take(m as int).contains(e.0)
                &&& (kv.contains(e.0) || off.take(m as int).contains(e.0))
            },
            forall|n: Seq<char>| kv.contains(n) || off.take(m as int).contains(n) ==> has_entry(entries_view(res@), n),
        decreases parts@.len() - m,
    {
        let ghost before = entries_view(res@);
        assert forall|n: Seq<char>| kv.contains(n) || off.take(m as int).contains(n) implies #[trigger] has_entry(before, n) by {
        }
        set_entry(&mut res, parts[m].as_str(), false);
        proof {
            let after = entries_view(res@);
            let name = off[m as int];
            assert(name == parts@[m as int]@);
            assert(off.take(m + 1) =~= off.take(m as int).push(name));
            assert forall|i: int| 0 <= i < after.len() implies {
                let e = #[trigger] after[i];
                &&& e.1 == !off.take(m + 1).contains(e.0)
                &&& (kv.contains(e.0) || off.take(m + 1).contains(e.0))
            } by {
                let e = after[i];
                if e.0 == name {
                    assert(off.take(m + 1)[m as int] == name);
                } else {
                    let kk = choose|kk: int| 0 <= kk < before.len() && #[trigger] before[kk] == e;
                    assert(before[kk] == e);
                    let t1 = off.take(m + 1);
                    if t1.contains(e.0) {
                        let q = choose|q: int| 0 <= q < t1.len() && t1[q] == e.0;
                        assert(q < m);
                        assert(off.take(m as int)[q] == e.0);
                    }
                }
            }
            assert forall|n: Seq<char>| kv.contains(n) || off.take(m + 1).contains(n) implies has_entry(after, n) by {
                let t1 = off.take(m + 1);
                let t0 = off.take(m as int);
                if n != name && t1.contains(n) {
                    let q = choose|q: int| 0 <= q < t1.len() && t1[q] == n;
                    assert(t0[q] == n);
                    assert(t0.contains(n));
                }
                if n != name {
                    assert(kv.contains(n) || t0.contains(n));
                    assert(has_entry(before, n));
                }
            }
        }
        m = m + 1;
    }
    assert(off.take(m as int) =~= off);
    assert forall|n: Seq<char>| known@.map_values(|k: String| k@).contains(n) || off.contains(n) implies has_entry(entries_view(res@), n) by {
        assert(kv.contains(n) || off.take(m as int).contains(n));
    }
    assert forall|i: int| 0 <= i < res@.len() implies {
        let e = #[trigger] entries_view(res@)[i];
        &&& e.1 == !off.contains(e.0)
        &&& (kv.contains(e.0) || off.contains(e.0))
    } by {
    }
    res
}

} // verus!
