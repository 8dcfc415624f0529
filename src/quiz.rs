//! The quiz session: it draws rounds from the record store without asking a
//! country twice, scores the player's choices and keeps the tally.
//!
//! A session is a state machine. `draw` (or `accept_draw`, given the draw)
//! opens a round; `question` shows it; `answer` scores it and closes it. The
//! session is complete once `count` rounds have been answered. A draw whose
//! country was already asked, or whose distractors hold the country, is
//! refused and leaves the session as it was: the caller draws again.

use vstd::prelude::*;
use vstd::seq_lib::group_to_multiset_ensures;
use crate::country::Country;
use crate::text::{choice_of, is_digit, lemma_unreadable_choice, trimmed};
use rand::seq::SliceRandom;
use rand::Rng;

verus! {

/// Options shown in each round.
pub const NUMBER_OF_OPTIONS: u8 = 4;

/// Why a session could not start.
#[derive(Debug, PartialEq, Eq, Structural)]
pub enum QuizError {
    /// The store must hold more records than the requested count and than
    /// `NUMBER_OF_OPTIONS`; it holds `total`.
    NotEnoughQuestions { total: usize },
}

/// An open round: the index of the country asked about, and the indices of
/// the options in the order shown.
struct Round {
    correct: usize,
    options: Vec<usize>,
}

pub ghost struct RoundView {
    pub correct: usize,
    pub options: Seq<usize>,
}

impl View for Round {
    type V = RoundView;

    closed spec fn view(&self) -> RoundView {
        RoundView { correct: self.correct, options: self.options@ }
    }
}

/// What the player is shown of a round.
pub struct Question {
    /// Rounds start at 1.
    pub number: u8,
    pub total: u8,
    /// The capital asked about.
    pub prompt: String,
    /// The country names to pick from, numbered from 1 in this order.
    pub options: Vec<String>,
}

/// The outcome of a round.
pub struct Verdict {
    pub is_correct: bool,
    /// The name of the country asked about.
    pub correct_name: String,
}

/// A store of `pool_len` records can serve a session of `count` rounds:
/// it holds more records than `count` and than `NUMBER_OF_OPTIONS`.
pub open spec fn can_start(pool_len: nat, count: nat) -> bool {
    pool_len > count && pool_len > NUMBER_OF_OPTIONS
}

/// Every index in `idx` points into `pool`.
pub open spec fn in_range(pool: Seq<Country>, idx: Seq<usize>) -> bool {
    forall|i: int| 0 <= i < idx.len() ==> #[trigger] idx[i] < pool.len()
}

/// No two entries of `idx` point at records with the same key.
pub open spec fn keys_distinct(pool: Seq<Country>, idx: Seq<usize>) -> bool {
    forall|i: int, j: int|
        0 <= i < idx.len() && 0 <= j < idx.len() && i != j ==> pool[#[trigger] idx[i] as int].key()
            != pool[#[trigger] idx[j] as int].key()
}

/// No two records of `pool` share a key.
pub open spec fn pool_keys_unique(pool: Seq<Country>) -> bool {
    forall|i: int, j: int|
        0 <= i < pool.len() && 0 <= j < pool.len() && i != j ==> #[trigger] pool[i].key()
            != #[trigger] pool[j].key()
}

/// Some entry of `idx` points at a record with the key of `pool[candidate]`.
pub open spec fn key_used(pool: Seq<Country>, idx: Seq<usize>, candidate: usize) -> bool {
    exists|i: int|
        0 <= i < idx.len() && pool[#[trigger] idx[i] as int].key() == pool[candidate as int].key()
}

/// A draw that can make a round: the candidate and three distinct
/// distractors point into the pool, and no distractor has the candidate's
/// key.
pub open spec fn draw_fits(pool: Seq<Country>, candidate: usize, distractors: Seq<usize>) -> bool {
    &&& candidate < pool.len()
    &&& distractors.len() == NUMBER_OF_OPTIONS - 1
    &&& in_range(pool, distractors)
    &&& distractors.no_duplicates()
    &&& !key_used(pool, distractors, candidate)
}

/// A round over `pool`: four distinct options that hold the country asked
/// about, no other option with its key.
pub open spec fn round_fits(pool: Seq<Country>, r: RoundView) -> bool {
    &&& r.correct < pool.len()
    &&& r.options.len() == NUMBER_OF_OPTIONS
    &&& in_range(pool, r.options)
    &&& r.options.no_duplicates()
    &&& r.options.contains(r.correct)
    &&& forall|i: int|
        0 <= i < r.options.len() && #[trigger] r.options[i] != r.correct ==> pool[r.options[i] as int].key()
            != pool[r.correct as int].key()
}

/// Whether choice `choice` (numbered from 1) names the country asked about.
pub open spec fn choice_is_correct(pool: Seq<Country>, r: RoundView, choice: u8) -> bool {
    &&& 1 <= choice <= NUMBER_OF_OPTIONS
    &&& pool[r.options[choice - 1] as int].display_name() == pool[r.correct as int].display_name()
}

pub ghost struct SessionView {
    /// The record store the session draws from.
    pub pool: Seq<Country>,
    /// The number of rounds to ask.
    pub count: nat,
    /// The country of each round opened so far, in order.
    pub selections: Seq<usize>,
    /// The rounds answered correctly.
    pub correct: nat,
    /// The round waiting for an answer, if any.
    pub round: Option<RoundView>,
}

impl SessionView {
    /// The rounds answered so far.
    pub open spec fn asked(self) -> nat {
        if self.round is Some {
            (self.selections.len() - 1) as nat
        } else {
            self.selections.len()
        }
    }

    pub open spec fn complete(self) -> bool {
        self.asked() == self.count
    }

    /// No round is open and more are owed.
    pub open spec fn awaiting_draw(self) -> bool {
        self.round is None && self.selections.len() < self.count
    }

    /// The draw opens a round: one is owed, the draw fits, and the
    /// candidate's key was not asked before.
    pub open spec fn accepts(self, candidate: usize, distractors: Seq<usize>) -> bool {
        &&& self.awaiting_draw()
        &&& draw_fits(self.pool, candidate, distractors)
        &&& !key_used(self.pool, self.selections, candidate)
    }

    /// The session with a round opened on `candidate`, showing `options`.
    pub open spec fn opened(self, candidate: usize, options: Seq<usize>) -> SessionView {
        SessionView {
            selections: self.selections.push(candidate),
            round: Some(RoundView { correct: candidate, options }),
            ..self
        }
    }

    /// The session with its open round closed, scored right or wrong.
    pub open spec fn scored(self, is_correct: bool) -> SessionView {
        SessionView {
            correct: if is_correct {
                self.correct + 1
            } else {
                self.correct
            },
            round: None,
            ..self
        }
    }

    /// What every session satisfies.
    pub open spec fn valid(self) -> bool {
        &&& self.pool.len() > self.count
        &&& self.pool.len() > NUMBER_OF_OPTIONS
        &&& self.selections.len() <= self.count
        &&& self.correct <= self.asked()
        &&& in_range(self.pool, self.selections)
        &&& keys_distinct(self.pool, self.selections)
        &&& self.round matches Some(r) ==> {
            &&& self.selections.len() > 0
            &&& r.correct == self.selections.last()
            &&& round_fits(self.pool, r)
        }
    }
}

/// What a session has done so far.
struct Progress {
    selections: Vec<usize>,
    correct: u8,
    round: Option<Round>,
}

/// The view of a session over `store` that has made `progress`.
spec fn view_of(store: Seq<Country>, count: u8, progress: Progress) -> SessionView {
    SessionView {
        pool: store,
        count: count as nat,
        selections: progress.selections@,
        correct: progress.correct as nat,
        round: match progress.round {
            Some(r) => Some(r@),
            None => None,
        },
    }
}

/// One quiz session over a record store.
pub struct Session {
    store: Vec<Country>,
    count: u8,
    progress: Progress,
}

impl View for Session {
    type V = SessionView;

    closed spec fn view(&self) -> SessionView {
        view_of(self.store@, self.count, self.progress)
    }
}

impl Session {
    #[verifier::type_invariant]
    closed spec fn inv(self) -> bool {
        self@.valid()
    }

    /// Starts a session of `count` rounds over `store`. The store must hold
    /// more records than `count` and than `NUMBER_OF_OPTIONS`.
    pub fn new(store: Vec<Country>, count: u8) -> (r: Result<Session, QuizError>)
        ensures
            r is Ok <==> can_start(store.len() as nat, count as nat),
            r matches Ok(s) ==> s@.valid() && s@ == (SessionView {
                pool: store@,
                count: count as nat,
                selections: Seq::empty(),
                correct: 0,
                round: None,
            }),
            r matches Err(e) ==> e == (QuizError::NotEnoughQuestions { total: store.len() }),
    {
        if store.len() > count as usize && store.len() > NUMBER_OF_OPTIONS as usize {
            let progress = Progress { selections: Vec::new(), correct: 0, round: None };
            let s = Session { store, count, progress };
            assert(s@.selections =~= Seq::<usize>::empty());
            Ok(s)
        } else {
            Err(QuizError::NotEnoughQuestions { total: store.len() })
        }
    }

    /// Trades the session's progress for `p`, which must make a valid
    /// session too.
    fn swap_progress(&mut self, p: &mut Progress)
        requires
            view_of(old(self).store@, old(self).count, *old(p)).valid(),
        ensures
            final(self).store == old(self).store,
            final(self).count == old(self).count,
            final(self).progress == *old(p),
            *final(p) == old(self).progress,
        no_unwind
    {
        std::mem::swap(&mut self.progress, p);
    }

    /// The records in the store.
    pub fn pool_len(&self) -> (r: usize)
        ensures
            r == self@.pool.len(),
            self@.valid(),
    {
        proof {
            use_type_invariant(self);
        }
        self.store.len()
    }

    pub fn count(&self) -> (r: u8)
        ensures
            r == self@.count,
            self@.valid(),
    {
        proof {
            use_type_invariant(self);
        }
        self.count
    }

    /// The rounds answered so far.
    pub fn asked(&self) -> (r: u8)
        ensures
            r == self@.asked(),
            self@.valid(),
    {
        proof {
            use_type_invariant(self);
        }
        match &self.progress.round {
            Some(_) => (self.progress.selections.len() - 1) as u8,
            None => self.progress.selections.len() as u8,
        }
    }

    /// The rounds answered correctly so far.
    pub fn correct_count(&self) -> (r: u8)
        ensures
            r == self@.correct,
            self@.valid(),
    {
        proof {
            use_type_invariant(self);
        }
        self.progress.correct
    }

    /// Whether all `count` rounds have been answered.
    pub fn is_complete(&self) -> (r: bool)
        ensures
            r == self@.complete(),
            self@.valid(),
    {
        self.asked() == self.count
    }

    /// Whether the key of `store[candidate]` was asked about before.
    fn was_asked(&self, candidate: usize) -> (r: bool)
        requires
            candidate < self@.pool.len(),
        ensures
            r == key_used(self@.pool, self@.selections, candidate),
    {
        proof {
            use_type_invariant(self);
        }
        let mut i: usize = 0;
        while i < self.progress.selections.len()
            invariant
                self@.valid(),
                candidate < self@.pool.len(),
                i <= self.progress.selections.len(),
                forall|j: int|
                    0 <= j < i ==> self@.pool[#[trigger] self@.selections[j] as int].key()
                        != self@.pool[candidate as int].key(),
            decreases self.progress.selections.len() - i,
        {
            if self.store[self.progress.selections[i]] == self.store[candidate] {
                return true;
            }
            i = i + 1;
        }
        false
    }

    /// Whether the draw opens a round (see `SessionView::accepts`).
    pub fn accepts_draw(&self, candidate: usize, distractors: &Vec<usize>) -> (r: bool)
        ensures
            r == self@.accepts(candidate, distractors@),
    {
        proof {
            use_type_invariant(self);
        }
        if self.progress.round.is_some() || self.progress.selections.len() >= self.count as usize {
            return false;
        }
        let n = self.store.len();
        if candidate >= n || distractors.len() != NUMBER_OF_OPTIONS as usize - 1 {
            return false;
        }
        let mut i: usize = 0;
        while i < distractors.len()
            invariant
                n == self@.pool.len(),
                candidate < n,
                i <= distractors.len(),
                forall|j: int| 0 <= j < i ==> #[trigger] distractors@[j] < n,
                forall|j: int, k: int|
                    0 <= j < i && 0 <= k < i && j != k ==> #[trigger] distractors@[j]
                        != #[trigger] distractors@[k],
                forall|j: int|
                    0 <= j < i ==> self@.pool[#[trigger] distractors@[j] as int].key()
                        != self@.pool[candidate as int].key(),
            decreases distractors.len() - i,
        {
            let d = distractors[i];
            if d >= n || self.store[d] == self.store[candidate] {
                return false;
            }
            let mut k: usize = 0;
            while k < i
                invariant
                    i < distractors.len(),
                    k <= i,
                    d == distractors@[i as int],
                    forall|j: int| 0 <= j < k ==> #[trigger] distractors@[j] != d,
                decreases i - k,
            {
                if distractors[k] == d {
                    return false;
                }
                k = k + 1;
            }
            i = i + 1;
        }
        !self.was_asked(candidate)
    }

    /// Opens a round on `candidate` showing `options`.
    fn open_round(&mut self, candidate: usize, options: Vec<usize>)
        requires
            old(self)@.awaiting_draw(),
            !key_used(old(self)@.pool, old(self)@.selections, candidate),
            round_fits(old(self)@.pool, RoundView { correct: candidate, options: options@ }),
        ensures
            final(self)@ == old(self)@.opened(candidate, options@),
    {
        proof {
            use_type_invariant(&*self);
        }
        let ghost before = self@;
        let mut p = Progress { selections: Vec::new(), correct: 0, round: None };
        self.swap_progress(&mut p);
        p.selections.push(candidate);
        p.round = Some(Round { correct: candidate, options });
        let ghost after = view_of(self.store@, self.count, p);
        proof {
            assert(after == before.opened(candidate, options@));
            assert forall|i: int, j: int|
                0 <= i < after.selections.len() && 0 <= j < after.selections.len() && i != j
                implies after.pool[#[trigger] after.selections[i] as int].key()
                != after.pool[#[trigger] after.selections[j] as int].key() by {
                if i < before.selections.len() && j < before.selections.len() {
                    assert(before.selections[i] == after.selections[i]);
                    assert(before.selections[j] == after.selections[j]);
                } else if i < before.selections.len() {
                    assert(before.selections[i] == after.selections[i]);
                } else {
                    assert(before.selections[j] == after.selections[j]);
                }
            }
        }
        self.swap_progress(&mut p);
    }

    /// Opens a round from a draw when the draw is accepted (see
    /// `SessionView::accepts`); the options are the distractors followed by
    /// the candidate. A refused draw leaves the session as it was.
    pub fn accept_draw(&mut self, candidate: usize, distractors: Vec<usize>) -> (accepted: bool)
        ensures
            accepted == old(self)@.accepts(candidate, distractors@),
            accepted ==> final(self)@ == old(self)@.opened(candidate, distractors@.push(candidate)),
            !accepted ==> final(self)@ == old(self)@,
            final(self)@.valid(),
    {
        proof {
            use_type_invariant(&*self);
        }
        if !self.accepts_draw(candidate, &distractors) {
            return false;
        }
        let mut options = distractors;
        let ghost d = options@;
        options.push(candidate);
        proof {
            lemma_round_from_draw(self@.pool, candidate, d, options@);
        }
        self.open_round(candidate, options);
        true
    }
    /// Draws a round at random, as one attempt: a candidate from the whole
    /// store, and three distinct distractors from the whole store. When the
    /// session accepts the draw (see `SessionView::accepts`) a round opens on
    /// the candidate, its options the distractors and the candidate in a
    /// random order. A refused draw, or one made while no round is owed,
    /// leaves the session as it was.
    pub fn draw(&mut self) -> (accepted: bool)
        ensures
            !accepted ==> final(self)@ == old(self)@,
            accepted ==> old(self)@.awaiting_draw(),
            accepted ==> (final(self)@.round matches Some(r) && final(self)@ == old(self)@.opened(
                r.correct,
                r.options,
            ) && !key_used(old(self)@.pool, old(self)@.selections, r.correct) && round_fits(
                old(self)@.pool,
                r,
            )),
            final(self)@.valid(),
    {
        proof {
            use_type_invariant(&*self);
        }
        if self.progress.round.is_some() || self.progress.selections.len() >= self.count as usize {
            return false;
        }
        let n = self.store.len();
        let candidate = random_index(n);
        let distractors = random_sample(n, NUMBER_OF_OPTIONS as usize - 1);
        if !self.accepts_draw(candidate, &distractors) {
            return false;
        }
        let mut options = distractors;
        let ghost d = options@;
        options.push(candidate);
        let ghost drawn = options@;
        shuffle(&mut options);
        proof {
            lemma_round_from_draw(self@.pool, candidate, d, drawn);
            lemma_reordered_round(self@.pool, candidate, drawn, options@);
        }
        self.open_round(candidate, options);
        true
    }

    /// The open round as the player sees it.
    pub fn question(&self) -> (r: Option<Question>)
        ensures
            self@.valid(),
            self@.round is None ==> r is None,
            self@.round matches Some(rd) ==> (r matches Some(q) && q.number == self@.asked() + 1
                && q.total == self@.count && q.prompt@ == self@.pool[rd.correct as int].prompt()
                && q.options.len() == rd.options.len() && forall|i: int|
                0 <= i < q.options.len() ==> #[trigger] q.options[i]@ == self@.pool[rd.options[i] as int].display_name()),
    {
        proof {
            use_type_invariant(self);
        }
        match &self.progress.round {
            None => None,
            Some(rd) => {
                let number = self.asked() + 1;
                let mut names: Vec<String> = Vec::new();
                let mut i: usize = 0;
                while i < rd.options.len()
                    invariant
                        self@.valid(),
                        self@.round == Some(rd@),
                        i <= rd.options.len(),
                        names.len() == i,
                        forall|j: int|
                            0 <= j < i ==> #[trigger] names[j]@ == self@.pool[rd@.options[j] as int].display_name(),
                    decreases rd.options.len() - i,
                {
                    names.push(self.store[rd.options[i]].name_common.clone());
                    i = i + 1;
                }
                Some(
                    Question {
                        number,
                        total: self.count,
                        prompt: self.store[rd.correct].capital.clone(),
                        options: names,
                    },
                )
            },
        }
    }

    /// Scores choice `choice` (options are numbered from 1) for the open
    /// round and closes it. Any number outside the options scores as wrong.
    /// Without an open round nothing happens.
    pub fn answer(&mut self, choice: u8) -> (r: Option<Verdict>)
        ensures
            old(self)@.round is None ==> r is None && final(self)@ == old(self)@,
            old(self)@.round matches Some(rd) ==> (r matches Some(v) && v.is_correct
                == choice_is_correct(old(self)@.pool, rd, choice) && v.correct_name@
                == old(self)@.pool[rd.correct as int].display_name() && final(self)@ == old(
                self,
            )@.scored(v.is_correct)),
            final(self)@.valid(),
    {
        proof {
            use_type_invariant(&*self);
        }
        let ghost before = self@;
        if self.progress.round.is_none() {
            return None;
        }
        let mut p = Progress { selections: Vec::new(), correct: 0, round: None };
        self.swap_progress(&mut p);
        let rd = match p.round {
            Some(rd) => rd,
            None => {
                return None;
            },
        };
        let correct_name = self.store[rd.correct].name_common.clone();
        let is_correct = choice >= 1 && choice <= NUMBER_OF_OPTIONS
            && self.store[rd.options[(choice - 1) as usize]].name_common == self.store[rd.correct].name_common;
        if is_correct {
            p.correct = p.correct + 1;
        }
        p.round = None;
        proof {
            assert(view_of(self.store@, self.count, p) == before.scored(is_correct));
        }
        self.swap_progress(&mut p);
        Some(Verdict { is_correct, correct_name })
    }

}

/// Every session stays within its plan: no two of its rounds asked about the
/// same key; at most `count` rounds are answered; a complete session holds
/// no round and owes none, an incomplete one holds a round or owes one; an
/// open round shows `NUMBER_OF_OPTIONS` options that hold the country asked
/// about, and over a store whose keys are unique the options' keys are
/// distinct.
pub proof fn lemma_session_rounds(s: SessionView)
    requires
        s.valid(),
    ensures
        keys_distinct(s.pool, s.selections),
        s.asked() <= s.count,
        s.complete() ==> s.round is None && !s.awaiting_draw(),
        !s.complete() ==> s.round is Some || s.awaiting_draw(),
        s.round matches Some(r) ==> {
            &&& r.options.len() == NUMBER_OF_OPTIONS
            &&& r.options.contains(r.correct)
            &&& pool_keys_unique(s.pool) ==> keys_distinct(s.pool, r.options)
        },
{
    match s.round {
        Some(r) => {
            if pool_keys_unique(s.pool) {
                assert forall|i: int, j: int|
                    0 <= i < r.options.len() && 0 <= j < r.options.len() && i != j implies s.pool[#[trigger] r.options[i] as int].key()
                    != s.pool[#[trigger] r.options[j] as int].key() by {
                    assert(r.options[i] < s.pool.len() && r.options[j] < s.pool.len());
                    assert(r.options[i] != r.options[j]);
                    assert(s.pool[r.options[i] as int].key() != s.pool[r.options[j] as int].key());
                }
            }
        },
        None => {},
    }
}

/// Rounds are counted when answered: opening a round leaves the count of
/// answered rounds as it was, and scoring it raises that count by one. So a
/// session is complete after exactly `count` answers.
pub proof fn lemma_rounds_counted(s: SessionView, candidate: usize, options: Seq<usize>, is_correct: bool)
    requires
        s.valid(),
    ensures
        s.awaiting_draw() ==> s.opened(candidate, options).asked() == s.asked(),
        s.round is Some ==> s.scored(is_correct).asked() == s.asked() + 1,
{
}

/// A session answered right every time scores every round: if the tally
/// equals the rounds answered, opening a round and answering it right keep
/// it so, and a complete session then scores `count` out of `count`.
pub proof fn lemma_all_right_scores_all(s: SessionView, candidate: usize, options: Seq<usize>, choice: u8)
    requires
        s.valid(),
        s.correct == s.asked(),
    ensures
        s.awaiting_draw() ==> s.opened(candidate, options).correct == s.opened(candidate, options).asked(),
        s.round matches Some(r) && choice_is_correct(s.pool, r, choice) ==> s.scored(true).correct
            == s.scored(true).asked(),
        s.complete() ==> s.correct == s.count,
{
}

/// A line that, once trimmed, starts with neither a digit nor `+` scores the
/// open round as wrong: the tally stays, the round is counted and closed,
/// and while rounds are still owed the session awaits the next draw.
pub proof fn lemma_unreadable_answer_scores_wrong(s: SessionView, line: Seq<char>)
    requires
        s.valid(),
        s.round is Some,
        trimmed(line).len() > 0,
        !is_digit(trimmed(line)[0]),
        trimmed(line)[0] != '+',
    ensures
        !choice_is_correct(s.pool, s.round->Some_0, choice_of(line)),
        s.scored(false).correct == s.correct,
        s.scored(false).asked() == s.asked() + 1,
        s.scored(false).valid(),
        s.scored(false).asked() < s.count ==> s.scored(false).awaiting_draw(),
{
    lemma_unreadable_choice(line);
}

/// The tally stays within the session: `0 <= correct <= count`.
pub proof fn lemma_tally_bounded(s: SessionView)
    requires
        s.valid(),
    ensures
        0 <= s.correct <= s.asked() <= s.count,
{
}

/// A store with exactly `count` records, or exactly `NUMBER_OF_OPTIONS`,
/// cannot serve a session of `count` rounds.
pub proof fn lemma_boundary_store_refused(pool_len: nat, count: nat)
    requires
        pool_len == count || pool_len == NUMBER_OF_OPTIONS,
    ensures
        !can_start(pool_len, count),
{
}

/// The options of an accepted draw make a round.
proof fn lemma_round_from_draw(
    pool: Seq<Country>,
    candidate: usize,
    distractors: Seq<usize>,
    options: Seq<usize>,
)
    requires
        draw_fits(pool, candidate, distractors),
        options == distractors.push(candidate),
    ensures
        round_fits(pool, RoundView { correct: candidate, options }),
{
    assert(options[distractors.len() as int] == candidate);
    assert forall|i: int| 0 <= i < options.len() implies #[trigger] options[i] < pool.len() by {
        if i < distractors.len() {
            assert(options[i] == distractors[i]);
        }
    }
    assert forall|i: int, j: int|
        0 <= i < options.len() && 0 <= j < options.len() && i != j implies options[i]
        != options[j] by {
        if i < distractors.len() && j < distractors.len() {
            assert(options[i] == distractors[i] && options[j] == distractors[j]);
        } else if i < distractors.len() {
            assert(options[i] == distractors[i]);
            assert(pool[distractors[i] as int].key() != pool[candidate as int].key());
        } else if j < distractors.len() {
            assert(options[j] == distractors[j]);
            assert(pool[distractors[j] as int].key() != pool[candidate as int].key());
        }
    }
    assert forall|i: int|
        0 <= i < options.len() && #[trigger] options[i] != candidate implies pool[options[i] as int].key()
        != pool[candidate as int].key() by {
        assert(i < distractors.len());
        assert(options[i] == distractors[i]);
    }
}

/// Reordering the options of a round leaves a round.
proof fn lemma_reordered_round(pool: Seq<Country>, correct: usize, before: Seq<usize>, after: Seq<usize>)
    requires
        round_fits(pool, RoundView { correct, options: before }),
        after.to_multiset() == before.to_multiset(),
    ensures
        round_fits(pool, RoundView { correct, options: after }),
{
    broadcast use group_to_multiset_ensures;

    assert forall|x: usize| after.contains(x) implies before.contains(x) by {
        assert(after.to_multiset().count(x) > 0);
    }
    before.to_multiset_ensures();
    after.to_multiset_ensures();
    assert(after.len() == before.len());
    assert forall|i: int| 0 <= i < after.len() implies #[trigger] after[i] < pool.len() by {
        assert(after.contains(after[i]));
        let j = choose|j: int| 0 <= j < before.len() && before[j] == after[i];
    }
    before.lemma_multiset_has_no_duplicates();
    after.lemma_multiset_has_no_duplicates_conv();
    assert(before.to_multiset().count(correct) > 0);
    assert forall|i: int|
        0 <= i < after.len() && #[trigger] after[i] != correct implies pool[after[i] as int].key()
        != pool[correct as int].key() by {
        assert(after.contains(after[i]));
        let j = choose|j: int| 0 <= j < before.len() && before[j] == after[i];
        assert(before[j] != correct);
    }
}

/// Relies on `rand::Rng::gen_range` (rand 0.7) over the thread's generator:
/// a number from `low..high`; it panics only on an empty range.
#[verifier::external_body]
fn random_index(n: usize) -> (r: usize)
    requires
        n > 0,
    ensures
        r < n,
{
    rand::thread_rng().gen_range(0, n)
}

/// Relies on `rand::seq::index::sample`, with which `choose_multiple` picks
/// the items of a slice: `amount` distinct indices from `0..length`; it
/// panics only when `amount > length`.
#[verifier::external_body]
fn random_sample(length: usize, amount: usize) -> (r: Vec<usize>)
    requires
        amount <= length,
    ensures
        r.len() == amount,
        forall|i: int| 0 <= i < r.len() ==> #[trigger] r[i] < length,
        r@.no_duplicates(),
{
    rand::seq::index::sample(&mut rand::thread_rng(), length, amount).into_vec()
}

/// Relies on `rand::seq::SliceRandom::shuffle`: the same items, reordered.
#[verifier::external_body]
fn shuffle(v: &mut Vec<usize>)
    ensures
        final(v)@.to_multiset() == old(v)@.to_multiset(),
{
    v.shuffle(&mut rand::thread_rng());
}

} // verus!
