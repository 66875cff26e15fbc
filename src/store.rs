//! The record store: accounts, challenges and the full history of submitted
//! solutions, with the rules for accepting a new submission.
use vstd::prelude::*;
use crate::solutions::{best_index, is_best, lemma_best_unique, Account, Challenge, NewSolution, Solution};

verus! {

/// The verdict of the grading collaborator on one submission.
pub struct Verdict {
    pub valid: bool,
    pub score: i32,
}

/// Why a submission was not stored.
#[derive(PartialEq, Eq, Structural, Clone, Copy, Debug)]
pub enum SubmitError {
    /// An unknown account or challenge, an empty language, or empty code.
    InvalidInputError,
    /// The grading collaborator was unreachable or failed.
    GradingUnavailableError,
    /// The store cannot take the row (its identifiers are exhausted).
    StoreError,
}

/// What a successful submission reports back.
pub struct SubmissionOutcome {
    pub id: i32,
    pub valid: bool,
    pub score: i32,
    /// The submission replaced the account's best for its triple.
    pub new_best: bool,
}

/// All records, held as the single source of truth: nothing derived from
/// them is cached.
pub struct RecordStore {
    pub accounts: Vec<Account>,
    pub challenges: Vec<Challenge>,
    pub solutions: Vec<Solution>,
    /// The identifier the next stored solution receives.
    pub next_id: i32,
}

/// An account with identifier `id` is among `accounts`.
pub open spec fn account_exists(accounts: Seq<Account>, id: i32) -> bool {
    exists|k: int| 0 <= k < accounts.len() && (#[trigger] accounts[k]).id == id
}

/// A challenge with identifier `id` is among `challenges`.
pub open spec fn challenge_exists(challenges: Seq<Challenge>, id: i32) -> bool {
    exists|k: int| 0 <= k < challenges.len() && (#[trigger] challenges[k]).id == id
}

impl RecordStore {
    /// Identifiers are unique per record kind, every solution refers to an
    /// existing account and challenge, and every solution identifier lies
    /// in `1 .. next_id`.
    pub open spec fn wf(&self) -> bool {
        &&& forall|i: int, j: int|
            0 <= i < j < self.accounts@.len() ==> (#[trigger] self.accounts@[i]).id
                != (#[trigger] self.accounts@[j]).id
        &&& forall|i: int, j: int|
            0 <= i < j < self.challenges@.len() ==> (#[trigger] self.challenges@[i]).id
                != (#[trigger] self.challenges@[j]).id
        &&& forall|i: int, j: int|
            0 <= i < j < self.solutions@.len() ==> (#[trigger] self.solutions@[i]).id
                != (#[trigger] self.solutions@[j]).id
        &&& forall|i: int|
            0 <= i < self.solutions@.len() ==> {
                &&& account_exists(self.accounts@, (#[trigger] self.solutions@[i]).author)
                &&& challenge_exists(self.challenges@, self.solutions@[i].challenge)
                &&& 1 <= self.solutions@[i].id < self.next_id
            }
        &&& 1 <= self.next_id
    }

    /// The inputs of a submission are acceptable: known account and
    /// challenge, a non-empty language tag and non-empty code.
    pub open spec fn acceptable(
        &self,
        account: i32,
        challenge: i32,
        language: Seq<char>,
        code: Seq<char>,
    ) -> bool {
        &&& account_exists(self.accounts@, account)
        &&& challenge_exists(self.challenges@, challenge)
        &&& language.len() > 0
        &&& code.len() > 0
    }

    /// A graded submission replaces the current best of its triple: it is
    /// valid, and the current best is absent, invalid, or scores strictly
    /// higher.
    pub open spec fn supersedes(
        &self,
        account: i32,
        challenge: i32,
        language: Seq<char>,
        verdict: Verdict,
    ) -> bool {
        verdict.valid && forall|i: int|
            is_best(self.solutions@, i, account, challenge, language) ==> (!(
            #[trigger] self.solutions@[i]).valid || self.solutions@[i].score > verdict.score)
    }

    /// `post` is `pre` with one solution row appended for the submission.
    pub open spec fn appended(
        pre: RecordStore,
        post: RecordStore,
        account: i32,
        challenge: i32,
        language: Seq<char>,
        version: Seq<char>,
        code: Seq<char>,
        verdict: Verdict,
        now: i64,
    ) -> bool {
        let n = pre.solutions@.len();
        let row = post.solutions@[n as int];
        &&& post.accounts == pre.accounts
        &&& post.challenges == pre.challenges
        &&& post.solutions@.len() == n + 1
        &&& post.solutions@.subrange(0, n as int) == pre.solutions@
        &&& post.next_id == pre.next_id + 1
        &&& row.id == pre.next_id
        &&& row.language@ == language
        &&& row.version@ == version
        &&& row.challenge == challenge
        &&& row.solution.code@ == code
        &&& row.author == account
        &&& row.score == verdict.score
        &&& row.valid == verdict.valid
        &&& row.last_improved_date == now
    }

    /// An empty store.
    pub fn new() -> (r: RecordStore)
        ensures
            r.wf(),
            r.accounts@.len() == 0,
            r.challenges@.len() == 0,
            r.solutions@.len() == 0,
            r.next_id == 1,
    {
        RecordStore { accounts: Vec::new(), challenges: Vec::new(), solutions: Vec::new(), next_id: 1 }
    }
    /// Whether an account with this identifier is stored.
    pub fn has_account(&self, id: i32) -> (r: bool)
        ensures
            r == account_exists(self.accounts@, id),
    {
        let mut k: usize = 0;
        while k < self.accounts.len()
            invariant
                k <= self.accounts@.len(),
                forall|m: int| 0 <= m < k ==> (#[trigger] self.accounts@[m]).id != id,
            decreases self.accounts.len() - k,
        {
            if self.accounts[k].id == id {
                return true;
            }
            k = k + 1;
        }
        false
    }

    /// Whether a challenge with this identifier is stored.
    pub fn has_challenge(&self, id: i32) -> (r: bool)
        ensures
            r == challenge_exists(self.challenges@, id),
    {
        let mut k: usize = 0;
        while k < self.challenges.len()
            invariant
                k <= self.challenges@.len(),
                forall|m: int| 0 <= m < k ==> (#[trigger] self.challenges@[m]).id != id,
            decreases self.challenges.len() - k,
        {
            if self.challenges[k].id == id {
                return true;
            }
            k = k + 1;
        }
        false
    }

    /// Registers an account; refused (returning `false`, store unchanged)
    /// when the identifier is taken.
    pub fn add_account(&mut self, id: i32, username: String, avatar: String) -> (r: bool)
        requires
            old(self).wf(),
        ensures
            final(self).wf(),
            r == !account_exists(old(self).accounts@, id),
            r ==> final(self).accounts@ == old(self).accounts@.push(
                Account { id, username, avatar },
            ),
            !r ==> final(self).accounts == old(self).accounts,
            final(self).challenges == old(self).challenges,
            final(self).solutions == old(self).solutions,
            final(self).next_id == old(self).next_id,
    {
        if self.has_account(id) {
            return false;
        }
        let ghost pre = self.accounts@;
        self.accounts.push(Account { id, username, avatar });
        assert forall|i: int|
            0 <= i < self.solutions@.len() implies account_exists(
            self.accounts@,
            (#[trigger] self.solutions@[i]).author,
        ) by {
            let k = choose|k: int| 0 <= k < pre.len() && (#[trigger] pre[k]).id == self.solutions@[i].author;
            assert(self.accounts@[k] == pre[k]);
        }
        true
    }

    /// Registers a challenge; refused (returning `false`, store unchanged)
    /// when the identifier is taken.
    pub fn add_challenge(&mut self, id: i32, name: String) -> (r: bool)
        requires
            old(self).wf(),
        ensures
            final(self).wf(),
            r == !challenge_exists(old(self).challenges@, id),
            r ==> final(self).challenges@ == old(self).challenges@.push(Challenge { id, name }),
            !r ==> final(self).challenges == old(self).challenges,
            final(self).accounts == old(self).accounts,
            final(self).solutions == old(self).solutions,
            final(self).next_id == old(self).next_id,
    {
        if self.has_challenge(id) {
            return false;
        }
        let ghost pre = self.challenges@;
        self.challenges.push(Challenge { id, name });
        assert forall|i: int|
            0 <= i < self.solutions@.len() implies challenge_exists(
            self.challenges@,
            (#[trigger] self.solutions@[i]).challenge,
        ) by {
            let k = choose|k: int| 0 <= k < pre.len() && (#[trigger] pre[k]).id == self.solutions@[i].challenge;
            assert(self.challenges@[k] == pre[k]);
        }
        true
    }

    /// Checks the inputs of a submission before any grading takes place.
    pub fn validate_submission(&self, account: i32, challenge: i32, language: &str, code: &str) -> (r:
        Result<(), SubmitError>)
        ensures
            r is Ok <==> self.acceptable(account, challenge, language@, code@),
            r is Err ==> r == Err::<(), SubmitError>(SubmitError::InvalidInputError),
    {
        if self.has_account(account) && self.has_challenge(challenge) && !language.is_empty()
            && !code.is_empty() {
            Ok(())
        } else {
            Err(SubmitError::InvalidInputError)
        }
    }
    /// Whether a graded submission would replace the current best of its
    /// triple.
    pub fn would_supersede(&self, account: i32, challenge: i32, language: &String, verdict: &Verdict) -> (r:
        bool)
        ensures
            r == self.supersedes(account, challenge, language@, *verdict),
    {
        if !verdict.valid {
            return false;
        }
        match best_index(&self.solutions, account, challenge, language) {
            None => true,
            Some(b) => {
                let r = !self.solutions[b].valid || self.solutions[b].score > verdict.score;
                assert forall|i: int|
                    is_best(self.solutions@, i, account, challenge, language@) implies (!(
                    #[trigger] self.solutions@[i]).valid || self.solutions@[i].score
                    > verdict.score) == r by {
                    lemma_best_unique(self.solutions@, i, b as int, account, challenge, language@);
                }
                r
            },
        }
    }

    /// Stores a graded submission as a new solution row.
    ///
    /// Input errors are reported before the verdict is looked at; a missing
    /// verdict (the grading collaborator failed) stores nothing. The row is
    /// stored whether or not it improves on the current best; the outcome
    /// says whether it replaced the best.
    pub fn submit(
        &mut self,
        account: i32,
        challenge: i32,
        language: &str,
        version: &str,
        code: &str,
        verdict: Option<Verdict>,
        now: i64,
    ) -> (r: Result<SubmissionOutcome, SubmitError>)
        requires
            old(self).wf(),
        ensures
            final(self).wf(),
            !old(self).acceptable(account, challenge, language@, code@) ==> r == Err::<
                SubmissionOutcome,
                SubmitError,
            >(SubmitError::InvalidInputError),
            old(self).acceptable(account, challenge, language@, code@) && verdict is None ==> r
                == Err::<SubmissionOutcome, SubmitError>(SubmitError::GradingUnavailableError),
            old(self).acceptable(account, challenge, language@, code@) && verdict is Some
                && old(self).next_id == i32::MAX ==> r == Err::<SubmissionOutcome, SubmitError>(
                SubmitError::StoreError,
            ),
            r is Err ==> *final(self) == *old(self),
            r is Ok <==> old(self).acceptable(account, challenge, language@, code@)
                && verdict is Some && old(self).next_id < i32::MAX,
            r matches Ok(o) ==> {
                let v = verdict->Some_0;
                &&& RecordStore::appended(
                    *old(self),
                    *final(self),
                    account,
                    challenge,
                    language@,
                    version@,
                    code@,
                    v,
                    now,
                )
                &&& o.id == old(self).next_id
                &&& o.valid == v.valid
                &&& o.score == v.score
                &&& o.new_best == old(self).supersedes(account, challenge, language@, v)
            },
    {
        match self.validate_submission(account, challenge, language, code) {
            Err(e) => {
                return Err(e);
            },
            Ok(()) => {},
        }
        let v = match verdict {
            None => {
                return Err(SubmitError::GradingUnavailableError);
            },
            Some(v) => v,
        };
        if self.next_id == i32::MAX {
            return Err(SubmitError::StoreError);
        }
        let language = language.to_owned();
        let new_best = self.would_supersede(account, challenge, &language, &v);
        let id = self.next_id;
        let ghost pre = *self;
        let row = Solution {
            id,
            language,
            version: version.to_owned(),
            challenge,
            solution: NewSolution { code: code.to_owned() },
            author: account,
            score: v.score,
            valid: v.valid,
            last_improved_date: now,
        };
        self.solutions.push(row);
        self.next_id = id + 1;
        assert(self.solutions@.subrange(0, pre.solutions@.len() as int) == pre.solutions@);
        assert forall|i: int|
            0 <= i < self.solutions@.len() implies {
            &&& account_exists(self.accounts@, (#[trigger] self.solutions@[i]).author)
            &&& challenge_exists(self.challenges@, self.solutions@[i].challenge)
            &&& 1 <= self.solutions@[i].id < self.next_id
        } by {
            if i < pre.solutions@.len() {
                assert(self.solutions@[i] == pre.solutions@[i]);
            }
        }
        Ok(SubmissionOutcome { id, valid: v.valid, score: v.score, new_best })
    }
    /// Sets the validity flag of the solution with identifier `id`: the
    /// primitive through which re-grading after a change of a challenge's
    /// criteria records its result. Returns whether such a row exists; no
    /// other field and no other row changes.
    pub fn set_validity(&mut self, id: i32, valid: bool) -> (r: bool)
        requires
            old(self).wf(),
        ensures
            final(self).wf(),
            r == exists|i: int|
                0 <= i < old(self).solutions@.len() && (#[trigger] old(self).solutions@[i]).id == id,
            final(self).accounts == old(self).accounts,
            final(self).challenges == old(self).challenges,
            final(self).next_id == old(self).next_id,
            final(self).solutions@.len() == old(self).solutions@.len(),
            forall|i: int|
                0 <= i < old(self).solutions@.len() ==> {
                    let a = #[trigger] old(self).solutions@[i];
                    let b = final(self).solutions@[i];
                    if a.id == id {
                        b == (Solution { valid, ..a })
                    } else {
                        b == a
                    }
                },
    {
        let mut k: usize = 0;
        while k < self.solutions.len()
            invariant
                k <= self.solutions@.len(),
                *self == *old(self),
                self.wf(),
                forall|m: int| 0 <= m < k ==> (#[trigger] self.solutions@[m]).id != id,
            decreases self.solutions.len() - k,
        {
            if self.solutions[k].id == id {
                let ghost pre = *self;
                self.solutions[k].valid = valid;
                assert forall|i: int|
                    0 <= i < self.solutions@.len() implies {
                    &&& account_exists(self.accounts@, (#[trigger] self.solutions@[i]).author)
                    &&& challenge_exists(self.challenges@, self.solutions@[i].challenge)
                    &&& 1 <= self.solutions@[i].id < self.next_id
                } by {
                    assert(self.solutions@[i].author == pre.solutions@[i].author);
                }
                assert forall|i: int, j: int|
                    0 <= i < j < self.solutions@.len() implies (#[trigger] self.solutions@[i]).id
                    != (#[trigger] self.solutions@[j]).id by {
                    assert(self.solutions@[i].id == pre.solutions@[i].id);
                    assert(self.solutions@[j].id == pre.solutions@[j].id);
                }
                return true;
            }
            k = k + 1;
        }
        false
    }
}

} // verus!
