//! Tracking of an account's solutions whose validity was revoked, so that
//! the account can be prompted to submit again.
use vstd::prelude::*;
use crate::solutions::{Challenge, InvalidatedSolution, Solution};
use crate::store::{challenge_exists, RecordStore};

verus! {

/// The row is an invalid solution authored by `user`.
pub open spec fn invalid_of(s: Solution, user: i32) -> bool {
    !s.valid && s.author == user
}

/// Some stored solution of `user` is invalid.
pub open spec fn has_invalid(rows: Seq<Solution>, user: i32) -> bool {
    exists|i: int| 0 <= i < rows.len() && invalid_of(#[trigger] rows[i], user)
}

/// Some entry of `out` names `language` and `challenge`.
pub open spec fn lists_pair(out: Seq<InvalidatedSolution>, language: Seq<char>, challenge: i32) -> bool {
    exists|k: int|
        0 <= k < out.len() && (#[trigger] out[k]).language@ == language && out[k].challenge_id
            == challenge
}

/// Some invalid row of `user` is for `language` and `challenge`.
pub open spec fn has_invalid_pair(
    rows: Seq<Solution>,
    user: i32,
    language: Seq<char>,
    challenge: i32,
) -> bool {
    exists|i: int|
        0 <= i < rows.len() && invalid_of(#[trigger] rows[i], user) && rows[i].language@ == language
            && rows[i].challenge == challenge
}

/// `idx` lists, in store order, exactly the invalid rows of `user`.
pub open spec fn is_invalid_order(rows: Seq<Solution>, user: i32, idx: Seq<usize>) -> bool {
    &&& forall|k: int|
        0 <= k < idx.len() ==> (#[trigger] idx[k]) < rows.len() && invalid_of(
            rows[idx[k] as int],
            user,
        )
    &&& forall|a: int, b: int| 0 <= a < b < idx.len() ==> (#[trigger] idx[a]) < (#[trigger] idx[b])
    &&& forall|i: int|
        0 <= i < rows.len() && invalid_of(#[trigger] rows[i], user) ==> exists|k: int|
            0 <= k < idx.len() && idx[k] == i
}

/// `e` names the language and challenge of row `s`, with the challenge's name.
pub open spec fn invalidated_of(e: InvalidatedSolution, s: Solution, challenges: Seq<Challenge>) -> bool {
    &&& e.language@ == s.language@
    &&& e.challenge_id == s.challenge
    &&& exists|k: int|
        0 <= k < challenges.len() && (#[trigger] challenges[k]).id == s.challenge
            && e.challenge_name@ == challenges[k].name@
}

/// `out` lists one entry for each invalid solution of `user`, in store order.
pub open spec fn is_invalidated_list(store: RecordStore, user: i32, out: Seq<InvalidatedSolution>) -> bool {
    exists|idx: Seq<usize>|
        #![trigger is_invalid_order(store.solutions@, user, idx)]
        is_invalid_order(store.solutions@, user, idx) && idx.len() == out.len() && forall|k: int|
            0 <= k < out.len() ==> invalidated_of(
                #[trigger] out[k],
                store.solutions@[idx[k] as int],
                store.challenges@,
            )
}

/// Position of the challenge with identifier `id`, if it is stored.
pub fn find_challenge(challenges: &Vec<Challenge>, id: i32) -> (r: Option<usize>)
    ensures
        r is None <==> !challenge_exists(challenges@, id),
        r matches Some(k) ==> k < challenges@.len() && challenges@[k as int].id == id,
{
    let mut k: usize = 0;
    while k < challenges.len()
        invariant
            k <= challenges@.len(),
            forall|m: int| 0 <= m < k ==> (#[trigger] challenges@[m]).id != id,
        decreases challenges.len() - k,
    {
        if challenges[k].id == id {
            return Some(k);
        }
        k = k + 1;
    }
    None
}

impl InvalidatedSolution {
    /// Every (language, challenge) pair of `user` whose stored solution is
    /// marked invalid, one entry per such row, in store order.
    pub fn get_invalidated_solutions_for_user(user: i32, store: &RecordStore) -> (r: Vec<
        InvalidatedSolution,
    >)
        requires
            store.wf(),
        ensures
            is_invalidated_list(*store, user, r@),
    {
        let mut out: Vec<InvalidatedSolution> = Vec::new();
        let ghost mut idx: Seq<usize> = Seq::empty();
        let mut i: usize = 0;
        while i < store.solutions.len()
            invariant
                store.wf(),
                i <= store.solutions@.len(),
                idx.len() == out.len(),
                forall|k: int|
                    0 <= k < idx.len() ==> (#[trigger] idx[k]) < i && invalid_of(
                        store.solutions@[idx[k] as int],
                        user,
                    ),
                forall|a: int, b: int|
                    0 <= a < b < idx.len() ==> (#[trigger] idx[a]) < (#[trigger] idx[b]),
                forall|j: int|
                    0 <= j < i && invalid_of(#[trigger] store.solutions@[j], user) ==> exists|k: int|
                        0 <= k < idx.len() && idx[k] == j,
                forall|k: int|
                    0 <= k < out.len() ==> invalidated_of(
                        #[trigger] out@[k],
                        store.solutions@[idx[k] as int],
                        store.challenges@,
                    ),
            decreases store.solutions.len() - i,
        {
            let row = &store.solutions[i];
            if !row.valid && row.author == user {
                assert(challenge_exists(store.challenges@, row.challenge));
                let c = find_challenge(&store.challenges, row.challenge);
                let ch = &store.challenges[c.unwrap()];
                let e = InvalidatedSolution {
                    language: row.language.clone(),
                    challenge_id: row.challenge,
                    challenge_name: ch.name.clone(),
                };
                assert(invalidated_of(e, store.solutions@[i as int], store.challenges@));
                let ghost pre = idx;
                out.push(e);
                proof {
                    idx = idx.push(i);
                    assert forall|j: int|
                        0 <= j < i + 1 && invalid_of(
                            #[trigger] store.solutions@[j],
                            user,
                        ) implies exists|k: int| 0 <= k < idx.len() && idx[k] == j by {
                        if j == i {
                            assert(idx[pre.len() as int] == i);
                        } else {
                            let k = choose|k: int| 0 <= k < pre.len() && pre[k] == j;
                            assert(idx[k] == j);
                        }
                    }
                }
            }
            i = i + 1;
        }
        assert(is_invalid_order(store.solutions@, user, idx));
        out
    }

    /// Whether any stored solution of `user` is marked invalid.
    pub fn invalidated_solution_exists(user: i32, store: &RecordStore) -> (r: bool)
        ensures
            r == has_invalid(store.solutions@, user),
    {
        let mut i: usize = 0;
        while i < store.solutions.len()
            invariant
                i <= store.solutions@.len(),
                forall|j: int| 0 <= j < i ==> !invalid_of(#[trigger] store.solutions@[j], user),
            decreases store.solutions.len() - i,
        {
            if !store.solutions[i].valid && store.solutions[i].author == user {
                return true;
            }
            i = i + 1;
        }
        false
    }
}

} // verus!
