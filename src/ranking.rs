//! Per-account best solutions and the per-(challenge, language) leaderboard.
use vstd::prelude::*;
use crate::solutions::{
    best_index, code_of, has_row, is_best, ranks_ahead, ranks_ahead_exec, Account, Code,
    LeaderboardEntry, Solution,
};
use crate::store::{account_exists, RecordStore};

verus! {

impl Code {
    /// The best attempt of `account` at `challenge` in `language`: the row of
    /// the triple with the lowest score, the earliest improvement breaking
    /// ties. Invalid rows are not skipped; `None` when the triple has no row.
    pub fn get_best_code_for_user(store: &RecordStore, account: i32, challenge: i32, language: &str) -> (r:
        Option<Code>)
        ensures
            r is None <==> !has_row(store.solutions@, account, challenge, language@),
            r matches Some(c) ==> exists|i: int|
                is_best(store.solutions@, i, account, challenge, language@) && code_of(
                    c,
                    #[trigger] store.solutions@[i],
                ),
    {
        let language = language.to_owned();
        match best_index(&store.solutions, account, challenge, &language) {
            None => None,
            Some(b) => {
                let row = &store.solutions[b];
                let c = Code {
                    code: row.solution.code.clone(),
                    score: row.score,
                    id: row.id,
                    valid: row.valid,
                    last_improved_date: row.last_improved_date,
                };
                assert(code_of(c, store.solutions@[b as int]));
                Some(c)
            },
        }
    }
}

/// The row is shown on the leaderboard of `challenge` in `language`: it
/// matches both exactly and is valid.
pub open spec fn on_board(s: Solution, challenge: i32, language: Seq<char>) -> bool {
    s.challenge == challenge && s.language@ == language && s.valid
}

/// Row `i` is listed before row `j`: it ranks ahead, or the two tie on score
/// and improvement time and `i` was stored first.
pub open spec fn listed_before(rows: Seq<Solution>, i: int, j: int) -> bool {
    ranks_ahead(rows[i], rows[j]) || (!ranks_ahead(rows[j], rows[i]) && i < j)
}

/// `order` lists every leaderboard row of the pair exactly once, each in
/// listing order.
pub open spec fn is_board_order(
    rows: Seq<Solution>,
    challenge: i32,
    language: Seq<char>,
    order: Seq<usize>,
) -> bool {
    &&& forall|k: int|
        0 <= k < order.len() ==> (#[trigger] order[k]) < rows.len() && on_board(
            rows[order[k] as int],
            challenge,
            language,
        )
    &&& forall|a: int, b: int|
        0 <= a < b < order.len() ==> listed_before(
            rows,
            (#[trigger] order[a]) as int,
            (#[trigger] order[b]) as int,
        )
    &&& forall|i: int|
        0 <= i < rows.len() && on_board(#[trigger] rows[i], challenge, language) ==> exists|k: int|
            0 <= k < order.len() && order[k] == i
}

/// `e` projects row `s` joined with its author's display attributes.
pub open spec fn entry_of(e: LeaderboardEntry, s: Solution, accounts: Seq<Account>) -> bool {
    &&& e.id == s.id
    &&& e.author_id == s.author
    &&& e.score == s.score
    &&& exists|k: int|
        0 <= k < accounts.len() && (#[trigger] accounts[k]).id == s.author && e.author_name@
            == accounts[k].username@ && e.author_avatar@ == accounts[k].avatar@
}

/// `out` is the leaderboard of `challenge` in `language`.
pub open spec fn is_leaderboard(
    store: RecordStore,
    challenge: i32,
    language: Seq<char>,
    out: Seq<LeaderboardEntry>,
) -> bool {
    exists|order: Seq<usize>|
        #![trigger is_board_order(store.solutions@, challenge, language, order)]
        is_board_order(store.solutions@, challenge, language, order) && order.len() == out.len()
            && forall|k: int|
            0 <= k < out.len() ==> entry_of(
                #[trigger] out[k],
                store.solutions@[order[k] as int],
                store.accounts@,
            )
}

/// Indices of the leaderboard rows of `challenge` in `language`, in listing
/// order.
pub fn board_order(rows: &Vec<Solution>, challenge: i32, language: &String) -> (order: Vec<usize>)
    ensures
        is_board_order(rows@, challenge, language@, order@),
{
    let mut order: Vec<usize> = Vec::new();
    let mut i: usize = 0;
    while i < rows.len()
        invariant
            i <= rows.len(),
            forall|k: int|
                0 <= k < order.len() ==> (#[trigger] order@[k]) < i && on_board(
                    rows@[order@[k] as int],
                    challenge,
                    language@,
                ),
            forall|a: int, b: int|
                0 <= a < b < order.len() ==> listed_before(
                    rows@,
                    (#[trigger] order@[a]) as int,
                    (#[trigger] order@[b]) as int,
                ),
            forall|j: int|
                0 <= j < i && on_board(#[trigger] rows@[j], challenge, language@) ==> exists|k: int|
                    0 <= k < order.len() && order@[k] == j,
        decreases rows.len() - i,
    {
        let row = &rows[i];
        if row.challenge == challenge && row.language == *language && row.valid {
            let mut p: usize = 0;
            while p < order.len() && !ranks_ahead_exec(row, &rows[order[p]])
                invariant
                    p <= order.len(),
                    i < rows.len(),
                    *row == rows@[i as int],
                    forall|k: int| 0 <= k < order.len() ==> (#[trigger] order@[k]) < rows.len(),
                    forall|q: int|
                        0 <= q < p ==> !ranks_ahead(rows@[i as int], rows@[(#[trigger] order@[q]) as int]),
                decreases order.len() - p,
            {
                p = p + 1;
            }
            let ghost pre = order@;
            proof {
                pre.insert_ensures(p as int, i);
                if p < pre.len() {
                    assert forall|q: int| p <= q < pre.len() implies ranks_ahead(
                        rows@[i as int],
                        rows@[(#[trigger] pre[q]) as int],
                    ) by {
                        if q > p {
                            assert(listed_before(rows@, pre[p as int] as int, pre[q] as int));
                        }
                    }
                }
            }
            order.insert(p, i);
            assert forall|a: int, b: int|
                0 <= a < b < order.len() implies listed_before(
                rows@,
                (#[trigger] order@[a]) as int,
                (#[trigger] order@[b]) as int,
            ) by {
                if b < p {
                    assert(listed_before(rows@, pre[a] as int, pre[b] as int));
                } else if b == p {
                    assert(order@[a] == pre[a]);
                } else if a < p {
                    assert(listed_before(rows@, pre[a] as int, pre[b - 1] as int));
                } else if a == p {
                    assert(order@[b] == pre[b - 1]);
                } else {
                    assert(listed_before(rows@, pre[a - 1] as int, pre[b - 1] as int));
                }
            }
            assert forall|j: int|
                0 <= j < i + 1 && on_board(#[trigger] rows@[j], challenge, language@) implies exists|
                k: int,
            | 0 <= k < order.len() && order@[k] == j by {
                if j == i {
                    assert(order@[p as int] == i);
                } else {
                    let k = choose|k: int| 0 <= k < pre.len() && pre[k] == j;
                    if k < p {
                        assert(order@[k] == j);
                    } else {
                        assert(order@[k + 1] == j);
                    }
                }
            }
            assert forall|k: int|
                0 <= k < order.len() implies (#[trigger] order@[k]) < i + 1 && on_board(
                rows@[order@[k] as int],
                challenge,
                language@,
            ) by {
                if k < p {
                    assert(order@[k] == pre[k]);
                } else if k > p {
                    assert(order@[k] == pre[k - 1]);
                }
            }
        }
        i = i + 1;
    }
    order
}

/// Position of the account with identifier `id`, if it is stored.
pub fn find_account(accounts: &Vec<Account>, id: i32) -> (r: Option<usize>)
    ensures
        r is None <==> !account_exists(accounts@, id),
        r matches Some(k) ==> k < accounts@.len() && accounts@[k as int].id == id,
{
    let mut k: usize = 0;
    while k < accounts.len()
        invariant
            k <= accounts@.len(),
            forall|m: int| 0 <= m < k ==> (#[trigger] accounts@[m]).id != id,
        decreases accounts.len() - k,
    {
        if accounts[k].id == id {
            return Some(k);
        }
        k = k + 1;
    }
    None
}

impl LeaderboardEntry {
    /// The leaderboard of `challenge_id` in `language`: one entry per valid
    /// solution row of the pair (language compared exactly), lowest score
    /// first, the earlier improvement first on equal scores.
    pub fn get_leadeboard_for_challenge_and_language(
        store: &RecordStore,
        challenge_id: i32,
        language: &str,
    ) -> (r: Vec<LeaderboardEntry>)
        requires
            store.wf(),
        ensures
            is_leaderboard(*store, challenge_id, language@, r@),
    {
        let language = language.to_owned();
        let order = board_order(&store.solutions, challenge_id, &language);
        let mut out: Vec<LeaderboardEntry> = Vec::new();
        let mut k: usize = 0;
        while k < order.len()
            invariant
                store.wf(),
                k <= order.len(),
                out.len() == k,
                is_board_order(store.solutions@, challenge_id, language@, order@),
                forall|m: int|
                    0 <= m < k ==> entry_of(
                        #[trigger] out@[m],
                        store.solutions@[order@[m] as int],
                        store.accounts@,
                    ),
            decreases order.len() - k,
        {
            let row = &store.solutions[order[k]];
            assert(account_exists(store.accounts@, row.author));
            let a = find_account(&store.accounts, row.author);
            let acc = &store.accounts[a.unwrap()];
            let e = LeaderboardEntry {
                id: row.id,
                author_id: row.author,
                author_name: acc.username.clone(),
                author_avatar: acc.avatar.clone(),
                score: row.score,
            };
            assert(entry_of(e, store.solutions@[order@[k as int] as int], store.accounts@));
            out.push(e);
            k = k + 1;
        }
        out
    }
}

} // verus!
