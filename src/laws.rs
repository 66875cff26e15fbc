//! Properties that relate the results of several operations.
use vstd::prelude::*;
use crate::invalidation::{
    has_invalid, has_invalid_pair, invalid_of, lists_pair, invalidated_of, is_invalid_order,
    is_invalidated_list,
};
use crate::ranking::{entry_of, is_board_order, is_leaderboard, listed_before, on_board};
use crate::solutions::{is_best, of_triple, ranks_ahead, InvalidatedSolution, LeaderboardEntry};
use crate::store::{RecordStore, Verdict};

verus! {

/// Along a leaderboard's listing order, scores never decrease, and among
/// equal scores the improvement times never decrease.
pub proof fn lemma_board_order_sorted(
    store: RecordStore,
    challenge: i32,
    language: Seq<char>,
    order: Seq<usize>,
)
    requires
        is_board_order(store.solutions@, challenge, language, order),
    ensures
        forall|a: int, b: int|
            0 <= a < b < order.len() ==> {
                let x = store.solutions@[(#[trigger] order[a]) as int];
                let y = store.solutions@[(#[trigger] order[b]) as int];
                x.score < y.score || (x.score == y.score && x.last_improved_date
                    <= y.last_improved_date)
            },
{
    assert forall|a: int, b: int| 0 <= a < b < order.len() implies {
        let x = store.solutions@[(#[trigger] order[a]) as int];
        let y = store.solutions@[(#[trigger] order[b]) as int];
        x.score < y.score || (x.score == y.score && x.last_improved_date <= y.last_improved_date)
    } by {
        assert(listed_before(store.solutions@, order[a] as int, order[b] as int));
    }
}

/// The scores of a leaderboard's entries never decrease.
pub proof fn lemma_leaderboard_scores_sorted(
    store: RecordStore,
    challenge: i32,
    language: Seq<char>,
    out: Seq<LeaderboardEntry>,
)
    requires
        is_leaderboard(store, challenge, language, out),
    ensures
        forall|a: int, b: int| 0 <= a < b < out.len() ==> (#[trigger] out[a]).score <= (#[trigger] out[b]).score,
{
    let order = choose|order: Seq<usize>|
        is_board_order(store.solutions@, challenge, language, order) && order.len() == out.len()
            && forall|k: int|
            0 <= k < out.len() ==> entry_of(
                #[trigger] out[k],
                store.solutions@[order[k] as int],
                store.accounts@,
            );
    lemma_board_order_sorted(store, challenge, language, order);
    assert forall|a: int, b: int| 0 <= a < b < out.len() implies (#[trigger] out[a]).score
        <= (#[trigger] out[b]).score by {
        assert(entry_of(out[a], store.solutions@[order[a] as int], store.accounts@));
        assert(entry_of(out[b], store.solutions@[order[b] as int], store.accounts@));
    }
}

/// Every entry of a leaderboard stands for a valid solution of the pair: the
/// stored row with the entry's identifier is valid and matches the
/// challenge and the language.
pub proof fn lemma_leaderboard_only_valid(
    store: RecordStore,
    challenge: i32,
    language: Seq<char>,
    out: Seq<LeaderboardEntry>,
)
    requires
        store.wf(),
        is_leaderboard(store, challenge, language, out),
    ensures
        forall|k: int, i: int|
            0 <= k < out.len() && 0 <= i < store.solutions@.len() && (#[trigger] out[k]).id
                == (#[trigger] store.solutions@[i]).id ==> on_board(
                store.solutions@[i],
                challenge,
                language,
            ),
{
    let order = choose|order: Seq<usize>|
        is_board_order(store.solutions@, challenge, language, order) && order.len() == out.len()
            && forall|k: int|
            0 <= k < out.len() ==> entry_of(
                #[trigger] out[k],
                store.solutions@[order[k] as int],
                store.accounts@,
            );
    assert forall|k: int, i: int|
        0 <= k < out.len() && 0 <= i < store.solutions@.len() && (#[trigger] out[k]).id
            == (#[trigger] store.solutions@[i]).id implies on_board(
        store.solutions@[i],
        challenge,
        language,
    ) by {
        assert(entry_of(out[k], store.solutions@[order[k] as int], store.accounts@));
        let o = order[k] as int;
        assert(o < store.solutions@.len());
        if o != i {
            if o < i {
                assert(store.solutions@[o].id != store.solutions@[i].id);
            } else {
                assert(store.solutions@[i].id != store.solutions@[o].id);
            }
        }
    }
}

/// The list of invalidated solutions names exactly the (language,
/// challenge) pairs of the user's invalid rows, and it is non-empty exactly
/// when the user has an invalid row.
pub proof fn lemma_invalidated_list_exact(store: RecordStore, user: i32, out: Seq<InvalidatedSolution>)
    requires
        is_invalidated_list(store, user, out),
    ensures
        forall|language: Seq<char>, challenge: i32|
            #[trigger] lists_pair(out, language, challenge) <==> has_invalid_pair(
                store.solutions@,
                user,
                language,
                challenge,
            ),
        out.len() > 0 <==> has_invalid(store.solutions@, user),
{
    let rows = store.solutions@;
    let idx = choose|idx: Seq<usize>|
        is_invalid_order(rows, user, idx) && idx.len() == out.len() && forall|k: int|
            0 <= k < out.len() ==> invalidated_of(
                #[trigger] out[k],
                rows[idx[k] as int],
                store.challenges@,
            );
    assert forall|language: Seq<char>, challenge: i32|
        #[trigger] lists_pair(out, language, challenge) <==> has_invalid_pair(
            rows,
            user,
            language,
            challenge,
        ) by {
        if lists_pair(out, language, challenge) {
            let k = choose|k: int|
                0 <= k < out.len() && (#[trigger] out[k]).language@ == language
                    && out[k].challenge_id == challenge;
            assert(invalidated_of(out[k], rows[idx[k] as int], store.challenges@));
            assert(invalid_of(rows[idx[k] as int], user));
        }
        if has_invalid_pair(rows, user, language, challenge) {
            let i = choose|i: int|
                0 <= i < rows.len() && invalid_of(#[trigger] rows[i], user) && rows[i].language@
                    == language && rows[i].challenge == challenge;
            let k = choose|k: int| 0 <= k < idx.len() && idx[k] == i;
            assert(invalidated_of(out[k], rows[idx[k] as int], store.challenges@));
        }
    }
    if out.len() > 0 {
        assert(invalidated_of(out[0], rows[idx[0] as int], store.challenges@));
        assert(invalid_of(rows[idx[0] as int], user));
    }
    if has_invalid(rows, user) {
        let i = choose|i: int| 0 <= i < rows.len() && invalid_of(#[trigger] rows[i], user);
        let k = choose|k: int| 0 <= k < idx.len() && idx[k] == i;
    }
}

/// Submitting the same code twice, with the same deterministic verdict and
/// a clock that does not run backwards, stores two rows with equal score and
/// validity, and leaves the best row of the triple where it was.
pub proof fn lemma_duplicate_submission_keeps_best(
    pre: RecordStore,
    mid: RecordStore,
    post: RecordStore,
    account: i32,
    challenge: i32,
    language: Seq<char>,
    version: Seq<char>,
    code: Seq<char>,
    verdict: Verdict,
    first: i64,
    second: i64,
)
    requires
        RecordStore::appended(pre, mid, account, challenge, language, version, code, verdict, first),
        RecordStore::appended(mid, post, account, challenge, language, version, code, verdict, second),
        first <= second,
    ensures
        ({
            let n = mid.solutions@.len() as int;
            &&& post.solutions@[n - 1].score == post.solutions@[n].score
            &&& post.solutions@[n - 1].valid == post.solutions@[n].valid
        }),
        forall|i: int|
            is_best(mid.solutions@, i, account, challenge, language) <==> is_best(
                post.solutions@,
                i,
                account,
                challenge,
                language,
            ),
{
    let m = mid.solutions@;
    let p = post.solutions@;
    let n = m.len() as int;
    assert(p.subrange(0, n) == m);
    assert forall|j: int| 0 <= j < n implies p[j] == m[j] by {
        assert(p.subrange(0, n)[j] == p[j]);
    }
    assert(m.subrange(0, n - 1) == pre.solutions@);
    let r1 = m[n - 1];
    let r2 = p[n];
    assert(p[n - 1] == r1);
    assert(of_triple(r1, account, challenge, language));
    assert(of_triple(r2, account, challenge, language));
    assert(!ranks_ahead(r2, r1));
    assert forall|i: int| is_best(m, i, account, challenge, language) implies is_best(
        p,
        i,
        account,
        challenge,
        language,
    ) by {
        assert(!ranks_ahead(r1, m[i]));
        assert forall|j: int|
            0 <= j < n + 1 && of_triple(#[trigger] p[j], account, challenge, language) implies !ranks_ahead(p[j], p[i]) by {
            if j < n {
                assert(p[j] == m[j]);
            }
        }
        assert forall|j: int|
            0 <= j < i && of_triple(#[trigger] p[j], account, challenge, language) implies ranks_ahead(p[i], p[j]) by {
            assert(p[j] == m[j]);
        }
    }
    assert forall|i: int| is_best(p, i, account, challenge, language) implies is_best(
        m,
        i,
        account,
        challenge,
        language,
    ) by {
        if i == n {
            assert(of_triple(p[n - 1], account, challenge, language));
            assert(ranks_ahead(p[i], p[n - 1]));
        }
        assert forall|j: int|
            0 <= j < n && of_triple(#[trigger] m[j], account, challenge, language) implies !ranks_ahead(m[j], m[i]) by {
            assert(p[j] == m[j]);
        }
        assert forall|j: int|
            0 <= j < i && of_triple(#[trigger] m[j], account, challenge, language) implies ranks_ahead(m[i], m[j]) by {
            assert(p[j] == m[j]);
        }
    }
}

} // verus!
