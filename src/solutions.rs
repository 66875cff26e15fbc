//! Records of the solution store and the read-only projections built from them.
use vstd::prelude::*;

verus! {

/// The code submitted for a solution.
pub struct NewSolution {
    pub code: String,
}

/// One stored submission for a (author, challenge, language) triple.
///
/// `score` is lower-is-better; `last_improved_date` is a timestamp in
/// microseconds since the Unix epoch.
pub struct Solution {
    pub id: i32,
    pub language: String,
    pub version: String,
    pub challenge: i32,
    pub solution: NewSolution,
    pub author: i32,
    pub score: i32,
    pub valid: bool,
    pub last_improved_date: i64,
}

/// An account with its display attributes.
pub struct Account {
    pub id: i32,
    pub username: String,
    pub avatar: String,
}

/// A challenge; its grading criteria live outside this library.
pub struct Challenge {
    pub id: i32,
    pub name: String,
}

/// The best attempt of an account for one challenge and language.
pub struct Code {
    pub code: String,
    pub score: i32,
    pub id: i32,
    pub valid: bool,
    pub last_improved_date: i64,
}

/// One row of a leaderboard: a valid solution joined with its author.
pub struct LeaderboardEntry {
    pub id: i32,
    pub author_id: i32,
    pub author_name: String,
    pub author_avatar: String,
    pub score: i32,
}

/// A (language, challenge) pair whose stored solution is marked invalid.
pub struct InvalidatedSolution {
    pub language: String,
    pub challenge_id: i32,
    pub challenge_name: String,
}

/// The row belongs to the given (author, challenge, language) triple.
pub open spec fn of_triple(s: Solution, account: i32, challenge: i32, language: Seq<char>) -> bool {
    s.author == account && s.challenge == challenge && s.language@ == language
}

/// `a` ranks strictly ahead of `b`: a lower score, or an equal score
/// improved earlier.
pub open spec fn ranks_ahead(a: Solution, b: Solution) -> bool {
    a.score < b.score || (a.score == b.score && a.last_improved_date < b.last_improved_date)
}

/// Row `i` is the best of its triple among the first `n` rows: no row of the
/// triple ranks ahead of it, and every earlier row of the triple ranks behind
/// it (on a full tie the earliest stored row is chosen).
pub open spec fn is_best_among(
    rows: Seq<Solution>,
    n: int,
    i: int,
    account: i32,
    challenge: i32,
    language: Seq<char>,
) -> bool {
    &&& 0 <= i < n <= rows.len()
    &&& of_triple(rows[i], account, challenge, language)
    &&& forall|j: int|
        0 <= j < n && of_triple(#[trigger] rows[j], account, challenge, language) ==> !ranks_ahead(
            rows[j],
            rows[i],
        )
    &&& forall|j: int|
        0 <= j < i && of_triple(#[trigger] rows[j], account, challenge, language) ==> ranks_ahead(
            rows[i],
            rows[j],
        )
}

/// Row `i` is the best row of the triple in the whole store.
pub open spec fn is_best(
    rows: Seq<Solution>,
    i: int,
    account: i32,
    challenge: i32,
    language: Seq<char>,
) -> bool {
    is_best_among(rows, rows.len() as int, i, account, challenge, language)
}

/// The triple has at least one stored row.
pub open spec fn has_row(rows: Seq<Solution>, account: i32, challenge: i32, language: Seq<char>) -> bool {
    exists|j: int| 0 <= j < rows.len() && of_triple(#[trigger] rows[j], account, challenge, language)
}

/// `c` carries the fields of row `s`.
pub open spec fn code_of(c: Code, s: Solution) -> bool {
    &&& c.code@ == s.solution.code@
    &&& c.score == s.score
    &&& c.id == s.id
    &&& c.valid == s.valid
    &&& c.last_improved_date == s.last_improved_date
}

/// Whether `a` ranks strictly ahead of `b`.
pub fn ranks_ahead_exec(a: &Solution, b: &Solution) -> (r: bool)
    ensures
        r == ranks_ahead(*a, *b),
{
    a.score < b.score || (a.score == b.score && a.last_improved_date < b.last_improved_date)
}

/// Index of the best row of the triple, if the triple has any row.
pub fn best_index(rows: &Vec<Solution>, account: i32, challenge: i32, language: &String) -> (r:
    Option<usize>)
    ensures
        r is None <==> !has_row(rows@, account, challenge, language@),
        r matches Some(i) ==> is_best(rows@, i as int, account, challenge, language@),
{
    let mut best: Option<usize> = None;
    let mut i: usize = 0;
    while i < rows.len()
        invariant
            i <= rows.len(),
            best is None <==> forall|j: int|
                0 <= j < i ==> !of_triple(#[trigger] rows@[j], account, challenge, language@),
            best matches Some(b) ==> is_best_among(
                rows@,
                i as int,
                b as int,
                account,
                challenge,
                language@,
            ),
        decreases rows.len() - i,
    {
        let row = &rows[i];
        if row.author == account && row.challenge == challenge && row.language == *language {
            match best {
                None => {
                    best = Some(i);
                },
                Some(b) => {
                    if ranks_ahead_exec(row, &rows[b]) {
                        best = Some(i);
                    }
                },
            }
        }
        i = i + 1;
    }
    best
}

/// A triple has at most one best row.
pub proof fn lemma_best_unique(
    rows: Seq<Solution>,
    i: int,
    j: int,
    account: i32,
    challenge: i32,
    language: Seq<char>,
)
    requires
        is_best(rows, i, account, challenge, language),
        is_best(rows, j, account, challenge, language),
    ensures
        i == j,
{
    if i < j {
        assert(ranks_ahead(rows[j], rows[i]));
    } else if j < i {
        assert(ranks_ahead(rows[i], rows[j]));
    }
}

} // verus!
