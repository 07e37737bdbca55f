//! The two-phase query resolution algorithm.
//!
//! Phase 1 (constraint discovery) scans the records of the target category
//! and keeps every attribute pair of theirs that the caller's answers
//! affirm — the *confirmed constraints*. Phase 2 scans all records of the
//! whole knowledge base in source order and returns the value of the first
//! one whose attribute list carries every confirmed constraint. With no
//! confirmed constraint at all, the first record matches vacuously; that
//! fall-through is part of the algorithm and is stated, not hidden.

use vstd::prelude::*;

use crate::db::{pairs_view, DbView, EntryView, DB};

verus! {

/// Resolution failure: no record satisfies the confirmed constraints.
/// It echoes the query and the target it was asked about.
#[derive(Debug, PartialEq, Eq)]
pub struct NotFoundError {
    pub query: Vec<(String, String)>,
    pub target: Option<String>,
}

/// View of an optional borrowed category name.
pub open spec fn opt_str_view(t: Option<&String>) -> Option<Seq<char>> {
    match t {
        Some(s) => Some(s@),
        None => None,
    }
}

/// View of an optional owned category name.
pub open spec fn opt_string_view(t: Option<String>) -> Option<Seq<char>> {
    match t {
        Some(s) => Some(s@),
        None => None,
    }
}

/// View of a borrowed query list.
pub open spec fn ref_pairs_view(q: Seq<(&String, &String)>) -> Seq<(Seq<char>, Seq<char>)> {
    q.map_values(|p: (&String, &String)| (p.0@, p.1@))
}

/// Phase 1: the pair `p` is a confirmed constraint exactly when some
/// record of the target category lists it among its attributes and the
/// caller's answers contain it verbatim. Without a target category
/// nothing is ever confirmed.
pub open spec fn confirmed(
    db: DbView,
    target: Option<Seq<char>>,
    answers: Seq<(Seq<char>, Seq<char>)>,
    p: (Seq<char>, Seq<char>),
) -> bool {
    match target {
        Some(t) => answers.contains(p) && exists|i: int|
            0 <= i < db.entries.len() && (#[trigger] db.entries[i]).category == t
                && db.entries[i].categories.contains(p),
        None => false,
    }
}

/// Phase 2: a record matches when its attribute list carries every
/// confirmed constraint; attributes beyond the constraints are irrelevant.
pub open spec fn entry_matches(
    db: DbView,
    target: Option<Seq<char>>,
    answers: Seq<(Seq<char>, Seq<char>)>,
    e: EntryView,
) -> bool {
    forall|p: (Seq<char>, Seq<char>)|
        #[trigger] confirmed(db, target, answers, p) ==> e.categories.contains(p)
}

/// The value of the first matching record at or after index `i`.
pub open spec fn first_match_from(
    db: DbView,
    target: Option<Seq<char>>,
    answers: Seq<(Seq<char>, Seq<char>)>,
    i: int,
) -> Option<Seq<char>>
    decreases db.entries.len() - i,
    when 0 <= i <= db.entries.len()
{
    if i >= db.entries.len() {
        None
    } else if entry_matches(db, target, answers, db.entries[i]) {
        Some(db.entries[i].value)
    } else {
        first_match_from(db, target, answers, i + 1)
    }
}

/// What resolution returns: the value of the first matching record in
/// source order, if any record matches.
pub open spec fn resolve_spec(
    db: DbView,
    target: Option<Seq<char>>,
    answers: Seq<(Seq<char>, Seq<char>)>,
) -> Option<Seq<char>> {
    first_match_from(db, target, answers, 0)
}

/// Skipping a prefix free of matches does not change the result.
proof fn lemma_first_match_prefix(
    db: DbView,
    target: Option<Seq<char>>,
    answers: Seq<(Seq<char>, Seq<char>)>,
    k: int,
)
    requires
        0 <= k <= db.entries.len(),
        forall|i: int|
            0 <= i < k ==> !entry_matches(db, target, answers, #[trigger] db.entries[i]),
    ensures
        first_match_from(db, target, answers, 0) == first_match_from(db, target, answers, k),
    decreases k,
{
    if k > 0 {
        lemma_first_match_prefix(db, target, answers, k - 1);
    }
}

/// With no target category, no constraint is ever confirmed, so
/// resolution falls through to the first record of the knowledge base,
/// whatever it is.
pub proof fn lemma_vacuous_match(db: DbView)
    requires
        db.entries.len() > 0,
    ensures
        resolve_spec(db, Option::<Seq<char>>::None, Seq::<(Seq<char>, Seq<char>)>::empty())
            == Some(db.entries[0].value),
{
    assert(entry_matches(
        db,
        Option::<Seq<char>>::None,
        Seq::<(Seq<char>, Seq<char>)>::empty(),
        db.entries[0],
    ));
}

/// Whether the pair list contains the pair (`cat`, `val`) verbatim.
fn pairs_contain(ps: &Vec<(String, String)>, cat: &String, val: &String) -> (r: bool)
    ensures
        r == pairs_view(ps@).contains((cat@, val@)),
{
    let n = ps.len();
    let mut i: usize = 0;
    while i < n
        invariant
            n == ps@.len(),
            0 <= i <= n,
            forall|j: int| 0 <= j < i ==> #[trigger] pairs_view(ps@)[j] != (cat@, val@),
        decreases n - i,
    {
        if ps[i].0 == *cat && ps[i].1 == *val {
            assert(pairs_view(ps@)[i as int] == (cat@, val@));
            assert(pairs_view(ps@).contains((cat@, val@)));
            return true;
        }
        assert(pairs_view(ps@)[i as int] != (cat@, val@));
        i = i + 1;
    }
    false
}

/// Whether the borrowed query contains the pair (`cat`, `val`) verbatim.
fn query_contains(query: &Vec<(&String, &String)>, cat: &String, val: &String) -> (r: bool)
    ensures
        r == ref_pairs_view(query@).contains((cat@, val@)),
{
    let n = query.len();
    let mut i: usize = 0;
    while i < n
        invariant
            n == query@.len(),
            0 <= i <= n,
            forall|j: int| 0 <= j < i ==> #[trigger] ref_pairs_view(query@)[j] != (cat@, val@),
        decreases n - i,
    {
        if *query[i].0 == *cat && *query[i].1 == *val {
            assert(ref_pairs_view(query@)[i as int] == (cat@, val@));
            assert(ref_pairs_view(query@).contains((cat@, val@)));
            return true;
        }
        assert(ref_pairs_view(query@)[i as int] != (cat@, val@));
        i = i + 1;
    }
    false
}

/// Whether `attrs` carries every pair of `cps`.
fn contains_all(attrs: &Vec<(String, String)>, cps: &Vec<(String, String)>) -> (r: bool)
    ensures
        r == (forall|p: (Seq<char>, Seq<char>)|
            #[trigger] pairs_view(cps@).contains(p) ==> pairs_view(attrs@).contains(p)),
{
    let n = cps.len();
    let mut i: usize = 0;
    while i < n
        invariant
            n == cps@.len(),
            0 <= i <= n,
            forall|j: int|
                0 <= j < i ==> pairs_view(attrs@).contains(#[trigger] pairs_view(cps@)[j]),
        decreases n - i,
    {
        if !pairs_contain(attrs, &cps[i].0, &cps[i].1) {
            proof {
                let p = pairs_view(cps@)[i as int];
                assert(pairs_view(cps@).contains(p));
                assert(!pairs_view(attrs@).contains(p));
            }
            return false;
        }
        assert(pairs_view(attrs@).contains(pairs_view(cps@)[i as int]));
        i = i + 1;
    }
    proof {
        assert forall|p: (Seq<char>, Seq<char>)|
            #[trigger] pairs_view(cps@).contains(p) implies pairs_view(attrs@).contains(p) by {
            let j = choose|j: int| 0 <= j < pairs_view(cps@).len() && pairs_view(cps@)[j] == p;
            assert(pairs_view(attrs@).contains(pairs_view(cps@)[j]));
        }
    }
    true
}

impl DB {
    /// Two-phase resolution of a partially answered questionnaire, pure
    /// over the knowledge base: the result is the value of the first
    /// record, in source order, that carries every confirmed constraint,
    /// and `None` when no record does.
    pub fn find_value(
        &self,
        target_category: Option<&String>,
        query: Vec<(&String, &String)>,
    ) -> (r: Option<String>)
        ensures
            match r {
                Some(v) => resolve_spec(
                    self@,
                    opt_str_view(target_category),
                    ref_pairs_view(query@),
                ) == Some(v@),
                None => resolve_spec(
                    self@,
                    opt_str_view(target_category),
                    ref_pairs_view(query@),
                ) is None,
            },
    {
        let ghost dbv = self@;
        let ghost tgt = opt_str_view(target_category);
        let ghost ans = ref_pairs_view(query@);
        let mut sub: Vec<(String, String)> = Vec::new();
        if let Some(target_cat) = target_category {
            let n = self.entries.len();
            let mut ei: usize = 0;
            while ei < n
                invariant
                    n == self.entries@.len(),
                    0 <= ei <= n,
                    dbv == self@,
                    tgt == Some(target_cat@),
                    ans == ref_pairs_view(query@),
                    forall|p: (Seq<char>, Seq<char>)|
                        #[trigger] pairs_view(sub@).contains(p) ==> confirmed(dbv, tgt, ans, p),
                    forall|i: int, j: int|
                        0 <= i < ei && 0 <= j < dbv.entries[i].categories.len()
                            && dbv.entries[i].category == target_cat@ && ans.contains(
                            #[trigger] dbv.entries[i].categories[j],
                        ) ==> pairs_view(sub@).contains(dbv.entries[i].categories[j]),
                decreases n - ei,
            {
                if self.entries[ei].category == *target_cat {
                    let m = self.entries[ei].categories.len();
                    let mut aj: usize = 0;
                    while aj < m
                        invariant
                            n == self.entries@.len(),
                            0 <= ei < n,
                            m == self.entries@[ei as int].categories@.len(),
                            0 <= aj <= m,
                            dbv == self@,
                            tgt == Some(target_cat@),
                            ans == ref_pairs_view(query@),
                            dbv.entries[ei as int].category == target_cat@,
                            forall|p: (Seq<char>, Seq<char>)|
                                #[trigger] pairs_view(sub@).contains(p) ==> confirmed(
                                    dbv,
                                    tgt,
                                    ans,
                                    p,
                                ),
                            forall|i: int, j: int|
                                0 <= i < ei && 0 <= j < dbv.entries[i].categories.len()
                                    && dbv.entries[i].category == target_cat@ && ans.contains(
                                    #[trigger] dbv.entries[i].categories[j],
                                ) ==> pairs_view(sub@).contains(dbv.entries[i].categories[j]),
                            forall|j: int|
                                0 <= j < aj && ans.contains(
                                    #[trigger] dbv.entries[ei as int].categories[j],
                                ) ==> pairs_view(sub@).contains(
                                    dbv.entries[ei as int].categories[j],
                                ),
                        decreases m - aj,
                    {
                        let ghost subv0 = pairs_view(sub@);
                        let ghost pcur = dbv.entries[ei as int].categories[aj as int];
                        if query_contains(
                            &query,
                            &self.entries[ei].categories[aj].0,
                            &self.entries[ei].categories[aj].1,
                        ) {
                            let c = self.entries[ei].categories[aj].0.clone();
                            let v = self.entries[ei].categories[aj].1.clone();
                            sub.push((c, v));
                            proof {
                                assert(pairs_view(sub@) =~~= subv0.push(pcur));
                                assert(dbv.entries[ei as int].categories.contains(pcur));
                                assert(confirmed(dbv, tgt, ans, pcur));
                                assert forall|p: (Seq<char>, Seq<char>)|
                                    #[trigger] pairs_view(sub@).contains(p) implies confirmed(
                                    dbv,
                                    tgt,
                                    ans,
                                    p,
                                ) by {
                                    let x = choose|x: int|
                                        0 <= x < pairs_view(sub@).len() && pairs_view(sub@)[x]
                                            == p;
                                    if x < subv0.len() {
                                        assert(subv0.contains(p));
                                    } else {
                                        assert(p == pcur);
                                    }
                                }
                                assert(pairs_view(sub@).contains(pcur)) by {
                                    assert(pairs_view(sub@)[subv0.len() as int] == pcur);
                                }
                                assert forall|p: (Seq<char>, Seq<char>)|
                                    subv0.contains(p) implies pairs_view(sub@).contains(p) by {
                                    let x = choose|x: int|
                                        0 <= x < subv0.len() && subv0[x] == p;
                                    assert(pairs_view(sub@)[x] == p);
                                }
                            }
                        }
                        aj = aj + 1;
                    }
                }
                ei = ei + 1;
            }
            proof {
                assert forall|p: (Seq<char>, Seq<char>)|
                    #[trigger] pairs_view(sub@).contains(p) == confirmed(dbv, tgt, ans, p) by {
                    if confirmed(dbv, tgt, ans, p) {
                        let i = choose|i: int|
                            0 <= i < dbv.entries.len() && (#[trigger] dbv.entries[i]).category
                                == target_cat@ && dbv.entries[i].categories.contains(p);
                        let j = choose|j: int|
                            0 <= j < dbv.entries[i].categories.len() && dbv.entries[
                                i
                            ].categories[j] == p;
                        assert(ans.contains(dbv.entries[i].categories[j]));
                        assert(pairs_view(sub@).contains(dbv.entries[i].categories[j]));
                    }
                }
            }
        } else {
            proof {
                assert forall|p: (Seq<char>, Seq<char>)|
                    #[trigger] pairs_view(sub@).contains(p) == confirmed(dbv, tgt, ans, p) by {
                    assert(pairs_view(sub@).len() == 0);
                }
            }
        }
        let n2 = self.entries.len();
        let mut k: usize = 0;
        while k < n2
            invariant
                n2 == self.entries@.len(),
                0 <= k <= n2,
                dbv == self@,
                tgt == opt_str_view(target_category),
                ans == ref_pairs_view(query@),
                forall|p: (Seq<char>, Seq<char>)|
                    #[trigger] pairs_view(sub@).contains(p) == confirmed(dbv, tgt, ans, p),
                forall|i: int|
                    0 <= i < k ==> !entry_matches(dbv, tgt, ans, #[trigger] dbv.entries[i]),
            decreases n2 - k,
        {
            if contains_all(&self.entries[k].categories, &sub) {
                proof {
                    assert forall|p: (Seq<char>, Seq<char>)|
                        #[trigger] confirmed(dbv, tgt, ans, p) implies dbv.entries[
                        k as int
                    ].categories.contains(p) by {
                        assert(pairs_view(sub@).contains(p));
                        assert(pairs_view(self.entries@[k as int].categories@).contains(p));
                        assert(dbv.entries[k as int].categories == pairs_view(
                            self.entries@[k as int].categories@,
                        ));
                    }
                    assert(entry_matches(dbv, tgt, ans, dbv.entries[k as int]));
                    lemma_first_match_prefix(dbv, tgt, ans, k as int);
                }
                return Some(self.entries[k].value.clone());
            }
            proof {
                let attrs = dbv.entries[k as int].categories;
                assert(!(forall|p: (Seq<char>, Seq<char>)|
                    #[trigger] pairs_view(sub@).contains(p) ==> attrs.contains(p)));
                let p = choose|p: (Seq<char>, Seq<char>)|
                    pairs_view(sub@).contains(p) && !attrs.contains(p);
                assert(confirmed(dbv, tgt, ans, p));
                assert(!entry_matches(dbv, tgt, ans, dbv.entries[k as int]));
            }
            k = k + 1;
        }
        proof {
            lemma_first_match_prefix(dbv, tgt, ans, n2 as int);
        }
        None
    }
}

/// Clones a list of (category, value) pairs.
fn clone_pairs(v: &Vec<(String, String)>) -> (r: Vec<(String, String)>)
    ensures
        pairs_view(r@) == pairs_view(v@),
{
    let mut r: Vec<(String, String)> = Vec::new();
    let n = v.len();
    let mut i: usize = 0;
    while i < n
        invariant
            n == v@.len(),
            0 <= i <= n,
            r@.len() == i,
            forall|j: int|
                0 <= j < i ==> (#[trigger] r@[j]).0@ == v@[j].0@ && r@[j].1@ == v@[j].1@,
        decreases n - i,
    {
        r.push((v[i].0.clone(), v[i].1.clone()));
        i = i + 1;
    }
    proof {
        assert(pairs_view(r@) =~~= pairs_view(v@));
    }
    r
}

/// Resolves a questionnaire against a knowledge base: the conclusion of
/// the first record that carries every confirmed constraint, or a
/// [`NotFoundError`] echoing the query and the target when no record does.
pub fn resolve(
    db: &DB,
    target_category: Option<&String>,
    answers: &Vec<(String, String)>,
) -> (r: Result<String, NotFoundError>)
    ensures
        match r {
            Ok(v) => resolve_spec(db@, opt_str_view(target_category), pairs_view(answers@))
                == Some(v@),
            Err(nf) => {
                &&& resolve_spec(db@, opt_str_view(target_category), pairs_view(answers@))
                    is None
                &&& pairs_view(nf.query@) == pairs_view(answers@)
                &&& opt_string_view(nf.target) == opt_str_view(target_category)
            },
        },
{
    let mut refs: Vec<(&String, &String)> = Vec::new();
    let n = answers.len();
    let mut i: usize = 0;
    while i < n
        invariant
            n == answers@.len(),
            0 <= i <= n,
            refs@.len() == i,
            forall|j: int|
                0 <= j < i ==> (#[trigger] refs@[j]).0@ == answers@[j].0@ && refs@[j].1@
                    == answers@[j].1@,
        decreases n - i,
    {
        refs.push((&answers[i].0, &answers[i].1));
        i = i + 1;
    }
    proof {
        assert(ref_pairs_view(refs@) =~~= pairs_view(answers@));
    }
    match db.find_value(target_category, refs) {
        Some(v) => Ok(v),
        None => {
            let q = clone_pairs(answers);
            let t = match target_category {
                Some(s) => Some(s.clone()),
                None => None,
            };
            Err(NotFoundError { query: q, target: t })
        },
    }
}

} // verus!
