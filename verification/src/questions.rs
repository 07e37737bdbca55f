//! The questionnaire pane's state, as plain data.
//!
//! One answer slot per category of the current knowledge base, each
//! holding the value the user has chosen so far, if any. Refreshing after
//! a re-parse resets every slot of the new catalog to "no selection";
//! what the user has confirmed so far is collected in slot order and
//! handed to the resolver.

use std::sync::Arc;

use vstd::prelude::*;

use crate::db::{assoc_set, has_key, keys_unique, lemma_key_at_unique, pairs_view, DB};
use crate::resolver::opt_string_view;

verus! {

/// View of the answer slots: category name and chosen value, if any.
pub open spec fn answers_view(a: Seq<(String, Option<String>)>) -> Seq<
    (Seq<char>, Option<Seq<char>>),
> {
    a.map_values(|p: (String, Option<String>)| (p.0@, opt_string_view(p.1)))
}

/// The slots after one refresh: every category of `keys` gets a slot with
/// no selection yet, in catalog order; slots of categories no longer
/// present remain untouched.
pub open spec fn reset_keys(
    m: Seq<(Seq<char>, Option<Seq<char>>)>,
    keys: Seq<Seq<char>>,
) -> Seq<(Seq<char>, Option<Seq<char>>)>
    decreases keys.len(),
{
    if keys.len() == 0 {
        m
    } else {
        assoc_set(reset_keys(m, keys.drop_last()), keys.last(), None)
    }
}

/// The category names of a catalog, in catalog order.
pub open spec fn cat_keys(cs: Seq<(Seq<char>, Seq<Seq<char>>)>) -> Seq<Seq<char>> {
    cs.map_values(|c: (Seq<char>, Seq<Seq<char>>)| c.0)
}

/// The affirmed pairs among the slots, in slot order.
pub open spec fn selected_pairs(a: Seq<(Seq<char>, Option<Seq<char>>)>) -> Seq<
    (Seq<char>, Seq<char>),
>
    decreases a.len(),
{
    if a.len() == 0 {
        Seq::empty()
    } else {
        match a.last().1 {
            Some(v) => selected_pairs(a.drop_last()).push((a.last().0, v)),
            None => selected_pairs(a.drop_last()),
        }
    }
}

/// The questionnaire pane's state: a handle on the current knowledge
/// base, one answer slot per category, the latest conclusion, and the
/// category the session is trying to resolve.
#[derive(Debug)]
pub struct Questions {
    pub db: Arc<DB>,
    pub is_searching: bool,
    pub answers: Vec<(String, Option<String>)>,
    pub result: Arc<String>,
    pub selected_category: Option<String>,
}

/// Resets the slot of category `k` to "no selection", adding the slot if
/// it is new.
fn answer_reset(m: &mut Vec<(String, Option<String>)>, k: String)
    requires
        keys_unique(answers_view(old(m)@)),
    ensures
        answers_view(final(m)@) == assoc_set(
            answers_view(old(m)@),
            k@,
            None::<Seq<char>>,
        ),
        keys_unique(answers_view(final(m)@)),
{
    let ghost m0 = answers_view(m@);
    let n = m.len();
    let mut i: usize = 0;
    while i < n
        invariant
            n == m@.len(),
            0 <= i <= n,
            m@ == old(m)@,
            keys_unique(m0),
            m0 == answers_view(m@),
            forall|j: int| 0 <= j < i ==> #[trigger] m0[j].0 != k@,
        decreases n - i,
    {
        if m[i].0 == k {
            assert(m0[i as int].0 == k@);
            proof {
                lemma_key_at_unique(m0, k@, i as int);
            }
            m[i] = (k, None);
            proof {
                assert(answers_view(m@) =~~= assoc_set(m0, k@, None::<Seq<char>>));
            }
            return ;
        }
        assert(m0[i as int].0 != k@);
        i = i + 1;
    }
    assert(!has_key(m0, k@));
    m.push((k, None));
    proof {
        assert(answers_view(m@) =~~= assoc_set(m0, k@, None::<Seq<char>>));
        assert forall|a: int, b: int|
            0 <= a < b < answers_view(m@).len() implies #[trigger] answers_view(m@)[a].0
            != #[trigger] answers_view(m@)[b].0 by {
            if b < m0.len() {
            } else {
                assert(answers_view(m@)[a].0 == m0[a].0);
            }
        }
    }
}

impl Questions {
    /// Forgets the session's target and gives every category of the
    /// current knowledge base a fresh, unanswered slot.
    pub fn refresh_categories(&mut self)
        requires
            keys_unique(answers_view(old(self).answers@)),
        ensures
            final(self).selected_category is None,
            answers_view(final(self).answers@) == reset_keys(
                answers_view(old(self).answers@),
                cat_keys(old(self).db@.categories),
            ),
            keys_unique(answers_view(final(self).answers@)),
            final(self).db == old(self).db,
            final(self).is_searching == old(self).is_searching,
            final(self).result == old(self).result,
    {
        self.selected_category = None;
        let ghost a0 = answers_view(self.answers@);
        let ghost keys = cat_keys(self.db@.categories);
        let n = self.db.categories.len();
        let mut i: usize = 0;
        while i < n
            invariant
                n == self.db@.categories.len(),
                0 <= i <= n,
                *self.db == *old(self).db,
                self.db == old(self).db,
                self.is_searching == old(self).is_searching,
                self.result == old(self).result,
                self.selected_category is None,
                keys == cat_keys(self.db@.categories),
                keys_unique(answers_view(self.answers@)),
                answers_view(self.answers@) == reset_keys(a0, keys.take(i as int)),
            decreases n - i,
        {
            let k = self.db.categories[i].0.clone();
            assert(k@ == keys[i as int]);
            answer_reset(&mut self.answers, k);
            proof {
                assert(keys.take(i + 1 as int).drop_last() =~= keys.take(i as int));
                assert(keys.take(i + 1 as int).last() == keys[i as int]);
            }
            i = i + 1;
        }
        proof {
            assert(keys.take(n as int) =~= keys);
        }
    }

    /// Records the user's choice for one category. Returns whether the
    /// category has a slot; without one, nothing changes.
    pub fn select_answer(&mut self, category: &str, answer: String) -> (found: bool)
        requires
            keys_unique(answers_view(old(self).answers@)),
        ensures
            found == has_key(answers_view(old(self).answers@), category@),
            found ==> answers_view(final(self).answers@) == assoc_set(
                answers_view(old(self).answers@),
                category@,
                Some(answer@),
            ),
            !found ==> final(self).answers@ == old(self).answers@,
            keys_unique(answers_view(final(self).answers@)),
            final(self).db == old(self).db,
            final(self).is_searching == old(self).is_searching,
            final(self).result == old(self).result,
            final(self).selected_category == old(self).selected_category,
    {
        let ghost a0 = answers_view(self.answers@);
        let cat = category.to_owned();
        let n = self.answers.len();
        let mut i: usize = 0;
        while i < n
            invariant
                n == self.answers@.len(),
                0 <= i <= n,
                *self == *old(self),
                cat@ == category@,
                keys_unique(a0),
                a0 == answers_view(self.answers@),
                forall|j: int| 0 <= j < i ==> #[trigger] a0[j].0 != category@,
            decreases n - i,
        {
            if self.answers[i].0 == cat {
                assert(a0[i as int].0 == category@);
                proof {
                    lemma_key_at_unique(a0, category@, i as int);
                }
                self.answers[i] = (cat, Some(answer));
                proof {
                    assert(answers_view(self.answers@) =~~= assoc_set(
                        a0,
                        category@,
                        Some(answer@),
                    ));
                    assert forall|a: int, b: int|
                        0 <= a < b < answers_view(self.answers@).len() implies #[trigger]
                    answers_view(self.answers@)[a].0 != #[trigger] answers_view(
                        self.answers@,
                    )[b].0 by {
                        assert(answers_view(self.answers@)[a].0 == a0[a].0);
                        assert(answers_view(self.answers@)[b].0 == a0[b].0);
                    }
                }
                return true;
            }
            assert(a0[i as int].0 != category@);
            i = i + 1;
        }
        assert(!has_key(a0, category@));
        false
    }

    /// The answers confirmed so far, in slot order: what a query hands to
    /// the resolver.
    pub fn selected_answers(&self) -> (r: Vec<(String, String)>)
        ensures
            pairs_view(r@) == selected_pairs(answers_view(self.answers@)),
    {
        let ghost av = answers_view(self.answers@);
        let mut r: Vec<(String, String)> = Vec::new();
        let n = self.answers.len();
        let mut i: usize = 0;
        while i < n
            invariant
                n == self.answers@.len(),
                0 <= i <= n,
                av == answers_view(self.answers@),
                pairs_view(r@) == selected_pairs(av.take(i as int)),
            decreases n - i,
        {
            let ghost r0 = pairs_view(r@);
            match &self.answers[i].1 {
                Some(v) => {
                    r.push((self.answers[i].0.clone(), v.clone()));
                    proof {
                        assert(pairs_view(r@) =~~= r0.push(
                            (av[i as int].0, av[i as int].1->0),
                        ));
                    }
                },
                None => {},
            }
            proof {
                assert(av.take(i + 1 as int).drop_last() =~= av.take(i as int));
                assert(av.take(i + 1 as int).last() == av[i as int]);
            }
            i = i + 1;
        }
        proof {
            assert(av.take(n as int) =~= av);
        }
        r
    }
}

impl Default for Questions {
    /// A questionnaire over an empty knowledge base: no slots, no target,
    /// no conclusion yet.
    fn default() -> (q: Self)
        ensures
            q.db@ =~~= crate::db::DbView::empty(),
            q.answers@.len() == 0,
            q.result@.len() == 0,
            q.selected_category is None,
            !q.is_searching,
    {
        Questions {
            db: Arc::new(DB::new()),
            is_searching: false,
            answers: Vec::new(),
            result: Arc::new(String::new()),
            selected_category: None,
        }
    }
}

} // verus!
