//! The in-memory knowledge base and its builder operations.
//!
//! A [`DB`] is built once per successful parse and never mutated afterwards.
//! Association lists (`Vec` of pairs with pairwise-distinct keys) stand in
//! for the maps of the data model, so that key order is the order of first
//! insertion and every operation has an exact mathematical description.

use vstd::prelude::*;

verus! {

/// Mathematical view of one knowledge-base record: a conclusion `value`,
/// a primary classification `category`, and the ordered attribute pairs
/// (kept under the field name `categories`).
#[verifier::ext_equal]
pub struct EntryView {
    pub value: Seq<char>,
    pub category: Seq<char>,
    pub categories: Seq<(Seq<char>, Seq<char>)>,
}

/// Mathematical view of a whole knowledge base.
#[verifier::ext_equal]
pub struct DbView {
    pub entries: Seq<EntryView>,
    pub categories: Seq<(Seq<char>, Seq<Seq<char>>)>,
    pub questions: Seq<(Seq<char>, Seq<char>)>,
    pub changes: Seq<(Seq<char>, Seq<char>)>,
    pub tips: Seq<(Seq<char>, Seq<char>)>,
}

/// One classified concept: its conclusion `value`, its classification
/// `category`, and its distinguishing attribute pairs in source order
/// (duplicates are legal here; only the catalog deduplicates).
#[derive(Debug)]
pub struct Entry {
    pub value: String,
    pub category: String,
    pub categories: Vec<(String, String)>,
}

/// The full immutable knowledge base.
///
/// `entries` keeps source declaration order, which is the only tie-break
/// during resolution. `categories` maps each category name to the distinct
/// values seen for it, in first-seen order. `questions`, `changes` and
/// `tips` map a category name to its latest declared text.
#[derive(Debug)]
pub struct DB {
    pub entries: Vec<Entry>,
    pub categories: Vec<(String, Vec<String>)>,
    pub questions: Vec<(String, String)>,
    pub changes: Vec<(String, String)>,
    pub tips: Vec<(String, String)>,
}

/// View of a list of (category, value) pairs.
pub open spec fn pairs_view(ps: Seq<(String, String)>) -> Seq<(Seq<char>, Seq<char>)> {
    ps.map_values(|p: (String, String)| (p.0@, p.1@))
}

/// View of the catalog list.
pub open spec fn cats_view(cs: Seq<(String, Vec<String>)>) -> Seq<(Seq<char>, Seq<Seq<char>>)> {
    cs.map_values(|c: (String, Vec<String>)| (c.0@, c.1@.map_values(|v: String| v@)))
}

impl View for Entry {
    type V = EntryView;

    open spec fn view(&self) -> EntryView {
        EntryView {
            value: self.value@,
            category: self.category@,
            categories: pairs_view(self.categories@),
        }
    }
}

impl View for DB {
    type V = DbView;

    open spec fn view(&self) -> DbView {
        DbView {
            entries: self.entries@.map_values(|e: Entry| e@),
            categories: cats_view(self.categories@),
            questions: pairs_view(self.questions@),
            changes: pairs_view(self.changes@),
            tips: pairs_view(self.tips@),
        }
    }
}

/// Whether some pair of `m` carries the key `k`.
pub open spec fn has_key<V>(m: Seq<(Seq<char>, V)>, k: Seq<char>) -> bool {
    exists|i: int| 0 <= i < m.len() && #[trigger] m[i].0 == k
}

/// An index of `m` carrying the key `k` (the index, once keys are distinct).
pub open spec fn key_at<V>(m: Seq<(Seq<char>, V)>, k: Seq<char>) -> int {
    choose|i: int| 0 <= i < m.len() && #[trigger] m[i].0 == k
}

/// The value stored under `k`, if any.
pub open spec fn assoc_get<V>(m: Seq<(Seq<char>, V)>, k: Seq<char>) -> Option<V> {
    if has_key(m, k) {
        Some(m[key_at(m, k)].1)
    } else {
        None
    }
}

/// Last-declaration-wins update of an association list.
pub open spec fn assoc_set<V>(m: Seq<(Seq<char>, V)>, k: Seq<char>, v: V) -> Seq<(Seq<char>, V)> {
    if has_key(m, k) {
        m.update(key_at(m, k), (k, v))
    } else {
        m.push((k, v))
    }
}

/// Last declaration wins, and nothing else moves: after an update the
/// key reads back the new text, every other key reads what it read
/// before, and keys stay pairwise distinct.
pub proof fn lemma_assoc_set_get<V>(m: Seq<(Seq<char>, V)>, k: Seq<char>, v: V)
    requires
        keys_unique(m),
    ensures
        keys_unique(assoc_set(m, k, v)),
        assoc_get(assoc_set(m, k, v), k) == Some(v),
        forall|k2: Seq<char>|
            k2 != k ==> #[trigger] assoc_get(assoc_set(m, k, v), k2) == assoc_get(m, k2),
{
    let m2 = assoc_set(m, k, v);
    if has_key(m, k) {
        let i = key_at(m, k);
        assert(0 <= i < m.len() && m[i].0 == k);
        assert forall|a: int, b: int|
            0 <= a < b < m2.len() implies #[trigger] m2[a].0 != #[trigger] m2[b].0 by {
            assert(m2[a].0 == m[a].0 && m2[b].0 == m[b].0);
        }
        lemma_key_at_unique(m2, k, i);
        assert forall|k2: Seq<char>|
            k2 != k implies #[trigger] assoc_get(m2, k2) == assoc_get(m, k2) by {
            if has_key(m, k2) {
                let j = key_at(m, k2);
                assert(0 <= j < m.len() && m[j].0 == k2);
                assert(j != i);
                assert(m2[j].0 == k2 && m2[j].1 == m[j].1);
                lemma_key_at_unique(m2, k2, j);
            } else if has_key(m2, k2) {
                let j = key_at(m2, k2);
                assert(0 <= j < m2.len() && m2[j].0 == k2);
                assert(j != i);
                assert(m[j].0 == k2);
            }
        }
    } else {
        let n = m.len() as int;
        assert(m2[n].0 == k);
        assert forall|a: int, b: int|
            0 <= a < b < m2.len() implies #[trigger] m2[a].0 != #[trigger] m2[b].0 by {
            if b < n {
            } else {
                assert(m2[a].0 == m[a].0);
            }
        }
        lemma_key_at_unique(m2, k, n);
        assert forall|k2: Seq<char>|
            k2 != k implies #[trigger] assoc_get(m2, k2) == assoc_get(m, k2) by {
            if has_key(m, k2) {
                let j = key_at(m, k2);
                assert(0 <= j < m.len() && m[j].0 == k2);
                assert(m2[j].0 == k2 && m2[j].1 == m[j].1);
                lemma_key_at_unique(m2, k2, j);
            } else if has_key(m2, k2) {
                let j = key_at(m2, k2);
                assert(0 <= j < m2.len() && m2[j].0 == k2);
                assert(j != n);
                assert(m[j].0 == k2);
            }
        }
    }
}

/// Registration of one (category, value) pair in the catalog: the value is
/// appended to its category's list unless already present there.
pub open spec fn cats_add(
    cs: Seq<(Seq<char>, Seq<Seq<char>>)>,
    k: Seq<char>,
    v: Seq<char>,
) -> Seq<(Seq<char>, Seq<Seq<char>>)> {
    if has_key(cs, k) {
        let i = key_at(cs, k);
        if cs[i].1.contains(v) {
            cs
        } else {
            cs.update(i, (cs[i].0, cs[i].1.push(v)))
        }
    } else {
        cs.push((k, seq![v]))
    }
}

/// Registration of a whole list of pairs, in order.
pub open spec fn cats_add_all(
    cs: Seq<(Seq<char>, Seq<Seq<char>>)>,
    ps: Seq<(Seq<char>, Seq<char>)>,
) -> Seq<(Seq<char>, Seq<Seq<char>>)>
    decreases ps.len(),
{
    if ps.len() == 0 {
        cs
    } else {
        cats_add(cats_add_all(cs, ps.drop_last()), ps.last().0, ps.last().1)
    }
}

/// Registering `p` and then a list `rest` equals registering the list
/// that starts with `p`.
pub proof fn lemma_cats_add_all_cons(
    cs: Seq<(Seq<char>, Seq<Seq<char>>)>,
    p: (Seq<char>, Seq<char>),
    rest: Seq<(Seq<char>, Seq<char>)>,
)
    ensures
        cats_add_all(cs, seq![p] + rest) == cats_add_all(cats_add(cs, p.0, p.1), rest),
    decreases rest.len(),
{
    reveal_with_fuel(cats_add_all, 2);
    let ps = seq![p] + rest;
    if rest.len() == 0 {
        assert(ps.drop_last() =~= Seq::<(Seq<char>, Seq<char>)>::empty());
        assert(ps.last() == p);
    } else {
        lemma_cats_add_all_cons(cs, p, rest.drop_last());
        assert(ps.drop_last() =~= seq![p] + rest.drop_last());
        assert(ps.last() == rest.last());
    }
}

/// The pair `p` is on record in the catalog: `p.1` is listed among the
/// values of category `p.0`.
pub open spec fn cat_registered(
    cs: Seq<(Seq<char>, Seq<Seq<char>>)>,
    p: (Seq<char>, Seq<char>),
) -> bool {
    exists|i: int| 0 <= i < cs.len() && (#[trigger] cs[i]).0 == p.0 && cs[i].1.contains(p.1)
}

/// Every pair of the record `e` — its own classification and each of its
/// attribute pairs — is on record in the catalog `cs`.
pub open spec fn entry_registered(cs: Seq<(Seq<char>, Seq<Seq<char>>)>, e: EntryView) -> bool {
    &&& cat_registered(cs, (e.category, e.value))
    &&& forall|j: int|
        0 <= j < e.categories.len() ==> cat_registered(cs, #[trigger] e.categories[j])
}

/// Catalog completeness: every (category, value) pair appearing in any
/// record of the knowledge base also appears in its catalog.
pub open spec fn catalog_complete(db: DbView) -> bool {
    forall|k: int|
        0 <= k < db.entries.len() ==> entry_registered(db.categories, #[trigger] db.entries[k])
}

/// Registering one more pair keeps every pair already on record.
pub proof fn lemma_cats_add_mono(
    cs: Seq<(Seq<char>, Seq<Seq<char>>)>,
    k: Seq<char>,
    v: Seq<char>,
    p: (Seq<char>, Seq<char>),
)
    requires
        cat_registered(cs, p),
    ensures
        cat_registered(cats_add(cs, k, v), p),
{
    let x = choose|i: int|
        0 <= i < cs.len() && (#[trigger] cs[i]).0 == p.0 && cs[i].1.contains(p.1);
    let cs2 = cats_add(cs, k, v);
    if has_key(cs, k) {
        let i = key_at(cs, k);
        if cs[i].1.contains(v) {
        } else {
            if x == i {
                let xi = choose|j: int| 0 <= j < cs[x].1.len() && cs[x].1[j] == p.1;
                assert(cs2[x].1[xi] == p.1);
                assert(cs2[x].0 == p.0 && cs2[x].1.contains(p.1));
            } else {
                assert(cs2[x].0 == p.0 && cs2[x].1.contains(p.1));
            }
        }
    } else {
        assert(cs2[x].0 == p.0 && cs2[x].1.contains(p.1));
    }
}

/// Registering a pair puts it on record.
pub proof fn lemma_cats_add_self(cs: Seq<(Seq<char>, Seq<Seq<char>>)>, k: Seq<char>, v: Seq<char>)
    ensures
        cat_registered(cats_add(cs, k, v), (k, v)),
{
    let cs2 = cats_add(cs, k, v);
    if has_key(cs, k) {
        let i = key_at(cs, k);
        assert(0 <= i < cs.len() && cs[i].0 == k);
        if cs[i].1.contains(v) {
            assert(cs2[i].0 == k && cs2[i].1.contains(v));
        } else {
            assert(cs2[i].1[cs[i].1.len() as int] == v);
            assert(cs2[i].0 == k && cs2[i].1.contains(v));
        }
    } else {
        let n = cs.len() as int;
        assert(cs2[n].0 == k);
        assert(cs2[n].1[0] == v);
        assert(cs2[n].1.contains(v));
    }
}

/// Pairwise-distinct keys: what makes an association list a map.
pub open spec fn keys_unique<V>(m: Seq<(Seq<char>, V)>) -> bool {
    forall|i: int, j: int| 0 <= i < j < m.len() ==> #[trigger] m[i].0 != #[trigger] m[j].0
}

/// No value repeats within one category's list.
pub open spec fn values_distinct(vs: Seq<Seq<char>>) -> bool {
    forall|i: int, j: int| 0 <= i < j < vs.len() ==> #[trigger] vs[i] != #[trigger] vs[j]
}

/// Well-formedness of the catalog: distinct keys, and a non-empty,
/// duplicate-free value list under each key.
pub open spec fn cats_wf(cs: Seq<(Seq<char>, Seq<Seq<char>>)>) -> bool {
    &&& keys_unique(cs)
    &&& forall|i: int|
        0 <= i < cs.len() ==> (#[trigger] cs[i]).1.len() > 0 && values_distinct(cs[i].1)
}

impl DbView {
    /// The knowledge base with nothing in it.
    pub open spec fn empty() -> DbView {
        DbView {
            entries: Seq::empty(),
            categories: Seq::empty(),
            questions: Seq::empty(),
            changes: Seq::empty(),
            tips: Seq::empty(),
        }
    }

    /// Invariant of every knowledge base this crate builds.
    pub open spec fn wf(self) -> bool {
        &&& cats_wf(self.categories)
        &&& keys_unique(self.questions)
        &&& keys_unique(self.changes)
        &&& keys_unique(self.tips)
    }
}

impl DB {
    /// An empty knowledge base.
    pub fn new() -> (d: Self)
        ensures
            d@ =~~= DbView::empty(),
            d@.wf(),
    {
        Self {
            entries: Vec::new(),
            categories: Vec::new(),
            questions: Vec::new(),
            changes: Vec::new(),
            tips: Vec::new(),
        }
    }
}

/// The chosen index of `key_at` is the one found index once keys are
/// pairwise distinct.
pub proof fn lemma_key_at_unique<V>(m: Seq<(Seq<char>, V)>, k: Seq<char>, i: int)
    requires
        keys_unique(m),
        0 <= i < m.len(),
        m[i].0 == k,
    ensures
        has_key(m, k),
        key_at(m, k) == i,
{
    assert(has_key(m, k));
    let j = key_at(m, k);
    if j < i {
        assert(m[j].0 != m[i].0);
    } else if (i < j) {
        assert(m[i].0 != m[j].0);
    }
}

/// Last-declaration-wins insertion into an association list.
fn assoc_insert(m: &mut Vec<(String, String)>, k: String, v: String)
    requires
        keys_unique(pairs_view(old(m)@)),
    ensures
        pairs_view(final(m)@) == assoc_set(pairs_view(old(m)@), k@, v@),
        keys_unique(pairs_view(final(m)@)),
{
    let ghost m0 = pairs_view(m@);
    let n = m.len();
    let mut i: usize = 0;
    while i < n
        invariant
            n == m@.len(),
            0 <= i <= n,
            m@ == old(m)@,
            keys_unique(m0),
            m0 == pairs_view(m@),
            forall|j: int| 0 <= j < i ==> #[trigger] m0[j].0 != k@,
        decreases n - i,
    {
        if m[i].0 == k {
            assert(m0[i as int].0 == k@);
            proof {
                lemma_key_at_unique(m0, k@, i as int);
            }
            m[i] = (k, v);
            proof {
                assert(pairs_view(m@) =~~= assoc_set(m0, k@, v@));
            }
            return ;
        }
        assert(m0[i as int].0 != k@);
        i = i + 1;
    }
    assert(!has_key(m0, k@));
    m.push((k, v));
    proof {
        assert(pairs_view(m@) =~~= assoc_set(m0, k@, v@));
        assert forall|a: int, b: int|
            0 <= a < b < pairs_view(m@).len() implies #[trigger] pairs_view(m@)[a].0
            != #[trigger] pairs_view(m@)[b].0 by {
            if b < m0.len() {
            } else {
                assert(pairs_view(m@)[a].0 == m0[a].0);
            }
        }
    }
}

impl DB {
    /// Registers one (category, value) pair in the catalog: the value is
    /// appended under its category unless that category already lists it.
    pub fn add_category(&mut self, category: &str, value: &str)
        requires
            cats_wf(old(self)@.categories),
        ensures
            final(self)@.categories == cats_add(old(self)@.categories, category@, value@),
            cats_wf(final(self)@.categories),
            final(self)@.entries == old(self)@.entries,
            final(self)@.questions == old(self)@.questions,
            final(self)@.changes == old(self)@.changes,
            final(self)@.tips == old(self)@.tips,
    {
        let ghost cs0 = cats_view(self.categories@);
        let cat = category.to_owned();
        let n = self.categories.len();
        let mut i: usize = 0;
        while i < n
            invariant
                n == self.categories@.len(),
                0 <= i <= n,
                *self == *old(self),
                cat@ == category@,
                cats_wf(cs0),
                cs0 == cats_view(self.categories@),
                forall|j: int| 0 <= j < i ==> #[trigger] cs0[j].0 != category@,
            decreases n - i,
        {
            if self.categories[i].0 == cat {
                assert(cs0[i as int].0 == category@);
                proof {
                    lemma_key_at_unique(cs0, category@, i as int);
                }
                let val = value.to_owned();
                let vn = self.categories[i].1.len();
                let mut l: usize = 0;
                while l < vn
                    invariant
                        0 <= i < self.categories@.len(),
                        vn == self.categories@[i as int].1@.len(),
                        0 <= l <= vn,
                        *self == *old(self),
                        val@ == value@,
                        cats_wf(cs0),
                        has_key(cs0, category@),
                        key_at(cs0, category@) == i as int,
                        cs0[i as int].0 == category@,
                        cs0 == cats_view(self.categories@),
                        forall|j: int|
                            0 <= j < l ==> #[trigger] cs0[i as int].1[j] != value@,
                    decreases vn - l,
                {
                    if self.categories[i].1[l] == val {
                        assert(cs0[i as int].1[l as int] == value@);
                        assert(cs0[i as int].1.contains(value@));
                        assert(cats_add(cs0, category@, value@) == cs0);
                        return ;
                    }
                    assert(cs0[i as int].1[l as int] != value@);
                    l = l + 1;
                }
                assert(!cs0[i as int].1.contains(value@));
                self.categories[i].1.push(val);
                proof {
                    let cs1 = cats_view(self.categories@);
                    assert(cs1 =~~= cats_add(cs0, category@, value@));
                    assert forall|a: int, b: int| 0 <= a < b < cs1.len() implies #[trigger] cs1[a].0
                        != #[trigger] cs1[b].0 by {
                        assert(cs1[a].0 == cs0[a].0);
                        assert(cs1[b].0 == cs0[b].0);
                    }
                    assert forall|a: int| 0 <= a < cs1.len() implies (#[trigger] cs1[a]).1.len() > 0
                        && values_distinct(cs1[a].1) by {
                        if a == i as int {
                            let vs = cs1[a].1;
                            assert forall|x: int, y: int|
                                0 <= x < y < vs.len() implies #[trigger] vs[x]
                                != #[trigger] vs[y] by {
                                if y == vs.len() - 1 {
                                    assert(vs[x] == cs0[i as int].1[x]);
                                    assert(cs0[i as int].1[x] != value@);
                                }
                            }
                        }
                    }
                }
                return ;
            }
            assert(cs0[i as int].0 != category@);
            i = i + 1;
        }
        assert(!has_key(cs0, category@));
        let mut vals: Vec<String> = Vec::new();
        vals.push(value.to_owned());
        self.categories.push((cat, vals));
        proof {
            let cs1 = cats_view(self.categories@);
            assert(cs1 =~~= cats_add(cs0, category@, value@));
            assert forall|a: int, b: int| 0 <= a < b < cs1.len() implies #[trigger] cs1[a].0
                != #[trigger] cs1[b].0 by {
                if b < cs0.len() {
                } else {
                    assert(cs1[a].0 == cs0[a].0);
                }
            }
        }
    }

    /// Registers the prompt text shown for a category (last declaration wins).
    pub(crate) fn insert_question(&mut self, category: String, text: String)
        requires
            keys_unique(old(self)@.questions),
        ensures
            final(self)@.questions == assoc_set(old(self)@.questions, category@, text@),
            keys_unique(final(self)@.questions),
            final(self)@.entries == old(self)@.entries,
            final(self)@.categories == old(self)@.categories,
            final(self)@.changes == old(self)@.changes,
            final(self)@.tips == old(self)@.tips,
    {
        assoc_insert(&mut self.questions, category, text);
    }

    /// Registers the change note kept for a category (last declaration wins).
    pub(crate) fn insert_change(&mut self, category: String, text: String)
        requires
            keys_unique(old(self)@.changes),
        ensures
            final(self)@.changes == assoc_set(old(self)@.changes, category@, text@),
            keys_unique(final(self)@.changes),
            final(self)@.entries == old(self)@.entries,
            final(self)@.categories == old(self)@.categories,
            final(self)@.questions == old(self)@.questions,
            final(self)@.tips == old(self)@.tips,
    {
        assoc_insert(&mut self.changes, category, text);
    }

    /// Registers the tip text kept for a category (last declaration wins).
    pub(crate) fn insert_tip(&mut self, category: String, text: String)
        requires
            keys_unique(old(self)@.tips),
        ensures
            final(self)@.tips == assoc_set(old(self)@.tips, category@, text@),
            keys_unique(final(self)@.tips),
            final(self)@.entries == old(self)@.entries,
            final(self)@.categories == old(self)@.categories,
            final(self)@.questions == old(self)@.questions,
            final(self)@.changes == old(self)@.changes,
    {
        assoc_insert(&mut self.tips, category, text);
    }

    /// Appends one finished record to the knowledge base.
    pub(crate) fn push_entry(&mut self, e: Entry)
        ensures
            final(self)@.entries == old(self)@.entries.push(e@),
            final(self)@.categories == old(self)@.categories,
            final(self)@.questions == old(self)@.questions,
            final(self)@.changes == old(self)@.changes,
            final(self)@.tips == old(self)@.tips,
    {
        let ghost e0 = self@.entries;
        self.entries.push(e);
        proof {
            assert(self@.entries =~~= e0.push(self.entries@.last()@));
        }
    }
}

impl Default for DB {
    fn default() -> (d: Self)
        ensures
            d@ =~~= DbView::empty(),
            d@.wf(),
    {
        DB::new()
    }
}

} // verus!
