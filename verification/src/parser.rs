//! The executable parser, proved equal to the grammar of [`crate::grammar`].
//!
//! [`parse_db_from_file`] turns a whole source text into a knowledge base,
//! all or nothing: any grammar violation rejects the text with a
//! [`ParserError`] carrying a message and the 1-based (line, column) of the
//! first offending character, and no partial result is observable.

use std::rc::Rc;

use vstd::prelude::*;
use vstd::string::StrSliceExecFns;

use crate::db::{
    cat_registered, catalog_complete, cats_add, cats_add_all, entry_registered,
    lemma_cats_add_all_cons, lemma_cats_add_mono, lemma_cats_add_self, pairs_view, DbView, Entry,
    DB,
};
use crate::grammar::{
    atom_end, digits_end, is_delim, is_digit, is_ws, kw_advice, kw_change, kw_tip, line_start,
    newline_count, spec_atom, spec_attrs, spec_col, spec_entry, spec_file, spec_line, spec_note,
    spec_pair, spec_parse, trim_back, ws_end,
};

verus! {

/// Rejection of a source text: a human-readable message and the 1-based
/// (line, column) position of the first offending character.
#[derive(Debug)]
pub enum ParserError {
    Parse(Rc<String>, (usize, usize)),
}

fn is_ws_exec(c: char) -> (r: bool)
    ensures
        r == is_ws(c),
{
    c == ' ' || c == '\t' || c == '\r' || c == '\n'
}

fn is_delim_exec(c: char) -> (r: bool)
    ensures
        r == is_delim(c),
{
    c == ':' || c == ',' || c == ';' || c == '|' || c == '\n'
}

fn is_digit_exec(c: char) -> (r: bool)
    ensures
        r == is_digit(c),
{
    c == '0' || c == '1' || c == '2' || c == '3' || c == '4' || c == '5' || c == '6' || c == '7'
        || c == '8' || c == '9'
}

fn scan_ws(s: &str, i: usize) -> (r: usize)
    requires
        i <= s@.len(),
    ensures
        r as int == ws_end(s@, i as int),
        i <= r <= s@.len(),
{
    let len = s.unicode_len();
    let mut j = i;
    while j < len && is_ws_exec(s.get_char(j))
        invariant
            i <= j <= s@.len(),
            len == s@.len(),
            ws_end(s@, i as int) == ws_end(s@, j as int),
        decreases s@.len() - j,
    {
        j = j + 1;
    }
    j
}

fn scan_atom_end(s: &str, i: usize) -> (r: usize)
    requires
        i <= s@.len(),
    ensures
        r as int == atom_end(s@, i as int),
        i <= r <= s@.len(),
{
    let len = s.unicode_len();
    let mut j = i;
    while j < len && !is_delim_exec(s.get_char(j))
        invariant
            i <= j <= s@.len(),
            len == s@.len(),
            atom_end(s@, i as int) == atom_end(s@, j as int),
        decreases s@.len() - j,
    {
        j = j + 1;
    }
    j
}

fn scan_digits_end(s: &str, i: usize) -> (r: usize)
    requires
        i <= s@.len(),
    ensures
        r as int == digits_end(s@, i as int),
        i <= r <= s@.len(),
{
    let len = s.unicode_len();
    let mut j = i;
    while j < len && is_digit_exec(s.get_char(j))
        invariant
            i <= j <= s@.len(),
            len == s@.len(),
            digits_end(s@, i as int) == digits_end(s@, j as int),
        decreases s@.len() - j,
    {
        j = j + 1;
    }
    j
}

fn scan_trim(s: &str, a: usize, e: usize) -> (t: usize)
    requires
        a <= e <= s@.len(),
    ensures
        t as int == trim_back(s@, a as int, e as int),
        a <= t <= e,
{
    let mut j = e;
    while j > a && is_ws_exec(s.get_char(j - 1))
        invariant
            a <= j <= e <= s@.len(),
            trim_back(s@, a as int, e as int) == trim_back(s@, a as int, j as int),
        decreases j,
    {
        j = j - 1;
    }
    j
}

fn parse_atom(s: &str, i: usize) -> (res: Result<(String, usize), usize>)
    requires
        i <= s@.len(),
    ensures
        match res {
            Ok(te) => {
                &&& spec_atom(s@, i as int) == Ok::<(Seq<char>, int), int>((te.0@, te.1 as int))
                &&& i <= te.1 <= s@.len()
                &&& ws_end(s@, i as int) < te.1 as int
            },
            Err(ep) => {
                &&& spec_atom(s@, i as int) == Err::<(Seq<char>, int), int>(ep as int)
                &&& i <= ep <= s@.len()
            },
        },
{
    let a = scan_ws(s, i);
    let e = scan_atom_end(s, a);
    let t = scan_trim(s, a, e);
    if t == a {
        Err(a)
    } else {
        let txt = s.substring_char(a, t).to_owned();
        Ok((txt, e))
    }
}

fn parse_pair(s: &str, i: usize) -> (res: Result<((String, String), usize), usize>)
    requires
        i <= s@.len(),
    ensures
        match res {
            Ok(pq) => {
                &&& spec_pair(s@, i as int) == Ok::<((Seq<char>, Seq<char>), int), int>(
                    ((pq.0.0@, pq.0.1@), pq.1 as int),
                )
                &&& i < pq.1 <= s@.len()
            },
            Err(ep) => {
                &&& spec_pair(s@, i as int) == Err::<((Seq<char>, Seq<char>), int), int>(ep as int)
                &&& i <= ep <= s@.len()
            },
        },
{
    let len = s.unicode_len();
    match parse_atom(s, i) {
        Err(e) => Err(e),
        Ok((cat, j)) => {
            if j < len && s.get_char(j) == ':' {
                match parse_atom(s, j + 1) {
                    Err(e) => Err(e),
                    Ok((val, q)) => Ok(((cat, val), q)),
                }
            } else {
                Err(j)
            }
        },
    }
}

/// The attribute pairs of one entry, each registered in the catalog as it
/// is recognized, up to and past the `'|'` that announces the terminal pair.
fn parse_attrs(s: &str, i: usize, db: &mut DB) -> (res: Result<(Vec<(String, String)>, usize), usize>)
    requires
        i <= s@.len(),
        old(db)@.wf(),
    ensures
        match res {
            Ok(pr) => {
                &&& spec_attrs(s@, i as int) == Ok::<(Seq<(Seq<char>, Seq<char>)>, int), int>(
                    (pairs_view(pr.0@), pr.1 as int),
                )
                &&& i < pr.1 <= s@.len()
                &&& final(db)@.wf()
                &&& final(db)@.categories == cats_add_all(
                    old(db)@.categories,
                    pairs_view(pr.0@),
                )
                &&& final(db)@.entries == old(db)@.entries
                &&& final(db)@.questions == old(db)@.questions
                &&& final(db)@.changes == old(db)@.changes
                &&& final(db)@.tips == old(db)@.tips
                &&& forall|j: int|
                    0 <= j < pairs_view(pr.0@).len() ==> cat_registered(
                        final(db)@.categories,
                        #[trigger] pairs_view(pr.0@)[j],
                    )
                &&& forall|p: (Seq<char>, Seq<char>)|
                    #[trigger] cat_registered(old(db)@.categories, p) ==> cat_registered(
                        final(db)@.categories,
                        p,
                    )
            },
            Err(ep) => {
                &&& spec_attrs(s@, i as int) == Err::<(Seq<(Seq<char>, Seq<char>)>, int), int>(
                    ep as int,
                )
                &&& ep <= s@.len()
                &&& final(db)@.wf()
                &&& final(db)@.entries == old(db)@.entries
                &&& final(db)@.questions == old(db)@.questions
                &&& final(db)@.changes == old(db)@.changes
                &&& final(db)@.tips == old(db)@.tips
            },
        },
    decreases s@.len() - i,
{
    let ghost db0 = db@;
    let len = s.unicode_len();
    let a = scan_ws(s, i);
    if a < len && s.get_char(a) == '|' {
        let ps: Vec<(String, String)> = Vec::new();
        proof {
            assert(pairs_view(ps@) =~~= Seq::<(Seq<char>, Seq<char>)>::empty());
        }
        return Ok((ps, a + 1));
    }
    match parse_pair(s, a) {
        Err(e) => Err(e),
        Ok(((cat, val), q)) => {
            db.add_category(cat.as_str(), val.as_str());
            let ghost p = (cat@, val@);
            let ghost cats1 = db@.categories;
            let b = scan_ws(s, q);
            if b < len && s.get_char(b) == ',' {
                match parse_attrs(s, b + 1, db) {
                    Err(e) => Err(e),
                    Ok((mut rest, r)) => {
                        let ghost restv = pairs_view(rest@);
                        rest.insert(0, (cat, val));
                        proof {
                            assert(pairs_view(rest@) =~~= seq![p] + restv);
                            lemma_cats_add_all_cons(db0.categories, p, restv);
                            let pv = pairs_view(rest@);
                            let fc = db@.categories;
                            assert forall|j: int|
                                0 <= j < pv.len() implies cat_registered(
                                fc,
                                #[trigger] pv[j],
                            ) by {
                                if j == 0 {
                                    lemma_cats_add_self(db0.categories, p.0, p.1);
                                    assert(cat_registered(cats1, pv[0]));
                                } else {
                                    assert(pv[j] == restv[j - 1]);
                                    assert(cat_registered(fc, restv[j - 1]));
                                }
                            }
                            assert forall|pp: (Seq<char>, Seq<char>)|
                                #[trigger] cat_registered(db0.categories, pp) implies
                                cat_registered(fc, pp) by {
                                lemma_cats_add_mono(db0.categories, p.0, p.1, pp);
                                assert(cat_registered(cats1, pp));
                            }
                        }
                        Ok((rest, r))
                    },
                }
            } else if b < len && s.get_char(b) == '|' {
                let mut ps: Vec<(String, String)> = Vec::new();
                ps.push((cat, val));
                proof {
                    reveal_with_fuel(cats_add_all, 2);
                    assert(pairs_view(ps@) =~~= seq![p]);
                    assert(seq![p].drop_last() =~= Seq::<(Seq<char>, Seq<char>)>::empty());
                    assert(cats_add_all(db0.categories, seq![p]) == cats_add(
                        db0.categories,
                        p.0,
                        p.1,
                    ));
                    let pv = pairs_view(ps@);
                    let fc = db@.categories;
                    assert forall|j: int|
                        0 <= j < pv.len() implies cat_registered(fc, #[trigger] pv[j]) by {
                        lemma_cats_add_self(db0.categories, p.0, p.1);
                    }
                    assert forall|pp: (Seq<char>, Seq<char>)|
                        #[trigger] cat_registered(db0.categories, pp) implies cat_registered(
                        fc,
                        pp,
                    ) by {
                        lemma_cats_add_mono(db0.categories, p.0, p.1, pp);
                    }
                }
                Ok((ps, b + 1))
            } else {
                Err(b)
            }
        },
    }
}

/// One entry declaration, starting at the first digit of its identifier.
/// On success the knowledge base has gained the record and its catalog
/// pairs, exactly as [`spec_entry`] describes.
fn parse_entry(s: &str, i: usize, db: &mut DB) -> (res: Result<usize, usize>)
    requires
        i <= s@.len(),
        old(db)@.wf(),
    ensures
        match res {
            Ok(r) => {
                &&& spec_entry(s@, i as int, old(db)@) == Ok::<(DbView, int), int>(
                    (final(db)@, r as int),
                )
                &&& i < r <= s@.len()
                &&& final(db)@.wf()
                &&& catalog_complete(old(db)@) ==> catalog_complete(final(db)@)
            },
            Err(ep) => {
                &&& spec_entry(s@, i as int, old(db)@) == Err::<(DbView, int), int>(ep as int)
                &&& ep <= s@.len()
                &&& final(db)@.wf()
            },
        },
{
    let ghost db0 = db@;
    let len = s.unicode_len();
    let d = scan_digits_end(s, i);
    let c = scan_ws(s, d);
    if c == len || s.get_char(c) != ':' {
        return Err(c);
    }
    match parse_attrs(s, c + 1, db) {
        Err(e) => Err(e),
        Ok((pairs, p)) => match parse_pair(s, p) {
            Err(e) => Err(e),
            Ok(((tc, tv), q)) => {
                let r = scan_ws(s, q);
                if r < len && s.get_char(r) == ';' {
                    let ghost cats_a = db@.categories;
                    db.add_category(tc.as_str(), tv.as_str());
                    let ghost attrs = pairs_view(pairs@);
                    let ghost tcs = tc@;
                    let ghost tvs = tv@;
                    db.push_entry(Entry { value: tv, category: tc, categories: pairs });
                    proof {
                        assert(final(db)@ =~~= crate::grammar::db_after_entry(
                            db0,
                            attrs,
                            tcs,
                            tvs,
                        ));
                        if catalog_complete(db0) {
                            let dbf = db@;
                            assert forall|k: int|
                                0 <= k < dbf.entries.len() implies entry_registered(
                                dbf.categories,
                                #[trigger] dbf.entries[k],
                            ) by {
                                if k < db0.entries.len() {
                                    let e = db0.entries[k];
                                    assert(dbf.entries[k] == e);
                                    assert(entry_registered(db0.categories, e));
                                    assert(cat_registered(db0.categories, (e.category, e.value)));
                                    assert(cat_registered(cats_a, (e.category, e.value)));
                                    lemma_cats_add_mono(cats_a, tcs, tvs, (e.category, e.value));
                                    assert forall|j: int|
                                        0 <= j < e.categories.len() implies cat_registered(
                                        dbf.categories,
                                        #[trigger] e.categories[j],
                                    ) by {
                                        assert(cat_registered(db0.categories, e.categories[j]));
                                        assert(cat_registered(cats_a, e.categories[j]));
                                        lemma_cats_add_mono(cats_a, tcs, tvs, e.categories[j]);
                                    }
                                } else {
                                    let e = dbf.entries[k];
                                    assert(e.category == tcs && e.value == tvs
                                        && e.categories == attrs);
                                    lemma_cats_add_self(cats_a, tcs, tvs);
                                    assert forall|j: int|
                                        0 <= j < e.categories.len() implies cat_registered(
                                        dbf.categories,
                                        #[trigger] e.categories[j],
                                    ) by {
                                        assert(cat_registered(cats_a, attrs[j]));
                                        lemma_cats_add_mono(cats_a, tcs, tvs, attrs[j]);
                                    }
                                }
                            }
                        }
                    }
                    Ok(r + 1)
                } else {
                    Err(r)
                }
            },
        },
    }
}

/// The body shared by the three prompt declarations: one pair and the
/// closing `';'`, starting just past the keyword.
fn parse_note(s: &str, i: usize) -> (res: Result<((String, String), usize), usize>)
    requires
        i <= s@.len(),
    ensures
        match res {
            Ok(pr) => {
                &&& spec_note(s@, i as int) == Ok::<((Seq<char>, Seq<char>), int), int>(
                    ((pr.0.0@, pr.0.1@), pr.1 as int),
                )
                &&& i < pr.1 <= s@.len()
            },
            Err(ep) => {
                &&& spec_note(s@, i as int) == Err::<((Seq<char>, Seq<char>), int), int>(ep as int)
                &&& ep <= s@.len()
            },
        },
{
    let len = s.unicode_len();
    match parse_pair(s, i) {
        Err(e) => Err(e),
        Ok((p, q)) => {
            let r = scan_ws(s, q);
            if r < len && s.get_char(r) == ';' {
                Ok((p, r + 1))
            } else {
                Err(r)
            }
        },
    }
}

fn kw_advice_exec(s: &str, i: usize) -> (r: bool)
    requires
        i <= s@.len(),
    ensures
        r == kw_advice(s@, i as int),
{
    let len = s.unicode_len();
    if len - i < 6 {
        return false;
    }
    if s.get_char(i) == 'a' && s.get_char(i + 1) == 'd' && s.get_char(i + 2) == 'v' && s.get_char(
        i + 3,
    ) == 'i' && s.get_char(i + 4) == 'c' && s.get_char(i + 5) == 'e' {
        if i + 6 == len {
            true
        } else {
            is_ws_exec(s.get_char(i + 6))
        }
    } else {
        false
    }
}

fn kw_change_exec(s: &str, i: usize) -> (r: bool)
    requires
        i <= s@.len(),
    ensures
        r == kw_change(s@, i as int),
{
    let len = s.unicode_len();
    if len - i < 6 {
        return false;
    }
    if s.get_char(i) == 'c' && s.get_char(i + 1) == 'h' && s.get_char(i + 2) == 'a' && s.get_char(
        i + 3,
    ) == 'n' && s.get_char(i + 4) == 'g' && s.get_char(i + 5) == 'e' {
        if i + 6 == len {
            true
        } else {
            is_ws_exec(s.get_char(i + 6))
        }
    } else {
        false
    }
}

fn kw_tip_exec(s: &str, i: usize) -> (r: bool)
    requires
        i <= s@.len(),
    ensures
        r == kw_tip(s@, i as int),
{
    let len = s.unicode_len();
    if len - i < 3 {
        return false;
    }
    if s.get_char(i) == 't' && s.get_char(i + 1) == 'i' && s.get_char(i + 2) == 'p' {
        if i + 3 == len {
            true
        } else {
            is_ws_exec(s.get_char(i + 3))
        }
    } else {
        false
    }
}

/// The 1-based (line, column) of character index `e`.
fn line_col(s: &str, e: usize) -> (lc: (usize, usize))
    requires
        e <= s@.len(),
        s@.len() < usize::MAX,
    ensures
        lc.0 as int == spec_line(s@, e as int),
        lc.1 as int == spec_col(s@, e as int),
{
    let mut nl: usize = 0;
    let mut ls: usize = 0;
    let mut j: usize = 0;
    while j < e
        invariant
            j <= e <= s@.len(),
            s@.len() < usize::MAX,
            nl as int == newline_count(s@, j as int),
            ls as int == line_start(s@, j as int),
            nl <= j,
            ls <= j,
        decreases e - j,
    {
        if s.get_char(j) == '\n' {
            nl = nl + 1;
            ls = j + 1;
        }
        j = j + 1;
    }
    (nl + 1, e - ls + 1)
}

/// Wraps the index of the first offending character into a [`ParserError`].
fn syntax_error(s: &str, e: usize, msg: &str) -> (pe: ParserError)
    requires
        e <= s@.len(),
        s@.len() < usize::MAX,
        msg@.len() > 0,
    ensures
        pe matches ParserError::Parse(m, pos) && m@.len() > 0 && pos.0 as int == spec_line(
            s@,
            e as int,
        ) && pos.1 as int == spec_col(s@, e as int),
{
    let lc = line_col(s, e);
    ParserError::Parse(Rc::new(msg.to_owned()), lc)
}

/// Parses a whole source text into a knowledge base.
///
/// All or nothing: the result is `Ok` exactly when the text belongs to the
/// grammar, and the knowledge base is then the one the grammar ascribes to
/// the text. Otherwise the error reports the 1-based line and column of
/// the first offending character.
pub fn parse_db_from_file(contents: &str) -> (r: Result<DB, ParserError>)
    requires
        contents@.len() < usize::MAX,
    ensures
        match r {
            Ok(db) => spec_parse(contents@) == Ok::<DbView, int>(db@) && db@.wf()
                && catalog_complete(db@),
            Err(pe) => {
                &&& spec_parse(contents@) is Err
                &&& pe matches ParserError::Parse(m, pos) && m@.len() > 0 && pos.0 as int
                    == spec_line(contents@, spec_parse(contents@)->Err_0) && pos.1 as int
                    == spec_col(contents@, spec_parse(contents@)->Err_0)
            },
        },
{
    let len = contents.unicode_len();
    let mut db = DB::new();
    let mut pos: usize = 0;
    loop
        invariant
            pos <= len,
            len == contents@.len(),
            contents@.len() < usize::MAX,
            db@.wf(),
            catalog_complete(db@),
            spec_file(contents@, 0, DbView::empty()) == spec_file(contents@, pos as int, db@),
        decreases len - pos,
    {
        let ghost dbv = db@;
        let a = scan_ws(contents, pos);
        if a == len {
            return Ok(db);
        }
        let ch = contents.get_char(a);
        if is_digit_exec(ch) {
            match parse_entry(contents, a, &mut db) {
                Ok(r) => {
                    proof {
                        assert(spec_file(contents@, pos as int, dbv) == spec_file(
                            contents@,
                            r as int,
                            db@,
                        ));
                    }
                    pos = r;
                },
                Err(e) => {
                    proof {
                        reveal_strlit("malformed entry declaration");
                    }
                    return Err(syntax_error(contents, e, "malformed entry declaration"));
                },
            }
        } else if kw_advice_exec(contents, a) {
            match parse_note(contents, a + 6) {
                Ok((p, r)) => {
                    db.insert_question(p.0, p.1);
                    proof {
                        assert(spec_file(contents@, pos as int, dbv) == spec_file(
                            contents@,
                            r as int,
                            db@,
                        ));
                    }
                    pos = r;
                },
                Err(e) => {
                    proof {
                        reveal_strlit("malformed advice declaration");
                    }
                    return Err(syntax_error(contents, e, "malformed advice declaration"));
                },
            }
        } else if kw_change_exec(contents, a) {
            match parse_note(contents, a + 6) {
                Ok((p, r)) => {
                    db.insert_change(p.0, p.1);
                    proof {
                        assert(spec_file(contents@, pos as int, dbv) == spec_file(
                            contents@,
                            r as int,
                            db@,
                        ));
                    }
                    pos = r;
                },
                Err(e) => {
                    proof {
                        reveal_strlit("malformed change declaration");
                    }
                    return Err(syntax_error(contents, e, "malformed change declaration"));
                },
            }
        } else if kw_tip_exec(contents, a) {
            match parse_note(contents, a + 3) {
                Ok((p, r)) => {
                    db.insert_tip(p.0, p.1);
                    proof {
                        assert(spec_file(contents@, pos as int, dbv) == spec_file(
                            contents@,
                            r as int,
                            db@,
                        ));
                    }
                    pos = r;
                },
                Err(e) => {
                    proof {
                        reveal_strlit("malformed tip declaration");
                    }
                    return Err(syntax_error(contents, e, "malformed tip declaration"));
                },
            }
        } else {
            proof {
                reveal_strlit("expected a declaration");
            }
            return Err(syntax_error(contents, a, "expected a declaration"));
        }
    }
}

} // verus!
