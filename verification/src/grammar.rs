//! The input grammar, stated as specification functions over `Seq<char>`.
//!
//! Concrete syntax, with blanks free between tokens:
//!
//! ```text
//! file    ::=  decl* end-of-input
//! decl    ::=  entry | advice | change | tip
//! entry   ::=  number ':' attrs '|' pair ';'
//! attrs   ::=  (nothing) | pair (',' pair)*
//! advice  ::=  "advice" pair ';'
//! change  ::=  "change" pair ';'
//! tip     ::=  "tip" pair ';'
//! pair    ::=  atom ':' atom
//! ```
//!
//! An atom is a non-empty run of characters free of `:`, `,`, `;`, `|` and
//! line breaks, with surrounding blanks dropped, so a category name or a
//! value may carry inner spaces. A keyword must be followed by a blank or
//! by the end of the input. The numeric identifier of an entry serves only
//! the author of the source text; it is checked and discarded.
//!
//! Every parsing function either succeeds with what it recognized and the
//! index just past it, or fails with the index of the first offending
//! character. [`spec_line`] and [`spec_col`] turn such an index into the
//! 1-based position that a syntax error reports.

use vstd::prelude::*;

use crate::db::{assoc_set, cats_add, cats_add_all, DbView, EntryView};

verus! {

/// A blank: space, tab, carriage return or line feed.
pub open spec fn is_ws(c: char) -> bool {
    c == ' ' || c == '\t' || c == '\r' || c == '\n'
}

/// A character that ends an atom.
pub open spec fn is_delim(c: char) -> bool {
    c == ':' || c == ',' || c == ';' || c == '|' || c == '\n'
}

/// A decimal digit.
pub open spec fn is_digit(c: char) -> bool {
    c == '0' || c == '1' || c == '2' || c == '3' || c == '4' || c == '5' || c == '6' || c == '7'
        || c == '8' || c == '9'
}

/// Index of the first non-blank character at or after `i`.
pub open spec fn ws_end(s: Seq<char>, i: int) -> int
    decreases s.len() - i,
    when 0 <= i <= s.len()
{
    if i < s.len() && is_ws(s[i]) {
        ws_end(s, i + 1)
    } else {
        i
    }
}

/// Index of the first atom-ending character at or after `i`.
pub open spec fn atom_end(s: Seq<char>, i: int) -> int
    decreases s.len() - i,
    when 0 <= i <= s.len()
{
    if i < s.len() && !is_delim(s[i]) {
        atom_end(s, i + 1)
    } else {
        i
    }
}

/// Index of the first non-digit character at or after `i`.
pub open spec fn digits_end(s: Seq<char>, i: int) -> int
    decreases s.len() - i,
    when 0 <= i <= s.len()
{
    if i < s.len() && is_digit(s[i]) {
        digits_end(s, i + 1)
    } else {
        i
    }
}

/// `j` moved back over the blanks of `s[i..j]`.
pub open spec fn trim_back(s: Seq<char>, i: int, j: int) -> int
    decreases j - i,
    when 0 <= i <= j <= s.len()
{
    if j > i && is_ws(s[j - 1]) {
        trim_back(s, i, j - 1)
    } else {
        j
    }
}

/// One atom at `i` (leading blanks skipped, trailing blanks dropped).
/// Fails where the atom would be empty.
pub open spec fn spec_atom(s: Seq<char>, i: int) -> Result<(Seq<char>, int), int>
    recommends
        0 <= i <= s.len(),
{
    let a = ws_end(s, i);
    let e = atom_end(s, a);
    let t = trim_back(s, a, e);
    if t == a {
        Err(a)
    } else {
        Ok((s.subrange(a, t), e))
    }
}

/// One `category : value` pair at `i`.
pub open spec fn spec_pair(s: Seq<char>, i: int) -> Result<((Seq<char>, Seq<char>), int), int>
    recommends
        0 <= i <= s.len(),
{
    match spec_atom(s, i) {
        Err(e) => Err(e),
        Ok((cat, j)) => if j < s.len() && s[j] == ':' {
            match spec_atom(s, j + 1) {
                Err(e) => Err(e),
                Ok((val, q)) => Ok(((cat, val), q)),
            }
        } else {
            Err(j)
        },
    }
}

/// The attribute list of an entry, up to and including the `'|'` that
/// announces the terminal pair.
pub open spec fn spec_attrs(s: Seq<char>, i: int) -> Result<
    (Seq<(Seq<char>, Seq<char>)>, int),
    int,
>
    decreases s.len() - i,
    when 0 <= i <= s.len()
{
    let a = ws_end(s, i);
    if a < s.len() && s[a] == '|' {
        Ok((Seq::empty(), a + 1))
    } else {
        match spec_pair(s, a) {
            Err(e) => Err(e),
            Ok((p, q)) => {
                let b = ws_end(s, q);
                if b < s.len() && s[b] == ',' {
                    if i < b + 1 <= s.len() {
                        match spec_attrs(s, b + 1) {
                            Err(e) => Err(e),
                            Ok((rest, r)) => Ok((seq![p] + rest, r)),
                        }
                    } else {
                        Err(b)
                    }
                } else if b < s.len() && s[b] == '|' {
                    Ok((seq![p], b + 1))
                } else {
                    Err(b)
                }
            },
        }
    }
}

/// What one entry declaration adds to the knowledge base: every attribute
/// pair and the terminal pair enter the catalog, in that order, and the
/// record itself is appended.
pub open spec fn db_after_entry(
    db: DbView,
    attrs: Seq<(Seq<char>, Seq<char>)>,
    tc: Seq<char>,
    tv: Seq<char>,
) -> DbView {
    DbView {
        entries: db.entries.push(EntryView { value: tv, category: tc, categories: attrs }),
        categories: cats_add(cats_add_all(db.categories, attrs), tc, tv),
        ..db
    }
}

/// One entry declaration at `i`, where `s[i]` is the first digit of its
/// numeric identifier.
pub open spec fn spec_entry(s: Seq<char>, i: int, db: DbView) -> Result<(DbView, int), int>
    recommends
        0 <= i <= s.len(),
{
    let d = digits_end(s, i);
    let c = ws_end(s, d);
    if !(c < s.len() && s[c] == ':') {
        Err(c)
    } else {
        match spec_attrs(s, c + 1) {
            Err(e) => Err(e),
            Ok((attrs, p)) => match spec_pair(s, p) {
                Err(e) => Err(e),
                Ok(((tc, tv), q)) => {
                    let r = ws_end(s, q);
                    if r < s.len() && s[r] == ';' {
                        Ok((db_after_entry(db, attrs, tc, tv), r + 1))
                    } else {
                        Err(r)
                    }
                },
            },
        }
    }
}

/// The body shared by the three prompt declarations: a pair and the
/// closing `';'`, starting just past the keyword.
pub open spec fn spec_note(s: Seq<char>, i: int) -> Result<((Seq<char>, Seq<char>), int), int>
    recommends
        0 <= i <= s.len(),
{
    match spec_pair(s, i) {
        Err(e) => Err(e),
        Ok((p, q)) => {
            let r = ws_end(s, q);
            if r < s.len() && s[r] == ';' {
                Ok((p, r + 1))
            } else {
                Err(r)
            }
        },
    }
}

/// The keyword `advice` at `i`, followed by a blank or the end.
pub open spec fn kw_advice(s: Seq<char>, i: int) -> bool {
    &&& i + 6 <= s.len()
    &&& s[i] == 'a' && s[i + 1] == 'd' && s[i + 2] == 'v' && s[i + 3] == 'i' && s[i + 4] == 'c'
        && s[i + 5] == 'e'
    &&& (i + 6 == s.len() || is_ws(s[i + 6]))
}

/// The keyword `change` at `i`, followed by a blank or the end.
pub open spec fn kw_change(s: Seq<char>, i: int) -> bool {
    &&& i + 6 <= s.len()
    &&& s[i] == 'c' && s[i + 1] == 'h' && s[i + 2] == 'a' && s[i + 3] == 'n' && s[i + 4] == 'g'
        && s[i + 5] == 'e'
    &&& (i + 6 == s.len() || is_ws(s[i + 6]))
}

/// The keyword `tip` at `i`, followed by a blank or the end.
pub open spec fn kw_tip(s: Seq<char>, i: int) -> bool {
    &&& i + 3 <= s.len()
    &&& s[i] == 't' && s[i + 1] == 'i' && s[i + 2] == 'p'
    &&& (i + 3 == s.len() || is_ws(s[i + 3]))
}

/// The declaration sequence from `i` on, folded into `db`. Succeeds only
/// when the rest of the input is consumed entirely.
pub open spec fn spec_file(s: Seq<char>, i: int, db: DbView) -> Result<DbView, int>
    decreases s.len() - i,
    when 0 <= i <= s.len()
{
    let a = ws_end(s, i);
    if a >= s.len() {
        Ok(db)
    } else if is_digit(s[a]) {
        match spec_entry(s, a, db) {
            Err(e) => Err(e),
            Ok((db2, r)) => if i < r <= s.len() {
                spec_file(s, r, db2)
            } else {
                Err(r)
            },
        }
    } else if kw_advice(s, a) {
        match spec_note(s, a + 6) {
            Err(e) => Err(e),
            Ok((p, r)) => if i < r <= s.len() {
                spec_file(s, r, DbView { questions: assoc_set(db.questions, p.0, p.1), ..db })
            } else {
                Err(r)
            },
        }
    } else if kw_change(s, a) {
        match spec_note(s, a + 6) {
            Err(e) => Err(e),
            Ok((p, r)) => if i < r <= s.len() {
                spec_file(s, r, DbView { changes: assoc_set(db.changes, p.0, p.1), ..db })
            } else {
                Err(r)
            },
        }
    } else if kw_tip(s, a) {
        match spec_note(s, a + 3) {
            Err(e) => Err(e),
            Ok((p, r)) => if i < r <= s.len() {
                spec_file(s, r, DbView { tips: assoc_set(db.tips, p.0, p.1), ..db })
            } else {
                Err(r)
            },
        }
    } else {
        Err(a)
    }
}

/// The whole source text, parsed into a knowledge base or rejected with
/// the index of the first offending character.
pub open spec fn spec_parse(s: Seq<char>) -> Result<DbView, int> {
    spec_file(s, 0, DbView::empty())
}

/// Line feeds among the first `i` characters.
pub open spec fn newline_count(s: Seq<char>, i: int) -> int
    decreases i,
    when 0 <= i <= s.len()
{
    if i <= 0 {
        0
    } else {
        newline_count(s, i - 1) + if s[i - 1] == '\n' {
            1int
        } else {
            0int
        }
    }
}

/// Index of the first character of the line that index `i` lies on.
pub open spec fn line_start(s: Seq<char>, i: int) -> int
    decreases i,
    when 0 <= i <= s.len()
{
    if i <= 0 {
        0
    } else if s[i - 1] == '\n' {
        i
    } else {
        line_start(s, i - 1)
    }
}

/// 1-based line of index `i`.
pub open spec fn spec_line(s: Seq<char>, i: int) -> int {
    1 + newline_count(s, i)
}

/// 1-based column of index `i` on its line.
pub open spec fn spec_col(s: Seq<char>, i: int) -> int {
    1 + i - line_start(s, i)
}

} // verus!
