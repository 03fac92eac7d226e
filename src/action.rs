use vstd::prelude::*;

use crate::events::Event;
use crate::text::{chars_of, extend, split_chars, split_spec, string_from_chars, trim_chars, trim_spec, views};

verus! {

/// The upper-case form of a text, by Unicode's case rules.
pub uninterp spec fn upper_of(s: Seq<char>) -> Seq<char>;

/// Relies on `str::to_uppercase`: the upper-case form of the text, which
/// depends on its characters alone.
#[verifier::external_body]
fn uppercase(s: &str) -> (r: String)
    ensures
        r@ == upper_of(s@),
{
    s.to_uppercase()
}

/// Whether `t`, with its ASCII letters in upper case, is the upper-case
/// word `k`.
pub open spec fn ascii_upper_is(t: Seq<char>, k: Seq<char>) -> bool {
    t.len() == k.len() && forall|i: int|
        0 <= i < t.len() ==> t[i] == k[i] || ('A' <= k[i] <= 'Z' && (t[i] as u32) == (k[i] as u32)
            + 32)
}

/// The statement kinds whose summary runs past the first two words.
pub enum ActionKind {
    Insert,
    Update,
    Delete,
    Other,
}

pub open spec fn kind_of(keyword: Seq<char>) -> ActionKind {
    if keyword == "INSERT"@ {
        ActionKind::Insert
    } else if keyword == "UPDATE"@ {
        ActionKind::Update
    } else if keyword == "DELETE"@ {
        ActionKind::Delete
    } else {
        ActionKind::Other
    }
}

/// Whether the word `t` ends the summary of a statement of kind `k`.
pub open spec fn stops(k: ActionKind, t: Seq<char>) -> bool {
    match k {
        ActionKind::Insert => ascii_upper_is(t, "PARTITION"@) || ascii_upper_is(t, "SELECT"@)
            || ascii_upper_is(t, "VALUES"@) || ascii_upper_is(t, "VALUE"@) || (t.len() > 0 && t[0]
            == '('),
        ActionKind::Update => ascii_upper_is(t, "PARTITION"@) || ascii_upper_is(t, "FOR"@)
            || ascii_upper_is(t, "SET"@),
        ActionKind::Delete => ascii_upper_is(t, "PARTITION"@) || ascii_upper_is(t, "FOR"@)
            || ascii_upper_is(t, "WHERE"@) || ascii_upper_is(t, "ORDER"@) || ascii_upper_is(
            t,
            "LIMIT"@,
        ) || ascii_upper_is(t, "RETURNING"@) || ascii_upper_is(t, "BEFORE"@),
        ActionKind::Other => true,
    }
}

/// The position of the first word, from `j` on, that ends the summary; the
/// number of words when none does.
pub open spec fn first_stop(k: ActionKind, ts: Seq<Seq<char>>, j: int) -> int
    decreases ts.len() - j,
{
    if j >= ts.len() {
        ts.len() as int
    } else if stops(k, ts[j]) {
        j
    } else {
        first_stop(k, ts, j + 1)
    }
}

/// The words joined by single spaces.
pub open spec fn join_words(ts: Seq<Seq<char>>) -> Seq<char>
    decreases ts.len(),
{
    if ts.len() == 0 {
        Seq::empty()
    } else if ts.len() == 1 {
        ts[0]
    } else {
        join_words(ts.drop_last()).push(' ') + ts.last()
    }
}

/// The words of a statement: the trimmed text split on single spaces.
pub open spec fn words_of(stmt: Seq<char>) -> Seq<Seq<char>> {
    split_spec(trim_spec(stmt), ' ', None)
}

/// The summary of a statement whose first word, in upper case, is
/// `keyword`: its first two words, and, for `INSERT`, `UPDATE` and
/// `DELETE`, the words after them up to the first that starts the rest of
/// the statement (`VALUES`, `SET`, `WHERE`, ...).
pub open spec fn action_spec(stmt: Seq<char>, keyword: Seq<char>) -> Seq<char> {
    let ts = words_of(stmt);
    let start = if ts.len() < 2 {
        ts.len() as int
    } else {
        2
    };
    join_words(ts.take(first_stop(kind_of(keyword), ts, start)))
}

fn upper_is(t: &Vec<char>, k: &Vec<char>) -> (r: bool)
    ensures
        r == ascii_upper_is(t@, k@),
{
    if t.len() != k.len() {
        return false;
    }
    let mut i: usize = 0;
    while i < t.len()
        invariant
            i <= t.len(),
            t.len() == k.len(),
            forall|j: int|
                0 <= j < i ==> t@[j] == k@[j] || ('A' <= k@[j] <= 'Z' && (t@[j] as u32) == (
                k@[j] as u32) + 32),
        decreases t.len() - i,
    {
        let c = t[i];
        let kc = k[i];
        if !(c == kc || ('A' <= kc && kc <= 'Z' && (c as u32) == (kc as u32) + 32)) {
            return false;
        }
        i += 1;
    }
    true
}

fn upper_is_str(t: &Vec<char>, k: &str) -> (r: bool)
    ensures
        r == ascii_upper_is(t@, k@),
{
    upper_is(t, &chars_of(k))
}

fn kind_exec(keyword: &str) -> (r: ActionKind)
    ensures
        r == kind_of(keyword@),
{
    if crate::text::str_eq(keyword, "INSERT") {
        ActionKind::Insert
    } else if crate::text::str_eq(keyword, "UPDATE") {
        ActionKind::Update
    } else if crate::text::str_eq(keyword, "DELETE") {
        ActionKind::Delete
    } else {
        ActionKind::Other
    }
}

fn stops_exec(k: &ActionKind, t: &Vec<char>) -> (r: bool)
    ensures
        r == stops(*k, t@),
{
    match k {
        ActionKind::Insert => upper_is_str(t, "PARTITION") || upper_is_str(t, "SELECT")
            || upper_is_str(t, "VALUES") || upper_is_str(t, "VALUE") || (t.len() > 0 && t[0]
            == '('),
        ActionKind::Update => upper_is_str(t, "PARTITION") || upper_is_str(t, "FOR")
            || upper_is_str(t, "SET"),
        ActionKind::Delete => upper_is_str(t, "PARTITION") || upper_is_str(t, "FOR")
            || upper_is_str(t, "WHERE") || upper_is_str(t, "ORDER") || upper_is_str(t, "LIMIT")
            || upper_is_str(t, "RETURNING") || upper_is_str(t, "BEFORE"),
        ActionKind::Other => true,
    }
}

/// The summary of `stmt`, given its first word in upper case.
pub fn action_with_keyword(stmt: &str, keyword: &str) -> (r: String)
    ensures
        r@ == action_spec(stmt@, keyword@),
{
    let ts = split_chars(&trim_chars(&chars_of(stmt)), ' ', None);
    let ghost tv = views(ts@);
    let kind = kind_exec(keyword);
    let mut end: usize = if ts.len() < 2 {
        ts.len()
    } else {
        2
    };
    let ghost start = end as int;
    assert(first_stop(kind, tv, start) == first_stop(kind, tv, end as int));
    while end < ts.len() && !stops_exec(&kind, &ts[end])
        invariant
            end <= ts.len(),
            tv == views(ts@),
            tv.len() == ts@.len(),
            first_stop(kind, tv, start) == first_stop(kind, tv, end as int),
        decreases ts.len() - end,
    {
        assert(tv[end as int] == ts@[end as int]@);
        end += 1;
    }
    proof {
        if end < ts.len() {
            assert(tv[end as int] == ts@[end as int]@);
        }
    }
    let mut out: Vec<char> = Vec::new();
    let mut i: usize = 0;
    assert(tv.take(0) =~= Seq::<Seq<char>>::empty());
    while i < end
        invariant
            i <= end <= ts.len(),
            tv == views(ts@),
            tv.len() == ts@.len(),
            out@ == join_words(tv.take(i as int)),
        decreases end - i,
    {
        assert(tv.take(i + 1).drop_last() =~= tv.take(i as int));
        assert(tv.take(i + 1).last() == ts@[i as int]@);
        if i > 0 {
            out.push(' ');
        } else {
            assert(tv.take(1) =~= seq![tv[0]]);
            assert(out@ =~= Seq::<char>::empty());
        }
        extend(&mut out, &ts[i]);
        proof {
            if i == 0 {
                assert(out@ =~= tv[0]);
            }
        }
        i += 1;
    }
    string_from_chars(&out)
}

impl Event {
    /// A short summary of a statement for the log: `UPDATE my_table`,
    /// `DELETE FROM my_table`, `INSERT INTO my_table`.
    pub fn action(stmt: &str) -> (r: String)
        ensures
            r@ == action_spec(stmt@, upper_of(words_of(stmt@)[0])),
    {
        let ts = split_chars(&trim_chars(&chars_of(stmt)), ' ', None);
        proof {
            crate::text::lemma_split_nonempty(trim_spec(stmt@), ' ', None);
        }
        assert(views(ts@)[0] == ts@[0]@);
        let first = string_from_chars(&ts[0]);
        let keyword = uppercase(first.as_str());
        action_with_keyword(stmt, keyword.as_str())
    }
}

} // verus!
