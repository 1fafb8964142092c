//! The row-stream side of the renderer, modelled as plain data.
//!
//! A query stream yields [`DbItem`]s: rows, statement boundaries and errors.
//! A `SET` statement stores a value into the request's GET or POST variables;
//! [`vars_and_name`] decides which of the two maps a parameter targets, and
//! [`set_variable`] applies the assignment.  The database connection itself,
//! its migrations and the SQL execution stay outside the library.

use vstd::prelude::*;
use vstd::string::*;
use crate::error::ErrorChain;
use crate::json::{json_text, json_to_string, JsonVal};

verus! {

/// A request variable's value: one string, or several.
#[derive(Debug, PartialEq)]
pub enum SingleOrVec {
    Single(String),
    Vec(Vec<String>),
}

/// Where a statement parameter takes its value from.
#[derive(Debug, PartialEq)]
pub enum StmtParam {
    Get(String),
    Post(String),
    GetOrPost(String),
    Cookie(String),
    HttpHeader(String),
}

/// Which of the request's two variable maps an assignment targets.
#[derive(Debug, PartialEq)]
pub enum VarTarget {
    GetVariables,
    PostVariables,
}

/// First entry of `entries` at or after position `i` whose key reads `name`.
pub open spec fn spec_var_get_from(
    entries: Seq<(String, SingleOrVec)>,
    name: Seq<char>,
    i: int,
) -> Option<SingleOrVec>
    decreases entries.len() - i,
{
    if i < 0 || i >= entries.len() {
        None
    } else if entries[i].0@ == name {
        Some(entries[i].1)
    } else {
        spec_var_get_from(entries, name, i + 1)
    }
}

/// Whether no entry of `entries` is keyed `name`.
pub open spec fn spec_var_absent(entries: Seq<(String, SingleOrVec)>, name: Seq<char>) -> bool {
    forall|m: int| 0 <= m < entries.len() ==> entries[m].0@ != name
}

proof fn lemma_absent_get_none(entries: Seq<(String, SingleOrVec)>, name: Seq<char>, i: int)
    requires
        0 <= i <= entries.len(),
        forall|m: int| i <= m < entries.len() ==> entries[m].0@ != name,
    ensures
        spec_var_get_from(entries, name, i) is None,
    decreases entries.len() - i,
{
    if i < entries.len() {
        lemma_absent_get_none(entries, name, i + 1);
    }
}

/// A map from variable names to values, held as a vector of entries with
/// pairwise distinct names.
#[derive(Debug, PartialEq)]
pub struct VarMap {
    entries: Vec<(String, SingleOrVec)>,
}

impl VarMap {
    /// The value stored under `name`, if any.
    pub closed spec fn lookup(self, name: Seq<char>) -> Option<SingleOrVec> {
        spec_var_get_from(self.entries@, name, 0)
    }

    /// Names are pairwise distinct.
    pub closed spec fn wf(self) -> bool {
        forall|m: int, p: int|
            0 <= m < p < self.entries@.len() ==> self.entries@[m].0@ != self.entries@[p].0@
    }

    /// The empty map.
    pub fn new() -> (r: Self)
        ensures
            r.wf(),
            forall|name: Seq<char>| r.lookup(name) is None,
    {
        VarMap { entries: Vec::new() }
    }

    /// The value under `name`, borrowed, if any.
    pub fn get(&self, name: &str) -> (r: Option<&SingleOrVec>)
        ensures
            match self.lookup(name@) {
                Some(v) => r matches Some(out) && *out == v,
                None => r is None,
            },
    {
        let n = self.entries.len();
        let mut i: usize = 0;
        while i < n
            invariant
                n == self.entries@.len(),
                i <= n,
                spec_var_get_from(self.entries@, name@, 0) == spec_var_get_from(
                    self.entries@,
                    name@,
                    i as int,
                ),
            decreases n - i,
        {
            if crate::json::str_equal(&self.entries[i].0, name) {
                proof {
                    assert(spec_var_get_from(self.entries@, name@, i as int) == Some(
                        self.entries@[i as int].1,
                    ));
                }
                return Some(&self.entries[i].1);
            }
            proof {
                assert(spec_var_get_from(self.entries@, name@, i as int) == spec_var_get_from(
                    self.entries@,
                    name@,
                    i + 1,
                ));
            }
            i += 1;
        }
        None
    }

    /// Index of the entry keyed `name`, if any.
    fn find_index(&self, name: &String) -> (r: Option<usize>)
        ensures
            match r {
                Some(i) => i < self.entries@.len() && self.entries@[i as int].0@ == name@,
                None => spec_var_absent(self.entries@, name@),
            },
    {
        let n = self.entries.len();
        let mut i: usize = 0;
        while i < n
            invariant
                n == self.entries@.len(),
                i <= n,
                forall|m: int| 0 <= m < i ==> self.entries@[m].0@ != name@,
            decreases n - i,
        {
            if crate::json::str_equal(&self.entries[i].0, name) {
                return Some(i);
            }
            i += 1;
        }
        None
    }

    /// Stores `value` under `name`, replacing what was there.
    pub fn insert(&mut self, name: String, value: SingleOrVec)
        requires
            old(self).wf(),
        ensures
            final(self).wf(),
            final(self).lookup(name@) == Some(value),
            forall|other: Seq<char>|
                other != name@ ==> final(self).lookup(other) == old(self).lookup(other),
    {
        let ghost pre = self.entries@;
        match self.find_index(&name) {
            Some(i) => {
                let _ = self.entries.remove(i);
                proof {
                    lemma_unique_remove_keeps(pre, i as int, name@);
                    assert forall|other: Seq<char>| other != name@ implies spec_var_get_from(
                        self.entries@,
                        other,
                        0,
                    ) == spec_var_get_from(pre, other, 0) by {
                        lemma_remove_head(pre, i as int, other, 0);
                    }
                }
            },
            None => {
            },
        }
        let ghost mid = self.entries@;
        proof {
            assert(spec_var_absent(mid, name@));
            assert forall|other: Seq<char>| other != name@ implies spec_var_get_from(
                mid,
                other,
                0,
            ) == spec_var_get_from(pre, other, 0) by {
            }
        }
        self.entries.push((name, value));
        proof {
            let post = self.entries@;
            let p = (name, value);
            assert(post =~= mid.push(p));
            assert forall|other: Seq<char>| other != name@ implies spec_var_get_from(
                post,
                other,
                0,
            ) == spec_var_get_from(pre, other, 0) by {
                lemma_push_other(mid, p, other);
            }
            assert(post.last() == p);
            assert(forall|m: int| 0 <= m < post.len() - 1 ==> post[m] == mid[m]);
            lemma_lookup_found(post, name@);
            assert forall|m: int, q: int| 0 <= m < q < post.len() implies post[m].0@ != post[q].0@
                by {
                if q < post.len() - 1 {
                    assert(post[m] == mid[m] && post[q] == mid[q]);
                } else {
                    assert(post[m] == mid[m]);
                }
            }
        }
    }

    /// Drops whatever is stored under `name`.
    pub fn remove(&mut self, name: &String)
        requires
            old(self).wf(),
        ensures
            final(self).wf(),
            final(self).lookup(name@) is None,
            forall|other: Seq<char>|
                other != name@ ==> final(self).lookup(other) == old(self).lookup(other),
    {
        let ghost pre = self.entries@;
        match self.find_index(name) {
            Some(i) => {
                let _ = self.entries.remove(i);
                proof {
                    lemma_unique_remove_keeps(pre, i as int, name@);
                    assert forall|other: Seq<char>| other != name@ implies spec_var_get_from(
                        self.entries@,
                        other,
                        0,
                    ) == spec_var_get_from(pre, other, 0) by {
                        lemma_remove_head(pre, i as int, other, 0);
                    }
                    lemma_absent_get_none(self.entries@, name@, 0);
                }
            },
            None => {
                proof {
                    lemma_absent_get_none(pre, name@, 0);
                }
            },
        }
    }
}

/// Keys other than the pushed one look up the same value as before the push.
proof fn lemma_push_other(
    entries: Seq<(String, SingleOrVec)>,
    p: (String, SingleOrVec),
    other: Seq<char>,
)
    requires
        other != p.0@,
    ensures
        spec_var_get_from(entries.push(p), other, 0) == spec_var_get_from(entries, other, 0),
{
    lemma_push_other_from(entries, p, other, 0);
}

proof fn lemma_push_other_from(
    entries: Seq<(String, SingleOrVec)>,
    p: (String, SingleOrVec),
    other: Seq<char>,
    i: int,
)
    requires
        other != p.0@,
        0 <= i <= entries.len(),
    ensures
        spec_var_get_from(entries.push(p), other, i) == spec_var_get_from(entries, other, i),
    decreases entries.len() - i,
{
    if i < entries.len() {
        assert(entries.push(p)[i] == entries[i]);
        lemma_push_other_from(entries, p, other, i + 1);
    } else {
        assert(entries.push(p)[i] == p);
        assert(spec_var_get_from(entries.push(p), other, i + 1) is None);
    }
}

/// Looking up the key of the last entry finds that entry when no earlier
/// entry carries the same key; used right after a push that follows a remove.
proof fn lemma_lookup_found(entries: Seq<(String, SingleOrVec)>, name: Seq<char>)
    requires
        entries.len() >= 1,
        entries.last().0@ == name,
        forall|m: int| 0 <= m < entries.len() - 1 ==> entries[m].0@ != name,
    ensures
        spec_var_get_from(entries, name, 0) == Some(entries.last().1),
{
    lemma_lookup_found_from(entries, name, 0);
}

proof fn lemma_lookup_found_from(entries: Seq<(String, SingleOrVec)>, name: Seq<char>, i: int)
    requires
        entries.len() >= 1,
        entries.last().0@ == name,
        forall|m: int| 0 <= m < entries.len() - 1 ==> entries[m].0@ != name,
        0 <= i <= entries.len() - 1,
    ensures
        spec_var_get_from(entries, name, i) == Some(entries.last().1),
    decreases entries.len() - i,
{
    if i < entries.len() - 1 {
        lemma_lookup_found_from(entries, name, i + 1);
    }
}

/// Removing the only entry keyed `name` leaves every other entry in place,
/// so that a sequence with pairwise distinct keys keeps them distinct and
/// keeps `name` absent.
proof fn lemma_unique_remove_keeps(entries: Seq<(String, SingleOrVec)>, i: int, name: Seq<char>)
    requires
        0 <= i < entries.len(),
        entries[i].0@ == name,
        forall|m: int, p: int|
            0 <= m < p < entries.len() ==> entries[m].0@ != entries[p].0@,
    ensures
        forall|m: int, p: int|
            0 <= m < p < entries.remove(i).len() ==> entries.remove(i)[m].0@ != entries.remove(
                i,
            )[p].0@,
        spec_var_absent(entries.remove(i), name),
{
    let r = entries.remove(i);
    assert forall|m: int| 0 <= m < r.len() implies r[m].0@ != name by {
        if m < i {
            assert(r[m] == entries[m]);
        } else {
            assert(r[m] == entries[m + 1]);
        }
    }
    assert forall|m: int, p: int| 0 <= m < p < r.len() implies r[m].0@ != r[p].0@ by {
        if p < i {
        } else if m < i {
            assert(r[m] == entries[m]);
            assert(r[p] == entries[p + 1]);
        } else {
            assert(r[m] == entries[m + 1]);
            assert(r[p] == entries[p + 1]);
        }
    }
}

/// From a position past the removed entry, the shortened sequence looks a
/// key up exactly as the full sequence does one position further on.
proof fn lemma_remove_tail(s: Seq<(String, SingleOrVec)>, i: int, other: Seq<char>, m: int)
    requires
        0 <= i < s.len(),
        i <= m <= s.len() - 1,
    ensures
        spec_var_get_from(s.remove(i), other, m) == spec_var_get_from(s, other, m + 1),
    decreases s.len() - m,
{
    if m < s.len() - 1 {
        assert(s.remove(i)[m] == s[m + 1]);
        lemma_remove_tail(s, i, other, m + 1);
    }
}

/// Removing an entry whose key is not `other` leaves the lookup of `other`
/// unchanged.
proof fn lemma_remove_head(s: Seq<(String, SingleOrVec)>, i: int, other: Seq<char>, j: int)
    requires
        0 <= i < s.len(),
        0 <= j <= i,
        s[i].0@ != other,
    ensures
        spec_var_get_from(s.remove(i), other, j) == spec_var_get_from(s, other, j),
    decreases i - j,
{
    if j < i {
        assert(s.remove(i)[j] == s[j]);
        lemma_remove_head(s, i, other, j + 1);
    } else {
        lemma_remove_tail(s, i, other, i);
    }
}

/// The request as the renderer sees it: its GET and POST variables.
#[derive(Debug, PartialEq)]
pub struct RequestInfo {
    pub get_variables: VarMap,
    pub post_variables: VarMap,
}

impl RequestInfo {
    /// A request with no variables set.
    pub fn new() -> (r: Self)
        ensures
            r.get_variables.wf(),
            r.post_variables.wf(),
            forall|name: Seq<char>| r.get_variables.lookup(name) is None,
            forall|name: Seq<char>| r.post_variables.lookup(name) is None,
    {
        RequestInfo { get_variables: VarMap::new(), post_variables: VarMap::new() }
    }

    /// Both variable maps are well formed.
    pub open spec fn wf(self) -> bool {
        self.get_variables.wf() && self.post_variables.wf()
    }
}

/// The items of `items`, joined with one comma between neighbours.
pub open spec fn spec_joined(items: Seq<Seq<char>>) -> Seq<char>
    decreases items.len(),
{
    if items.len() == 0 {
        Seq::empty()
    } else if items.len() == 1 {
        items[0]
    } else {
        spec_joined(items.drop_last()) + ","@ + items.last()
    }
}

impl SingleOrVec {
    /// The text a value binds into a prepared statement as: the string
    /// itself, or the list's items joined with commas.
    pub fn bound_parameter(&self) -> (r: String)
        ensures
            match self {
                SingleOrVec::Single(s) => r@ == s@,
                SingleOrVec::Vec(vs) => r@ == spec_joined(vs.deep_view()),
            },
    {
        match self {
            SingleOrVec::Single(s) => s.clone(),
            SingleOrVec::Vec(vs) => {
                let n = vs.len();
                let mut out = String::new();
                let mut i: usize = 0;
                while i < n
                    invariant
                        n == vs@.len(),
                        i <= n,
                        out@ == spec_joined(vs.deep_view().take(i as int)),
                    decreases n - i,
                {
                    if i > 0 {
                        out.append(",");
                    }
                    out.append(vs[i].as_str());
                    proof {
                        let dv = vs.deep_view();
                        assert(dv.take(i + 1).drop_last() =~= dv.take(i as int));
                        assert(dv.take(i + 1).last() == dv[i as int]);
                        assert(dv[i as int] == vs@[i as int]@);
                        if i == 0 {
                            assert(out@ =~= dv.take(1)[0]);
                        }
                    }
                    i += 1;
                }
                proof {
                    assert(vs.deep_view().take(n as int) =~= vs.deep_view());
                }
                out
            },
        }
    }
}

/// Which variable map a `SET` statement targets, and under which name.
/// Only GET and POST variables can be assigned; every other parameter source
/// is rejected.
pub fn vars_and_name(variable: &StmtParam) -> (r: Result<(VarTarget, String), ErrorChain>)
    ensures
        match variable {
            StmtParam::Get(name) => r matches Ok(t) && t.0 == VarTarget::GetVariables && t.1@
                == name@,
            StmtParam::GetOrPost(name) => r matches Ok(t) && t.0 == VarTarget::GetVariables
                && t.1@ == name@,
            StmtParam::Post(name) => r matches Ok(t) && t.0 == VarTarget::PostVariables && t.1@
                == name@,
            _ => r is Err,
        },
{
    match variable {
        StmtParam::Get(name) => Ok((VarTarget::GetVariables, name.clone())),
        StmtParam::GetOrPost(name) => Ok((VarTarget::GetVariables, name.clone())),
        StmtParam::Post(name) => Ok((VarTarget::PostVariables, name.clone())),
        _ => Err(
            ErrorChain::new("Only GET and POST variables can be set".to_owned()),
        ),
    }
}

/// Applies one `SET` statement's outcome to the request: a row stores its
/// value under the variable's name, an empty result drops the variable.
pub fn set_variable(
    request: &mut RequestInfo,
    variable: &StmtParam,
    value: Option<SingleOrVec>,
) -> (r: Result<(), ErrorChain>)
    requires
        old(request).wf(),
    ensures
        final(request).wf(),
        vars_and_name_spec(*variable) is None ==> r is Err && *final(request) == *old(request),
        match vars_and_name_spec(*variable) {
            Some((VarTarget::GetVariables, name)) => r is Ok && final(request).post_variables
                == old(request).post_variables && map_set_spec(
                old(request).get_variables,
                final(request).get_variables,
                name,
                value,
            ),
            Some((VarTarget::PostVariables, name)) => r is Ok && final(request).get_variables
                == old(request).get_variables && map_set_spec(
                old(request).post_variables,
                final(request).post_variables,
                name,
                value,
            ),
            None => true,
        },
{
    let (target, name) = match vars_and_name(variable) {
        Ok(t) => t,
        Err(e) => {
            return Err(e);
        },
    };
    match target {
        VarTarget::GetVariables => match value {
            Some(v) => request.get_variables.insert(name, v),
            None => request.get_variables.remove(&name),
        },
        VarTarget::PostVariables => match value {
            Some(v) => request.post_variables.insert(name, v),
            None => request.post_variables.remove(&name),
        },
    }
    Ok(())
}

/// The target and name `vars_and_name` decides on, as a spec value.
pub open spec fn vars_and_name_spec(variable: StmtParam) -> Option<(VarTarget, Seq<char>)> {
    match variable {
        StmtParam::Get(name) => Some((VarTarget::GetVariables, name@)),
        StmtParam::GetOrPost(name) => Some((VarTarget::GetVariables, name@)),
        StmtParam::Post(name) => Some((VarTarget::PostVariables, name@)),
        _ => None,
    }
}

/// How one assignment changes a variable map: `name` now holds `value` (or
/// nothing), every other name is untouched.
pub open spec fn map_set_spec(
    pre: VarMap,
    post: VarMap,
    name: Seq<char>,
    value: Option<SingleOrVec>,
) -> bool {
    &&& post.lookup(name) == value
    &&& forall|other: Seq<char>| other != name ==> post.lookup(other) == pre.lookup(other)
}

/// The request-variable value a result row's first column turns into: a JSON
/// string stays a string, a JSON array becomes the list of its items' texts,
/// anything else becomes its serialised text.
pub fn varvalue_from_json(v: JsonVal) -> (r: SingleOrVec)
    ensures
        match v {
            JsonVal::Str(s) => r == SingleOrVec::Single(s),
            JsonVal::Arr(items) => r matches SingleOrVec::Vec(out) && out@.len() == items@.len()
                && forall|i: int|
                0 <= i < items@.len() ==> out@[i]@ == (match items@[i] {
                    JsonVal::Str(s) => s@,
                    _ => json_text(items@[i]),
                }),
            _ => r matches SingleOrVec::Single(s) && s@ == json_text(v),
        },
{
    match v {
        JsonVal::Str(s) => SingleOrVec::Single(s),
        JsonVal::Arr(items) => {
            let n = items.len();
            let mut out: Vec<String> = Vec::new();
            let mut i: usize = 0;
            while i < n
                invariant
                    n == items@.len(),
                    i <= n,
                    out@.len() == i,
                    forall|m: int|
                        0 <= m < i ==> out@[m]@ == (match items@[m] {
                            JsonVal::Str(s) => s@,
                            _ => json_text(items@[m]),
                        }),
                decreases n - i,
            {
                match &items[i] {
                    JsonVal::Str(s) => {
                        out.push(s.clone());
                    },
                    other => {
                        out.push(json_to_string(other));
                    },
                }
                i += 1;
            }
            SingleOrVec::Vec(out)
        },
        other => SingleOrVec::Single(json_to_string(&other)),
    }
}

/// One item of a query stream: a row to render, a statement boundary, or an
/// error to render inline.
#[derive(Debug)]
pub enum DbItem {
    Row(JsonVal),
    FinishedQuery,
    Error(ErrorChain),
}

/// The explanation that migration failures are wrapped in.
pub fn migration_err(operation: &str) -> (r: String)
    ensures
        r@ == "An error occurred while "@ + operation@
            + ".\n        The path 'sqlpage/migrations' has to point to a directory, which contains valid SQL files\n        with names using the format '<VERSION>_<DESCRIPTION>.sql',\n        where <VERSION> is a positive number, and <DESCRIPTION> is a string.\n        The current state of migrations will be stored in a table called _sqlx_migrations."@,
{
    let mut s: String = "An error occurred while ".to_owned();
    s.append(operation);
    s.append(
        ".\n        The path 'sqlpage/migrations' has to point to a directory, which contains valid SQL files\n        with names using the format '<VERSION>_<DESCRIPTION>.sql',\n        where <VERSION> is a positive number, and <DESCRIPTION> is a string.\n        The current state of migrations will be stored in a table called _sqlx_migrations.",
    );
    s
}

/// A fresh error carrying the same messages as `err`, wrapped innermost in
/// the note that SQL preparation failed; what a query stream yields when the
/// prepared statement it replays was itself in error.
pub fn clone_anyhow_err(err: &ErrorChain) -> (r: ErrorChain)
    requires
        err.wf(),
    ensures
        r.messages() =~= err.messages() + seq![
            "An error occurred during the preparation phase of the SQL"@,
        ],
        r.wf(),
{
    let mut e = ErrorChain::new(
        "An error occurred during the preparation phase of the SQL".to_owned(),
    );
    let n = err.len();
    let mut i: usize = n;
    while i > 0
        invariant
            i <= n,
            n == err.messages().len(),
            err.wf(),
            e.wf(),
            e.messages().len() == n - i + 1,
            forall|m: int| 0 <= m < n - i ==> e.messages()[m] == err.messages()[i + m],
            e.messages()[n - i] == "An error occurred during the preparation phase of the SQL"@,
        decreases i,
    {
        i -= 1;
        let msg = err.cause_at(i);
        e = e.with_context(msg);
    }
    proof {
        let tail = seq!["An error occurred during the preparation phase of the SQL"@];
        assert forall|m: int| 0 <= m < e.messages().len() implies e.messages()[m]
            == (err.messages() + tail)[m] by {}
        assert(e.messages() =~= err.messages() + tail);
    }
    e
}

} // verus!
