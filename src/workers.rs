//! What a worker is told: its display name, with the database substituted
//! for a placeholder, and its identity as one bounded `user@database` string.
use crate::types::{truncate_to, truncated};
use vstd::prelude::*;
use vstd::string::{StrSliceExecFns, StringExecFns};

verus! {

/// Most bytes of a worker's display name.
pub const NAME_BYTES: usize = 95;

/// Most bytes of a worker's `user@database` argument.
pub const EXTRA_BYTES: usize = 127;

/// `s` with every occurrence of `pat` replaced by `rep`, scanning from the
/// front and never reusing a replaced character.
pub open spec fn replace_all(s: Seq<char>, pat: Seq<char>, rep: Seq<char>) -> Seq<char>
    decreases s.len(),
{
    if pat.len() == 0 || s.len() < pat.len() {
        s
    } else if s.take(pat.len() as int) == pat {
        rep + replace_all(s.skip(pat.len() as int), pat, rep)
    } else {
        seq![s[0]] + replace_all(s.skip(1), pat, rep)
    }
}

/// Whether `pat` occurs in `s` at position `i`.
fn occurs_at(s: &str, pat: &str, i: usize, n: usize, m: usize) -> (r: bool)
    requires
        n == s@.len(),
        m == pat@.len(),
        i + m <= n,
    ensures
        r == (s@.skip(i as int).take(m as int) == pat@),
{
    let mut j: usize = 0;
    while j < m
        invariant
            i + m <= n,
            n == s@.len(),
            m == pat@.len(),
            j <= m,
            forall|k: int| 0 <= k < j ==> s@[i + k] == pat@[k],
        decreases m - j,
    {
        if s.get_char(i + j) != pat.get_char(j) {
            assert(s@.skip(i as int).take(m as int)[j as int] != pat@[j as int]);
            return false;
        }
        j = j + 1;
    }
    assert(s@.skip(i as int).take(m as int) =~= pat@);
    true
}

/// `s` with every occurrence of `pat` replaced by `rep`.
pub fn replace_all_exec(s: &str, pat: &str, rep: &str) -> (r: String)
    requires
        pat@.len() > 0,
    ensures
        r@ == replace_all(s@, pat@, rep@),
{
    let n: usize = s.unicode_len();
    let m: usize = pat.unicode_len();
    let mut out = String::new();
    let mut i: usize = 0;
    assert(out@ + replace_all(s@.skip(0), pat@, rep@) =~= replace_all(s@, pat@, rep@)) by {
        assert(s@.skip(0) =~= s@);
    }
    while i < n
        invariant
            n == s@.len(),
            m == pat@.len(),
            m > 0,
            i <= n,
            out@ + replace_all(s@.skip(i as int), pat@, rep@) == replace_all(s@, pat@, rep@),
        decreases n - i,
    {
        let ghost rest = s@.skip(i as int);
        if m <= n - i && occurs_at(s, pat, i, n, m) {
            assert(rest.skip(m as int) =~= s@.skip(i + m));
            out.append(rep);
            proof {
                assert(out@ + replace_all(s@.skip(i + m), pat@, rep@) =~= replace_all(s@, pat@, rep@));
            }
            i = i + m;
        } else {
            proof {
                assert(rest.skip(1) =~= s@.skip(i + 1));
                if rest.len() < pat@.len() {
                    assert(rest.skip(1).len() < pat@.len());
                    assert(replace_all(rest.skip(1), pat@, rep@) == rest.skip(1));
                    assert(rest =~= seq![rest[0]] + rest.skip(1));
                }
            }
            let piece = s.substring_char(i, i + 1);
            assert(piece@ =~= seq![rest[0]]);
            out.append(piece);
            proof {
                assert(out@ + replace_all(s@.skip(i + 1), pat@, rep@) =~= replace_all(s@, pat@, rep@));
            }
            i = i + 1;
        }
    }
    assert(s@.skip(n as int).len() == 0);
    assert(out@ =~= out@ + replace_all(s@.skip(n as int), pat@, rep@));
    out
}

/// The identity that a worker receives: `user@database`, cut to
/// `EXTRA_BYTES` bytes at a character boundary.
pub open spec fn identity_of(user: Seq<char>, database: Seq<char>) -> Seq<char> {
    truncated(user + seq!['@'] + database, EXTRA_BYTES as nat)
}

/// Builds a worker's `user@database` argument.
pub fn worker_extra(user: &str, database: &str) -> (r: String)
    ensures
        r@ == identity_of(user@, database@),
{
    let mut s = user.to_owned();
    proof {
        reveal_strlit("@");
        assert("@"@ =~= seq!['@']);
    }
    s.append("@");
    s.append(database);
    assert(s@ =~= user@ + seq!['@'] + database@);
    truncate_to(s.as_str(), EXTRA_BYTES)
}

/// Splits a worker's argument at its one `@` into user and database; `None`
/// where the argument holds no `@`, or more than one.
pub fn parse_worker_extra(extra: &str) -> (r: Option<(String, String)>)
    ensures
        match r {
            Some((user, database)) => extra@ == user@ + seq!['@'] + database@ && !user@.contains('@')
                && !database@.contains('@'),
            None => forall|p: int|
                0 <= p < extra@.len() && #[trigger] extra@[p] == '@' ==> exists|q: int|
                    0 <= q < extra@.len() && q != p && extra@[q] == '@',
        },
{
    let n: usize = extra.unicode_len();
    let mut at: Option<usize> = None;
    let mut i: usize = 0;
    while i < n
        invariant
            n == extra@.len(),
            i <= n,
            match at {
                Some(p) => p < i && extra@[p as int] == '@' && forall|q: int|
                    0 <= q < i && q != p ==> extra@[q] != '@',
                None => forall|q: int| 0 <= q < i ==> extra@[q] != '@',
            },
        decreases n - i,
    {
        if extra.get_char(i) == '@' {
            match at {
                Some(p) => {
                    assert(extra@[p as int] == '@' && extra@[i as int] == '@');
                    proof {
                        assert forall|pp: int|
                            0 <= pp < extra@.len() && #[trigger] extra@[pp] == '@' implies exists|q: int|
                                0 <= q < extra@.len() && q != pp && extra@[q] == '@' by {
                            if pp == p as int {
                                assert(extra@[i as int] == '@');
                            } else {
                                assert(extra@[p as int] == '@');
                            }
                        }
                    }
                    return None;
                },
                None => {
                    at = Some(i);
                },
            }
        }
        i = i + 1;
    }
    match at {
        Some(p) => {
            let user = extra.substring_char(0, p).to_owned();
            let database = extra.substring_char(p + 1, n).to_owned();
            assert(extra@ =~= user@ + seq!['@'] + database@);
            proof {
                if user@.contains('@') {
                    let k = choose|k: int| 0 <= k < user@.len() && user@[k] == '@';
                    assert(extra@[k] == '@');
                }
                if database@.contains('@') {
                    let k = choose|k: int| 0 <= k < database@.len() && database@[k] == '@';
                    assert(extra@[p + 1 + k] == '@');
                }
            }
            Some((user, database))
        },
        None => None,
    }
}

/// Names of strings.
pub open spec fn names_of(v: Seq<String>) -> Seq<Seq<char>> {
    v.map_values(|s: String| s@)
}

/// A database as the catalog lists it.
pub struct DatabaseRow {
    pub name: String,
    pub is_template: bool,
    pub allow_connections: bool,
}

/// Whether a worker is to be started for the database of `row`: it accepts
/// connections, is no template, and has no worker yet.
pub open spec fn wanted(row: DatabaseRow, existing: Seq<Seq<char>>) -> bool {
    !row.is_template && row.allow_connections && !existing.contains(row.name@)
}

/// The names of the wanted databases among `rows`, in catalog order.
pub open spec fn new_database_names(rows: Seq<DatabaseRow>, existing: Seq<Seq<char>>) -> Seq<Seq<char>>
    decreases rows.len(),
{
    if rows.len() == 0 {
        Seq::empty()
    } else {
        let prev = new_database_names(rows.drop_last(), existing);
        if wanted(rows.last(), existing) {
            prev.push(rows.last().name@)
        } else {
            prev
        }
    }
}

/// Whether `name` is among `names`.
fn contains_name(names: &Vec<String>, name: &String) -> (r: bool)
    ensures
        r == names_of(names@).contains(name@),
{
    let mut j: usize = 0;
    while j < names.len()
        invariant
            j <= names@.len(),
            forall|k: int| 0 <= k < j ==> names_of(names@)[k] != name@,
        decreases names@.len() - j,
    {
        if names[j] == *name {
            assert(names_of(names@)[j as int] == name@);
            return true;
        }
        j = j + 1;
    }
    false
}

/// The databases of the catalog that need a worker: those that accept
/// connections, are no templates, and are not in `existing`.
pub fn new_databases(existing: &Vec<String>, rows: &Vec<DatabaseRow>) -> (r: Vec<String>)
    ensures
        names_of(r@) == new_database_names(rows@, names_of(existing@)),
{
    let mut out: Vec<String> = Vec::new();
    let mut i: usize = 0;
    while i < rows.len()
        invariant
            i <= rows@.len(),
            names_of(out@) == new_database_names(rows@.take(i as int), names_of(existing@)),
        decreases rows@.len() - i,
    {
        let row = &rows[i];
        assert(rows@.take(i + 1).drop_last() =~= rows@.take(i as int));
        let ghost before = out@;
        if !row.is_template && row.allow_connections && !contains_name(existing, &row.name) {
            out.push(row.name.clone());
            assert(names_of(out@) =~= names_of(before).push(row.name@));
        }
        i = i + 1;
    }
    assert(rows@.take(i as int) =~= rows@);
    out
}

/// A worker descriptor: its display name, entry point, library and argument.
pub struct WorkerSpec {
    pub name: String,
    pub function: String,
    pub library: String,
    pub extra: String,
}

/// A worker that a module registered during preload, waiting for a database.
pub struct PendingWorker {
    pub extension: String,
    pub version: String,
    pub worker: WorkerSpec,
}

/// An extension installed in a database, with the role that owns it.
pub struct InstalledExtension {
    pub name: String,
    pub version: String,
    pub owner: String,
}

/// A worker to start: the pending worker at `index`, with argument `extra`.
pub struct WorkerLaunch {
    pub index: usize,
    pub extra: String,
}

/// The first installed extension named `name`, if any.
pub open spec fn installed(rows: Seq<InstalledExtension>, name: Seq<char>) -> Option<InstalledExtension>
    decreases rows.len(),
{
    if rows.len() == 0 {
        None
    } else if rows[0].name@ == name {
        Some(rows[0])
    } else {
        installed(rows.skip(1), name)
    }
}

/// Whether the pending worker `p` is to start: its extension is installed at
/// the version that registered it.
pub open spec fn launches(p: PendingWorker, rows: Seq<InstalledExtension>) -> bool {
    installed(rows, p.extension@) is Some && installed(rows, p.extension@)->0.version@ == p.version@
}

/// The launches for the first `n` pending workers, as (index, argument).
pub open spec fn launches_for(
    pending: Seq<PendingWorker>,
    rows: Seq<InstalledExtension>,
    database: Seq<char>,
    n: int,
) -> Seq<(int, Seq<char>)>
    decreases n,
{
    if n <= 0 {
        Seq::empty()
    } else {
        let prev = launches_for(pending, rows, database, n - 1);
        let p = pending[n - 1];
        if launches(p, rows) {
            prev.push((n - 1, identity_of(installed(rows, p.extension@)->0.owner@, database)))
        } else {
            prev
        }
    }
}

/// The launches as (index, argument) pairs.
pub open spec fn launch_view(v: Seq<WorkerLaunch>) -> Seq<(int, Seq<char>)> {
    v.map_values(|l: WorkerLaunch| (l.index as int, l.extra@))
}

/// The first installed extension named `name`.
pub(crate) fn find_installed(rows: &Vec<InstalledExtension>, name: &String) -> (r: Option<usize>)
    ensures
        match r {
            Some(j) => j < rows@.len() && installed(rows@, name@) == Some(rows@[j as int]),
            None => installed(rows@, name@) is None,
        },
{
    let mut j: usize = 0;
    assert(rows@.skip(0) =~= rows@);
    while j < rows.len()
        invariant
            j <= rows@.len(),
            installed(rows@, name@) == installed(rows@.skip(j as int), name@),
        decreases rows@.len() - j,
    {
        assert(rows@.skip(j as int).skip(1) =~= rows@.skip(j + 1));
        if rows[j].name == *name {
            return Some(j);
        }
        j = j + 1;
    }
    None
}

/// The workers to start in `database`: each pending worker whose extension
/// is installed there at the registered version, with the extension
/// owner's identity as its argument.
pub fn workers_to_start(
    pending: &Vec<PendingWorker>,
    rows: &Vec<InstalledExtension>,
    database: &str,
) -> (r: Vec<WorkerLaunch>)
    ensures
        launch_view(r@) == launches_for(pending@, rows@, database@, pending@.len() as int),
{
    let mut out: Vec<WorkerLaunch> = Vec::new();
    let mut i: usize = 0;
    while i < pending.len()
        invariant
            i <= pending@.len(),
            launch_view(out@) == launches_for(pending@, rows@, database@, i as int),
        decreases pending@.len() - i,
    {
        let p = &pending[i];
        let ghost before = out@;
        match find_installed(rows, &p.extension) {
            Some(j) => {
                if rows[j].version == p.version {
                    let extra = worker_extra(rows[j].owner.as_str(), database);
                    out.push(WorkerLaunch { index: i, extra });
                    assert(launch_view(out@) =~= launch_view(before).push((i as int, extra@)));
                }
            },
            None => {},
        }
        i = i + 1;
    }
    out
}

} // verus!
