//! Extension descriptor files: `key = 'value'` settings, one per line, with
//! `#` comments; the file's stem names the extension and, after `--`, its
//! version.
use crate::workers::{names_of, replace_all, replace_all_exec, InstalledExtension};
use vstd::prelude::*;
use vstd::string::{StrSliceExecFns, StringExecFns};

verus! {

/// Whether `c` is white space in Unicode's sense, as `char::is_whitespace` has it.
pub open spec fn is_space(c: char) -> bool {
    let v = c as u32;
    (0x9 <= v <= 0xD) || v == 0x20 || v == 0x85 || v == 0xA0 || v == 0x1680 || (0x2000 <= v
        <= 0x200A) || v == 0x2028 || v == 0x2029 || v == 0x202F || v == 0x205F || v == 0x3000
}

fn is_space_exec(c: char) -> (r: bool)
    ensures
        r == is_space(c),
{
    let v: u32 = c as u32;
    (0x9 <= v && v <= 0xD) || v == 0x20 || v == 0x85 || v == 0xA0 || v == 0x1680 || (0x2000 <= v
        && v <= 0x200A) || v == 0x2028 || v == 0x2029 || v == 0x202F || v == 0x205F || v == 0x3000
}

/// `s` without the characters that satisfy `p` at its front.
pub open spec fn trim_front(s: Seq<char>, p: spec_fn(char) -> bool) -> Seq<char>
    decreases s.len(),
{
    if s.len() > 0 && p(s[0]) {
        trim_front(s.skip(1), p)
    } else {
        s
    }
}

/// `s` without the characters that satisfy `p` at its back.
pub open spec fn trim_back(s: Seq<char>, p: spec_fn(char) -> bool) -> Seq<char>
    decreases s.len(),
{
    if s.len() > 0 && p(s.last()) {
        trim_back(s.drop_last(), p)
    } else {
        s
    }
}

/// `s` without white space at either end.
pub open spec fn trim_space(s: Seq<char>) -> Seq<char> {
    trim_back(trim_front(s, |c: char| is_space(c)), |c: char| is_space(c))
}

/// `s` without single quotes at either end.
pub open spec fn trim_quotes(s: Seq<char>) -> Seq<char> {
    trim_back(trim_front(s, |c: char| c == '\''), |c: char| c == '\'')
}

/// The part of `s` before its first `c`, or all of `s`.
pub open spec fn before_first(s: Seq<char>, c: char) -> Seq<char>
    decreases s.len(),
{
    if s.len() == 0 {
        s
    } else if s[0] == c {
        Seq::empty()
    } else {
        seq![s[0]] + before_first(s.skip(1), c)
    }
}

/// Number of times `c` occurs in `s`.
pub open spec fn count_char(s: Seq<char>, c: char) -> nat
    decreases s.len(),
{
    if s.len() == 0 {
        0
    } else {
        count_char(s.drop_last(), c) + if s.last() == c { 1nat } else { 0nat }
    }
}

/// Position of the first `c` in `s`, where `s` holds one.
pub open spec fn first_index(s: Seq<char>, c: char) -> int
    decreases s.len(),
{
    if s.len() == 0 || s[0] == c {
        0
    } else {
        1 + first_index(s.skip(1), c)
    }
}

/// The setting that a line holds: without its comment, the line must hold
/// exactly one `=`; the key is what precedes it, trimmed, and the value what
/// follows, trimmed of white space and then of single quotes.
pub open spec fn setting_of(line: Seq<char>) -> Option<(Seq<char>, Seq<char>)> {
    let content = before_first(line, '#');
    if count_char(content, '=') == 1 {
        let p = first_index(content, '=');
        Some((trim_space(content.take(p)), trim_quotes(trim_space(content.skip(p + 1)))))
    } else {
        None
    }
}

/// Where the run of characters of `s` from `i` on that satisfy `p` ends.
fn skip_front(s: &str, n: usize, i: usize, quote: bool) -> (r: usize)
    requires
        n == s@.len(),
        i <= n,
    ensures
        i <= r <= n,
        trim_front(s@.skip(i as int), if quote { |c: char| c == '\'' } else { |c: char| is_space(c) })
            == s@.skip(r as int),
        r < n ==> !(if quote { s@[r as int] == '\'' } else { is_space(s@[r as int]) }),
{
    let ghost p = if quote { |c: char| c == '\'' } else { |c: char| is_space(c) };
    let mut j: usize = i;
    while j < n
        invariant
            i <= j <= n,
            n == s@.len(),
            p == (if quote { |c: char| c == '\'' } else { |c: char| is_space(c) }),
            trim_front(s@.skip(i as int), p) == trim_front(s@.skip(j as int), p),
        decreases n - j,
    {
        let c = s.get_char(j);
        let hit = if quote { c == '\'' } else { is_space_exec(c) };
        if !hit {
            assert(s@.skip(j as int)[0] == c);
            return j;
        }
        assert(s@.skip(j as int).skip(1) =~= s@.skip(j + 1));
        j = j + 1;
    }
    assert(s@.skip(n as int).len() == 0);
    j
}

/// Where the run of characters of `s` before `e` that satisfy `p` begins,
/// going back no further than `b`.
fn skip_back(s: &str, n: usize, b: usize, e: usize, quote: bool) -> (r: usize)
    requires
        n == s@.len(),
        b <= e <= n,
    ensures
        b <= r <= e,
        trim_back(s@.subrange(b as int, e as int), if quote { |c: char| c == '\'' } else { |c: char| is_space(c) })
            == s@.subrange(b as int, r as int),
{
    let ghost p = if quote { |c: char| c == '\'' } else { |c: char| is_space(c) };
    let mut j: usize = e;
    while j > b
        invariant
            b <= j <= e,
            e <= n,
            n == s@.len(),
            p == (if quote { |c: char| c == '\'' } else { |c: char| is_space(c) }),
            trim_back(s@.subrange(b as int, e as int), p) == trim_back(s@.subrange(b as int, j as int), p),
        decreases j - b,
    {
        let c = s.get_char(j - 1);
        let hit = if quote { c == '\'' } else { is_space_exec(c) };
        if !hit {
            assert(s@.subrange(b as int, j as int).last() == c);
            return j;
        }
        assert(s@.subrange(b as int, j as int).drop_last() =~= s@.subrange(b as int, j - 1));
        j = j - 1;
    }
    j
}

/// `s[b..e]`, trimmed of white space, or of single quotes where `quote` holds.
fn trim_range(s: &str, n: usize, b: usize, e: usize, quote: bool) -> (r: (usize, usize))
    requires
        n == s@.len(),
        b <= e <= n,
    ensures
        b <= r.0 <= r.1 <= e,
        s@.subrange(r.0 as int, r.1 as int) == (if quote {
            trim_back(trim_front(s@.subrange(b as int, e as int), |c: char| c == '\''), |c: char| c == '\'')
        } else {
            trim_back(trim_front(s@.subrange(b as int, e as int), |c: char| is_space(c)), |c: char| is_space(c))
        }),
{
    let ghost p = if quote { |c: char| c == '\'' } else { |c: char| is_space(c) };
    // the front is trimmed within [b, e)
    let sub = s.substring_char(b, e);
    let m: usize = sub.unicode_len();
    let f = skip_front(sub, m, 0, quote);
    proof {
        assert(sub@.skip(0) =~= sub@);
        assert(sub@ =~= s@.subrange(b as int, e as int));
        assert(sub@.skip(f as int) =~= s@.subrange(b + f, e as int));
    }
    let t = skip_back(s, n, b + f, e, quote);
    (b + f, t)
}

proof fn lemma_before_first(s: Seq<char>, c: char, i: int)
    requires
        0 <= i <= s.len(),
        forall|k: int| 0 <= k < i ==> s[k] != c,
        i < s.len() ==> s[i] == c,
    ensures
        before_first(s, c) == s.take(i),
    decreases i,
{
    if s.len() == 0 {
        assert(s.take(i) =~= s);
    } else if s[0] == c {
        assert(s.take(i) =~= Seq::<char>::empty());
    } else {
        lemma_before_first(s.skip(1), c, i - 1);
        assert(s.take(i) =~= seq![s[0]] + s.skip(1).take(i - 1));
    }
}

proof fn lemma_first_index(s: Seq<char>, c: char, p: int)
    requires
        0 <= p < s.len(),
        s[p] == c,
        forall|k: int| 0 <= k < p ==> s[k] != c,
    ensures
        first_index(s, c) == p,
    decreases p,
{
    if p > 0 {
        lemma_first_index(s.skip(1), c, p - 1);
    }
}

/// The setting on one line of a descriptor file, if the line holds one.
pub fn parse_setting_line(line: &str) -> (r: Option<(String, String)>)
    ensures
        match r {
            Some((k, v)) => setting_of(line@) == Some((k@, v@)),
            None => setting_of(line@) is None,
        },
{
    let n: usize = line.unicode_len();
    // the comment starts at the first '#'
    let mut c_end: usize = 0;
    while c_end < n && line.get_char(c_end) != '#'
        invariant
            n == line@.len(),
            c_end <= n,
            forall|k: int| 0 <= k < c_end ==> line@[k] != '#',
        decreases n - c_end,
    {
        c_end = c_end + 1;
    }
    let ghost content = line@.take(c_end as int);
    proof {
        lemma_before_first(line@, '#', c_end as int);
    }
    // count the '=' of the content, and note the first
    let mut count: usize = 0;
    let mut first: usize = 0;
    let mut j: usize = 0;
    while j < c_end
        invariant
            n == line@.len(),
            c_end <= n,
            content == line@.take(c_end as int),
            j <= c_end,
            count <= 2,
            count == 0 ==> count_char(content.take(j as int), '=') == 0 && forall|k: int|
                0 <= k < j ==> content[k] != '=',
            count == 1 ==> count_char(content.take(j as int), '=') == 1,
            count == 2 ==> count_char(content.take(j as int), '=') >= 2,
            count >= 1 ==> first < j && content[first as int] == '=' && forall|k: int|
                0 <= k < first ==> content[k] != '=',
        decreases c_end - j,
    {
        assert(content.take(j + 1).drop_last() =~= content.take(j as int));
        if line.get_char(j) == '=' {
            if count == 0 {
                first = j;
            }
            if count < 2 {
                count = count + 1;
            }
        }
        j = j + 1;
    }
    assert(content.take(c_end as int) =~= content);
    if count != 1 {
        return None;
    }
    proof {
        lemma_first_index(content, '=', first as int);
    }
    let (kb, ke) = trim_range(line, n, 0, first, false);
    let (vb, ve) = trim_range(line, n, first + 1, c_end, false);
    let (qb, qe) = trim_range(line, n, vb, ve, true);
    proof {
        assert(content.take(first as int) =~= line@.subrange(0, first as int));
        assert(content.skip(first + 1) =~= line@.subrange(first + 1, c_end as int));
    }
    let key = line.substring_char(kb, ke).to_owned();
    let value = line.substring_char(qb, qe).to_owned();
    Some((key, value))
}

/// The settings of `lines`, in order.
pub open spec fn settings_of(lines: Seq<Seq<char>>) -> Seq<(Seq<char>, Seq<char>)>
    decreases lines.len(),
{
    if lines.len() == 0 {
        Seq::empty()
    } else {
        let prev = settings_of(lines.drop_last());
        match setting_of(lines.last()) {
            Some(kv) => prev.push(kv),
            None => prev,
        }
    }
}

/// The pairs as sequences.
pub open spec fn pairs_view(v: Seq<(String, String)>) -> Seq<(Seq<char>, Seq<char>)> {
    v.map_values(|p: (String, String)| (p.0@, p.1@))
}

/// The settings of a descriptor file's lines, in order.
pub fn parse_control_lines(lines: &Vec<String>) -> (r: Vec<(String, String)>)
    ensures
        pairs_view(r@) == settings_of(names_of(lines@)),
{
    let mut out: Vec<(String, String)> = Vec::new();
    let mut i: usize = 0;
    while i < lines.len()
        invariant
            i <= lines@.len(),
            pairs_view(out@) == settings_of(names_of(lines@).take(i as int)),
        decreases lines@.len() - i,
    {
        assert(names_of(lines@).take(i + 1).drop_last() =~= names_of(lines@).take(i as int));
        assert(names_of(lines@).take(i + 1).last() == lines@[i as int]@);
        let ghost before = out@;
        match parse_setting_line(lines[i].as_str()) {
            Some(kv) => {
                out.push(kv);
                assert(pairs_view(out@) =~= pairs_view(before).push((out@.last().0@, out@.last().1@)));
            },
            None => {},
        }
        i = i + 1;
    }
    assert(names_of(lines@).take(i as int) =~= names_of(lines@));
    out
}

/// The value of the last setting of `key`: a later line overrides an earlier one.
pub open spec fn setting(pairs: Seq<(Seq<char>, Seq<char>)>, key: Seq<char>) -> Option<Seq<char>>
    decreases pairs.len(),
{
    if pairs.len() == 0 {
        None
    } else if pairs.last().0 == key {
        Some(pairs.last().1)
    } else {
        setting(pairs.drop_last(), key)
    }
}

/// The value of the last setting of `key`.
pub fn setting_value(pairs: &Vec<(String, String)>, key: &str) -> (r: Option<String>)
    ensures
        match r {
            Some(v) => setting(pairs_view(pairs@), key@) == Some(v@),
            None => setting(pairs_view(pairs@), key@) is None,
        },
{
    let wanted = key.to_owned();
    let mut i: usize = pairs.len();
    assert(pairs_view(pairs@).take(i as int) =~= pairs_view(pairs@));
    while i > 0
        invariant
            i <= pairs@.len(),
            wanted@ == key@,
            setting(pairs_view(pairs@), key@) == setting(pairs_view(pairs@).take(i as int), key@),
        decreases i,
    {
        assert(pairs_view(pairs@).take(i as int).drop_last() =~= pairs_view(pairs@).take(i - 1));
        if pairs[i - 1].0 == wanted {
            return Some(pairs[i - 1].1.clone());
        }
        i = i - 1;
    }
    None
}

/// Whether `--` stands in `s` at position `i`.
pub open spec fn dashes_at(s: Seq<char>, i: int) -> bool {
    0 <= i && i + 1 < s.len() && s[i] == '-' && s[i + 1] == '-'
}

/// Whether `s` holds no `--`.
pub open spec fn no_dashes(s: Seq<char>) -> bool {
    forall|i: int| !#[trigger] dashes_at(s, i)
}

/// Whether `p` is where the first `--` of `s` stands.
pub open spec fn first_dashes(s: Seq<char>, p: int) -> bool {
    dashes_at(s, p) && forall|k: int| 0 <= k < p ==> !#[trigger] dashes_at(s, k)
}

/// The part of a stem before its first `--`, or the whole stem.
pub open spec fn first_part(s: Seq<char>) -> Seq<char> {
    if no_dashes(s) {
        s
    } else {
        s.take(choose|p: int| first_dashes(s, p))
    }
}

/// A stem split at `--`: the name alone, or the name and a version; `None`
/// where the stem holds `--` more than once.
pub open spec fn stem_split(s: Seq<char>) -> Option<(Seq<char>, Option<Seq<char>>)> {
    if no_dashes(s) {
        Some((s, None))
    } else {
        let p = choose|p: int| first_dashes(s, p);
        if no_dashes(s.skip(p + 2)) {
            Some((s.take(p), Some(s.skip(p + 2))))
        } else {
            None
        }
    }
}

/// Position of the first `--` in `s` from `from` on.
fn find_dashes(s: &str, n: usize, from: usize) -> (r: Option<usize>)
    requires
        n == s@.len(),
        from <= n,
    ensures
        match r {
            Some(p) => from <= p && dashes_at(s@, p as int) && forall|k: int|
                from <= k < p ==> !#[trigger] dashes_at(s@, k),
            None => forall|k: int| from <= k ==> !#[trigger] dashes_at(s@, k),
        },
{
    let mut i: usize = from;
    while n - i > 1
        invariant
            n == s@.len(),
            from <= i,
            i <= n,
            forall|k: int| from <= k < i ==> !#[trigger] dashes_at(s@, k),
        decreases n - i,
    {
        if s.get_char(i) == '-' && s.get_char(i + 1) == '-' {
            return Some(i);
        }
        i = i + 1;
    }
    None
}

proof fn lemma_first_dashes_unique(s: Seq<char>, p: int, q: int)
    requires
        first_dashes(s, p),
        first_dashes(s, q),
    ensures
        p == q,
{
    if p < q {
        assert(dashes_at(s, p));
    } else if q < p {
        assert(dashes_at(s, q));
    }
}

/// Splits a stem at `--`.
pub fn split_stem(stem: &str) -> (r: Option<(String, Option<String>)>)
    ensures
        match r {
            Some((name, Some(version))) => stem_split(stem@) == Some((name@, Some(version@))),
            Some((name, None)) => stem_split(stem@) == Some((name@, None::<Seq<char>>)),
            None => stem_split(stem@) is None,
        },
{
    let n: usize = stem.unicode_len();
    match find_dashes(stem, n, 0) {
        None => {
            assert(no_dashes(stem@));
            Some((stem.to_owned(), None))
        },
        Some(p) => {
            let ghost s = stem@;
            assert(first_dashes(s, p as int));
            assert(!no_dashes(s));
            proof {
                let q = choose|q: int| first_dashes(s, q);
                lemma_first_dashes_unique(s, p as int, q);
            }
            let rest = find_dashes(stem, n, p + 2);
            proof {
                assert forall|k: int| #[trigger] dashes_at(s.skip(p + 2), k) implies dashes_at(s, k + p + 2) by {}
            }
            match rest {
                Some(q) => {
                    assert(dashes_at(s.skip(p + 2), q - p - 2));
                    None
                },
                None => {
                    let name = stem.substring_char(0, p).to_owned();
                    let version = stem.substring_char(p + 2, n).to_owned();
                    assert(s.skip(p + 2) =~= s.subrange(p + 2, n as int));
                    Some((name, Some(version)))
                },
            }
        },
    }
}

/// The part of a stem before its first `--`, or the whole stem.
fn stem_first_part(stem: &str) -> (r: String)
    ensures
        r@ == first_part(stem@),
{
    let n: usize = stem.unicode_len();
    match find_dashes(stem, n, 0) {
        None => {
            assert(no_dashes(stem@));
            stem.to_owned()
        },
        Some(p) => {
            assert(first_dashes(stem@, p as int));
            proof {
                let q = choose|q: int| first_dashes(stem@, q);
                lemma_first_dashes_unique(stem@, p as int, q);
            }
            stem.substring_char(0, p).to_owned()
        },
    }
}

/// Whether the descriptor stem `s` is one for extension `ext`: the stem is
/// the name itself; or, with a version asked for, the stem is the name and
/// that version; or, without, the stem's first part is the name.
pub open spec fn stem_matches(s: Seq<char>, ext: Seq<char>, version: Option<Seq<char>>) -> bool {
    s == ext || match version {
        Some(v) => stem_split(s) == Some((ext, Some(v))),
        None => first_part(s) == ext,
    }
}

/// Whether the descriptor stem `stem` is one for extension `ext`.
pub fn control_stem_matches(stem: &str, ext: &str, version: Option<&str>) -> (r: bool)
    ensures
        r == stem_matches(stem@, ext@, match version {
            Some(v) => Some(v@),
            None => None::<Seq<char>>,
        }),
{
    let s = stem.to_owned();
    let e = ext.to_owned();
    if s == e {
        return true;
    }
    match version {
        Some(v) => match split_stem(stem) {
            Some((name, Some(ver))) => {
                let want = v.to_owned();
                name == e && ver == want
            },
            _ => false,
        },
        None => stem_first_part(stem) == e,
    }
}

/// Byte length of the UTF-8 form of `s`, as `str::len` reports it.
pub open spec fn byte_len(s: Seq<char>) -> usize {
    vstd::utf8::encode_utf8(s).len() as usize
}

/// Among the stems that match, the one with the longest file name (the
/// most specific); the first of those where several are as long.
pub open spec fn best_match(stems: Seq<Seq<char>>, ext: Seq<char>, version: Option<Seq<char>>, i: int) -> bool {
    &&& 0 <= i < stems.len()
    &&& stem_matches(stems[i], ext, version)
    &&& forall|j: int| 0 <= j < stems.len() && stem_matches(#[trigger] stems[j], ext, version) ==> byte_len(stems[j]) <= byte_len(stems[i])
    &&& forall|j: int| 0 <= j < i && stem_matches(#[trigger] stems[j], ext, version) ==> byte_len(stems[j]) < byte_len(stems[i])
}

/// The descriptor to use for extension `ext`, by its index among `stems`;
/// `None` where no stem matches.
pub fn find_matching_control_file(stems: &Vec<String>, ext: &str, version: Option<&str>) -> (r: Option<usize>)
    ensures
        ({
            let v = match version {
                Some(v) => Some(v@),
                None => None::<Seq<char>>,
            };
            match r {
                Some(i) => best_match(names_of(stems@), ext@, v, i as int),
                None => forall|j: int| 0 <= j < stems@.len() ==> !stem_matches(#[trigger] names_of(stems@)[j], ext@, v),
            }
        }),
{
    let ghost v = match version {
        Some(v) => Some(v@),
        None => None::<Seq<char>>,
    };
    let ghost names = names_of(stems@);
    let mut best: Option<usize> = None;
    let mut best_len: usize = 0;
    let mut i: usize = 0;
    while i < stems.len()
        invariant
            i <= stems@.len(),
            names == names_of(stems@),
            v == (match version {
                Some(v) => Some(v@),
                None => None::<Seq<char>>,
            }),
            match best {
                Some(b) => {
                    &&& b < i
                    &&& stem_matches(names[b as int], ext@, v)
                    &&& best_len == byte_len(names[b as int])
                    &&& forall|j: int| 0 <= j < i && stem_matches(#[trigger] names[j], ext@, v) ==> byte_len(names[j]) <= best_len
                    &&& forall|j: int| 0 <= j < b && stem_matches(#[trigger] names[j], ext@, v) ==> byte_len(names[j]) < best_len
                },
                None => forall|j: int| 0 <= j < i ==> !stem_matches(#[trigger] names[j], ext@, v),
            },
        decreases stems@.len() - i,
    {
        let stem = stems[i].as_str();
        assert(names[i as int] == stem@);
        if control_stem_matches(stem, ext, version) {
            let len = stem.len();
            match best {
                Some(_) => {
                    if len > best_len {
                        best = Some(i);
                        best_len = len;
                    }
                },
                None => {
                    best = Some(i);
                    best_len = len;
                },
            }
        }
        i = i + 1;
    }
    best
}

/// What a descriptor says of an extension: its name, its version, and the
/// path of its library.
pub struct ControlInfo {
    pub name: String,
    pub version: String,
    pub library_path: String,
}

/// Why a descriptor could not be read.
#[derive(Clone, Copy, PartialEq, Eq, Structural, Debug)]
pub enum ControlError {
    /// The stem names no version and the file sets no `default_version`.
    MissingDefaultVersion,
    /// The stem holds `--` more than once.
    InvalidFileName,
    /// The file sets no `module_pathname`.
    MissingModulePathname,
}

/// The placeholder for the host's library directory.
pub open spec fn libdir_token() -> Seq<char> {
    seq!['$', 'l', 'i', 'b', 'd', 'i', 'r']
}

/// The library path for a `module_pathname` setting.
pub open spec fn library_path_of(setting: Seq<char>, pkglib: Seq<char>) -> Seq<char> {
    replace_all(setting, libdir_token(), pkglib) + seq!['.', 's', 'o']
}

/// Reads what a descriptor says: name and version from the stem (the version
/// from `default_version` where the stem has none), and the library path from
/// `module_pathname`, with `$libdir` replaced by `pkglib` and `.so` appended.
pub fn describe_extension(stem: &str, pairs: &Vec<(String, String)>, pkglib: &str) -> (r: Result<ControlInfo, ControlError>)
    ensures
        ({
            let settings = pairs_view(pairs@);
            match r {
                Ok(info) => {
                    &&& stem_split(stem@) is Some
                    &&& info.name@ == (stem_split(stem@)->0).0
                    &&& (match (stem_split(stem@)->0).1 {
                        Some(v) => info.version@ == v,
                        None => setting(settings, seq!['d', 'e', 'f', 'a', 'u', 'l', 't', '_', 'v', 'e', 'r', 's', 'i', 'o', 'n']) == Some(info.version@),
                    })
                    &&& setting(settings, seq!['m', 'o', 'd', 'u', 'l', 'e', '_', 'p', 'a', 't', 'h', 'n', 'a', 'm', 'e']) is Some
                    &&& info.library_path@ == library_path_of(setting(settings, seq!['m', 'o', 'd', 'u', 'l', 'e', '_', 'p', 'a', 't', 'h', 'n', 'a', 'm', 'e'])->0, pkglib@)
                },
                Err(ControlError::InvalidFileName) => stem_split(stem@) is None,
                Err(ControlError::MissingDefaultVersion) => stem_split(stem@) is Some && (stem_split(stem@)->0).1 is None
                    && setting(settings, seq!['d', 'e', 'f', 'a', 'u', 'l', 't', '_', 'v', 'e', 'r', 's', 'i', 'o', 'n']) is None,
                Err(ControlError::MissingModulePathname) => stem_split(stem@) is Some
                    && setting(settings, seq!['m', 'o', 'd', 'u', 'l', 'e', '_', 'p', 'a', 't', 'h', 'n', 'a', 'm', 'e']) is None,
            }
        }),
{
    proof {
        reveal_strlit("default_version");
        reveal_strlit("module_pathname");
        reveal_strlit("$libdir");
        reveal_strlit(".so");
        assert("default_version"@ =~= seq!['d', 'e', 'f', 'a', 'u', 'l', 't', '_', 'v', 'e', 'r', 's', 'i', 'o', 'n']);
        assert("module_pathname"@ =~= seq!['m', 'o', 'd', 'u', 'l', 'e', '_', 'p', 'a', 't', 'h', 'n', 'a', 'm', 'e']);
        assert("$libdir"@ =~= libdir_token());
        assert(".so"@ =~= seq!['.', 's', 'o']);
    }
    let (name, version) = match split_stem(stem) {
        None => {
            return Err(ControlError::InvalidFileName);
        },
        Some((name, Some(version))) => (name, version),
        Some((name, None)) => match setting_value(pairs, "default_version") {
            Some(v) => (name, v),
            None => {
                return Err(ControlError::MissingDefaultVersion);
            },
        },
    };
    let module = match setting_value(pairs, "module_pathname") {
        Some(m) => m,
        None => {
            return Err(ControlError::MissingModulePathname);
        },
    };
    let mut library_path = replace_all_exec(module.as_str(), "$libdir", pkglib);
    library_path.append(".so");
    Ok(ControlInfo { name, version, library_path })
}

/// Why an extension cannot be unloaded.
#[derive(Clone, Copy, PartialEq, Eq, Structural, Debug)]
pub enum UnloadError {
    /// No extension of that name is installed.
    NotInstalled,
    /// The extension is not installed at the version asked for.
    NotInstalledAtVersion,
}

/// Whether extension `ext` is installed at version `v`.
pub open spec fn installed_at(rows: Seq<InstalledExtension>, ext: Seq<char>, v: Seq<char>) -> bool {
    exists|i: int| 0 <= i < rows.len() && (#[trigger] rows[i]).name@ == ext && rows[i].version@ == v
}

/// The version of `ext` to unload: the one asked for, where it is installed,
/// or else the version of the first installed row of that name.
pub fn unload_version(rows: &Vec<InstalledExtension>, ext: &str, version: Option<&str>) -> (r: Result<String, UnloadError>)
    ensures
        version is Some ==> (r is Ok <==> installed_at(rows@, ext@, version->0@)),
        version is Some && r is Ok ==> r->Ok_0@ == version->0@,
        version is Some && r is Err ==> r->Err_0 == UnloadError::NotInstalledAtVersion,
        version is None ==> (r is Ok <==> crate::workers::installed(rows@, ext@) is Some),
        version is None && r is Ok ==> r->Ok_0@ == crate::workers::installed(rows@, ext@)->0.version@,
        version is None && r is Err ==> r->Err_0 == UnloadError::NotInstalled,
{
    let e = ext.to_owned();
    match version {
        None => match crate::workers::find_installed(rows, &e) {
            Some(j) => Ok(rows[j].version.clone()),
            None => Err(UnloadError::NotInstalled),
        },
        Some(v) => {
            let want = v.to_owned();
            let mut i: usize = 0;
            while i < rows.len()
                invariant
                    i <= rows@.len(),
                    e@ == ext@,
                    want@ == v@,
                    version == Some(v),
                    forall|k: int| 0 <= k < i ==> !(#[trigger] rows@[k].name@ == ext@ && rows@[k].version@ == v@),
                decreases rows@.len() - i,
            {
                if rows[i].name == e && rows[i].version == want {
                    assert(rows@[i as int].name@ == ext@ && rows@[i as int].version@ == v@);
                    assert(installed_at(rows@, ext@, v@));
                    assert(want@ == v@);
                    return Ok(want);
                }
                i = i + 1;
            }
            Err(UnloadError::NotInstalledAtVersion)
        },
    }
}

} // verus!
