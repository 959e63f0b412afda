//! Bounded strings: the registry's keys, worker names and worker arguments
//! hold at most a fixed number of UTF-8 bytes.
use vstd::prelude::*;
use vstd::string::StrSliceExecFns;

verus! {

/// Marker for values that may be mutated by several processes at once,
/// because they carry their own synchronisation.
pub trait SyncMut {}

/// Number of bytes that `c` takes in UTF-8.
pub open spec fn char_width(c: char) -> nat {
    if (c as u32) < 0x80 {
        1
    } else if (c as u32) < 0x800 {
        2
    } else if (c as u32) < 0x10000 {
        3
    } else {
        4
    }
}

/// Number of bytes that `s` takes in UTF-8.
pub open spec fn utf8_width(s: Seq<char>) -> nat
    decreases s.len(),
{
    if s.len() == 0 {
        0
    } else {
        utf8_width(s.drop_last()) + char_width(s.last())
    }
}

/// Length of the longest run of whole characters of `s`, from position `i` on,
/// that still fits in `limit` bytes when `used` bytes are already taken.
pub open spec fn fit_len_from(s: Seq<char>, limit: nat, i: nat, used: nat) -> nat
    decreases s.len() - i,
{
    if i >= s.len() {
        i
    } else if used + char_width(s[i as int]) > limit {
        i
    } else {
        fit_len_from(s, limit, i + 1, used + char_width(s[i as int]))
    }
}

/// The longest prefix of whole characters of `s` whose UTF-8 form fits in
/// `limit` bytes: truncation never splits a character.
pub open spec fn truncated(s: Seq<char>, limit: nat) -> Seq<char> {
    s.take(fit_len_from(s, limit, 0, 0) as int)
}

proof fn lemma_width_push(s: Seq<char>, i: int)
    requires
        0 <= i < s.len(),
    ensures
        utf8_width(s.take(i + 1)) == utf8_width(s.take(i)) + char_width(s[i]),
{
    assert(s.take(i + 1).drop_last() =~= s.take(i));
}

proof fn lemma_fit_len_bounds(s: Seq<char>, limit: nat, i: nat, used: nat)
    requires
        i <= s.len(),
        used == utf8_width(s.take(i as int)),
        used <= limit,
    ensures
        i <= fit_len_from(s, limit, i, used) <= s.len(),
        utf8_width(s.take(fit_len_from(s, limit, i, used) as int)) <= limit,
        fit_len_from(s, limit, i, used) < s.len() ==> utf8_width(
            s.take(fit_len_from(s, limit, i, used) + 1int),
        ) > limit,
    decreases s.len() - i,
{
    if i < s.len() {
        lemma_width_push(s, i as int);
        if used + char_width(s[i as int]) <= limit {
            lemma_fit_len_bounds(s, limit, i + 1, used + char_width(s[i as int]));
        }
    }
}

/// The width of a truncated string is within the limit, and one more
/// character would not have fitted.
pub proof fn lemma_truncated_fits(s: Seq<char>, limit: nat)
    ensures
        utf8_width(truncated(s, limit)) <= limit,
        truncated(s, limit).len() < s.len() ==> utf8_width(
            s.take(truncated(s, limit).len() + 1int),
        ) > limit,
        truncated(s, limit).is_prefix_of(s),
{
    assert(s.take(0) =~= Seq::<char>::empty());
    lemma_fit_len_bounds(s, limit, 0, 0);
}

/// Number of bytes that `c` takes in UTF-8.
fn char_width_exec(c: char) -> (r: usize)
    ensures
        r == char_width(c),
{
    let v: u32 = c as u32;
    if v < 0x80 {
        1
    } else if v < 0x800 {
        2
    } else if v < 0x10000 {
        3
    } else {
        4
    }
}

/// Copies `s`, cut after the last whole character that fits in `limit` bytes.
pub fn truncate_to(s: &str, limit: usize) -> (r: String)
    ensures
        r@ == truncated(s@, limit as nat),
        utf8_width(r@) <= limit,
{
    let n: usize = s.unicode_len();
    let mut i: usize = 0;
    let mut used: usize = 0;
    while i < n
        invariant
            n == s@.len(),
            i <= n,
            used <= limit,
            fit_len_from(s@, limit as nat, i as nat, used as nat) == fit_len_from(
                s@,
                limit as nat,
                0,
                0,
            ),
        ensures
            fit_len_from(s@, limit as nat, 0, 0) == i,
        decreases n - i,
    {
        let w: usize = char_width_exec(s.get_char(i));
        if w > limit - used {
            break;
        }
        used = used + w;
        i = i + 1;
    }
    proof {
        lemma_truncated_fits(s@, limit as nat);
    }
    s.substring_char(0, i).to_owned()
}

} // verus!
