//! Recognising a running dbx among the processes of the machine.
use vstd::prelude::*;

use crate::text::{
    chars_of, contains, copy_range, ends_with, ends_with_exec, find_exec, is_char, last_before,
    lemma_last_before, same_chars,
};

verus! {

/// A path that is a single plain name: not empty, not `.` or `..`, and free
/// of `/`, `\\` and `:`, so that no platform reads a separator or a drive in it.
pub open spec fn plain_name(path: Seq<char>) -> bool {
    &&& path.len() > 0
    &&& path != "."@
    &&& path != ".."@
    &&& forall|i: int| 0 <= i < path.len() ==> #[trigger] path[i] != '/' && path[i] != '\\' && path[i] != ':'
}

/// A path that every platform reads with `/` as its only separator and no
/// prefix: it has no `\\` and no `:`, and does not start with `//`.
pub open spec fn slash_path(path: Seq<char>) -> bool {
    &&& forall|i: int| 0 <= i < path.len() ==> #[trigger] path[i] != '\\' && path[i] != ':'
    &&& !(path.len() >= 2 && path[0] == '/' && path[1] == '/')
}

/// Among the `/`-separated components of `s[..j]`, taken from the back, the
/// first one that is neither empty nor `.`.
pub open spec fn last_component(s: Seq<char>, j: int) -> Option<Seq<char>>
    decreases j,
{
    if j <= 0 || j > s.len() {
        None
    } else {
        let k = last_before(s, is_char('/'), j);
        proof {
            lemma_last_before(s, is_char('/'), j);
        }
        let part = s.subrange(k + 1, j);
        if part.len() > 0 && part != "."@ {
            Some(part)
        } else if k < 0 {
            None
        } else {
            last_component(s, k)
        }
    }
}

/// The file name of a path with `/` separators: its last component other
/// than an empty one or `.`; none when that is `..` or there is none.
pub open spec fn slash_file_name(path: Seq<char>) -> Option<Seq<char>> {
    match last_component(path, path.len() as int) {
        Some(part) => if part == ".."@ {
            None
        } else {
            Some(part)
        },
        None => None,
    }
}

/// What holds of the file name that `Path::file_name` gives for `path`, on
/// every platform: it is a non-empty part of the path other than `.` and
/// `..`; an empty path has none; a plain name is its own file name; and a
/// path read with `/` separators only (`slash_path`) has the file name
/// `slash_file_name`.
pub open spec fn possible_file_name(path: Seq<char>, name: Option<Seq<char>>) -> bool {
    &&& (name matches Some(n) ==> n.len() > 0 && n != "."@ && n != ".."@ && contains(path, n))
    &&& (path.len() == 0 ==> name is None)
    &&& (plain_name(path) ==> name == Some(path))
    &&& (slash_path(path) ==> name == slash_file_name(path))
}

/// Calls `Path::file_name` and keeps the name as text. For a path with `\\`
/// or `:`, or starting with `//`, which part it picks depends on the
/// platform's path syntax (`/` only on Unix; `/`, `\\` and prefixes such as
/// `C:` or `//server/share` on Windows) and is not stated beyond what holds
/// on every platform; for other paths every platform reads `/` as the only
/// separator, and the name is stated exactly.
#[verifier::external_body]
fn path_file_name(path: &str) -> (r: Option<String>)
    ensures
        possible_file_name(
            path@,
            match r {
                Some(n) => Some(n@),
                None => None,
            },
        ),
{
    std::path::Path::new(path).file_name().and_then(|f| f.to_str()).map(|f| f.to_owned())
}

/// A file name without one `.exe`, `.cmd`, `.bat` or `.com` suffix.
pub open spec fn command_stem(name: Seq<char>) -> Seq<char> {
    if ends_with(name, ".exe"@) {
        name.subrange(0, name.len() - ".exe"@.len())
    } else if ends_with(name, ".cmd"@) {
        name.subrange(0, name.len() - ".cmd"@.len())
    } else if ends_with(name, ".bat"@) {
        name.subrange(0, name.len() - ".bat"@.len())
    } else if ends_with(name, ".com"@) {
        name.subrange(0, name.len() - ".com"@.len())
    } else {
        name
    }
}

/// A (lowercased) command-line word whose file name is `name` names the dbx
/// executable: it is `dbx`, its file name is `dbx` with or without an
/// executable suffix, or it runs through a directory named `dbx`.
pub open spec fn dbx_token_named(t: Seq<char>, name: Option<Seq<char>>) -> bool {
    ||| t == "dbx"@
    ||| (name matches Some(n) && command_stem(n) == "dbx"@)
    ||| contains(t, "\\dbx\\"@)
    ||| contains(t, "/dbx/"@)
    ||| contains(t, "\\dbx/"@)
    ||| contains(t, "/dbx\\"@)
}

/// The verdict on a word is one that some platform's file name gives.
pub open spec fn token_verdict(t: Seq<char>, v: bool) -> bool {
    exists|name: Option<Seq<char>>| possible_file_name(t, name) && v == dbx_token_named(t, name)
}

/// The word names dbx whatever the platform.
pub open spec fn surely_dbx(t: Seq<char>) -> bool {
    ||| dbx_token_named(t, None)
    ||| (plain_name(t) && command_stem(t) == "dbx"@)
}

/// The word names dbx on some reading of its file name.
pub open spec fn possibly_dbx(t: Seq<char>) -> bool {
    exists|name: Option<Seq<char>>| possible_file_name(t, name) && dbx_token_named(t, name)
}

/// A verdict lies between the two bounds.
pub proof fn lemma_token_verdict_bounds(t: Seq<char>, v: bool)
    requires
        token_verdict(t, v),
    ensures
        surely_dbx(t) ==> v,
        v ==> possibly_dbx(t),
{
    let name = choose|name: Option<Seq<char>>| possible_file_name(t, name) && v == dbx_token_named(t, name);
    assert(possible_file_name(t, name) && v == dbx_token_named(t, name));
}

fn strip_exec(name: &Vec<char>, suffix: &Vec<char>) -> (r: Vec<char>)
    requires
        suffix@.len() <= name@.len(),
    ensures
        r@ == name@.subrange(0, name@.len() - suffix@.len()),
{
    copy_range(name, 0, name.len() - suffix.len())
}

fn command_stem_exec(name: &Vec<char>) -> (r: Vec<char>)
    ensures
        r@ == command_stem(name@),
{
    let exe = chars_of(".exe");
    let cmd = chars_of(".cmd");
    let bat = chars_of(".bat");
    let com = chars_of(".com");
    if ends_with_exec(name, &exe) {
        strip_exec(name, &exe)
    } else if ends_with_exec(name, &cmd) {
        strip_exec(name, &cmd)
    } else if ends_with_exec(name, &bat) {
        strip_exec(name, &bat)
    } else if ends_with_exec(name, &com) {
        strip_exec(name, &com)
    } else {
        copy_range(name, 0, name.len())
    }
}

fn contains_exec(s: &Vec<char>, p: &str) -> (r: bool)
    ensures
        r == contains(s@, p@),
{
    find_exec(s, &chars_of(p)).is_some()
}

/// Whether a (lowercased) command-line word whose file name is `name`
/// looks like the dbx executable.
pub fn dbx_token_with(token: &str, name: &Option<String>) -> (r: bool)
    ensures
        r == dbx_token_named(
            token@,
            match name {
                Some(n) => Some(n@),
                None => None,
            },
        ),
{
    let t = chars_of(token);
    let dbx = chars_of("dbx");
    if same_chars(&t, &dbx) {
        return true;
    }
    match name {
        Some(n) => {
            if same_chars(&command_stem_exec(&chars_of(n.as_str())), &dbx) {
                return true;
            }
        },
        None => {},
    }
    contains_exec(&t, "\\dbx\\") || contains_exec(&t, "/dbx/") || contains_exec(&t, "\\dbx/")
        || contains_exec(&t, "/dbx\\")
}

/// Whether a (lowercased) command-line word looks like the dbx executable:
/// the bare `dbx`, or a `dbx`/`dbx.exe` binary invoked through its path, the
/// file name read by `Path::file_name`.
pub fn is_dbx_token(token: &str) -> (r: bool)
    ensures
        token_verdict(token@, r),
        slash_path(token@) ==> r == dbx_token_named(token@, slash_file_name(token@)),
{
    let name = path_file_name(token);
    let r = dbx_token_with(token, &name);
    let ghost n = match name {
        Some(n) => Some(n@),
        None => None,
    };
    assert(possible_file_name(token@, n) && r == dbx_token_named(token@, n));
    r
}

/// A process of the machine: its id and its command line, word by word.
pub struct ProcessInfo {
    pub pid: u32,
    pub cmd: Vec<String>,
}

/// What `str::to_lowercase` makes of `s`.
pub uninterp spec fn lowercase(s: Seq<char>) -> Seq<char>;

/// Calls `str::to_lowercase`, whose result is named `lowercase`.
#[verifier::external_body]
fn to_lowercase(s: &str) -> (r: String)
    ensures
        r@ == lowercase(s@),
{
    s.to_lowercase()
}

/// `v` is an admissible verdict on whether `cmd` runs dbx: when it does,
/// some word, lowercased, got the verdict dbx; when it does not, every word
/// got the verdict not dbx (see `token_verdict`).
pub open spec fn run_verdict(cmd: Seq<String>, v: bool) -> bool {
    &&& (v ==> exists|i: int| 0 <= i < cmd.len() && token_verdict(lowercase(#[trigger] cmd[i]@), true))
    &&& (!v ==> forall|i: int| 0 <= i < cmd.len() ==> token_verdict(lowercase(#[trigger] cmd[i]@), false))
}

/// Each process has an admissible verdict in `flags`.
pub open spec fn verdicts(procs: Seq<ProcessInfo>, flags: Seq<bool>) -> bool {
    flags.len() == procs.len() && forall|i: int|
        0 <= i < procs.len() ==> run_verdict(#[trigger] procs[i].cmd@, flags[i])
}

/// The ids of the processes flagged in `flags`, in input order.
pub open spec fn flagged_pids(procs: Seq<ProcessInfo>, flags: Seq<bool>) -> Seq<u32>
    decreases procs.len(),
{
    if procs.len() == 0 || flags.len() != procs.len() {
        seq![]
    } else {
        flagged_pids(procs.drop_last(), flags.drop_last()) + if flags.last() {
            seq![procs.last().pid]
        } else {
            seq![]
        }
    }
}

/// `s` is in ascending order.
pub open spec fn ascending(s: Seq<u32>) -> bool {
    forall|i: int, j: int| 0 <= i < j < s.len() ==> s[i] <= s[j]
}

fn command_runs_dbx(cmd: &Vec<String>) -> (r: bool)
    ensures
        run_verdict(cmd@, r),
{
    let mut k: usize = 0;
    while k < cmd.len()
        invariant
            0 <= k <= cmd.len(),
            forall|m: int| 0 <= m < k ==> token_verdict(lowercase(#[trigger] cmd@[m]@), false),
        decreases cmd.len() - k,
    {
        let lower = to_lowercase(cmd[k].as_str());
        let v = is_dbx_token(lower.as_str());
        if v {
            assert(token_verdict(lowercase(cmd@[k as int]@), true));
            return true;
        }
        k = k + 1;
    }
    false
}

/// Inserts `x` into the ascending `v`, keeping it ascending.
fn insert_ascending(v: &mut Vec<u32>, x: u32)
    requires
        ascending(old(v)@),
    ensures
        ascending(final(v)@),
        final(v)@.to_multiset() == old(v)@.to_multiset().insert(x),
{
    let mut i: usize = 0;
    while i < v.len() && v[i] <= x
        invariant
            0 <= i <= v.len(),
            forall|m: int| 0 <= m < i ==> v@[m] <= x,
        decreases v.len() - i,
    {
        i = i + 1;
    }
    let ghost before = v@;
    proof {
        vstd::seq_lib::to_multiset_insert(before, i as int, x);
    }
    v.insert(i, x);
    assert forall|a: int, b: int| 0 <= a < b < v@.len() implies v@[a] <= v@[b] by {
        if b < i {
        } else if b == i {
        } else if a < i {
            assert(v@[b] == before[b - 1]);
        } else if a == i {
            assert(v@[b] == before[b - 1]);
        } else {
            assert(v@[a] == before[a - 1] && v@[b] == before[b - 1]);
        }
    }
}

/// The ids of the processes whose command line, lowercased, has a word that
/// looks like the dbx executable, in ascending order. Which words count
/// depends on the platform's reading of file names (see `is_dbx_token`): each
/// process is judged by an admissible verdict.
pub fn find_dbx_processes(procs: &Vec<ProcessInfo>) -> (pids: Vec<u32>)
    ensures
        ascending(pids@),
        exists|flags: Seq<bool>|
            verdicts(procs@, flags) && pids@.to_multiset() == #[trigger] flagged_pids(
                procs@,
                flags,
            ).to_multiset(),
{
    let mut pids: Vec<u32> = Vec::new();
    let ghost mut flags: Seq<bool> = seq![];
    let mut j: usize = 0;
    assert(procs@.take(0) =~= Seq::<ProcessInfo>::empty());
    while j < procs.len()
        invariant
            0 <= j <= procs.len(),
            ascending(pids@),
            verdicts(procs@.take(j as int), flags),
            pids@.to_multiset() == flagged_pids(procs@.take(j as int), flags).to_multiset(),
        decreases procs.len() - j,
    {
        let ghost prefix = procs@.take(j as int);
        let ghost next = procs@.take(j + 1);
        assert(next.drop_last() =~= prefix);
        assert(next.last() == procs@[j as int]);
        let v = command_runs_dbx(&procs[j].cmd);
        let ghost next_flags = flags.push(v);
        assert(next_flags.drop_last() =~= flags);
        let ghost before = flagged_pids(prefix, flags);
        if v {
            assert(flagged_pids(next, next_flags) =~= before.push(procs@[j as int].pid));
            proof {
                vstd::seq_lib::to_multiset_build(before, procs@[j as int].pid);
            }
            insert_ascending(&mut pids, procs[j].pid);
        } else {
            assert(flagged_pids(next, next_flags) =~= before);
        }
        proof {
            flags = next_flags;
            assert forall|i: int| 0 <= i < next.len() implies run_verdict(
                #[trigger] next[i].cmd@,
                flags[i],
            ) by {
                if i < j {
                    assert(next[i] == prefix[i]);
                }
            }
        }
        j = j + 1;
    }
    assert(procs@.take(j as int) =~= procs@);
    pids
}

} // verus!
