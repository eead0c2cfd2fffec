//! Where dbx is looked for, and the command line and search path it is
//! started with.
use vstd::prelude::*;

use vstd::string::StrSliceExecFns;

use crate::process::slash_path;
use crate::text::{chars_of, is_char, last_before, lemma_last_before};

verus! {

/// The contents of a sequence of strings.
pub open spec fn texts(v: Seq<String>) -> Seq<Seq<char>> {
    v.map_values(|s: String| s@)
}

pub proof fn lemma_texts_push(v: Seq<String>, x: String)
    ensures
        texts(v.push(x)) == texts(v).push(x@),
{
    assert(texts(v.push(x)) =~= texts(v).push(x@));
}

/// `base` extended by `rel` as `PathBuf::push` does with `/` separators: an
/// absolute `rel` replaces `base`; otherwise a `/` goes between the two
/// unless `base` is empty or already ends with one.
pub open spec fn join_path(base: Seq<char>, rel: Seq<char>) -> Seq<char> {
    if rel.len() > 0 && rel[0] == '/' {
        rel
    } else if base.len() == 0 || base.last() == '/' {
        base + rel
    } else {
        base + "/"@ + rel
    }
}

/// `base` extended by `rel`.
pub fn join_path_exec(base: &str, rel: &str) -> (r: String)
    ensures
        r@ == join_path(base@, rel@),
{
    let b = chars_of(base);
    let r = chars_of(rel);
    if r.len() > 0 && r[0] == '/' {
        return rel.to_owned();
    }
    let mut out = base.to_owned();
    if !(b.len() == 0 || b[b.len() - 1] == '/') {
        out.append("/");
    }
    out.append(rel);
    out
}

/// The system directories searched for dbx.
pub open spec fn system_bin_dirs() -> Seq<Seq<char>> {
    seq!["/usr/local/bin"@, "/opt/homebrew/bin"@, "/usr/bin"@]
}

/// The directories under the home directory searched for dbx: global bins
/// of npm, cargo and bun, and the shims of volta, asdf, mise and fnm.
pub open spec fn home_bin_subdirs() -> Seq<Seq<char>> {
    seq![
        ".npm-global/bin"@,
        ".local/bin"@,
        ".cargo/bin"@,
        ".bun/bin"@,
        ".volta/bin"@,
        ".asdf/shims"@,
        ".local/share/mise/shims"@,
        ".local/share/fnm"@,
    ]
}

/// The directories where dbx may be installed on macOS and Linux: the
/// system directories, then, when the home directory is known, the
/// directories under it and the `bin` directory of each Node version that
/// nvm keeps (`nvm_versions` holds the paths of those versions).
pub open spec fn common_dirs(home: Option<Seq<char>>, nvm_versions: Seq<Seq<char>>) -> Seq<
    Seq<char>,
> {
    match home {
        None => system_bin_dirs(),
        Some(h) => system_bin_dirs() + home_bin_subdirs().map_values(
            |d: Seq<char>| join_path(h, d),
        ) + nvm_versions.map_values(|v: Seq<char>| join_path(v, "bin"@)),
    }
}

fn literal_list(items: &[&str]) -> (r: Vec<String>)
    ensures
        texts(r@) == items@.map_values(|s: &str| s@),
{
    let mut r: Vec<String> = Vec::new();
    let mut i: usize = 0;
    while i < items.len()
        invariant
            0 <= i <= items.len(),
            texts(r@) == items@.take(i as int).map_values(|s: &str| s@),
        decreases items.len() - i,
    {
        let s = items[i].to_owned();
        proof {
            lemma_texts_push(r@, s);
        }
        r.push(s);
        i = i + 1;
        assert(texts(r@) =~= items@.take(i as int).map_values(|s: &str| s@));
    }
    assert(items@.take(i as int) =~= items@);
    r
}

/// The directories where dbx may be installed on macOS and Linux, for the
/// given home directory and nvm Node version directories.
pub fn common_bin_dirs(home: &Option<String>, nvm_versions: &Vec<String>) -> (dirs: Vec<String>)
    ensures
        texts(dirs@) == common_dirs(
            match home {
                Some(h) => Some(h@),
                None => None,
            },
            texts(nvm_versions@),
        ),
{
    let system: [&str; 3] = ["/usr/local/bin", "/opt/homebrew/bin", "/usr/bin"];
    let mut dirs = literal_list(&system);
    proof {
        reveal_strlit("/usr/local/bin");
        reveal_strlit("/opt/homebrew/bin");
        reveal_strlit("/usr/bin");
    }
    assert(texts(dirs@) =~= system_bin_dirs());
    match home {
        None => dirs,
        Some(h) => {
            let subdirs: [&str; 8] = [
                ".npm-global/bin",
                ".local/bin",
                ".cargo/bin",
                ".bun/bin",
                ".volta/bin",
                ".asdf/shims",
                ".local/share/mise/shims",
                ".local/share/fnm",
            ];
            let ghost subs = home_bin_subdirs();
            assert(subdirs@.map_values(|s: &str| s@) =~= subs);
            let mut i: usize = 0;
            while i < 8
                invariant
                    0 <= i <= 8,
                    subdirs@.map_values(|s: &str| s@) == subs,
                    subs == home_bin_subdirs(),
                    texts(dirs@) == system_bin_dirs() + subs.take(i as int).map_values(
                        |d: Seq<char>| join_path(h@, d),
                    ),
                decreases 8 - i,
            {
                let d = join_path_exec(h.as_str(), subdirs[i]);
                assert(subs[i as int] == subdirs@[i as int]@);
                proof {
                    lemma_texts_push(dirs@, d);
                }
                dirs.push(d);
                i = i + 1;
                assert(subs.take(i as int).map_values(|d: Seq<char>| join_path(h@, d))
                    =~= subs.take(i - 1).map_values(|d: Seq<char>| join_path(h@, d)).push(
                    join_path(h@, subs[i - 1]),
                ));
                assert(texts(dirs@) =~= system_bin_dirs() + subs.take(i as int).map_values(
                    |d: Seq<char>| join_path(h@, d),
                ));
            }
            assert(subs.take(8) =~= subs);
            let ghost front = texts(dirs@);
            let ghost nvm = texts(nvm_versions@);
            let mut k: usize = 0;
            while k < nvm_versions.len()
                invariant
                    0 <= k <= nvm_versions.len(),
                    nvm == texts(nvm_versions@),
                    texts(dirs@) == front + nvm.take(k as int).map_values(
                        |v: Seq<char>| join_path(v, "bin"@),
                    ),
                decreases nvm_versions.len() - k,
            {
                let d = join_path_exec(nvm_versions[k].as_str(), "bin");
                assert(nvm[k as int] == nvm_versions@[k as int]@);
                proof {
                    lemma_texts_push(dirs@, d);
                }
                dirs.push(d);
                k = k + 1;
                assert(texts(dirs@) =~= front + nvm.take(k as int).map_values(
                    |v: Seq<char>| join_path(v, "bin"@),
                ));
            }
            assert(nvm.take(k as int) =~= nvm);
            dirs
        },
    }
}

/// The file names under which dbx may be installed in a directory: `dbx`,
/// and on Windows also `dbx.exe`, `dbx.cmd`, `dbx.bat` and `dbx.com`.
pub open spec fn dbx_names(windows: bool) -> Seq<Seq<char>> {
    if windows {
        seq!["dbx"@, "dbx.exe"@, "dbx.cmd"@, "dbx.bat"@, "dbx.com"@]
    } else {
        seq!["dbx"@]
    }
}

/// The file names under which dbx may be installed, in the order they are
/// tried.
pub fn dbx_file_names(windows: bool) -> (names: Vec<String>)
    ensures
        texts(names@) == dbx_names(windows),
{
    if windows {
        let all: [&str; 5] = ["dbx", "dbx.exe", "dbx.cmd", "dbx.bat", "dbx.com"];
        let names = literal_list(&all);
        assert(texts(names@) =~= dbx_names(windows));
        names
    } else {
        let one: [&str; 1] = ["dbx"];
        let names = literal_list(&one);
        assert(texts(names@) =~= dbx_names(windows));
        names
    }
}

/// A path separator: `/`, and on Windows also `\`.
pub open spec fn is_separator(c: char, windows: bool) -> bool {
    c == '/' || (windows && c == '\\')
}

/// A Windows drive such as `C:` with nothing after it.
pub open spec fn bare_drive(dir: Seq<char>) -> bool {
    dir.len() == 2 && dir[1] == ':' && (('a' <= dir[0] && dir[0] <= 'z') || ('A' <= dir[0]
        && dir[0] <= 'Z'))
}

/// The path of the file `name` in the directory `dir`: a separator (`\` on
/// Windows, `/` elsewhere) goes between the two unless `dir` is empty, already
/// ends with a separator, or is a bare Windows drive.
pub open spec fn candidate_path(dir: Seq<char>, name: Seq<char>, windows: bool) -> Seq<char> {
    if dir.len() == 0 || is_separator(dir.last(), windows) || (windows && bare_drive(dir)) {
        dir + name
    } else if windows {
        dir + seq!['\\'] + name
    } else {
        dir + seq!['/'] + name
    }
}

/// The path of the file `name` in the directory `dir`.
pub fn candidate_path_exec(dir: &str, name: &str, windows: bool) -> (r: String)
    ensures
        r@ == candidate_path(dir@, name@, windows),
{
    proof {
        reveal_strlit("\\");
        reveal_strlit("/");
    }
    let d = chars_of(dir);
    let mut out = dir.to_owned();
    let n = d.len();
    let joined = n == 0 || d[n - 1] == '/' || (windows && d[n - 1] == '\\') || (windows && n == 2
        && d[1] == ':' && (('a' <= d[0] && d[0] <= 'z') || ('A' <= d[0] && d[0] <= 'Z')));
    if !joined {
        if windows {
            out.append("\\");
        } else {
            out.append("/");
        }
    }
    out.append(name);
    out
}

/// The candidate paths of dbx in `dir`, one per name of `dbx_names`.
pub open spec fn dbx_candidate_paths(dir: Seq<char>, windows: bool) -> Seq<Seq<char>> {
    dbx_names(windows).map_values(|n: Seq<char>| candidate_path(dir, n, windows))
}

/// The paths at which dbx may be installed in `dir`, in the order they are
/// tried.
pub fn dbx_candidates(dir: &str, windows: bool) -> (c: Vec<String>)
    ensures
        texts(c@) == dbx_candidate_paths(dir@, windows),
{
    let names = dbx_file_names(windows);
    let ghost ns = texts(names@);
    let mut c: Vec<String> = Vec::new();
    let mut i: usize = 0;
    while i < names.len()
        invariant
            0 <= i <= names.len(),
            ns == texts(names@),
            ns == dbx_names(windows),
            texts(c@) == ns.take(i as int).map_values(
                |n: Seq<char>| candidate_path(dir@, n, windows),
            ),
        decreases names.len() - i,
    {
        let p = candidate_path_exec(dir, names[i].as_str(), windows);
        assert(ns[i as int] == names@[i as int]@);
        proof {
            lemma_texts_push(c@, p);
        }
        c.push(p);
        i = i + 1;
        assert(texts(c@) =~= ns.take(i as int).map_values(
            |n: Seq<char>| candidate_path(dir@, n, windows),
        ));
    }
    assert(ns.take(i as int) =~= ns);
    c
}

/// The first index `k >= i` with `flags[k]`.
pub open spec fn first_set(flags: Seq<bool>, i: int) -> Option<int>
    decreases flags.len() - i,
{
    if i < 0 || i >= flags.len() {
        None
    } else if flags[i] {
        Some(i)
    } else {
        first_set(flags, i + 1)
    }
}

/// The dbx found in `dir`, where `is_file[i]` tells whether the `i`-th
/// candidate path is a file: the first candidate that is.
pub open spec fn found_in_dir(dir: Seq<char>, windows: bool, is_file: Seq<bool>) -> Option<
    Seq<char>,
> {
    match first_set(is_file, 0) {
        Some(i) => Some(dbx_candidate_paths(dir, windows)[i]),
        None => None,
    }
}

fn first_true(found: &Vec<bool>) -> (r: Option<usize>)
    ensures
        match r {
            Some(i) => first_set(found@, 0) == Some(i as int) && i < found.len(),
            None => first_set(found@, 0) is None,
        },
{
    let mut i: usize = 0;
    while i < found.len()
        invariant
            0 <= i <= found.len(),
            first_set(found@, i as int) == first_set(found@, 0),
        decreases found.len() - i,
    {
        if found[i] {
            return Some(i);
        }
        i = i + 1;
    }
    None
}

/// The dbx in `dir`: the first of its candidate paths (see `dbx_candidates`)
/// that is a file, where `is_file[i]` tells whether the `i`-th one is.
pub fn dbx_in_dir(dir: &str, windows: bool, is_file: &Vec<bool>) -> (r: Option<String>)
    requires
        is_file.len() == dbx_names(windows).len(),
    ensures
        match r {
            Some(p) => found_in_dir(dir@, windows, is_file@) == Some(p@),
            None => found_in_dir(dir@, windows, is_file@) is None,
        },
{
    match first_true(is_file) {
        Some(i) => {
            let c = dbx_candidates(dir, windows);
            assert(texts(c@).len() == c@.len());
            assert(dbx_candidate_paths(dir@, windows).len() == dbx_names(windows).len());
            assert(texts(c@)[i as int] == c@[i as int]@);
            Some(c[i].clone())
        },
        None => None,
    }
}

/// The separator between the entries of `PATH`: `;` on Windows, `:`
/// elsewhere.
pub open spec fn list_separator(windows: bool) -> char {
    if windows {
        ';'
    } else {
        ':'
    }
}

/// The entry of a `PATH` value that starts at `j` (inside double quotes when
/// `quoted`), and where it ends: on Windows a `"` toggles quoting and is
/// dropped, and a `;` ends the entry only outside quotes; elsewhere a `:`
/// ends it.
pub open spec fn path_entry(s: Seq<char>, j: int, quoted: bool, windows: bool) -> (Seq<char>, int)
    decreases s.len() - j,
{
    if j < 0 || j >= s.len() {
        (seq![], s.len() as int)
    } else if windows && s[j] == '"' {
        path_entry(s, j + 1, !quoted, windows)
    } else if s[j] == list_separator(windows) && !quoted {
        (seq![], j)
    } else {
        let rest = path_entry(s, j + 1, quoted, windows);
        (seq![s[j]] + rest.0, rest.1)
    }
}

pub proof fn lemma_path_entry_end(s: Seq<char>, j: int, quoted: bool, windows: bool)
    requires
        0 <= j <= s.len(),
    ensures
        j <= path_entry(s, j, quoted, windows).1 <= s.len(),
    decreases s.len() - j,
{
    if j < s.len() {
        lemma_path_entry_end(s, j + 1, quoted, windows);
        lemma_path_entry_end(s, j + 1, !quoted, windows);
    }
}

/// The entries of a `PATH` value from offset `i` on
/// (`std::env::split_paths`): a value ending in a separator has a last,
/// empty entry, and an empty value has one empty entry.
pub open spec fn path_entries_from(s: Seq<char>, i: int, windows: bool) -> Seq<Seq<char>>
    decreases s.len() + 1 - i,
{
    if i < 0 || i > s.len() {
        seq![]
    } else {
        let (text, e) = path_entry(s, i, false, windows);
        proof {
            lemma_path_entry_end(s, i, false, windows);
        }
        if e >= s.len() {
            seq![text]
        } else {
            seq![text] + path_entries_from(s, e + 1, windows)
        }
    }
}

/// The directories listed in a `PATH` value.
pub open spec fn path_entries(s: Seq<char>, windows: bool) -> Seq<Seq<char>> {
    path_entries_from(s, 0, windows)
}

/// Reads one entry of `path` from offset `i`: its text and where it ends.
fn read_path_entry(path: &str, s: &Vec<char>, i: usize, windows: bool) -> (r: (String, usize))
    requires
        s@ == path@,
        i <= s.len(),
    ensures
        (r.0@, r.1 as int) == path_entry(s@, i as int, false, windows),
{
    let sep = if windows {
        ';'
    } else {
        ':'
    };
    let mut out = String::new();
    let mut quoted = false;
    let mut run = i;
    let mut j = i;
    while j < s.len()
        invariant
            s@ == path@,
            i <= run <= j <= s.len(),
            sep == list_separator(windows),
            !windows ==> !quoted,
            out@ + s@.subrange(run as int, j as int) + path_entry(s@, j as int, quoted, windows).0
                == path_entry(s@, i as int, false, windows).0,
            path_entry(s@, j as int, quoted, windows).1 == path_entry(s@, i as int, false, windows).1,
        decreases s.len() - j,
    {
        let ghost before = out@;
        if windows && s[j] == '"' {
            let piece = path.substring_char(run, j);
            out.append(piece);
            assert(out@ + s@.subrange((j + 1) as int, (j + 1) as int) =~= before + s@.subrange(
                run as int,
                j as int,
            ));
            quoted = !quoted;
            j = j + 1;
            run = j;
        } else if s[j] == sep && !quoted {
            let piece = path.substring_char(run, j);
            out.append(piece);
            assert(path_entry(s@, j as int, quoted, windows).0 =~= Seq::<char>::empty());
            assert(out@ =~= path_entry(s@, i as int, false, windows).0);
            return (out, j);
        } else {
            assert(s@.subrange(run as int, (j + 1) as int) =~= s@.subrange(run as int, j as int)
                + seq![s@[j as int]]);
            j = j + 1;
        }
    }
    let piece = path.substring_char(run, j);
    out.append(piece);
    assert(out@ =~= path_entry(s@, i as int, false, windows).0);
    (out, j)
}

/// The directories listed in a `PATH` value, as `std::env::split_paths`
/// reads them on Windows (`windows`) or elsewhere.
pub fn split_paths(path: &str, windows: bool) -> (dirs: Vec<String>)
    ensures
        texts(dirs@) == path_entries(path@, windows),
{
    let s = chars_of(path);
    let mut dirs: Vec<String> = Vec::new();
    let mut i: usize = 0;
    loop
        invariant
            s@ == path@,
            0 <= i <= s.len(),
            texts(dirs@) + path_entries_from(s@, i as int, windows) == path_entries(path@, windows),
        decreases s.len() - i,
    {
        let ghost before = texts(dirs@);
        let (text, e) = read_path_entry(path, &s, i, windows);
        proof {
            lemma_path_entry_end(s@, i as int, false, windows);
            lemma_texts_push(dirs@, text);
        }
        dirs.push(text);
        if e >= s.len() {
            assert(texts(dirs@) =~= path_entries(path@, windows));
            return dirs;
        }
        assert(texts(dirs@) + path_entries_from(s@, e + 1, windows) =~= before
            + path_entries_from(s@, i as int, windows));
        i = e + 1;
    }
}

/// The directories searched for dbx, in order: the entries of `PATH` when it
/// is set, then, except on Windows, the common install locations.
pub open spec fn search_dirs(path_var: Option<Seq<char>>, common: Seq<Seq<char>>, windows: bool) -> Seq<
    Seq<char>,
> {
    (match path_var {
        Some(p) => path_entries(p, windows),
        None => seq![],
    }) + if windows {
        seq![]
    } else {
        common
    }
}

/// The directories searched for dbx, in order.
pub fn dbx_search_dirs(path_var: &Option<String>, common: &Vec<String>, windows: bool) -> (dirs:
    Vec<String>)
    ensures
        texts(dirs@) == search_dirs(
            match path_var {
                Some(p) => Some(p@),
                None => None,
            },
            texts(common@),
            windows,
        ),
{
    let mut dirs = match path_var {
        Some(p) => split_paths(p.as_str(), windows),
        None => Vec::new(),
    };
    assert(texts(dirs@) == match path_var {
        Some(p) => path_entries(p@, windows),
        None => Seq::<Seq<char>>::empty(),
    }) by {
        if path_var is None {
            assert(texts(dirs@) =~= Seq::<Seq<char>>::empty());
        }
    }
    if windows {
        assert(texts(dirs@) + Seq::<Seq<char>>::empty() =~= texts(dirs@));
        return dirs;
    }
    let ghost front = texts(dirs@);
    let mut k: usize = 0;
    while k < common.len()
        invariant
            0 <= k <= common.len(),
            texts(dirs@) == front + texts(common@).take(k as int),
        decreases common.len() - k,
    {
        let d = common[k].clone();
        proof {
            lemma_texts_push(dirs@, d);
        }
        dirs.push(d);
        k = k + 1;
        assert(texts(dirs@) =~= front + texts(common@).take(k as int));
    }
    assert(texts(common@).take(k as int) =~= texts(common@));
    dirs
}

/// The contents of a sequence of flag vectors.
pub open spec fn flag_lists(v: Seq<Vec<bool>>) -> Seq<Seq<bool>> {
    v.map_values(|x: Vec<bool>| x@)
}

/// The first directory from index `i` on that holds dbx, with the dbx found
/// there; `is_file[k]` tells which candidate paths of `dirs[k]` are files.
pub open spec fn found_in_dirs(
    dirs: Seq<Seq<char>>,
    is_file: Seq<Seq<bool>>,
    windows: bool,
    i: int,
) -> Option<(Seq<char>, Seq<char>)>
    decreases dirs.len() - i,
{
    if i < 0 || i >= dirs.len() {
        None
    } else {
        match found_in_dir(dirs[i], windows, is_file[i]) {
            Some(p) => Some((dirs[i], p)),
            None => found_in_dirs(dirs, is_file, windows, i + 1),
        }
    }
}

/// The first searched directory that holds dbx, and the dbx found there;
/// `is_file[k][i]` tells whether the `i`-th candidate path of `dirs[k]` is a
/// file.
pub fn find_dbx(dirs: &Vec<String>, is_file: &Vec<Vec<bool>>, windows: bool) -> (r: Option<
    (String, String),
>)
    requires
        is_file.len() == dirs.len(),
        forall|k: int| 0 <= k < is_file.len() ==> #[trigger] is_file@[k].len() == dbx_names(windows).len(),
    ensures
        match r {
            Some((dir, path)) => found_in_dirs(texts(dirs@), flag_lists(is_file@), windows, 0)
                == Some((dir@, path@)),
            None => found_in_dirs(texts(dirs@), flag_lists(is_file@), windows, 0) is None,
        },
{
    let mut k: usize = 0;
    while k < dirs.len()
        invariant
            0 <= k <= dirs.len(),
            is_file.len() == dirs.len(),
            forall|m: int| 0 <= m < is_file.len() ==> #[trigger] is_file@[m].len() == dbx_names(windows).len(),
            found_in_dirs(texts(dirs@), flag_lists(is_file@), windows, k as int) == found_in_dirs(
                texts(dirs@),
                flag_lists(is_file@),
                windows,
                0,
            ),
        decreases dirs.len() - k,
    {
        assert(texts(dirs@)[k as int] == dirs@[k as int]@);
        assert(flag_lists(is_file@)[k as int] == is_file@[k as int]@);
        assert(is_file@[k as int].len() == dbx_names(windows).len());
        match dbx_in_dir(dirs[k].as_str(), windows, &is_file[k]) {
            Some(p) => {
                return Some((dirs[k].clone(), p));
            },
            None => {},
        }
        k = k + 1;
    }
    None
}

/// dbx is installed when some searched directory holds it.
pub fn dbx_installed(dirs: &Vec<String>, is_file: &Vec<Vec<bool>>, windows: bool) -> (r: bool)
    requires
        is_file.len() == dirs.len(),
        forall|k: int| 0 <= k < is_file.len() ==> #[trigger] is_file@[k].len() == dbx_names(windows).len(),
    ensures
        r == found_in_dirs(texts(dirs@), flag_lists(is_file@), windows, 0) is Some,
{
    find_dbx(dirs, is_file, windows).is_some()
}

/// The program and arguments dbx is started with: on Windows `cmd /C dbx`,
/// so that an npm shim runs; elsewhere the resolved dbx path itself.
pub fn spawn_command(windows: bool, dbx_path: &str) -> (r: (String, Vec<String>))
    ensures
        windows ==> r.0@ == "cmd"@ && texts(r.1@) == seq!["/C"@, "dbx"@],
        !windows ==> r.0@ == dbx_path@ && r.1@.len() == 0,
{
    if windows {
        let args: [&str; 2] = ["/C", "dbx"];
        let list = literal_list(&args);
        assert(texts(list@) =~= seq!["/C"@, "dbx"@]);
        ("cmd".to_owned(), list)
    } else {
        (dbx_path.to_owned(), Vec::new())
    }
}

/// The items of `list` joined by `sep` (`[T]::join`).
pub open spec fn join_with(list: Seq<Seq<char>>, sep: Seq<char>) -> Seq<char>
    decreases list.len(),
{
    if list.len() == 0 {
        seq![]
    } else if list.len() == 1 {
        list[0]
    } else {
        join_with(list.drop_last(), sep) + sep + list.last()
    }
}

/// The directories put on the `PATH` of a started dbx, in order: the
/// directory of the dbx binary, the common install locations, and the
/// inherited `PATH`.
pub open spec fn spawn_dirs(
    dbx_dir: Option<Seq<char>>,
    common: Seq<Seq<char>>,
    inherited: Option<Seq<char>>,
) -> Seq<Seq<char>> {
    (match dbx_dir {
        Some(d) => seq![d],
        None => seq![],
    }) + common + match inherited {
        Some(p) => seq![p],
        None => seq![],
    }
}

/// The texts of `parts` joined by `sep`.
pub fn join_texts(parts: &Vec<String>, sep: &str) -> (r: String)
    ensures
        r@ == join_with(texts(parts@), sep@),
{
    let mut out = String::new();
    let ghost all = texts(parts@);
    let mut i: usize = 0;
    assert(all.take(0) =~= Seq::<Seq<char>>::empty());
    while i < parts.len()
        invariant
            0 <= i <= parts.len(),
            all == texts(parts@),
            out@ == join_with(all.take(i as int), sep@),
        decreases parts.len() - i,
    {
        let ghost next = all.take(i + 1);
        assert(next.drop_last() =~= all.take(i as int));
        assert(next.last() == parts@[i as int]@);
        if i > 0 {
            out.append(sep);
        } else {
            assert(out@ =~= Seq::<char>::empty());
        }
        out.append(parts[i].as_str());
        i = i + 1;
        assert(out@ =~= join_with(all.take(i as int), sep@));
    }
    assert(all.take(i as int) =~= all);
    out
}

/// The `PATH` of a started dbx: its own directory, the common install
/// locations and the inherited `PATH`, separated by `:`.
pub fn spawn_path_env(dbx_dir: &Option<String>, common: &Vec<String>, inherited: &Option<String>)
    -> (r: String)
    ensures
        r@ == join_with(
            spawn_dirs(
                match dbx_dir {
                    Some(d) => Some(d@),
                    None => None,
                },
                texts(common@),
                match inherited {
                    Some(p) => Some(p@),
                    None => None,
                },
            ),
            ":"@,
        ),
{
    let mut parts: Vec<String> = Vec::new();
    match dbx_dir {
        Some(d) => {
            let c = d.clone();
            proof {
                lemma_texts_push(parts@, c);
            }
            parts.push(c);
        },
        None => {},
    }
    let ghost front = texts(parts@);
    let mut k: usize = 0;
    while k < common.len()
        invariant
            0 <= k <= common.len(),
            texts(parts@) == front + texts(common@).take(k as int),
        decreases common.len() - k,
    {
        let c = common[k].clone();
        proof {
            lemma_texts_push(parts@, c);
        }
        parts.push(c);
        k = k + 1;
        assert(texts(parts@) =~= front + texts(common@).take(k as int));
    }
    assert(texts(common@).take(k as int) =~= texts(common@));
    match inherited {
        Some(p) => {
            let c = p.clone();
            proof {
                lemma_texts_push(parts@, c);
            }
            parts.push(c);
        },
        None => {},
    }
    let ghost dir_part = match dbx_dir {
        Some(d) => Some(d@),
        None => None,
    };
    let ghost inh_part = match inherited {
        Some(p) => Some(p@),
        None => None,
    };
    assert(texts(parts@) =~= spawn_dirs(dir_part, texts(common@), inh_part));
    join_texts(&parts, ":")
}

/// A path with `/` separators starts with a root `/`.
pub open spec fn has_root(s: Seq<char>) -> bool {
    s.len() > 0 && s[0] == '/'
}

/// A path with `/` separators and no root starts with a `.` component.
pub open spec fn leading_cur_dir(s: Seq<char>) -> bool {
    !has_root(s) && s.len() > 0 && s[0] == '.' && (s.len() == 1 || s[1] == '/')
}

/// Where the components after a leading root or `.` begin.
pub open spec fn body_start(s: Seq<char>) -> int {
    if has_root(s) || leading_cur_dir(s) {
        1
    } else {
        0
    }
}

/// Where the last component of `s[..j]` begins.
pub open spec fn comp_start(s: Seq<char>, j: int) -> int {
    let k = last_before(s, is_char('/'), j);
    if k >= body_start(s) {
        k + 1
    } else {
        body_start(s)
    }
}

/// What is left of `s[..j]` once its last component and the `/` before it
/// are taken off.
pub open spec fn comp_cut(s: Seq<char>, j: int) -> int {
    let k = last_before(s, is_char('/'), j);
    if k >= body_start(s) {
        k
    } else {
        body_start(s)
    }
}

/// A component that paths skip: empty, or `.`.
pub open spec fn skipped_component(c: Seq<char>) -> bool {
    c.len() == 0 || c == "."@
}

pub proof fn lemma_comp_cut(s: Seq<char>, j: int)
    requires
        body_start(s) < j <= s.len(),
    ensures
        body_start(s) <= comp_cut(s, j) <= comp_start(s, j) <= j,
        comp_cut(s, j) < j,
{
    lemma_last_before(s, is_char('/'), j);
}

/// Where `s[..j]` ends once its last real component (one other than empty
/// or `.`) and everything after it are taken off; none when no such
/// component follows the root or leading `.`.
pub open spec fn cut_last_component(s: Seq<char>, j: int) -> Option<int>
    decreases j,
{
    if j <= body_start(s) || j > s.len() {
        None
    } else {
        proof {
            lemma_comp_cut(s, j);
        }
        if skipped_component(s.subrange(comp_start(s, j), j)) {
            cut_last_component(s, comp_cut(s, j))
        } else {
            Some(comp_cut(s, j))
        }
    }
}

/// Where `s[..j]` ends once trailing separators and `.` components are
/// trimmed.
pub open spec fn trim_trailing(s: Seq<char>, j: int) -> int
    decreases j,
{
    if j <= body_start(s) || j > s.len() {
        j
    } else {
        proof {
            lemma_comp_cut(s, j);
        }
        if skipped_component(s.subrange(comp_start(s, j), j)) {
            trim_trailing(s, comp_cut(s, j))
        } else {
            j
        }
    }
}

/// The parent of a path read with `/` separators only (`Path::parent`):
/// the path before its last real component, with trailing separators and
/// `.` components trimmed; the empty path for a lone leading `.`; none for
/// the root or an empty path.
pub open spec fn slash_parent(s: Seq<char>) -> Option<Seq<char>> {
    match cut_last_component(s, s.len() as int) {
        Some(j) => Some(s.subrange(0, trim_trailing(s, j))),
        None => if leading_cur_dir(s) {
            Some(seq![])
        } else {
            None
        },
    }
}

/// What holds, on every platform, of the parent that `Path::parent` gives for
/// `path`: a proper prefix of it; and for a path read with `/` separators
/// only (`slash_path`), exactly `slash_parent`.
pub open spec fn possible_parent(path: Seq<char>, parent: Option<Seq<char>>) -> bool {
    &&& (parent matches Some(q) ==> q.len() < path.len() && path.subrange(0, q.len() as int) == q)
    &&& (slash_path(path) ==> parent == slash_parent(path))
}

/// Calls `Path::parent` and keeps the parent as text. For a path with `\`
/// or `:`, or starting with `//`, how separators, `.` components and
/// prefixes are trimmed depends on the platform's path syntax and is not
/// stated beyond what holds on every platform; for other paths every
/// platform reads `/` as the only separator, and the parent is stated
/// exactly.
#[verifier::external_body]
fn path_parent(path: &str) -> (r: Option<String>)
    ensures
        possible_parent(
            path@,
            match r {
                Some(q) => Some(q@),
                None => None,
            },
        ),
{
    std::path::Path::new(path).parent().and_then(|q| q.to_str()).map(|q| q.to_owned())
}

/// The `PATH` of a started dbx whose binary is at `dbx_path`: the parent
/// directory of the binary (as `Path::parent` gives it), the common install
/// locations and the inherited `PATH`, separated by `:`.
pub fn spawn_path_for(dbx_path: &str, common: &Vec<String>, inherited: &Option<String>) -> (r:
    String)
    ensures
        slash_path(dbx_path@) ==> r@ == join_with(
            spawn_dirs(
                slash_parent(dbx_path@),
                texts(common@),
                match inherited {
                    Some(p) => Some(p@),
                    None => None,
                },
            ),
            ":"@,
        ),
        exists|parent: Option<Seq<char>>|
            #[trigger] possible_parent(dbx_path@, parent) && r@ == join_with(
                spawn_dirs(
                    parent,
                    texts(common@),
                    match inherited {
                        Some(p) => Some(p@),
                        None => None,
                    },
                ),
                ":"@,
            ),
{
    let parent = path_parent(dbx_path);
    let r = spawn_path_env(&parent, common, inherited);
    let ghost q = match parent {
        Some(d) => Some(d@),
        None => None,
    };
    assert(possible_parent(dbx_path@, q));
    r
}

} // verus!
