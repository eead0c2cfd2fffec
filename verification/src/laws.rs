//! Properties that hold across the functions of the library.
use vstd::prelude::*;

use crate::host::{forbidden_in_host, host_verdict};
use crate::paths::{
    body_start, comp_start, cut_last_component, skipped_component, slash_parent, trim_trailing,
};
use crate::launcher::{dbx_host, kept_after_spawn, start_outcome, url_for, StartStep};
use crate::numbers::{decimal, lemma_parse_decimal_u16};
use crate::http::{probe_request_text, serving_code};
use crate::numbers::{parse_u16_spec, parse_u32_spec};
use crate::paths::common_dirs;
use crate::ports::{netstat_ports, netstat_row, port_of, present};
use crate::text::{lines_of, words_of};
use crate::process::{
    command_stem, dbx_token_named, last_component, lemma_token_verdict_bounds, lowercase,
    plain_name, possible_file_name, run_verdict, slash_file_name, slash_path, surely_dbx,
    token_verdict,
};
use crate::text::{
    contains, ends_with, is_char, is_space, last_before, lemma_first_from_is, lemma_last_before,
    lemma_last_before_is, non_space, trim,
};

verus! {

/// Every character of a decimal representation is a digit.
pub proof fn lemma_decimal_is_digits(n: nat)
    ensures
        forall|i: int| 0 <= i < decimal(n).len() ==> '0' <= #[trigger] decimal(n)[i] <= '9',
    decreases n,
{
    let c = crate::numbers::digit_char(n % 10);
    assert(c as int == 48 + n % 10);
    if n >= 10 {
        lemma_decimal_is_digits(n / 10);
        assert forall|i: int| 0 <= i < decimal(n).len() implies '0' <= #[trigger] decimal(n)[i]
            <= '9' by {
            if i < decimal(n / 10).len() {
                assert(decimal(n)[i] == decimal(n / 10)[i]);
            }
        }
    }
}

/// In a URL built for a host without `:`, the only `:` characters are the
/// one of the scheme and the one before the port.
pub proof fn lemma_url_colons(host: Seq<char>, port: u16)
    requires
        forall|i: int| 0 <= i < host.len() ==> #[trigger] host[i] != ':',
    ensures
        forall|i: int|
            0 <= i < url_for(host, port).len() && #[trigger] url_for(host, port)[i] == ':' ==> i
                == 4 || i == 7 + host.len(),
        url_for(host, port)[7 + host.len() as int] == ':',
        url_for(host, port).len() == 8 + host.len() + decimal(port as nat).len(),
        url_for(host, port).subrange(8 + host.len() as int, url_for(host, port).len() as int) == decimal(
            port as nat,
        ),
{
    reveal_strlit("http://");
    reveal_strlit(":");
    lemma_decimal_is_digits(port as nat);
    let url = url_for(host, port);
    let d = decimal(port as nat);
    assert forall|i: int| 0 <= i < url.len() && #[trigger] url[i] == ':' implies i == 4 || i == 7
        + host.len() by {
        if i < 7 {
        } else if i < 7 + host.len() {
            assert(url[i] == host[i - 7]);
        } else if i > 7 + host.len() {
            assert(url[i] == d[i - 8 - host.len()]);
        }
    }
    assert(url.subrange(8 + host.len() as int, url.len() as int) =~= d);
}

/// The port read back from a URL built for a host without `:` is the port
/// the URL was built with.
pub proof fn lemma_url_port(host: Seq<char>, port: u16)
    requires
        forall|i: int| 0 <= i < host.len() ==> #[trigger] host[i] != ':',
    ensures
        port_of(url_for(host, port)) == Some(port),
{
    lemma_url_colons(host, port);
    let url = url_for(host, port);
    let k = 7 + host.len() as int;
    assert forall|m: int| k < m < url.len() implies !is_char(':')(#[trigger] url[m]) by {}
    lemma_last_before_is(url, is_char(':'), url.len() as int, k);
    lemma_parse_decimal_u16(port);
}

/// The URL of the local dbx gives back its port.
pub proof fn lemma_dbx_url_port(port: u16)
    ensures
        port_of(url_for(dbx_host(), port)) == Some(port),
{
    reveal_strlit("127.0.0.1");
    lemma_url_port(dbx_host(), port);
}

/// A host accepted by `sanitize_host` is accepted again unchanged.
pub proof fn lemma_sanitize_idempotent(raw: Seq<char>)
    requires
        host_verdict(raw) is Ok,
    ensures
        host_verdict(host_verdict(raw)->Ok_0) == host_verdict(raw),
{
    let h = host_verdict(raw)->Ok_0;
    assert(h == trim(raw));
    assert forall|i: int| 0 <= i < h.len() implies !is_space(#[trigger] h[i]) by {
        assert(!forbidden_in_host(h[i]));
    }
    lemma_first_from_is(h, non_space(), 0, 0);
    assert forall|m: int| h.len() - 1 < m < h.len() implies !non_space()(#[trigger] h[m]) by {}
    lemma_last_before_is(h, non_space(), h.len() as int, h.len() - 1);
    assert(trim(h) =~= h);
}

/// The URL built from a host that `sanitize_host` accepted cannot carry
/// anything but that host and the port: its only `:` are those of the
/// scheme and of the port, it has no `@`, `?`, `#` or `%`, its only `/`
/// are those of `http://`, and the port read back from it is the port.
pub proof fn lemma_sanitized_url(raw: Seq<char>, port: u16)
    requires
        host_verdict(raw) is Ok,
    ensures
        ({
            let h = host_verdict(raw)->Ok_0;
            let url = url_for(h, port);
            &&& port_of(url) == Some(port)
            &&& forall|i: int|
                0 <= i < url.len() && #[trigger] url[i] == ':' ==> i == 4 || i == 7 + h.len()
            &&& forall|i: int| 0 <= i < url.len() && #[trigger] url[i] == '/' ==> i == 5 || i == 6
            &&& forall|i: int|
                0 <= i < url.len() ==> #[trigger] url[i] != '@' && url[i] != '?' && url[i] != '#'
                    && url[i] != '%'
        }),
{
    reveal_strlit("http://");
    reveal_strlit(":");
    let h = host_verdict(raw)->Ok_0;
    assert forall|i: int| 0 <= i < h.len() implies #[trigger] h[i] != ':' by {
        assert(!forbidden_in_host(h[i]));
    }
    lemma_url_port(h, port);
    lemma_url_colons(h, port);
    lemma_decimal_is_digits(port as nat);
    let url = url_for(h, port);
    let d = decimal(port as nat);
    assert forall|i: int| 0 <= i < url.len() implies (#[trigger] url[i] == '/' ==> i == 5 || i
        == 6) && url[i] != '@' && url[i] != '?' && url[i] != '#' && url[i] != '%' by {
        if i < 7 {
        } else if i < 7 + h.len() {
            assert(url[i] == h[i - 7]);
            assert(!forbidden_in_host(h[i - 7]));
        } else if i > 7 + h.len() {
            assert(url[i] == d[i - 8 - h.len()]);
        }
    }
}

/// A word whose file name is `dbx` or `dbx.exe` names the dbx executable.
pub proof fn lemma_dbx_file_names(t: Seq<char>)
    ensures
        dbx_token_named(t, Some("dbx"@)),
        dbx_token_named(t, Some("dbx.exe"@)),
{
    reveal_strlit("dbx");
    reveal_strlit("dbx.exe");
    reveal_strlit(".exe");
    reveal_strlit(".cmd");
    reveal_strlit(".bat");
    reveal_strlit(".com");
    assert(!ends_with("dbx"@, ".exe"@) && !ends_with("dbx"@, ".cmd"@));
    assert(!ends_with("dbx"@, ".bat"@) && !ends_with("dbx"@, ".com"@));
    assert(command_stem("dbx"@) =~= "dbx"@);
    assert(ends_with("dbx.exe"@, ".exe"@)) by {
        assert("dbx.exe"@.subrange(3, 7) =~= ".exe"@);
    }
    assert(command_stem("dbx.exe"@) =~= "dbx"@);
}

proof fn lemma_surely_exe()
    ensures
        surely_dbx("dbx.exe"@),
{
    reveal_strlit("dbx.exe");
    reveal_strlit("dbx");
    reveal_strlit(".");
    reveal_strlit("..");
    reveal_strlit(".exe");
    let t = "dbx.exe"@;
    assert(ends_with(t, ".exe"@)) by {
        assert(t.subrange(3, 7) =~= ".exe"@);
    }
    assert(command_stem(t) =~= "dbx"@);
    assert(plain_name(t));
}

proof fn lemma_surely_cmd()
    ensures
        surely_dbx("dbx.cmd"@),
{
    reveal_strlit("dbx.cmd");
    reveal_strlit("dbx");
    reveal_strlit(".");
    reveal_strlit("..");
    reveal_strlit(".exe");
    reveal_strlit(".cmd");
    let t = "dbx.cmd"@;
    assert(!ends_with(t, ".exe"@)) by {
        assert(t.subrange(3, 7) != ".exe"@) by {
            assert(t.subrange(3, 7)[1] != ".exe"@[1]);
        }
    }
    assert(ends_with(t, ".cmd"@)) by {
        assert(t.subrange(3, 7) =~= ".cmd"@);
    }
    assert(command_stem(t) =~= "dbx"@);
    assert(plain_name(t));
}

proof fn lemma_surely_bat()
    ensures
        surely_dbx("dbx.bat"@),
{
    reveal_strlit("dbx.bat");
    reveal_strlit("dbx");
    reveal_strlit(".");
    reveal_strlit("..");
    reveal_strlit(".exe");
    reveal_strlit(".cmd");
    reveal_strlit(".bat");
    let t = "dbx.bat"@;
    assert(!ends_with(t, ".exe"@)) by {
        assert(t.subrange(3, 7) != ".exe"@) by {
            assert(t.subrange(3, 7)[1] != ".exe"@[1]);
        }
    }
    assert(!ends_with(t, ".cmd"@)) by {
        assert(t.subrange(3, 7) != ".cmd"@) by {
            assert(t.subrange(3, 7)[1] != ".cmd"@[1]);
        }
    }
    assert(ends_with(t, ".bat"@)) by {
        assert(t.subrange(3, 7) =~= ".bat"@);
    }
    assert(command_stem(t) =~= "dbx"@);
    assert(plain_name(t));
}

proof fn lemma_surely_com()
    ensures
        surely_dbx("dbx.com"@),
{
    reveal_strlit("dbx.com");
    reveal_strlit("dbx");
    reveal_strlit(".");
    reveal_strlit("..");
    reveal_strlit(".exe");
    reveal_strlit(".cmd");
    reveal_strlit(".bat");
    reveal_strlit(".com");
    let t = "dbx.com"@;
    assert(!ends_with(t, ".exe"@)) by {
        assert(t.subrange(3, 7) != ".exe"@) by {
            assert(t.subrange(3, 7)[1] != ".exe"@[1]);
        }
    }
    assert(!ends_with(t, ".cmd"@)) by {
        assert(t.subrange(3, 7) != ".cmd"@) by {
            assert(t.subrange(3, 7)[2] != ".cmd"@[2]);
        }
    }
    assert(!ends_with(t, ".bat"@)) by {
        assert(t.subrange(3, 7) != ".bat"@) by {
            assert(t.subrange(3, 7)[1] != ".bat"@[1]);
        }
    }
    assert(ends_with(t, ".com"@)) by {
        assert(t.subrange(3, 7) =~= ".com"@);
    }
    assert(command_stem(t) =~= "dbx"@);
    assert(plain_name(t));
}

/// On every platform, the bare executable names `dbx`, `dbx.exe`,
/// `dbx.cmd`, `dbx.bat` and `dbx.com` are taken for dbx, and so is any word
/// that runs through a directory named `dbx`.
pub proof fn lemma_dbx_words(t: Seq<char>, v: bool)
    requires
        token_verdict(t, v),
    ensures
        t == "dbx"@ || t == "dbx.exe"@ || t == "dbx.cmd"@ || t == "dbx.bat"@ || t == "dbx.com"@
            ==> v,
        contains(t, "/dbx/"@) || contains(t, "\\dbx\\"@) ==> v,
{
    lemma_token_verdict_bounds(t, v);
    lemma_surely_exe();
    lemma_surely_cmd();
    lemma_surely_bat();
    lemma_surely_com();
}

/// dbx is started exactly when no server answers, dbx is installed, no dbx
/// process runs and this launcher has not started one; a missing dbx is
/// reported exactly when no server answers and dbx is not installed; in
/// every other case nothing is started.
pub proof fn lemma_start_outcome(serving: bool, installed: bool, running: bool, spawned: bool)
    ensures
        (start_outcome(serving, installed, running, spawned) == StartStep::Spawn) == (!serving
            && installed && !running && !spawned),
        (start_outcome(serving, installed, running, spawned) == StartStep::NotInstalled) == (
        !serving && !installed),
        start_outcome(serving, installed, running, spawned) == StartStep::Spawn || start_outcome(
            serving,
            installed,
            running,
            spawned,
        ) == StartStep::NotInstalled || start_outcome(serving, installed, running, spawned)
            == StartStep::Wait,
{
}

/// The launcher only stops a dbx it started itself: it starts one only when
/// it keeps none, keeps that pid, and stops exactly the kept pid on exit; a
/// launcher that started none stops nothing.
pub proof fn lemma_stops_own_spawn(
    kept: Option<u32>,
    pid: u32,
    serving: bool,
    installed: bool,
    running: bool,
)
    ensures
        start_outcome(serving, installed, running, kept is Some) == StartStep::Spawn ==> kept is None
            && kept_after_spawn(kept, pid) == Some(pid),
        kept is None ==> kept_after_spawn(kept, pid) == Some(pid),
        kept matches Some(p) ==> kept_after_spawn(kept, pid) == Some(p),
{
}

/// On a word read with `/` separators only, the verdict is exact: dbx
/// exactly when its `/`-file name, or the word itself, names dbx.
pub proof fn lemma_slash_verdict(t: Seq<char>, v: bool)
    requires
        slash_path(t),
        token_verdict(t, v),
    ensures
        v == dbx_token_named(t, slash_file_name(t)),
{
    let name = choose|name: Option<Seq<char>>| possible_file_name(t, name) && v == dbx_token_named(t, name);
    assert(possible_file_name(t, name));
}

/// For a command line whose lowercased words are all read with `/`
/// separators only, the process is taken for dbx exactly when one of its
/// words names dbx.
pub proof fn lemma_run_verdict_exact(cmd: Seq<String>, v: bool)
    requires
        run_verdict(cmd, v),
        forall|i: int| 0 <= i < cmd.len() ==> slash_path(lowercase(#[trigger] cmd[i]@)),
    ensures
        v == exists|i: int|
            0 <= i < cmd.len() && dbx_token_named(
                lowercase(#[trigger] cmd[i]@),
                slash_file_name(lowercase(cmd[i]@)),
            ),
{
    if v {
        let i = choose|i: int| 0 <= i < cmd.len() && token_verdict(lowercase(#[trigger] cmd[i]@), true);
        lemma_slash_verdict(lowercase(cmd[i]@), true);
    } else {
        assert forall|i: int| 0 <= i < cmd.len() implies !dbx_token_named(
            lowercase(#[trigger] cmd[i]@),
            slash_file_name(lowercase(cmd[i]@)),
        ) by {
            lemma_slash_verdict(lowercase(cmd[i]@), false);
        }
    }
}

/// The `/`-file name of `dir/name`, for a name without `/` other than `.`
/// and `..`, is `name`.
pub proof fn lemma_named_component(dir: Seq<char>, name: Seq<char>)
    requires
        name.len() > 0,
        forall|i: int| 0 <= i < name.len() ==> #[trigger] name[i] != '/',
        name != "."@,
        name != ".."@,
    ensures
        slash_file_name(dir + seq!['/'] + name) == Some(name),
{
    let t = dir + seq!['/'] + name;
    let k = dir.len() as int;
    assert forall|m: int| k < m < t.len() implies !is_char('/')(#[trigger] t[m]) by {
        assert(t[m] == name[m - k - 1]);
    }
    lemma_last_before_is(t, is_char('/'), t.len() as int, k);
    assert(t.subrange(k + 1, t.len() as int) =~= name);
    assert(last_component(t, t.len() as int) == Some(name));
}

/// A word `dir/name` read with `/` separators only, whose name makes
/// `dbx_token_named` hold, is taken for dbx.
proof fn lemma_named_path_verdict(dir: Seq<char>, name: Seq<char>, v: bool)
    requires
        name.len() > 0,
        forall|i: int| 0 <= i < name.len() ==> #[trigger] name[i] != '/',
        name != "."@,
        name != ".."@,
        slash_path(dir + seq!['/'] + name),
        token_verdict(dir + seq!['/'] + name, v),
        dbx_token_named(dir + seq!['/'] + name, Some(name)),
    ensures
        v,
{
    lemma_named_component(dir, name);
    lemma_slash_verdict(dir + seq!['/'] + name, v);
}

/// A `dbx` binary invoked through a path read with `/` separators only is
/// taken for dbx.
pub proof fn lemma_dbx_path_is_token(dir: Seq<char>, v: bool)
    requires
        token_verdict(dir + "/dbx"@, v),
        slash_path(dir + "/dbx"@),
    ensures
        v,
{
    reveal_strlit("/dbx");
    reveal_strlit("dbx");
    reveal_strlit(".");
    reveal_strlit("..");
    assert(dir + "/dbx"@ =~= dir + seq!['/'] + "dbx"@);
    lemma_dbx_file_names(dir + "/dbx"@);
    lemma_named_path_verdict(dir, "dbx"@, v);
}

/// A `dbx.exe` binary invoked through a path read with `/` separators only
/// is taken for dbx.
pub proof fn lemma_dbx_exe_path_is_token(dir: Seq<char>, v: bool)
    requires
        token_verdict(dir + "/dbx.exe"@, v),
        slash_path(dir + "/dbx.exe"@),
    ensures
        v,
{
    reveal_strlit("/dbx.exe");
    reveal_strlit("dbx.exe");
    reveal_strlit(".");
    reveal_strlit("..");
    assert("dbx.exe"@.len() != "."@.len() && "dbx.exe"@.len() != ".."@.len());
    assert(dir + "/dbx.exe"@ =~= dir + seq!['/'] + "dbx.exe"@);
    lemma_dbx_file_names(dir + "/dbx.exe"@);
    lemma_named_path_verdict(dir, "dbx.exe"@, v);
}

/// A dbx binary at `dir/name` is started with `dir` itself first on its
/// `PATH`, for a directory `dir` read with `/` separators only that is not
/// empty and does not end with `/` or with a `.` component.
pub proof fn lemma_spawn_path_starts_with_dir(dir: Seq<char>, name: Seq<char>)
    requires
        dir.len() > 0,
        dir.last() != '/',
        !(dir.len() >= 2 && dir[dir.len() - 2] == '/' && dir.last() == '.'),
        name.len() > 0,
        name != "."@,
        forall|i: int| 0 <= i < name.len() ==> #[trigger] name[i] != '/',
    ensures
        slash_parent(dir + seq!['/'] + name) == Some(dir),
{
    reveal_strlit(".");
    let s = dir + seq!['/'] + name;
    let k = dir.len() as int;
    assert forall|m: int| k < m < s.len() implies !is_char('/')(#[trigger] s[m]) by {
        assert(s[m] == name[m - k - 1]);
    }
    lemma_last_before_is(s, is_char('/'), s.len() as int, k);
    assert(s.subrange(k + 1, s.len() as int) =~= name);
    assert(s.subrange(comp_start(s, s.len() as int), s.len() as int) =~= name);
    assert(cut_last_component(s, s.len() as int) == Some(k));
    if k > body_start(s) {
        lemma_last_before(s, is_char('/'), k);
        let k2 = last_before(s, is_char('/'), k);
        assert(s[k - 1] == dir.last());
        assert(k2 < k - 1);
        let c = s.subrange(comp_start(s, k), k);
        assert(c.len() > 0);
        if c == "."@ {
            assert(c.len() == 1);
            assert(comp_start(s, k) == k - 1);
            assert(c[0] == s[k - 1]);
            assert(c[0] == "."@[0]);
            assert(s[k - 1] == '.');
            if k2 >= body_start(s) {
                assert(s[k - 2] == '/');
                assert(dir[dir.len() - 2] == s[k - 2]);
            } else {
                assert(body_start(s) == k - 1);
            }
        }
        assert(!skipped_component(c));
        assert(trim_trailing(s, k) == k);
    }
    assert(s.subrange(0, k) =~= dir);
}

/// A `netstat -ano` row is counted for `pid` only when its PID column reads
/// as the number `pid`, and what it gives is the port of its local address.
pub proof fn lemma_netstat_row_owner(line: Seq<char>, pid: u32)
    ensures
        netstat_row(line, pid) is Some ==> {
            let f = words_of(line);
            &&& f.len() >= 5
            &&& parse_u32_spec(f[4]) == Some(pid)
            &&& f[3] == "LISTENING"@
            &&& port_of(f[1]) == netstat_row(line, pid)
        },
{
}

/// Every value that `present` keeps is one of the values present in `xs`,
/// in a position no earlier than its own.
proof fn lemma_present_from(xs: Seq<Option<u16>>)
    ensures
        present(xs).len() <= xs.len(),
        forall|i: int|
            0 <= i < present(xs).len() ==> exists|j: int|
                0 <= j < xs.len() && #[trigger] xs[j] == Some(#[trigger] present(xs)[i]),
    decreases xs.len(),
{
    if xs.len() > 0 {
        let init = xs.drop_last();
        lemma_present_from(init);
        assert forall|i: int| 0 <= i < present(xs).len() implies exists|j: int|
            0 <= j < xs.len() && #[trigger] xs[j] == Some(#[trigger] present(xs)[i]) by {
            if i < present(init).len() {
                assert(present(xs)[i] == present(init)[i]);
                let j = choose|j: int| 0 <= j < init.len() && #[trigger] init[j] == Some(
                    present(init)[i],
                );
                assert(xs[j] == init[j]);
            } else {
                assert(xs[xs.len() - 1] == Some(present(xs)[i]));
            }
        }
    }
}

/// A line of `netstat -ano` output whose PID column reads as the number
/// `pid` and whose local address has port `port`.
pub open spec fn owned_netstat_line(line: Seq<char>, pid: u32, port: u16) -> bool {
    words_of(line).len() >= 5 && parse_u32_spec(words_of(line)[4]) == Some(pid) && port_of(
        words_of(line)[1],
    ) == Some(port)
}

/// Every port listed for `pid` from `netstat -ano` output comes from a line
/// of that output whose PID column reads as the number `pid` and whose local
/// address has that port; a process whose PID merely begins with the digits
/// of `pid` contributes nothing.
pub proof fn lemma_netstat_ports_owned(out: Seq<char>, pid: u32)
    ensures
        forall|i: int|
            #![trigger netstat_ports(out, pid)[i]]
            0 <= i < netstat_ports(out, pid).len() ==> exists|j: int|
                #![trigger lines_of(out)[j]]
                0 <= j < lines_of(out).len() && owned_netstat_line(
                    lines_of(out)[j],
                    pid,
                    netstat_ports(out, pid)[i],
                ),
{
    let rows = lines_of(out).map_values(|line: Seq<char>| netstat_row(line, pid));
    lemma_present_from(rows);
    assert forall|i: int|
        #![trigger netstat_ports(out, pid)[i]]
        0 <= i < netstat_ports(out, pid).len() implies exists|j: int|
        #![trigger lines_of(out)[j]]
        0 <= j < lines_of(out).len() && owned_netstat_line(
            lines_of(out)[j],
            pid,
            netstat_ports(out, pid)[i],
        ) by {
        let j = choose|j: int| 0 <= j < rows.len() && #[trigger] rows[j] == Some(
            present(rows)[i],
        );
        lemma_netstat_row_owner(lines_of(out)[j], pid);
        assert(rows[j] == netstat_row(lines_of(out)[j], pid));
        assert(owned_netstat_line(lines_of(out)[j], pid, netstat_ports(out, pid)[i]));
    }
}

/// With a home directory, the directories searched for dbx end with the
/// `bin` directory of each nvm Node version, in the order given: `v/bin`,
/// or `vbin` when `v` already ends with `/`; before them come the three
/// system directories and eight under the home directory.
pub proof fn lemma_nvm_bin_dirs(home: Seq<char>, versions: Seq<Seq<char>>)
    ensures
        common_dirs(Some(home), versions).len() == 11 + versions.len(),
        common_dirs(Some(home), versions)[0] == "/usr/local/bin"@,
        common_dirs(Some(home), versions)[1] == "/opt/homebrew/bin"@,
        common_dirs(Some(home), versions)[2] == "/usr/bin"@,
        forall|i: int|
            0 <= i < versions.len() && #[trigger] versions[i].len() > 0 ==> common_dirs(
                Some(home),
                versions,
            )[11 + i] == if versions[i].last() == '/' {
                versions[i] + "bin"@
            } else {
                versions[i] + "/bin"@
            },
{
    reveal_strlit("bin");
    reveal_strlit("/bin");
    reveal_strlit("/");
    let d = common_dirs(Some(home), versions);
    assert forall|i: int| 0 <= i < versions.len() && #[trigger] versions[i].len() > 0 implies d[11
        + i] == if versions[i].last() == '/' {
        versions[i] + "bin"@
    } else {
        versions[i] + "/bin"@
    } by {
        let v = versions[i];
        assert(crate::paths::system_bin_dirs().len() == 3);
        assert(crate::paths::home_bin_subdirs().len() == 8);
        assert(d[11 + i] == crate::paths::join_path(v, "bin"@));
        assert(v[v.len() - 1] == v.last());
        if v.last() != '/' {
            assert(v + "/"@ + "bin"@ =~= v + "/bin"@);
        }
    }
}

/// A character a host name or IP address is made of: an ASCII letter or
/// digit, `.` or `-`.
pub open spec fn plain_host_char(c: char) -> bool {
    ('a' <= c && c <= 'z') || ('A' <= c && c <= 'Z') || ('0' <= c && c <= '9') || c == '.' || c
        == '-'
}

/// An ASCII text takes one UTF-8 byte per character.
proof fn lemma_ascii_utf8_len(s: Seq<char>)
    requires
        forall|i: int| 0 <= i < s.len() ==> (#[trigger] s[i] as u32) < 0x80,
    ensures
        vstd::utf8::encode_utf8(s).len() == s.len(),
    decreases s.len(),
{
    if s.len() > 0 {
        assert forall|i: int| 0 <= i < s.drop_first().len() implies (#[trigger] s.drop_first()[i]
            as u32) < 0x80 by {
            assert(s.drop_first()[i] == s[i + 1]);
        }
        lemma_ascii_utf8_len(s.drop_first());
    }
}

/// A host name or IP address of ASCII letters, digits, `.` and `-`, at most
/// 253 characters long, is accepted as it stands once surrounding white
/// space is dropped.
pub proof fn lemma_plain_host_accepted(raw: Seq<char>)
    requires
        0 < trim(raw).len() <= 253,
        forall|i: int| 0 <= i < trim(raw).len() ==> plain_host_char(#[trigger] trim(raw)[i]),
    ensures
        host_verdict(raw) == Ok::<Seq<char>, Seq<char>>(trim(raw)),
{
    let h = trim(raw);
    assert forall|i: int| 0 <= i < h.len() implies (#[trigger] h[i] as u32) < 0x80 by {
        assert(plain_host_char(h[i]));
    }
    lemma_ascii_utf8_len(h);
    assert forall|i: int| 0 <= i < h.len() implies !forbidden_in_host(#[trigger] h[i]) by {
        assert(plain_host_char(h[i]));
    }
}

/// A host that holds a space, a tab, `:`, `/`, `\`, `@`, `?`, `#` or `%`
/// after surrounding white space is dropped is refused.
pub proof fn lemma_url_chars_refused(raw: Seq<char>, i: int)
    requires
        0 <= i < trim(raw).len(),
        trim(raw)[i] == ' ' || trim(raw)[i] == '\t' || trim(raw)[i] == ':' || trim(raw)[i] == '/'
            || trim(raw)[i] == '\\' || trim(raw)[i] == '@' || trim(raw)[i] == '?' || trim(raw)[i]
            == '#' || trim(raw)[i] == '%',
    ensures
        host_verdict(raw) is Err,
{
    assert(forbidden_in_host(trim(raw)[i]));
}

/// A probe reply shows a serving dbx exactly for the status classes 2xx and
/// 3xx.
pub proof fn lemma_serving_classes(code: u16)
    ensures
        serving_code(code) <==> (code / 100 == 2 || code / 100 == 3),
{
}

/// The probe request is `GET /` over HTTP/1.0 whose `Host` header names the
/// probed host, then `:` and the port, which reads back as `port`.
pub proof fn lemma_probe_request_host(host: Seq<char>, port: u16)
    ensures
        ({
            let r = probe_request_text(host, port);
            let p = "GET / HTTP/1.0\r\nHost: "@;
            &&& p.len() == 22
            &&& r.len() >= 27 + host.len()
            &&& r.subrange(0, 22) == p
            &&& r.subrange(22, 22 + host.len() as int) == host
            &&& r[22 + host.len() as int] == ':'
            &&& parse_u16_spec(r.subrange(23 + host.len() as int, r.len() - 4), 10) == Some(port)
            &&& r.subrange(r.len() - 4, r.len() as int) == "\r\n\r\n"@
        }),
{
    reveal_strlit("GET / HTTP/1.0\r\nHost: ");
    reveal_strlit(":");
    reveal_strlit("\r\n\r\n");
    let r = probe_request_text(host, port);
    let p = "GET / HTTP/1.0\r\nHost: "@;
    let d = decimal(port as nat);
    crate::numbers::lemma_decimal_digits(port as nat);
    assert(r =~= p + host + seq![':'] + d + "\r\n\r\n"@);
    assert(r.subrange(0, 22) =~= p);
    assert(r.subrange(22, 22 + host.len() as int) =~= host);
    assert(r.subrange(23 + host.len() as int, r.len() - 4) =~= d);
    assert(r.subrange(r.len() - 4, r.len() as int) =~= "\r\n\r\n"@);
    lemma_parse_decimal_u16(port);
}

} // verus!
