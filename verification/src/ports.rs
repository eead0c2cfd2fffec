//! Listening TCP ports, read from the text that `netstat -ano` (Windows),
//! `/proc/<pid>/net/tcp` (Linux) and `lsof` (macOS) print.
use vstd::prelude::*;

use crate::paths::texts;
use crate::numbers::{parse_hex_u16, parse_u16, parse_u16_spec, parse_u32, parse_u32_spec, parse_u64, parse_u64_spec};
use crate::text::{
    after_last, after_last_exec, chars_of, find_exec, find_from, last_field, last_field_exec,
    lines_of, same_chars, split_lines, split_words, starts_with, starts_with_exec, trim_end,
    trim_end_exec, views, words_of, copy_range,
};

verus! {

/// The port of an address such as `127.0.0.1:4224`, `[::1]:4232` or
/// `*:8090`: the decimal number after the last `:`.
pub open spec fn port_of(addr: Seq<char>) -> Option<u16> {
    parse_u16_spec(after_last(addr, ':'), 10)
}

/// The port of an address such as `0100007F:1080`: the hexadecimal number
/// after the last `:`.
pub open spec fn hex_port_of(addr: Seq<char>) -> Option<u16> {
    parse_u16_spec(after_last(addr, ':'), 16)
}

/// The values present in `xs`, in order.
pub open spec fn present(xs: Seq<Option<u16>>) -> Seq<u16>
    decreases xs.len(),
{
    if xs.len() == 0 {
        seq![]
    } else {
        present(xs.drop_last()) + match xs.last() {
            Some(p) => seq![p],
            None => seq![],
        }
    }
}

/// The port a `netstat -ano` row reports, when it is a TCP socket in state
/// `LISTENING` owned by `pid`.
pub open spec fn netstat_row(line: Seq<char>, pid: u32) -> Option<u16> {
    let f = words_of(line);
    if f.len() >= 5 && starts_with(f[0], "TCP"@) && f[3] == "LISTENING"@ && parse_u32_spec(f[4])
        == Some(pid) {
        port_of(f[1])
    } else {
        None
    }
}

/// The listening ports of `pid` in `netstat -ano` output, in row order.
pub open spec fn netstat_ports(out: Seq<char>, pid: u32) -> Seq<u16> {
    present(lines_of(out).map_values(|line: Seq<char>| netstat_row(line, pid)))
}

/// The port a `/proc/net/tcp` row reports, when its state is `0A` (listen)
/// and its inode is one of `inodes`.
pub open spec fn proc_tcp_row(line: Seq<char>, inodes: Seq<u64>) -> Option<u16> {
    let f = words_of(line);
    if f.len() >= 10 && f[3] == "0A"@ {
        match parse_u64_spec(f[9]) {
            Some(inode) => if inodes.contains(inode) {
                hex_port_of(f[1])
            } else {
                None
            },
            None => None,
        }
    } else {
        None
    }
}

/// The listening ports in a `/proc/net/tcp` table whose inode is one of
/// `inodes`, in row order; the first line is the header.
pub open spec fn proc_tcp_ports(tcp: Seq<char>, inodes: Seq<u64>) -> Seq<u16> {
    present(table_rows(lines_of(tcp)).map_values(|line: Seq<char>| proc_tcp_row(line, inodes)))
}

/// The lines of a table after its header line.
pub open spec fn table_rows(lines: Seq<Seq<char>>) -> Seq<Seq<char>> {
    if lines.len() == 0 {
        lines
    } else {
        lines.drop_first()
    }
}

/// The port an `lsof` row reports, when it carries `(LISTEN)` and its second
/// column is `pid`: the last field before `(LISTEN)` is the address.
pub open spec fn lsof_row(line: Seq<char>, pid: u32) -> Option<u16> {
    match find_from(line, "(LISTEN)"@, 0) {
        None => None,
        Some(idx) => {
            let f = words_of(line);
            if f.len() < 2 || parse_u32_spec(f[1]) != Some(pid) {
                None
            } else {
                let before = trim_end(line.subrange(0, idx));
                match last_field(before, ' ', before.len() as int) {
                    Some(addr) => port_of(addr),
                    None => None,
                }
            }
        },
    }
}

/// The listening ports of `pid` in `lsof` output, in row order.
pub open spec fn lsof_ports(out: Seq<char>, pid: u32) -> Seq<u16> {
    present(lines_of(out).map_values(|line: Seq<char>| lsof_row(line, pid)))
}

proof fn lemma_present_step(xs: Seq<Option<u16>>, j: int)
    requires
        0 <= j < xs.len(),
    ensures
        present(xs.take(j + 1)) == present(xs.take(j)) + match xs[j] {
            Some(p) => seq![p],
            None => seq![],
        },
{
    assert(xs.take(j + 1).drop_last() =~= xs.take(j));
}

fn port_of_chars(addr: &Vec<char>) -> (r: Option<u16>)
    ensures
        r == port_of(addr@),
{
    parse_u16(&after_last_exec(addr, ':'))
}

fn hex_port_of_chars(addr: &Vec<char>) -> (r: Option<u16>)
    ensures
        r == hex_port_of(addr@),
{
    parse_hex_u16(&after_last_exec(addr, ':'))
}

/// The port at the end of an address: the decimal number after its last `:`.
pub fn parse_port(addr: &str) -> (r: Option<u16>)
    ensures
        r == port_of(addr@),
{
    port_of_chars(&chars_of(addr))
}

/// The port at the end of a `/proc/net/tcp` address: the hexadecimal number
/// after its last `:` (`0100007F:1080` gives 4224).
pub fn parse_hex_port(addr: &str) -> (r: Option<u16>)
    ensures
        r == hex_port_of(addr@),
{
    hex_port_of_chars(&chars_of(addr))
}

fn netstat_row_exec(line: &Vec<char>, pid: u32, tcp: &Vec<char>, listening: &Vec<char>) -> (r:
    Option<u16>)
    requires
        tcp@ == "TCP"@,
        listening@ == "LISTENING"@,
    ensures
        r == netstat_row(line@, pid),
{
    let f = split_words(line);
    proof {
        assert(views(f@).len() == f@.len());
    }
    if f.len() >= 5 && starts_with_exec(&f[0], tcp) && same_chars(&f[3], listening) {
        assert(views(f@)[0] == f@[0]@ && views(f@)[3] == f@[3]@);
        assert(views(f@)[4] == f@[4]@ && views(f@)[1] == f@[1]@);
        match parse_u32(&f[4]) {
            Some(p) => if p == pid {
                port_of_chars(&f[1])
            } else {
                None
            },
            None => None,
        }
    } else {
        proof {
            if f@.len() >= 5 {
                assert(views(f@)[0] == f@[0]@ && views(f@)[3] == f@[3]@);
            }
        }
        None
    }
}

/// The TCP ports that `pid` listens on, in `netstat -ano` output (Windows).
pub fn ports_from_netstat(out: &str, pid: u32) -> (ports: Vec<u16>)
    ensures
        ports@ == netstat_ports(out@, pid),
{
    let text = chars_of(out);
    let lines = split_lines(&text);
    let tcp = chars_of("TCP");
    let listening = chars_of("LISTENING");
    let ghost rows = lines_of(out@).map_values(|line: Seq<char>| netstat_row(line, pid));
    let mut ports: Vec<u16> = Vec::new();
    let mut j: usize = 0;
    assert(rows.take(0) =~= Seq::<Option<u16>>::empty());
    while j < lines.len()
        invariant
            views(lines@) == lines_of(out@),
            rows == lines_of(out@).map_values(|line: Seq<char>| netstat_row(line, pid)),
            tcp@ == "TCP"@,
            listening@ == "LISTENING"@,
            0 <= j <= lines.len(),
            ports@ == present(rows.take(j as int)),
        decreases lines.len() - j,
    {
        let row = netstat_row_exec(&lines[j], pid, &tcp, &listening);
        proof {
            assert(views(lines@)[j as int] == lines@[j as int]@);
            assert(rows[j as int] == row);
            lemma_present_step(rows, j as int);
        }
        match row {
            Some(p) => {
                ports.push(p);
            },
            None => {},
        }
        j = j + 1;
        assert(ports@ =~= present(rows.take(j as int)));
    }
    assert(rows.take(j as int) =~= rows);
    ports
}

fn holds_inode(inodes: &[u64], inode: u64) -> (r: bool)
    ensures
        r == inodes@.contains(inode),
{
    let mut k: usize = 0;
    while k < inodes.len()
        invariant
            0 <= k <= inodes.len(),
            forall|m: int| 0 <= m < k ==> inodes@[m] != inode,
        decreases inodes.len() - k,
    {
        if inodes[k] == inode {
            assert(inodes@[k as int] == inode);
            return true;
        }
        k = k + 1;
    }
    false
}

fn proc_tcp_row_exec(line: &Vec<char>, inodes: &[u64], listen: &Vec<char>) -> (r: Option<u16>)
    requires
        listen@ == "0A"@,
    ensures
        r == proc_tcp_row(line@, inodes@),
{
    let f = split_words(line);
    proof {
        assert(views(f@).len() == f@.len());
    }
    if f.len() >= 10 && same_chars(&f[3], listen) {
        assert(views(f@)[3] == f@[3]@ && views(f@)[9] == f@[9]@ && views(f@)[1] == f@[1]@);
        match parse_u64(&f[9]) {
            Some(inode) => if holds_inode(inodes, inode) {
                hex_port_of_chars(&f[1])
            } else {
                None
            },
            None => None,
        }
    } else {
        proof {
            if f@.len() >= 10 {
                assert(views(f@)[3] == f@[3]@);
            }
        }
        None
    }
}

/// The ports in state listen in a `/proc/<pid>/net/tcp` (or `tcp6`) table
/// whose socket inode is one of `inodes` (Linux).
pub fn ports_from_proc_tcp(tcp: &str, inodes: &[u64]) -> (ports: Vec<u16>)
    ensures
        ports@ == proc_tcp_ports(tcp@, inodes@),
{
    let text = chars_of(tcp);
    let lines = split_lines(&text);
    let listen = chars_of("0A");
    let ghost rows = table_rows(lines_of(tcp@)).map_values(
        |line: Seq<char>| proc_tcp_row(line, inodes@),
    );
    let mut ports: Vec<u16> = Vec::new();
    if lines.len() == 0 {
        assert(rows =~= Seq::<Option<u16>>::empty());
        return ports;
    }
    let mut j: usize = 1;
    assert(rows.take(0) =~= Seq::<Option<u16>>::empty());
    while j < lines.len()
        invariant
            views(lines@) == lines_of(tcp@),
            rows == table_rows(lines_of(tcp@)).map_values(
                |line: Seq<char>| proc_tcp_row(line, inodes@),
            ),
            listen@ == "0A"@,
            1 <= j <= lines.len(),
            ports@ == present(rows.take(j - 1)),
        decreases lines.len() - j,
    {
        let row = proc_tcp_row_exec(&lines[j], inodes, &listen);
        proof {
            assert(views(lines@)[j as int] == lines@[j as int]@);
            assert(rows[j - 1] == row);
            lemma_present_step(rows, j - 1);
        }
        match row {
            Some(p) => {
                ports.push(p);
            },
            None => {},
        }
        j = j + 1;
        assert(ports@ =~= present(rows.take(j - 1)));
    }
    assert(rows.take(j - 1) =~= rows);
    ports
}

fn lsof_row_exec(line: &Vec<char>, pid: u32, marker: &Vec<char>) -> (r: Option<u16>)
    requires
        marker@ == "(LISTEN)"@,
    ensures
        r == lsof_row(line@, pid),
{
    let idx = match find_exec(line, marker) {
        Some(i) => i,
        None => {
            return None;
        },
    };
    proof {
        lemma_find_bounds(line@, marker@, 0);
    }
    let f = split_words(line);
    proof {
        assert(views(f@).len() == f@.len());
    }
    if f.len() < 2 {
        return None;
    }
    assert(views(f@)[1] == f@[1]@);
    if parse_u32(&f[1]) != Some(pid) {
        return None;
    }
    let before = trim_end_exec(&copy_range(line, 0, idx));
    match last_field_exec(&before, ' ') {
        Some(addr) => port_of_chars(&addr),
        None => None,
    }
}

proof fn lemma_find_bounds(s: Seq<char>, p: Seq<char>, i: int)
    ensures
        find_from(s, p, i) matches Some(k) ==> i <= k && k + p.len() <= s.len(),
    decreases s.len() + 1 - i,
{
    if !(i < 0 || i > s.len() || i + p.len() > s.len()) && !crate::text::occurs_at(s, p, i) {
        lemma_find_bounds(s, p, i + 1);
    }
}

/// The TCP ports that `pid` listens on, in the output of
/// `lsof -nP -iTCP -sTCP:LISTEN -a -p <pid>` (macOS).
pub fn ports_from_lsof(out: &str, pid: u32) -> (ports: Vec<u16>)
    ensures
        ports@ == lsof_ports(out@, pid),
{
    let text = chars_of(out);
    let lines = split_lines(&text);
    let marker = chars_of("(LISTEN)");
    let ghost rows = lines_of(out@).map_values(|line: Seq<char>| lsof_row(line, pid));
    let mut ports: Vec<u16> = Vec::new();
    let mut j: usize = 0;
    assert(rows.take(0) =~= Seq::<Option<u16>>::empty());
    while j < lines.len()
        invariant
            views(lines@) == lines_of(out@),
            rows == lines_of(out@).map_values(|line: Seq<char>| lsof_row(line, pid)),
            marker@ == "(LISTEN)"@,
            0 <= j <= lines.len(),
            ports@ == present(rows.take(j as int)),
        decreases lines.len() - j,
    {
        let row = lsof_row_exec(&lines[j], pid, &marker);
        proof {
            assert(views(lines@)[j as int] == lines@[j as int]@);
            assert(rows[j as int] == row);
            lemma_present_step(rows, j as int);
        }
        match row {
            Some(p) => {
                ports.push(p);
            },
            None => {},
        }
        j = j + 1;
        assert(ports@ =~= present(rows.take(j as int)));
    }
    assert(rows.take(j as int) =~= rows);
    ports
}

/// The inode of a socket file descriptor, from the target of its
/// `/proc/<pid>/fd` link: the decimal number in `socket:[<inode>]`.
pub open spec fn socket_inode_of(link: Seq<char>) -> Option<u64> {
    if starts_with(link, "socket:["@) && link.len() >= "socket:["@.len() + 1 && link.last()
        == ']' {
        parse_u64_spec(link.subrange("socket:["@.len() as int, link.len() - 1))
    } else {
        None
    }
}

/// The inode of a socket whose `/proc/<pid>/fd` link points to `link`.
pub fn socket_inode(link: &str) -> (r: Option<u64>)
    ensures
        r == socket_inode_of(link@),
{
    let text = chars_of(link);
    let prefix = chars_of("socket:[");
    if !starts_with_exec(&text, &prefix) {
        return None;
    }
    if text.len() <= prefix.len() || text[text.len() - 1] != ']' {
        return None;
    }
    parse_u64(&copy_range(&text, prefix.len(), text.len() - 1))
}

/// The socket inodes named by the targets of a process's `/proc/<pid>/fd`
/// links, in link order.
pub open spec fn link_inodes(links: Seq<Seq<char>>) -> Seq<u64>
    decreases links.len(),
{
    if links.len() == 0 {
        seq![]
    } else {
        link_inodes(links.drop_last()) + match socket_inode_of(links.last()) {
            Some(n) => seq![n],
            None => seq![],
        }
    }
}

/// The listening ports found in the `/proc/<pid>/net` tables `tables`, table
/// by table, for sockets whose inode is one of `inodes`.
pub open spec fn proc_ports(tables: Seq<Seq<char>>, inodes: Seq<u64>) -> Seq<u16>
    decreases tables.len(),
{
    if tables.len() == 0 {
        seq![]
    } else {
        proc_ports(tables.drop_last(), inodes) + proc_tcp_ports(tables.last(), inodes)
    }
}

/// The listening ports of a process on Linux, from the targets of its
/// `/proc/<pid>/fd` links and the `tcp` and `tcp6` tables of its
/// `/proc/<pid>/net` that could be read.
pub fn ports_from_proc(links: &Vec<String>, tables: &Vec<String>) -> (ports: Vec<u16>)
    ensures
        ports@ == proc_ports(texts(tables@), link_inodes(texts(links@))),
{
    let ghost all_links = texts(links@);
    let mut inodes: Vec<u64> = Vec::new();
    let mut i: usize = 0;
    assert(all_links.take(0) =~= Seq::<Seq<char>>::empty());
    while i < links.len()
        invariant
            0 <= i <= links.len(),
            all_links == texts(links@),
            inodes@ == link_inodes(all_links.take(i as int)),
        decreases links.len() - i,
    {
        let ghost next = all_links.take(i + 1);
        assert(next.drop_last() =~= all_links.take(i as int));
        assert(next.last() == links@[i as int]@);
        match socket_inode(links[i].as_str()) {
            Some(n) => {
                inodes.push(n);
            },
            None => {},
        }
        i = i + 1;
        assert(inodes@ =~= link_inodes(all_links.take(i as int)));
    }
    assert(all_links.take(i as int) =~= all_links);
    let ghost all_tables = texts(tables@);
    let mut ports: Vec<u16> = Vec::new();
    let mut t: usize = 0;
    assert(all_tables.take(0) =~= Seq::<Seq<char>>::empty());
    while t < tables.len()
        invariant
            0 <= t <= tables.len(),
            all_tables == texts(tables@),
            inodes@ == link_inodes(all_links),
            ports@ == proc_ports(all_tables.take(t as int), inodes@),
        decreases tables.len() - t,
    {
        let ghost next = all_tables.take(t + 1);
        assert(next.drop_last() =~= all_tables.take(t as int));
        assert(next.last() == tables@[t as int]@);
        let mut found = ports_from_proc_tcp(tables[t].as_str(), inodes.as_slice());
        ports.append(&mut found);
        t = t + 1;
        assert(ports@ =~= proc_ports(all_tables.take(t as int), inodes@));
    }
    assert(all_tables.take(t as int) =~= all_tables);
    ports
}

} // verus!
