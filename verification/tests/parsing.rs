use dbx_desktop::{
    parse_hex_port, parse_port, parse_status, ports_from_lsof, ports_from_netstat,
    ports_from_proc, ports_from_proc_tcp, socket_inode,
};

#[test]
fn parse_port_basic() {
    assert_eq!(parse_port("127.0.0.1:4224"), Some(4224));
    assert_eq!(parse_port("[::1]:4232"), Some(4232));
    assert_eq!(parse_port("*:8090"), Some(8090));
    assert_eq!(parse_port("no-port"), None);
}

#[test]
fn parse_status_basic() {
    assert_eq!(parse_status("HTTP/1.0 200 OK"), Some(200));
    assert_eq!(parse_status("HTTP/1.1 404 Not Found"), Some(404));
    assert_eq!(parse_status("garbage"), None);
}

#[test]
fn netstat_windows_parse() {
    let sample = "\
Active Connections

  Proto  Local Address          Foreign Address        State           PID
  TCP    127.0.0.1:4224         0.0.0.0:0              LISTENING       38316
  TCP    127.0.0.1:4232         0.0.0.0:0              LISTENING       38316
  TCP    0.0.0.0:135            0.0.0.0:0              LISTENING       1204
  UDP    0.0.0.0:1900           *:*                                   544
";
    assert_eq!(ports_from_netstat(sample, 38316), vec![4224, 4232]);
    assert_eq!(ports_from_netstat(sample, 1204), vec![135]);
}

#[test]
fn proc_tcp_linux_parse() {
    let sample = "\
  sl  local_address rem_address   st tx_queue rx_queue tr tm->when retrnsmt   uid  timeout inode
   0: 0100007F:1080 00000000:0000 0A 00000000:00000000 000:00000 00000000     0        0 12345 1 0000000000000000 100 0 0 10 0
   1: 0100007F:1088 00000000:0000 0A 00000000:00000000 000:00000 00000000     0        0 12346 1 0000000000000000 100 0 0 10 0
   2: 0100007F:D204 00000000:0000 01 00000000:00000000 000:00000 00000000     0        0 12347 1 0000000000000000 100 0 0 10 0
";
    assert_eq!(ports_from_proc_tcp(sample, &[12345]), vec![4224]);
    assert_eq!(ports_from_proc_tcp(sample, &[12346]), vec![4232]);
    // non-LISTEN row (state 01) must be ignored
    assert_eq!(ports_from_proc_tcp(sample, &[12347]), Vec::<u16>::new());
}

#[test]
fn lsof_macos_parse() {
    let sample = "\
COMMAND PID   USER  FD   TYPE DEVICE SIZE/OFF NODE NAME
node    38316 cc    30u  IPv4 0x1   0t0     TCP 127.0.0.1:4224 (LISTEN)
node    38316 cc    31u  IPv6 0x2   0t0     TCP *:4232 (LISTEN)
node    999   cc    10u  IPv4 0x3   0t0     TCP 127.0.0.1:8443 (LISTEN)
";
    assert_eq!(ports_from_lsof(sample, 38316), vec![4224, 4232]);
    assert_eq!(ports_from_lsof(sample, 999), vec![8443]);
}

#[test]
fn hex_port_of_proc_address() {
    assert_eq!(parse_hex_port("0100007F:1080"), Some(4224));
    assert_eq!(parse_hex_port("0100007F:d204"), Some(0xd204));
    assert_eq!(parse_hex_port("0100007F:G000"), None);
    assert_eq!(parse_hex_port("0100007F:10000"), None);
    assert_eq!(parse_hex_port("1080"), Some(4224));
}

#[test]
fn port_parsing_follows_integer_rules() {
    assert_eq!(parse_port("host:+80"), Some(80));
    assert_eq!(parse_port("host:+"), None);
    assert_eq!(parse_port("host:-1"), None);
    assert_eq!(parse_port("host:"), None);
    assert_eq!(parse_port("host:65535"), Some(65535));
    assert_eq!(parse_port("host:65536"), None);
    assert_eq!(parse_port("a:b:0081"), Some(81));
    assert_eq!(parse_port("80"), Some(80));
}

#[test]
fn status_line_edge_cases() {
    assert_eq!(parse_status(""), None);
    assert_eq!(parse_status("\nHTTP/1.1 200 OK"), None);
    assert_eq!(parse_status("HTTP/1.1  301  Moved\r\nLocation: /x\r\n"), Some(301));
    assert_eq!(parse_status("HTTP/1.1 2000 OK"), Some(2000));
    assert_eq!(parse_status("HTTP/1.1 70000 OK"), None);
    assert_eq!(parse_status("HTTP/1.1"), None);
}

#[test]
fn netstat_rows_of_other_kinds_are_skipped() {
    let sample = "  TCP    127.0.0.1:80   0.0.0.0:0   ESTABLISHED   7\r\n  TCPv6  [::]:81  [::]:0  LISTENING  7\r\n  TCP  short  LISTENING\n";
    assert_eq!(ports_from_netstat(sample, 7), vec![81]);
    assert_eq!(ports_from_netstat("", 7), Vec::<u16>::new());
}

#[test]
fn proc_tcp_header_is_skipped() {
    let only_row = "   0: 0100007F:1080 00000000:0000 0A 00000000:00000000 000:00000 00000000     0        0 12345 1";
    assert_eq!(ports_from_proc_tcp(only_row, &[12345]), Vec::<u16>::new());
    assert_eq!(ports_from_proc_tcp("", &[12345]), Vec::<u16>::new());
}

#[test]
fn lsof_rows_without_listen_or_pid_are_skipped() {
    let sample = "node 5 cc 30u IPv4 0x1 0t0 TCP 127.0.0.1:4224 (ESTABLISHED)\nnode x cc 30u IPv4 0x1 0t0 TCP 127.0.0.1:4225 (LISTEN)\nnode 5 cc 30u IPv4 0x1 0t0 TCP 127.0.0.1:4226   (LISTEN)\n";
    assert_eq!(ports_from_lsof(sample, 5), vec![4226]);
}

#[test]
fn socket_inodes_from_fd_links() {
    assert_eq!(socket_inode("socket:[12345]"), Some(12345));
    assert_eq!(socket_inode("socket:[]"), None);
    assert_eq!(socket_inode("socket:["), None);
    assert_eq!(socket_inode("pipe:[12345]"), None);
    assert_eq!(socket_inode("socket:[12a]"), None);
    assert_eq!(socket_inode("/dev/null"), None);
}

#[test]
fn proc_ports_join_links_and_tables() {
    let tcp = "\
  sl  local_address rem_address   st tx_queue rx_queue tr tm->when retrnsmt   uid  timeout inode
   0: 0100007F:1080 00000000:0000 0A 00000000:00000000 000:00000 00000000     0        0 12345 1 0000000000000000 100 0 0 10 0
   1: 0100007F:1088 00000000:0000 0A 00000000:00000000 000:00000 00000000     0        0 777 1 0000000000000000 100 0 0 10 0
";
    let tcp6 = "\
  sl  local_address                         remote_address                        st tx_queue rx_queue tr tm->when retrnsmt   uid  timeout inode
   0: 00000000000000000000000001000000:1090 00000000000000000000000000000000:0000 0A 00000000:00000000 00:00000000 00000000     0        0 12346 1 0000000000000000 100 0 0 10 0
";
    let links: Vec<String> = ["/dev/null", "socket:[12346]", "pipe:[9]", "socket:[12345]"]
        .iter()
        .map(|s| s.to_string())
        .collect();
    let tables = vec![tcp.to_string(), tcp6.to_string()];
    assert_eq!(ports_from_proc(&links, &tables), vec![4224, 4240]);
    assert_eq!(ports_from_proc(&links, &tables[1..].to_vec()), vec![4240]);
    assert_eq!(ports_from_proc(&Vec::new(), &tables), Vec::<u16>::new());
    assert_eq!(ports_from_proc(&links, &Vec::new()), Vec::<u16>::new());
}
