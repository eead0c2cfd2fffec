use dbx_desktop::{
    check_dbx, common_bin_dirs, dbx_candidates, dbx_file_names, dbx_in_dir, dbx_installed,
    dbx_search_dirs, dbx_url, discover_dbx, ensure_started, find_dbx, find_dbx_processes,
    first_start_question, install_hint, is_dbx_server, on_exit, parse_port, probe_request,
    record_spawn, remote_status, response_complete, response_head, spawn_command, spawn_path_env,
    spawn_path_for, split_paths, url_of, ProcessInfo, StartQuestion, StartStep,
};

fn strings(items: &[&str]) -> Vec<String> {
    items.iter().map(|s| s.to_string()).collect()
}

#[test]
fn dbx_url_defaults_to_fixed_port() {
    assert_eq!(dbx_url(None), "http://127.0.0.1:4224");
    assert_eq!(dbx_url(Some(8080)), "http://127.0.0.1:8080");
    assert_eq!(dbx_url(Some(0)), "http://127.0.0.1:0");
    assert_eq!(dbx_url(Some(65535)), "http://127.0.0.1:65535");
}

#[test]
fn url_port_reads_back() {
    for p in [0u16, 9, 10, 4224, 65535] {
        assert_eq!(parse_port(&dbx_url(Some(p))), Some(p));
        assert_eq!(parse_port(&url_of("mypc.local", p)), Some(p));
    }
}

#[test]
fn probe_request_text() {
    assert_eq!(
        probe_request("127.0.0.1", 4224),
        "GET / HTTP/1.0\r\nHost: 127.0.0.1:4224\r\n\r\n"
    );
}

#[test]
fn reply_reading_stops_at_limits() {
    assert!(!response_complete(&b"HTTP/1.0 200 OK\r\n\r\nshort".to_vec()));
    let mut full = b"HTTP/1.0 200 OK\r\n\r\n".to_vec();
    full.extend(vec![b'x'; 1024]);
    assert!(response_complete(&full));
    full.pop();
    assert!(!response_complete(&full));
    assert!(response_complete(&vec![b'a'; 16384]));
    assert!(!response_complete(&vec![b'a'; 16383]));
    assert!(!response_complete(&Vec::new()));
}

#[test]
fn reply_head_reads_status() {
    let reply = b"HTTP/1.1 302 Found\r\n\r\n".to_vec();
    assert_eq!(response_head(reply), Some((302, Vec::new())));
    let with_body = b"HTTP/1.0 200 OK\r\nA: b\r\n\r\n<html>\r\n\r\nx".to_vec();
    assert_eq!(response_head(with_body), Some((200, b"<html>\r\n\r\nx".to_vec())));
    assert_eq!(response_head(Vec::new()), None);
    assert_eq!(response_head(b"garbage".to_vec()), None);
    // invalid UTF-8 in the reason phrase is replaced, the code still reads
    let odd = b"HTTP/1.1 204 \xff\xfe\r\n".to_vec();
    assert_eq!(response_head(odd), Some((204, Vec::new())));
    // an invalid byte inside the code makes it unreadable
    assert_eq!(response_head(b"HTTP/1.1 2\xff4 x".to_vec()), None);
}

#[test]
fn serving_codes() {
    assert!(is_dbx_server(&Some((200, Vec::new()))));
    assert!(is_dbx_server(&Some((399, Vec::new()))));
    assert!(!is_dbx_server(&Some((199, Vec::new()))));
    assert!(!is_dbx_server(&Some((400, Vec::new()))));
    assert!(!is_dbx_server(&None));
    assert_eq!(discover_dbx(&Some((301, Vec::new()))), Some(4224));
    assert_eq!(discover_dbx(&Some((500, Vec::new()))), None);
}

#[test]
fn statuses() {
    let up = check_dbx(&Some((200, Vec::new())), false);
    assert!(up.running && !up.installed);
    assert_eq!(up.url, "http://127.0.0.1:4224");
    let down = check_dbx(&None, true);
    assert!(!down.running && down.installed);
    assert_eq!(down.url, "http://127.0.0.1:4224");
    let remote = remote_status("192.168.1.10", 4232, &None);
    assert!(!remote.running && remote.installed);
    assert_eq!(remote.url, "http://192.168.1.10:4232");
}

fn run_start(serving: bool, installed: bool, running: bool, spawned: bool) -> StartStep {
    let mut q = first_start_question();
    loop {
        let answer = match q {
            StartQuestion::Serving => serving,
            StartQuestion::Installed => installed,
            StartQuestion::Running => running,
            StartQuestion::Spawned => spawned,
        };
        match ensure_started(q, answer) {
            StartStep::Ask(next) => q = next,
            other => return other,
        }
    }
}

#[test]
fn start_decisions() {
    assert!(run_start(false, true, false, false) == StartStep::Spawn);
    assert!(run_start(true, true, false, false) == StartStep::Wait);
    assert!(run_start(true, false, false, false) == StartStep::Wait);
    assert!(run_start(false, false, false, false) == StartStep::NotInstalled);
    assert!(run_start(false, true, true, false) == StartStep::Wait);
    assert!(run_start(false, true, false, true) == StartStep::Wait);
    assert!(install_hint().contains("dbx"));
}

#[test]
fn candidate_names_and_lookup() {
    assert_eq!(dbx_file_names(false), strings(&["dbx"]));
    assert_eq!(
        dbx_file_names(true),
        strings(&["dbx", "dbx.exe", "dbx.cmd", "dbx.bat", "dbx.com"])
    );
    assert_eq!(dbx_candidates("/usr/bin", false), strings(&["/usr/bin/dbx"]));
    assert_eq!(dbx_candidates("/usr/bin/", false), strings(&["/usr/bin/dbx"]));
    assert_eq!(dbx_candidates("", false), strings(&["dbx"]));
    assert_eq!(
        dbx_candidates("C:\\tools", true),
        strings(&[
            "C:\\tools\\dbx",
            "C:\\tools\\dbx.exe",
            "C:\\tools\\dbx.cmd",
            "C:\\tools\\dbx.bat",
            "C:\\tools\\dbx.com",
        ])
    );
    assert_eq!(dbx_candidates("C:", true)[1], "C:dbx.exe");
    assert_eq!(dbx_candidates("C:/x/", true)[0], "C:/x/dbx");
    assert_eq!(
        dbx_in_dir("C:\\tools", true, &vec![false, true, true, false, false]),
        Some("C:\\tools\\dbx.exe".to_string())
    );
    assert_eq!(dbx_in_dir("/usr/bin", false, &vec![true]), Some("/usr/bin/dbx".to_string()));
    assert_eq!(dbx_in_dir("/usr/bin", false, &vec![false]), None);
    let dirs = strings(&["/a", "/b", "/c"]);
    let flags = vec![vec![false], vec![true], vec![true]];
    assert_eq!(find_dbx(&dirs, &flags, false), Some(("/b".to_string(), "/b/dbx".to_string())));
    assert!(dbx_installed(&dirs, &flags, false));
    let none = vec![vec![false], vec![false], vec![false]];
    assert_eq!(find_dbx(&dirs, &none, false), None);
    assert!(!dbx_installed(&dirs, &none, false));
}

#[test]
fn path_variable_entries() {
    assert_eq!(split_paths("/a:/b::/c", false), strings(&["/a", "/b", "", "/c"]));
    assert_eq!(split_paths("", false), strings(&[""]));
    assert_eq!(split_paths("/a:", false), strings(&["/a", ""]));
    assert_eq!(split_paths("C:\\a;\"C:\\b;c\";d", true), strings(&["C:\\a", "C:\\b;c", "d"]));
    assert_eq!(split_paths("a;", true), strings(&["a", ""]));
    assert_eq!(split_paths("", true), strings(&[""]));
    assert_eq!(split_paths("a:b", true), strings(&["a:b"]));
    let common = strings(&["/c"]);
    assert_eq!(
        dbx_search_dirs(&Some("/a:/b".to_string()), &common, false),
        strings(&["/a", "/b", "/c"])
    );
    assert_eq!(dbx_search_dirs(&Some("x;y".to_string()), &common, true), strings(&["x", "y"]));
    assert_eq!(dbx_search_dirs(&None, &common, false), strings(&["/c"]));
}

#[test]
fn spawned_pid_is_kept_and_stopped() {
    let kept = record_spawn(None, 42);
    assert_eq!(kept, Some(42));
    assert_eq!(record_spawn(kept, 7), Some(42));
    assert_eq!(on_exit(kept), Some(42));
    assert_eq!(on_exit(None), None);
}

#[test]
fn spawn_settings() {
    let (prog, args) = spawn_command(true, "C:\\x\\dbx.cmd");
    assert_eq!(prog, "cmd");
    assert_eq!(args, strings(&["/C", "dbx"]));
    let (prog, args) = spawn_command(false, "/usr/local/bin/dbx");
    assert_eq!(prog, "/usr/local/bin/dbx");
    assert!(args.is_empty());
    let path = spawn_path_env(
        &Some("/opt/dbx".to_string()),
        &strings(&["/usr/bin", "/bin"]),
        &Some("/x:/y".to_string()),
    );
    assert_eq!(path, "/opt/dbx:/usr/bin:/bin:/x:/y");
    assert_eq!(spawn_path_env(&None, &Vec::new(), &None), "");
    assert_eq!(spawn_path_env(&None, &strings(&["/a"]), &None), "/a");
}

#[test]
fn dbx_processes_sorted() {
    let procs = vec![
        ProcessInfo { pid: 30, cmd: strings(&["/usr/local/bin/DBX", "--port"]) },
        ProcessInfo { pid: 5, cmd: strings(&["node", "server.js"]) },
        ProcessInfo { pid: 12, cmd: strings(&["node", "C:\\Tools\\DBX\\cli.js"]) },
        ProcessInfo { pid: 7, cmd: strings(&["Dbx.EXE"]) },
        ProcessInfo { pid: 1, cmd: Vec::new() },
    ];
    assert_eq!(find_dbx_processes(&procs), vec![7, 12, 30]);
    assert_eq!(find_dbx_processes(&Vec::new()), Vec::<u32>::new());
}

#[test]
fn spawn_path_uses_binary_parent() {
    let common = strings(&["/usr/bin"]);
    assert_eq!(
        spawn_path_for("/usr/bin/dbx", &common, &Some("/x".to_string())),
        "/usr/bin:/usr/bin:/x"
    );
    assert_eq!(spawn_path_for("/opt/dbx/./dbx", &Vec::new(), &None), "/opt/dbx");
    assert_eq!(spawn_path_for("dbx", &Vec::new(), &None), "");
    assert_eq!(spawn_path_for("/", &common, &None), "/usr/bin");
}

#[test]
fn spawn_path_puts_binary_dir_first() {
    let common = strings(&["/usr/local/bin", "/opt/homebrew/bin"]);
    assert_eq!(
        spawn_path_for("/home/u/.cargo/bin/dbx", &common, &Some("/usr/bin:/bin".to_string())),
        "/home/u/.cargo/bin:/usr/local/bin:/opt/homebrew/bin:/usr/bin:/bin"
    );
    assert_eq!(spawn_path_for("/srv/tools//dbx/", &Vec::new(), &None), "/srv/tools");
    assert_eq!(spawn_path_for("bin/dbx", &Vec::new(), &None), "bin");
    assert_eq!(spawn_path_for("/dbx", &Vec::new(), &None), "/");
}
