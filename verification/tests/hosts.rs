use dbx_desktop::{dbx_token_with, is_dbx_token, sanitize_host};

#[test]
fn sanitize_host_basic() {
    assert_eq!(sanitize_host(" 192.168.1.10 "), Ok("192.168.1.10".into()));
    assert_eq!(sanitize_host("mypc.local"), Ok("mypc.local".into()));
    assert!(sanitize_host("").is_err());
    assert!(sanitize_host("   ").is_err());
    // scheme / path / port injection attempts are rejected
    assert!(sanitize_host("http://192.168.1.10").is_err());
    assert!(sanitize_host("192.168.1.10:4224").is_err());
    assert!(sanitize_host("192.168.1.10/x").is_err());
    assert!(sanitize_host(r"192.168.1.10\dbx").is_err());
    assert!(sanitize_host("user@host").is_err());
}

#[test]
fn sanitize_host_messages() {
    assert_eq!(sanitize_host("\u{3000}\t"), Err("请输入电脑的 IP 地址".to_string()));
    let long = "a".repeat(254);
    assert_eq!(sanitize_host(&long), Err("主机地址过长".to_string()));
    let ok = "a".repeat(253);
    assert_eq!(sanitize_host(&ok), Ok(ok.clone()));
    // 85 three-byte characters are 255 bytes
    let wide = "主".repeat(85);
    assert_eq!(sanitize_host(&wide), Err("主机地址过长".to_string()));
    assert_eq!(
        sanitize_host("a b"),
        Err("主机地址格式不正确，请只填写 IP 地址或主机名（端口请在单独的输入框填写）".to_string())
    );
    assert!(sanitize_host("host?x").is_err());
    assert!(sanitize_host("host#x").is_err());
    assert!(sanitize_host("host%20").is_err());
}

#[test]
fn sanitize_host_is_idempotent() {
    let once = sanitize_host("  mypc.local\n").unwrap();
    assert_eq!(sanitize_host(&once), Ok(once.clone()));
}

#[test]
fn dbx_token_matches() {
    assert!(is_dbx_token("dbx"));
    assert!(is_dbx_token("/usr/local/bin/dbx"));
    assert!(is_dbx_token("/home/me/.local/bin/dbx"));
    assert!(is_dbx_token("dbx.exe"));
    assert!(is_dbx_token("C:\\tools\\dbx\\dbx.exe"));
    assert!(!is_dbx_token("node"));
    assert!(!is_dbx_token("/usr/bin/bash"));
    assert!(!is_dbx_token("--webview-exe-name=msedgewebview2.exe"));
    assert!(!is_dbx_token("/opt/dashboard/bin/web"));
}

#[test]
fn dbx_token_edge_cases() {
    assert!(is_dbx_token("dbx.cmd"));
    assert!(is_dbx_token("/opt/dbx/bin/server"));
    assert!(is_dbx_token("/usr/bin/dbx/"));
    assert!(is_dbx_token("/usr/bin/dbx/."));
    assert!(!is_dbx_token("/usr/bin/.."));
    assert!(!is_dbx_token(".."));
    assert!(is_dbx_token("/usr/bin/dbx/.."));
    assert!(!is_dbx_token("dbxd"));
    assert!(!is_dbx_token("dbx.exe.bak"));
    assert!(!is_dbx_token("DBX"));
    assert!(is_dbx_token("any/prefix/dbx.exe"));
}

#[test]
fn dbx_token_by_file_name() {
    let exe = Some("dbx.exe".to_string());
    assert!(dbx_token_with("c:\\tools\\dbx.exe", &exe));
    assert!(!dbx_token_with("c:\\tools\\dbx.exe", &Some("c:\\tools\\dbx.exe".to_string())));
    assert!(dbx_token_with("dbx", &None));
    assert!(dbx_token_with("/x/dbx/y", &Some("y".to_string())));
    assert!(!dbx_token_with("node", &Some("node".to_string())));
    assert!(dbx_token_with("x", &Some("dbx.bat".to_string())));
}

#[test]
fn dbx_paths_with_slashes() {
    assert!(is_dbx_token("/usr/local/bin/dbx"));
    assert!(!is_dbx_token("/usr/local/bin/mydbx"));
    assert!(is_dbx_token("./dbx.cmd"));
    assert!(!is_dbx_token("/usr/local/bin/dbx.sh"));
}
