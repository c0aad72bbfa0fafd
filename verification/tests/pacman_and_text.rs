use arx::pacman_conf::PacmanConfig;
use arx::text::{decimal_string, is_blank_str};

const CONF: &str = "# pacman.conf\n[options]\nRootDir = /mnt\nDBPath=/mnt/db\n\n[core]\nInclude = /etc/pacman.d/mirrorlist\nServer = https://a.example/$repo\n[ extra ]\r\n  Server=https://b.example  \n#Server = https://c.example\n[options]\nServer = https://d.example\nBogus line\n[custom]\n";

#[test]
fn include_requests_lists_mirror_files() {
    let reqs = PacmanConfig::include_requests(CONF);
    assert_eq!(reqs, vec!["/etc/pacman.d/mirrorlist".to_string()]);
    let outside = "Include = /x\n[core]\nInclude = /y\nInclude=/z";
    assert_eq!(PacmanConfig::include_requests(outside), vec!["/y".to_string(), "/z".to_string()]);
}

#[test]
fn parse_reads_sections_and_servers() {
    let mirrors = vec![vec!["https://m1.example".to_string(), "https://m2.example".to_string()]];
    let cfg = PacmanConfig::parse(CONF, &mirrors);
    assert_eq!(cfg.root_dir, "/mnt");
    assert_eq!(cfg.db_path, "/mnt/db");
    assert_eq!(cfg.repos.len(), 3);
    assert_eq!(cfg.repos[0].name, "core");
    assert_eq!(
        cfg.repos[0].servers,
        vec![
            "https://m1.example".to_string(),
            "https://m2.example".to_string(),
            "https://a.example/$repo".to_string()
        ]
    );
    assert_eq!(cfg.repos[1].name, "extra");
    assert_eq!(
        cfg.repos[1].servers,
        vec!["https://b.example".to_string(), "https://d.example".to_string()]
    );
    assert_eq!(cfg.repos[2].name, "custom");
    assert!(cfg.repos[2].servers.is_empty());
}

#[test]
fn parse_defaults_and_unreadable_mirror_list() {
    let cfg = PacmanConfig::parse("[core]\nInclude = /missing\n", &vec![]);
    assert_eq!(cfg.root_dir, "/");
    assert_eq!(cfg.db_path, "/var/lib/pacman");
    assert_eq!(cfg.repos.len(), 1);
    assert!(cfg.repos[0].servers.is_empty());
    let empty = PacmanConfig::parse("", &vec![]);
    assert!(empty.repos.is_empty());
}

#[test]
fn mirrorlist_keeps_server_lines() {
    let text = "## Worldwide\n#Server = https://off.example\nServer = https://one.example/$repo/os/$arch\n  Server=https://two.example  \nOther = x\n[core]\n";
    assert_eq!(
        PacmanConfig::parse_mirrorlist(text),
        vec![
            "https://one.example/$repo/os/$arch".to_string(),
            "https://two.example".to_string()
        ]
    );
}

#[test]
fn decimal_renders_numbers() {
    assert_eq!(decimal_string(0), "0");
    assert_eq!(decimal_string(7), "7");
    assert_eq!(decimal_string(1024), "1024");
    assert_eq!(decimal_string(usize::MAX), usize::MAX.to_string());
}

#[test]
fn blank_follows_unicode_white_space() {
    assert!(is_blank_str(""));
    assert!(is_blank_str(" \t\n\r\u{85}\u{a0}\u{2009}\u{3000}"));
    assert!(!is_blank_str(" x "));
    assert!(!is_blank_str("\u{200b}"));
}

#[test]
fn neutral_lines_change_nothing() {
    let base = "RootDir = /r\n[core]\nServer = https://a\n";
    let noisy = "  \n# x\nRootDir = /r\nSigLevel = Never\n[core]\nserver = https://z\nBogus\nServer = https://a\n";
    let a = PacmanConfig::parse(base, &vec![]);
    let b = PacmanConfig::parse(noisy, &vec![]);
    assert_eq!(a.root_dir, b.root_dir);
    assert_eq!(a.db_path, b.db_path);
    assert_eq!(a.repos.len(), b.repos.len());
    assert_eq!(a.repos[0].name, b.repos[0].name);
    assert_eq!(a.repos[0].servers, b.repos[0].servers);
}

#[test]
fn unreadable_mirror_list_counts_as_absent_include() {
    let with = "[core]\nInclude = /a\nInclude = /missing\nInclude = /c\n";
    let without = "[core]\nInclude = /a\nInclude = /c\n";
    let m = |s: &str| vec![s.to_string()];
    let a = PacmanConfig::parse(with, &vec![m("https://a"), vec![], m("https://c")]);
    let b = PacmanConfig::parse(without, &vec![m("https://a"), m("https://c")]);
    assert_eq!(a.repos[0].servers, b.repos[0].servers);
    assert_eq!(a.repos[0].servers, vec!["https://a".to_string(), "https://c".to_string()]);
}
