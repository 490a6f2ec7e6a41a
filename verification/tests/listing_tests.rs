use openworkbench::firmware::{FirmwareService, FlashService};
use openworkbench::host::HostService;
use openworkbench::logs::{safe_log_name, LogService};
use openworkbench::models::{DirItem, FileMeta};
use openworkbench::path::{components_of, path_starts_with};

fn item(name: &str, is_dir: bool, size: u64, secs: Option<u64>) -> DirItem {
    DirItem {
        name: name.to_string(),
        path: format!("/x/{name}"),
        meta: Some(FileMeta { is_dir, is_file: !is_dir, size, modified_secs: secs }),
    }
}

#[test]
fn logs_are_the_log_files_last_name_first() {
    let svc = LogService::new("/logs".to_string(), 1024);
    let items = vec![
        item("COM3_20240101_000000.log", false, 10, Some(0)),
        item("notes.txt", false, 1, None),
        item(".log", false, 1, None),
        item("COM3_20240301_000000.log", false, 20, None),
        DirItem { name: "broken.log".to_string(), path: "/x/broken.log".to_string(), meta: None },
        item("a.LOG", false, 1, None),
    ];
    let l = svc.list(items);
    let names: Vec<&str> = l.iter().map(|f| f.name.as_str()).collect();
    assert_eq!(names, vec!["COM3_20240301_000000.log", "COM3_20240101_000000.log"]);
    assert_eq!(l[1].modified_at, "1970-01-01T00:00:00Z");
    assert_eq!(l[0].modified_at, "");
    assert_eq!(l[0].size, 20);
}

#[test]
fn log_names_are_checked() {
    assert_eq!(safe_log_name("a.log").unwrap(), "a.log");
    assert_eq!(safe_log_name("../a.log").unwrap_err(), "日志文件名无效");
    assert!(safe_log_name("sub\\a.log").is_err());
    assert!(safe_log_name("C:a.log").is_err());
    assert!(safe_log_name("a.txt").is_err());
    assert!(safe_log_name("").is_err());
    let svc = LogService::new("/logs".to_string(), 16 * 1024 * 1024);
    assert_eq!(svc.file_path("x.log").unwrap(), "/logs/x.log");
    assert_eq!(svc.file_path("/etc/x.log").unwrap_err(), "日志文件名无效");
    assert_eq!(svc.debug_size(), "16.0 MB");
}

#[test]
fn firmware_lists_files_last_name_first() {
    let svc = FirmwareService::new("/fw".to_string());
    let items = vec![item("a.img", false, 1, None), item("sub", true, 0, None), item("c.img", false, 3, None), item("b.img", false, 2, None)];
    let l = svc.list(items);
    let names: Vec<&str> = l.iter().map(|f| f.name.as_str()).collect();
    assert_eq!(names, vec!["c.img", "b.img", "a.img"]);
}

#[test]
fn firmware_paths_stay_in_the_workspace() {
    let svc = FirmwareService::new("/fw".to_string());
    assert_eq!(svc.device_dir("../../etc"), "/fw/______etc");
    assert_eq!(svc.path("SER-1", "boot.img"), "/fw/SER-1/boot.img");
    let svc = FirmwareService::new("C:\\data\\firmware\\".to_string());
    assert_eq!(svc.device_dir("abc"), "C:\\data\\firmware\\abc");
}

#[test]
fn no_flash_backend_finds_nothing() {
    let f = FlashService::new("/fw".to_string());
    assert!(f.backend.is_none());
    assert!(f.scan().is_empty());
    assert_eq!(f.firmware.dir, "/fw");
}

#[test]
fn host_listing_puts_directories_first() {
    let items = vec![
        item("b.txt", false, 2, None),
        item("zeta", true, 0, None),
        item("a.txt", false, 1, Some(86400)),
        item("alpha", true, 0, None),
        DirItem { name: "lost".to_string(), path: "/x/lost".to_string(), meta: None },
    ];
    let l = HostService::list_dir(items);
    let names: Vec<&str> = l.iter().map(|e| e.name.as_str()).collect();
    assert_eq!(names, vec!["alpha", "zeta", "a.txt", "b.txt", "lost"]);
    assert_eq!(l[2].modified_at, "1970-01-02T00:00:00Z");
    assert_eq!(l[4].size, 0);
    assert!(!l[4].is_dir);
}

#[test]
fn host_paths_are_checked_against_the_root() {
    assert_eq!(HostService::check("  ", "/any", "", "/any", "").unwrap(), "/any");
    assert_eq!(HostService::check("/home/u", "/home/u/a", "/home/u", "/home/u/a", "").unwrap(), "/home/u/a");
    assert_eq!(
        HostService::check("/home/u", "/home/u2", "/home/u", "/home/u2", "").unwrap_err(),
        "路径超出允许访问根目录：/home/u"
    );
    assert!(HostService::check("C:\\work", "C:\\work\\x", "\\\\?\\C:\\work", "\\\\?\\C:\\work\\x", "").is_ok());
    assert!(HostService::check("C:\\work", "C:\\workx", "\\\\?\\C:\\work", "\\\\?\\C:\\workx", "").is_err());
}

#[test]
fn host_shell_needs_enabling() {
    assert_eq!(HostService::exec(false, "dir", true).unwrap_err(), "主机 shell 未启用（请在设置页开启）");
    let c = HostService::exec(true, "dir /b", true).unwrap();
    assert_eq!(c.program, "cmd");
    assert_eq!(c.args, vec!["/c".to_string(), "dir /b".to_string()]);
    assert_eq!(c.timeout_secs, 30);
    let c = HostService::exec(true, "ls", false).unwrap();
    assert_eq!(c.program, "sh");
    assert_eq!(c.args, vec!["-c".to_string(), "ls".to_string()]);
}

#[test]
fn accepted_log_paths_are_one_level_down() {
    let svc = LogService::new("C:\\data\\logs".to_string(), 1);
    let p = svc.file_path("COM3_20240101_000000.log").unwrap();
    assert_eq!(components_of(&p), vec!["C:", "/", "data", "logs", "COM3_20240101_000000.log"]);
    assert!(path_starts_with(&p, &svc.dir));
}

#[test]
fn workspaces_are_one_level_down() {
    let svc = FirmwareService::new("/fw/".to_string());
    let d = svc.device_dir("a/../b");
    assert_eq!(components_of(&d), vec!["/", "fw", "a____b"]);
    assert!(path_starts_with(&d, "/fw"));
}

#[test]
fn host_paths_cannot_climb_out_of_the_root() {
    let err = "路径超出允许访问根目录：/w";
    assert_eq!(HostService::check("/w", "/w/../n", "/w", "/w/../n", "").unwrap_err(), err);
    assert!(HostService::check("/w", "/w/a/../../n", "/w", "/w/a/../../n", "").is_err());
    assert_eq!(HostService::check("/w", "/w/a/../b", "/w", "/w/a/../b", "").unwrap(), "/w/a/../b");
    assert!(HostService::check("/w", "/w/./a", "/w", "/w/./a", "").is_ok());
}

#[test]
fn a_leading_dot_is_a_component() {
    assert!(HostService::check("w", "./w/a", "w", "./w/a", "").is_err());
    assert!(HostService::check("./w", "./w/a", "./w", "./w/a", "").is_ok());
    assert_eq!(components_of("./w/a"), vec![".", "w", "a"]);
    assert_eq!(components_of("a/./b"), vec!["a", "b"]);
    assert!(!path_starts_with("./w/a", "w"));
}

#[test]
fn new_files_are_checked_through_their_existing_part() {
    let err = "路径超出允许访问根目录：/srv/w";
    // A link under the root that leads elsewhere: its canonical form is outside.
    assert_eq!(HostService::check("/srv/w", "/srv/w/link/new.txt", "/srv/w", "/etc", "new.txt").unwrap_err(), err);
    // `..` out of the root, where the target does not exist yet.
    assert_eq!(HostService::check("/srv/w", "/srv/w/../new.txt", "/srv/w", "/srv", "new.txt").unwrap_err(), err);
    assert!(HostService::check("/srv/w", "/srv/w/sub/x/../../../n", "/srv/w", "/srv/w/sub", "x/../../../n").is_err());
    assert_eq!(
        HostService::check("/srv/w", "/srv/w/sub/a/b.txt", "/srv/w", "/srv/w/sub", "a/b.txt").unwrap(),
        "/srv/w/sub/a/b.txt"
    );
}
