use openworkbench::adb::{devices_from_output, entries_from_output, quote_path, AdbService};

fn args(v: &[String]) -> Vec<&str> {
    v.iter().map(|s| s.as_str()).collect()
}

#[test]
fn blank_adb_path_means_adb() {
    let svc = AdbService;
    let c = svc.cmd("  ", &["version"], 5);
    assert_eq!(c.program, "adb");
    assert_eq!(args(&c.args), vec!["version"]);
    assert_eq!(c.timeout_secs, 5);
    let c = svc.cmd("C:\\tools\\adb.exe", &[], 5);
    assert_eq!(c.program, "C:\\tools\\adb.exe");
}

#[test]
fn command_lines_and_timeouts() {
    let svc = AdbService;
    let c = svc.scan_command("adb");
    assert_eq!((args(&c.args), c.timeout_secs), (vec!["devices", "-l"], 10));
    let c = svc.connect("adb", "10.0.0.2:5555");
    assert_eq!((args(&c.args), c.timeout_secs), (vec!["connect", "10.0.0.2:5555"], 15));
    let c = svc.disconnect("adb", "10.0.0.2:5555");
    assert_eq!((args(&c.args), c.timeout_secs), (vec!["disconnect", "10.0.0.2:5555"], 10));
    let c = svc.shell("adb", "SER", "ls");
    assert_eq!((args(&c.args), c.timeout_secs), (vec!["-s", "SER", "shell", "ls"], 30));
    let c = svc.push("adb", "SER", "a.bin", "/data/a.bin");
    assert_eq!((args(&c.args), c.timeout_secs), (vec!["-s", "SER", "push", "a.bin", "/data/a.bin"], 60));
    let c = svc.pull("adb", "SER", "/data/a.bin", "a.bin");
    assert_eq!((args(&c.args), c.timeout_secs), (vec!["-s", "SER", "pull", "/data/a.bin", "a.bin"], 60));
    let c = svc.reboot("adb", "SER", "");
    assert_eq!(args(&c.args), vec!["-s", "SER", "reboot"]);
    let c = svc.reboot("adb", "SER", "bootloader");
    assert_eq!((args(&c.args), c.timeout_secs), (vec!["-s", "SER", "reboot", "bootloader"], 15));
    let c = svc.fs_detect("adb", "SER");
    assert_eq!(args(&c.args), vec!["-s", "SER", "shell", "uname -a && cat /proc/version"]);
    let c = svc.start_server("adb");
    assert_eq!((args(&c.args), c.timeout_secs), (vec!["start-server"], 15));
    let c = svc.kill_server("adb");
    assert_eq!((args(&c.args), c.timeout_secs), (vec!["kill-server"], 15));
}

#[test]
fn paths_are_quoted_for_the_device_shell() {
    assert_eq!(quote_path("/sdcard"), "'/sdcard'");
    assert_eq!(quote_path("it's"), "'it'\\''s'");
    let svc = AdbService;
    let c = svc.fs_list_command("adb", "SER", "/sdcard/my dir");
    assert_eq!(args(&c.args), vec!["-s", "SER", "shell", "ls -la '/sdcard/my dir'"]);
    assert_eq!(c.timeout_secs, 15);
    let c = svc.fs_read("adb", "SER", "/a'b");
    assert_eq!(args(&c.args), vec!["-s", "SER", "exec-out", "cat", "'/a'\\''b'"]);
    assert_eq!(c.timeout_secs, 30);
}

#[test]
fn reads_adb_devices_output() {
    let out = "List of devices attached\n* daemon started successfully\nemulator-5554  device product:sdk model:Pixel_6 device:emu64 transport_id:1\n\n192.168.1.5:5555\toffline\nR58M  unauthorized model:A model:B\n";
    let devs = devices_from_output(out);
    assert_eq!(devs.len(), 3);
    assert_eq!(devs[0].serial, "emulator-5554");
    assert_eq!(devs[0].state, "device");
    assert_eq!(devs[0].model, "Pixel_6");
    assert_eq!(devs[0].device, "emu64");
    assert_eq!(devs[1].serial, "192.168.1.5:5555");
    assert_eq!(devs[1].state, "offline");
    assert_eq!(devs[1].model, "");
    assert_eq!(devs[2].model, "B");
    assert!(devices_from_output("").is_empty());
    assert!(devices_from_output("List of devices attached\n").is_empty());
}

#[test]
fn scan_passes_errors_through() {
    let svc = AdbService;
    let r = svc.scan(Err("adb not found".to_string()));
    assert_eq!(r.unwrap_err(), "adb not found");
    let r = svc.scan(Ok("List\nX device\n".to_string())).unwrap();
    assert_eq!(r.len(), 1);
}

#[test]
fn reads_ls_output() {
    let out = "total 24\ndrwxr-xr-x  2 root root 4096 Jan  1 12:00 my dir\n-rw-r--r--  1 root root 1234 Feb 10 2023 a.txt\nlrwxrwxrwx  1 root root   11 Mar  3 09:30 link -> /etc/hosts\n-rw-r--r--  1 root root  xyz Mar  3 09:30 odd\n\ncrw-rw----  1 root root\n";
    let es = entries_from_output("/sdcard//", out);
    assert_eq!(es.len(), 4);
    assert_eq!(es[0].name, "my dir");
    assert_eq!(es[0].path, "/sdcard/my dir");
    assert!(es[0].is_dir);
    assert_eq!(es[0].size, 4096);
    assert_eq!(es[0].modified_at, "Jan 1 12:00");
    assert_eq!(es[1].name, "a.txt");
    assert!(!es[1].is_dir);
    assert_eq!(es[1].modified_at, "Feb 10 2023");
    assert_eq!(es[2].name, "link");
    assert_eq!(es[3].size, 0);
}

#[test]
fn fs_list_passes_errors_through() {
    let svc = AdbService;
    assert_eq!(svc.fs_list("/", Err("timeout".to_string())).unwrap_err(), "timeout");
    assert_eq!(svc.fs_list("/", Ok("total 0\n".to_string())).unwrap().len(), 0);
}

#[test]
fn mtime_is_a_time() {
    let t = AdbService::mtime_from_str("Jan 1 12:00");
    assert_eq!(t.len(), 20);
}
