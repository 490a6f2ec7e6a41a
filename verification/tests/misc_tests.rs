use openworkbench::forms::{
    adb_address, flash_ready, mcp_status_message, parse_u16_or, parse_u32_or, parse_u64_or,
    push_paths, send_target, upload_file_name, upload_source,
};
use openworkbench::models::{Device, OpenSerialPort, Settings};
use openworkbench::path::{components_of, has_extension, path_join, path_starts_with, single_name};
use openworkbench::serial::{check_write, find_device, frame_bytes, is_open, log_file_name, resolve_target};
use openworkbench::logs::safe_log_name;
use openworkbench::tunnel::{exited_status, running_status, ssh_args, ssh_command_line, stopped_status};
use openworkbench::util::now_compact;

fn device(id: i64, port: &str, baud: u32) -> Device {
    Device {
        id,
        name: "d".into(),
        address: String::new(),
        serial: String::new(),
        username: String::new(),
        auth_method: String::new(),
        password: String::new(),
        private_key_path: String::new(),
        os_type: String::new(),
        serial_port: port.into(),
        baud_rate: baud,
        remark: String::new(),
        connected: false,
        created_at: String::new(),
        updated_at: String::new(),
    }
}

#[test]
fn settings_defaults() {
    let s = Settings::default();
    assert!(s.log_enabled);
    assert_eq!(s.log_max_file_size, 16 * 1024 * 1024);
    assert_eq!(s.log_max_days, 30);
    assert_eq!(s.adb_path, "adb");
    assert_eq!(s.mcp_port, 9847);
    assert_eq!(s.tunnel_ssh_port, 22);
    assert_eq!(s.tunnel_auth_method, "key");
    assert_eq!(s.tunnel_remote_bind, "127.0.0.1");
    assert!(!s.host_shell_enabled && !s.mcp_enabled && !s.tunnel_enabled);
}

#[test]
fn tunnel_command_line() {
    let mut s = Settings::default();
    assert_eq!(ssh_args(&s).unwrap_err(), "隧道参数不完整（主机地址或远端端口为空）");
    s.tunnel_host = " build.example.com ".into();
    s.tunnel_remote_port = 8080;
    s.tunnel_user = "dev".into();
    let a = ssh_args(&s).unwrap();
    assert_eq!(a, vec!["-N", "-R", "127.0.0.1:8080:127.0.0.1:8080", "dev@build.example.com"]);
    assert_eq!(ssh_command_line(&a), "ssh -N -R 127.0.0.1:8080:127.0.0.1:8080 dev@build.example.com");
    s.tunnel_ssh_port = 2222;
    s.tunnel_private_key = "  C:\\keys\\id  ".into();
    s.tunnel_remote_bind = "  ".into();
    let a = ssh_args(&s).unwrap();
    assert_eq!(a, vec!["-N", "-R", "127.0.0.1:8080:127.0.0.1:8080", "-p", "2222", "-i", "C:\\keys\\id", "dev@build.example.com"]);
    s.tunnel_remote_bind = "0.0.0.0".into();
    assert_eq!(ssh_args(&s).unwrap()[2], "0.0.0.0:8080:127.0.0.1:8080");
    s.tunnel_auth_method = "password".into();
    assert_eq!(ssh_args(&s).unwrap_err(), "密码认证需要交互式 ssh，建议改用私钥认证");
    s.tunnel_remote_port = 0;
    assert_eq!(ssh_args(&s).unwrap_err(), "隧道参数不完整（主机地址或远端端口为空）");
}

#[test]
fn tunnel_states() {
    let s = stopped_status();
    assert!(!s.running && s.pid.is_none() && s.command.is_empty());
    let s = running_status(42, "ssh -N".into(), "T".into());
    assert_eq!((s.running, s.pid, s.command.as_str()), (true, Some(42), "ssh -N"));
    assert_eq!(exited_status().last_error.as_deref(), Some("ssh 进程已退出"));
}

#[test]
fn serial_target_choice() {
    let ds = vec![device(1, "COM7", 9600), device(2, "  ", 0)];
    assert_eq!(resolve_target(find_device(&ds, 1), "COM1", "115200").unwrap(), ("COM7".to_string(), 9600));
    assert_eq!(resolve_target(find_device(&ds, 2), "COM1", "57600").unwrap(), ("COM1".to_string(), 57600));
    assert_eq!(resolve_target(None, "COM2", "fast").unwrap(), ("COM2".to_string(), 115200));
    assert_eq!(resolve_target(None, " ", "9600").unwrap_err(), "未选择串口端口");
    assert!(find_device(&ds, 3).is_none());
}

#[test]
fn serial_writes() {
    let open = Some(OpenSerialPort { port_name: "COM3".into(), baud_rate: 115200, opened_at: "T".into(), recording: true });
    assert!(check_write(&open, "COM3").is_ok());
    assert_eq!(check_write(&open, "COM4").unwrap_err(), "串口 COM4 未打开");
    assert_eq!(check_write(&None, "COM3").unwrap_err(), "串口未打开");
    assert!(is_open(&open, "COM3") && !is_open(&open, "COM4") && !is_open(&None, "COM3"));
    assert_eq!(frame_bytes("ls", true), b"ls\n".to_vec());
    assert_eq!(frame_bytes("日", false), "日".as_bytes().to_vec());
}

#[test]
fn recorded_logs_can_be_read_back() {
    let n = log_file_name("/dev/ttyUSB0", "20240101_120000");
    assert_eq!(n, "_dev_ttyUSB0_20240101_120000.log");
    assert!(safe_log_name(&n).is_ok());
    let n = log_file_name("COM3", &now_compact());
    assert!(safe_log_name(&n).is_ok());
}

#[test]
fn paths() {
    assert_eq!(path_join("/a", "b"), "/a/b");
    assert_eq!(path_join("/a/", "b"), "/a/b");
    assert_eq!(path_join("", "b"), "b");
    assert_eq!(path_join("/a", "/b"), "/b");
    assert_eq!(components_of("/a//b/./c/"), vec!["/", "a", "b", "c"]);
    assert_eq!(path_join("C:", "x"), "C:x");
    assert_eq!(path_join("C:\\a", "\\b"), "C:\\b");
    assert_eq!(path_join("C:\\a", "D:y"), "D:y");
    assert_eq!(path_join("C:\\a", "b"), "C:\\a/b");
    assert_eq!(components_of("C:\\a"), vec!["C:", "/", "a"]);
    assert_eq!(components_of("C:x"), vec!["C:", "x"]);
    assert_eq!(components_of("."), vec!["."]);
    assert!(path_starts_with("/a/b/c", "/a/b"));
    assert!(path_starts_with("/a/b", "/a/b/"));
    assert!(!path_starts_with("/a/bc", "/a/b"));
    assert!(!path_starts_with("a/b", "/a"));
    assert!(single_name("x.log") && !single_name("..") && !single_name("a/b") && !single_name(""));
    assert!(has_extension("a.b.log", "log") && !has_extension(".log", "log") && !has_extension("log", "log"));
}

#[test]
fn forms() {
    assert_eq!(parse_u64_or("99", 1), 99);
    assert_eq!(parse_u64_or("x", 1), 1);
    assert_eq!(parse_u32_or("4294967296", 7), 7);
    assert_eq!(parse_u16_or("65535", 7), 65535);
    assert_eq!(parse_u16_or("65536", 7), 7);
    assert_eq!(adb_address(" 10.0.0.2:5555 ").unwrap(), "10.0.0.2:5555");
    assert_eq!(adb_address("  ").unwrap_err(), "请输入 IP:端口");
    assert_eq!(push_paths("a", " ").unwrap_err(), "请填写本地路径与设备目标路径");
    assert!(push_paths("a", "/b").is_ok());
    assert_eq!(upload_source("", "x").unwrap_err(), "请先选择目标设备");
    assert_eq!(upload_source("S", " ").unwrap_err(), "请填写本地固件文件路径");
    assert_eq!(upload_source("S", " C:\\fw\\boot.img ").unwrap(), "C:\\fw\\boot.img");
    assert_eq!(upload_file_name("C:\\fw\\boot.img"), "boot.img");
    assert_eq!(upload_file_name("/tmp/x/"), "x");
    assert_eq!(upload_file_name("/"), "firmware.img");
    assert_eq!(upload_file_name("a/.."), "firmware.img");
    assert_eq!(upload_file_name("."), "firmware.img");
    assert_eq!(upload_file_name("C:"), "firmware.img");
    assert_eq!(upload_file_name("C:boot.img"), "boot.img");
    assert_eq!(send_target("").unwrap_err(), "请先打开一个串口并选择目标端口");
    assert_eq!(flash_ready(0).unwrap_err(), "未检测到烧录模式设备，请先扫描");
    assert!(flash_ready(1).is_ok());
    assert_eq!(mcp_status_message(true, 9847, 3), "MCP 服务运行中（127.0.0.1:9847，3 个工具）");
    assert_eq!(mcp_status_message(false, 9847, 3), "MCP 服务未运行");
}
