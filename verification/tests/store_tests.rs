use openworkbench::models::{Device, DeviceInput, QuickCommandWindow};
use openworkbench::store::{apply_outcome, commands_from_text, data_dir_of, quick_input, remove_device, remove_window, save_device, save_window};

fn draft(name: &str) -> DeviceInput {
    let mut d = DeviceInput::empty();
    d.set_field("name", name.to_string());
    d.set_field("serial_port", "COM3".to_string());
    d.set_baud("115200");
    d
}

fn ids(ds: &Vec<Device>) -> Vec<i64> {
    ds.iter().map(|d| d.id).collect()
}

#[test]
fn adding_devices_gives_fresh_ids() {
    let mut ds: Vec<Device> = Vec::new();
    save_device(&mut ds, None, draft("a"), "T1");
    save_device(&mut ds, None, draft("b"), "T2");
    assert_eq!(ids(&ds), vec![1, 2]);
    assert_eq!(ds[1].name, "b");
    assert_eq!(ds[1].serial_port, "COM3");
    assert_eq!(ds[1].baud_rate, 115200);
    assert!(!ds[1].connected);
    assert_eq!((ds[1].created_at.as_str(), ds[1].updated_at.as_str()), ("T2", "T2"));
    remove_device(&mut ds, 1);
    save_device(&mut ds, None, draft("c"), "T3");
    assert_eq!(ids(&ds), vec![2, 3]);
}

#[test]
fn editing_a_device_replaces_it_in_place() {
    let mut ds: Vec<Device> = Vec::new();
    save_device(&mut ds, None, draft("a"), "T1");
    save_device(&mut ds, None, draft("b"), "T1");
    ds[0].connected = true;
    let mut d = DeviceInput::from_device(&ds[0]);
    assert_eq!(d.name, "a");
    d.set_field("remark", "lab".to_string());
    d.set_field("bogus", "x".to_string());
    d.set_baud("fast");
    save_device(&mut ds, Some(1), d, "T9");
    assert_eq!(ids(&ds), vec![1, 2]);
    assert_eq!(ds[0].remark, "lab");
    assert_eq!(ds[0].baud_rate, 115200);
    assert!(ds[0].connected);
    assert_eq!((ds[0].created_at.as_str(), ds[0].updated_at.as_str()), ("T1", "T9"));
    save_device(&mut ds, Some(42), draft("z"), "T10");
    assert_eq!(ds.len(), 2);
}

#[test]
fn removing_keeps_the_others_in_order() {
    let mut ds: Vec<Device> = Vec::new();
    for n in ["a", "b", "c"] {
        save_device(&mut ds, None, draft(n), "T");
    }
    remove_device(&mut ds, 2);
    assert_eq!(ids(&ds), vec![1, 3]);
    remove_device(&mut ds, 7);
    assert_eq!(ids(&ds), vec![1, 3]);
}

#[test]
fn quick_command_form() {
    assert_eq!(quick_input("  ", "ls", "0", true).unwrap_err(), "请填写窗口名称");
    let q = quick_input("  boot  ", " reboot \r\n\n  \nlogcat -c\n", "250", false).unwrap();
    assert_eq!(q.name, "boot");
    assert_eq!(q.commands, vec!["reboot".to_string(), "logcat -c".to_string()]);
    assert_eq!(q.interval_ms, 250);
    assert!(!q.append_newline);
    assert_eq!(quick_input("x", "", "abc", true).unwrap().interval_ms, 0);
    assert!(commands_from_text("").is_empty());
}

#[test]
fn quick_windows_are_saved_by_id() {
    let mut ws: Vec<QuickCommandWindow> = Vec::new();
    save_window(&mut ws, None, quick_input("a", "ls", "0", true).unwrap(), "T1");
    save_window(&mut ws, None, quick_input("b", "pwd", "0", true).unwrap(), "T2");
    save_window(&mut ws, Some(1), quick_input("a2", "ls -l", "5", false).unwrap(), "T3");
    assert_eq!(ws.len(), 2);
    assert_eq!((ws[0].id, ws[0].name.as_str(), ws[0].interval_ms), (1, "a2", 5));
    assert_eq!((ws[0].created_at.as_str(), ws[0].updated_at.as_str()), ("T1", "T3"));
    remove_window(&mut ws, 1);
    assert_eq!(ws.len(), 1);
    assert_eq!(ws[0].id, 2);
}

#[test]
fn settings_outcome_joins_errors() {
    assert!(apply_outcome(None, None).is_ok());
    assert_eq!(apply_outcome(Some("x".into()), None).unwrap_err(), "隧道：x");
    assert_eq!(apply_outcome(Some("x".into()), Some("y".into())).unwrap_err(), "隧道：x；MCP：y");
    assert_eq!(apply_outcome(None, Some("port".into())).unwrap_err(), "MCP：port");
}

#[test]
fn data_directory_choice() {
    assert_eq!(
        data_dir_of(true, Some("C:\\Users\\me\\AppData\\Roaming".into()), Some("/home/me".into())),
        "C:\\Users\\me\\AppData\\Roaming/openworkbench"
    );
    assert_eq!(data_dir_of(false, Some("x".into()), Some("/home/me".into())), "/home/me/.openworkbench");
    assert_eq!(data_dir_of(true, None, Some("/home/me/".into())), "/home/me/.openworkbench");
    assert_eq!(data_dir_of(false, None, None), ".");
}
