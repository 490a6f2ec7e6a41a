//! The checks and conversions behind the workbench's forms.
use vstd::prelude::*;
use crate::models::{DeviceInput, DeviceInputView};
use crate::path::{components, components_of, has_drive, starts_with_drive};
use crate::text::{
    append_str, decimal, is_blank, owned, parse_bounded, parse_u16, parse_u32, parse_u64,
    parse_u64_spec, push_decimal, same_text, trim, trimmed, views,
};

verus! {

/// The form with the field named `key` set to `v`; unknown keys change nothing.
pub open spec fn with_field(d: DeviceInputView, key: Seq<char>, v: Seq<char>) -> DeviceInputView {
    if key == "name"@ {
        DeviceInputView { name: v, ..d }
    } else if key == "address"@ {
        DeviceInputView { address: v, ..d }
    } else if key == "serial"@ {
        DeviceInputView { serial: v, ..d }
    } else if key == "username"@ {
        DeviceInputView { username: v, ..d }
    } else if key == "auth_method"@ {
        DeviceInputView { auth_method: v, ..d }
    } else if key == "password"@ {
        DeviceInputView { password: v, ..d }
    } else if key == "private_key_path"@ {
        DeviceInputView { private_key_path: v, ..d }
    } else if key == "os_type"@ {
        DeviceInputView { os_type: v, ..d }
    } else if key == "serial_port"@ {
        DeviceInputView { serial_port: v, ..d }
    } else if key == "remark"@ {
        DeviceInputView { remark: v, ..d }
    } else {
        d
    }
}

impl DeviceInput {
    /// Sets the text field named `key` to `v`.
    pub fn set_field(&mut self, key: &str, v: String)
        ensures
            final(self)@ == with_field(old(self)@, key@, v@),
    {
        if same_text(key, "name") {
            self.name = v;
        } else if same_text(key, "address") {
            self.address = v;
        } else if same_text(key, "serial") {
            self.serial = v;
        } else if same_text(key, "username") {
            self.username = v;
        } else if same_text(key, "auth_method") {
            self.auth_method = v;
        } else if same_text(key, "password") {
            self.password = v;
        } else if same_text(key, "private_key_path") {
            self.private_key_path = v;
        } else if same_text(key, "os_type") {
            self.os_type = v;
        } else if same_text(key, "serial_port") {
            self.serial_port = v;
        } else if same_text(key, "remark") {
            self.remark = v;
        }
    }

    /// Sets the baud rate from the typed text, keeping it when that is not a number.
    pub fn set_baud(&mut self, text: &str)
        ensures
            final(self)@ == (DeviceInputView {
                baud_rate: match parse_bounded(text@, u32::MAX as u64) {
                    Some(n) => n as u32,
                    None => old(self).baud_rate,
                },
                ..old(self)@
            }),
    {
        match parse_u32(text) {
            Some(n) => self.baud_rate = n,
            None => {},
        }
    }
}

/// A typed number, or `current` when the text is not one (`u64`).
pub fn parse_u64_or(text: &str, current: u64) -> (res: u64)
    ensures
        res == match parse_u64_spec(text@) {
            Some(n) => n,
            None => current,
        },
{
    match parse_u64(text) {
        Some(n) => n,
        None => current,
    }
}

/// A typed number, or `current` when the text is not one (`u32`).
pub fn parse_u32_or(text: &str, current: u32) -> (res: u32)
    ensures
        res == match parse_bounded(text@, u32::MAX as u64) {
            Some(n) => n as u32,
            None => current,
        },
{
    match parse_u32(text) {
        Some(n) => n,
        None => current,
    }
}

/// A typed number, or `current` when the text is not one (`u16`).
pub fn parse_u16_or(text: &str, current: u16) -> (res: u16)
    ensures
        res == match parse_bounded(text@, u16::MAX as u64) {
            Some(n) => n as u16,
            None => current,
        },
{
    match parse_u16(text) {
        Some(n) => n,
        None => current,
    }
}

/// The address typed for `adb connect`/`disconnect`, trimmed; refused when blank.
pub fn adb_address(input: &str) -> (res: Result<String, String>)
    ensures
        res is Ok <==> trim(input@).len() != 0,
        res matches Ok(a) ==> a@ == trim(input@),
        res matches Err(e) ==> e@ == "请输入 IP:端口"@,
{
    if is_blank(input) {
        return Err(owned("请输入 IP:端口"));
    }
    Ok(trimmed(input))
}

/// A push needs both a local path and a device path.
pub fn push_paths(local: &str, remote: &str) -> (res: Result<(), String>)
    ensures
        res is Ok <==> trim(local@).len() != 0 && trim(remote@).len() != 0,
        res matches Err(e) ==> e@ == "请填写本地路径与设备目标路径"@,
{
    if is_blank(local) || is_blank(remote) {
        return Err(owned("请填写本地路径与设备目标路径"));
    }
    Ok(())
}

/// An upload needs a target device and a local file; the path is trimmed.
pub fn upload_source(serial: &str, path: &str) -> (res: Result<String, String>)
    ensures
        res is Ok <==> trim(serial@).len() != 0 && trim(path@).len() != 0,
        res matches Ok(p) ==> p@ == trim(path@),
        res matches Err(e) ==> e@ == (if trim(serial@).len() == 0 {
            "请先选择目标设备"@
        } else {
            "请填写本地固件文件路径"@
        }),
{
    if is_blank(serial) {
        return Err(owned("请先选择目标设备"));
    }
    if is_blank(path) {
        return Err(owned("请填写本地固件文件路径"));
    }
    Ok(trimmed(path))
}

/// `Path::file_name`: the last component when it is a name, that is not a
/// drive, a root, `.` or `..`.
pub open spec fn file_name_of(p: Seq<char>) -> Option<Seq<char>> {
    let c = components(p);
    if c.len() > 0 && !(c.len() == 1 && has_drive(p)) && c.last() != seq!['/'] && c.last() != seq![
        '.',
    ] && c.last() != seq!['.', '.'] {
        Some(c.last())
    } else {
        None
    }
}

/// The file name of `path`, or `default` when the path has none.
pub fn file_name_or(path: &str, default: &str) -> (res: String)
    ensures
        res@ == match file_name_of(path@) {
            Some(n) => n,
            None => default@,
        },
{
    let c = components_of(path);
    let n = c.len();
    let drive_only = n == 1 && starts_with_drive(path);
    proof {
        reveal_strlit("/");
        reveal_strlit(".");
        reveal_strlit("..");
        assert("/"@ =~= seq!['/']);
        assert("."@ =~= seq!['.']);
        assert(".."@ =~= seq!['.', '.']);
        if n > 0 {
            assert(views(c@)[n - 1] == c@[n - 1]@);
        }
    }
    if n > 0 && !drive_only && !same_text(c[n - 1].as_str(), "/") && !same_text(
        c[n - 1].as_str(),
        ".",
    ) && !same_text(c[n - 1].as_str(), "..") {
        return c[n - 1].clone();
    }
    owned(default)
}

/// The name an uploaded image is kept under: the file name of its path, or
/// `firmware.img` when the path has none.
pub fn upload_file_name(path: &str) -> (res: String)
    ensures
        res@ == match file_name_of(path@) {
            Some(n) => n,
            None => "firmware.img"@,
        },
{
    file_name_or(path, "firmware.img")
}

/// Sending quick commands needs a chosen port.
pub fn send_target(port: &str) -> (res: Result<(), String>)
    ensures
        res is Ok <==> trim(port@).len() != 0,
        res matches Err(e) ==> e@ == "请先打开一个串口并选择目标端口"@,
{
    if is_blank(port) {
        return Err(owned("请先打开一个串口并选择目标端口"));
    }
    Ok(())
}

/// Flashing needs a device found in flashing mode.
pub fn flash_ready(found: usize) -> (res: Result<(), String>)
    ensures
        res is Ok <==> found > 0,
        res matches Err(e) ==> e@ == "未检测到烧录模式设备，请先扫描"@,
{
    if found == 0 {
        return Err(owned("未检测到烧录模式设备，请先扫描"));
    }
    Ok(())
}

/// The MCP state for the settings page.
pub fn mcp_status_message(running: bool, port: u16, tools: usize) -> (res: String)
    ensures
        running ==> res@ == "MCP 服务运行中（127.0.0.1:"@ + decimal(port as nat) + "，"@ + decimal(
            tools as nat,
        ) + " 个工具）"@,
        !running ==> res@ == "MCP 服务未运行"@,
{
    if running {
        let mut s = owned("MCP 服务运行中（127.0.0.1:");
        push_decimal(&mut s, port as u64);
        append_str(&mut s, "，");
        push_decimal(&mut s, tools as u64);
        append_str(&mut s, " 个工具）");
        s
    } else {
        owned("MCP 服务未运行")
    }
}

} // verus!
