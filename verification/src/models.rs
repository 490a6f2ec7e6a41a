//! The records the workbench keeps and shows, each with a view made of
//! character sequences and plain values.
use vstd::prelude::*;

verus! {

/// A device that the user keeps in the device list.
#[derive(Debug, Clone)]
pub struct Device {
    pub id: i64,
    pub name: String,
    pub address: String,
    pub serial: String,
    pub username: String,
    pub auth_method: String,
    pub password: String,
    pub private_key_path: String,
    pub os_type: String,
    pub serial_port: String,
    pub baud_rate: u32,
    pub remark: String,
    pub connected: bool,
    pub created_at: String,
    pub updated_at: String,
}

/// The editable part of a device, as the device form holds it.
#[derive(Debug, Clone)]
pub struct DeviceInput {
    pub name: String,
    pub address: String,
    pub serial: String,
    pub username: String,
    pub auth_method: String,
    pub password: String,
    pub private_key_path: String,
    pub os_type: String,
    pub serial_port: String,
    pub baud_rate: u32,
    pub remark: String,
}

pub struct DeviceView {
    pub id: i64,
    pub name: Seq<char>,
    pub address: Seq<char>,
    pub serial: Seq<char>,
    pub username: Seq<char>,
    pub auth_method: Seq<char>,
    pub password: Seq<char>,
    pub private_key_path: Seq<char>,
    pub os_type: Seq<char>,
    pub serial_port: Seq<char>,
    pub baud_rate: u32,
    pub remark: Seq<char>,
    pub connected: bool,
    pub created_at: Seq<char>,
    pub updated_at: Seq<char>,
}

pub struct DeviceInputView {
    pub name: Seq<char>,
    pub address: Seq<char>,
    pub serial: Seq<char>,
    pub username: Seq<char>,
    pub auth_method: Seq<char>,
    pub password: Seq<char>,
    pub private_key_path: Seq<char>,
    pub os_type: Seq<char>,
    pub serial_port: Seq<char>,
    pub baud_rate: u32,
    pub remark: Seq<char>,
}

impl View for Device {
    type V = DeviceView;

    open spec fn view(&self) -> DeviceView {
        DeviceView {
            id: self.id,
            name: self.name@,
            address: self.address@,
            serial: self.serial@,
            username: self.username@,
            auth_method: self.auth_method@,
            password: self.password@,
            private_key_path: self.private_key_path@,
            os_type: self.os_type@,
            serial_port: self.serial_port@,
            baud_rate: self.baud_rate,
            remark: self.remark@,
            connected: self.connected,
            created_at: self.created_at@,
            updated_at: self.updated_at@,
        }
    }
}

impl View for DeviceInput {
    type V = DeviceInputView;

    open spec fn view(&self) -> DeviceInputView {
        DeviceInputView {
            name: self.name@,
            address: self.address@,
            serial: self.serial@,
            username: self.username@,
            auth_method: self.auth_method@,
            password: self.password@,
            private_key_path: self.private_key_path@,
            os_type: self.os_type@,
            serial_port: self.serial_port@,
            baud_rate: self.baud_rate,
            remark: self.remark@,
        }
    }
}

/// The editable part of a device's view.
pub open spec fn input_of(d: DeviceView) -> DeviceInputView {
    DeviceInputView {
        name: d.name,
        address: d.address,
        serial: d.serial,
        username: d.username,
        auth_method: d.auth_method,
        password: d.password,
        private_key_path: d.private_key_path,
        os_type: d.os_type,
        serial_port: d.serial_port,
        baud_rate: d.baud_rate,
        remark: d.remark,
    }
}

impl DeviceInput {
    /// The form contents for editing an existing device.
    pub fn from_device(d: &Device) -> (res: Self)
        ensures
            res@ == input_of(d@),
    {
        DeviceInput {
            name: d.name.clone(),
            address: d.address.clone(),
            serial: d.serial.clone(),
            username: d.username.clone(),
            auth_method: d.auth_method.clone(),
            password: d.password.clone(),
            private_key_path: d.private_key_path.clone(),
            os_type: d.os_type.clone(),
            serial_port: d.serial_port.clone(),
            baud_rate: d.baud_rate,
            remark: d.remark.clone(),
        }
    }

    /// An empty form: every text empty, baud rate 0.
    pub fn empty() -> (res: Self)
        ensures
            res@ == (DeviceInputView {
                name: Seq::empty(),
                address: Seq::empty(),
                serial: Seq::empty(),
                username: Seq::empty(),
                auth_method: Seq::empty(),
                password: Seq::empty(),
                private_key_path: Seq::empty(),
                os_type: Seq::empty(),
                serial_port: Seq::empty(),
                baud_rate: 0,
                remark: Seq::empty(),
            }),
    {
        DeviceInput {
            name: String::new(),
            address: String::new(),
            serial: String::new(),
            username: String::new(),
            auth_method: String::new(),
            password: String::new(),
            private_key_path: String::new(),
            os_type: String::new(),
            serial_port: String::new(),
            baud_rate: 0,
            remark: String::new(),
        }
    }
}

/// A program to run: its path, its arguments, and how many seconds it may take.
#[derive(Debug, Clone)]
pub struct Invocation {
    pub program: String,
    pub args: Vec<String>,
    pub timeout_secs: u64,
}

pub struct InvocationView {
    pub program: Seq<char>,
    pub args: Seq<Seq<char>>,
    pub timeout_secs: u64,
}

impl View for Invocation {
    type V = InvocationView;

    open spec fn view(&self) -> InvocationView {
        InvocationView {
            program: self.program@,
            args: crate::text::views(self.args@),
            timeout_secs: self.timeout_secs,
        }
    }
}

impl Default for DeviceInput {
    /// An empty form: every text empty, baud rate 0.
    fn default() -> (res: Self)
        ensures
            res@ == (DeviceInputView {
                name: Seq::empty(),
                address: Seq::empty(),
                serial: Seq::empty(),
                username: Seq::empty(),
                auth_method: Seq::empty(),
                password: Seq::empty(),
                private_key_path: Seq::empty(),
                os_type: Seq::empty(),
                serial_port: Seq::empty(),
                baud_rate: 0,
                remark: Seq::empty(),
            }),
    {
        DeviceInput::empty()
    }
}

/// The serial port that is open, as the terminal shows it.
#[derive(Debug, Clone)]
pub struct OpenSerialPort {
    pub port_name: String,
    pub baud_rate: u32,
    pub opened_at: String,
    pub recording: bool,
}

/// One line of `adb devices -l`.
#[derive(Debug, Clone)]
pub struct AdbDevice {
    pub serial: String,
    pub state: String,
    pub model: String,
    pub device: String,
}

pub struct AdbDeviceView {
    pub serial: Seq<char>,
    pub state: Seq<char>,
    pub model: Seq<char>,
    pub device: Seq<char>,
}

impl View for AdbDevice {
    type V = AdbDeviceView;

    open spec fn view(&self) -> AdbDeviceView {
        AdbDeviceView {
            serial: self.serial@,
            state: self.state@,
            model: self.model@,
            device: self.device@,
        }
    }
}

/// A firmware image in a device's workspace.
#[derive(Debug, Clone)]
pub struct FirmwareInfo {
    pub name: String,
    pub size: u64,
    pub modified_at: String,
}

/// A device found in flashing mode by a flashing back end.
#[derive(Debug, Clone)]
pub struct FlashDevice {
    pub id: String,
    pub name: String,
    pub mode: String,
    pub detail: String,
}

/// A recorded serial log file.
#[derive(Debug, Clone)]
pub struct LogFileInfo {
    pub name: String,
    pub size: u64,
    pub modified_at: String,
}

/// A file or directory, on the host or on a device.
#[derive(Debug, Clone)]
pub struct HostEntry {
    pub name: String,
    pub path: String,
    pub is_dir: bool,
    pub size: u64,
    pub modified_at: String,
}

/// The view of a listed file: name, path, kind, size and time.
pub struct EntryView {
    pub name: Seq<char>,
    pub path: Seq<char>,
    pub is_dir: bool,
    pub size: u64,
    pub modified_at: Seq<char>,
}

impl View for HostEntry {
    type V = EntryView;

    open spec fn view(&self) -> EntryView {
        EntryView {
            name: self.name@,
            path: self.path@,
            is_dir: self.is_dir,
            size: self.size,
            modified_at: self.modified_at@,
        }
    }
}

/// The view of a listed file that has no path and no kind.
pub struct FileView {
    pub name: Seq<char>,
    pub size: u64,
    pub modified_at: Seq<char>,
}

impl View for FirmwareInfo {
    type V = FileView;

    open spec fn view(&self) -> FileView {
        FileView { name: self.name@, size: self.size, modified_at: self.modified_at@ }
    }
}

impl View for LogFileInfo {
    type V = FileView;

    open spec fn view(&self) -> FileView {
        FileView { name: self.name@, size: self.size, modified_at: self.modified_at@ }
    }
}

/// What the file system tells of a directory entry.
#[derive(Debug, Clone, Copy)]
pub struct FileMeta {
    pub is_dir: bool,
    pub is_file: bool,
    pub size: u64,
    /// Seconds since the Unix epoch of the last change, when known.
    pub modified_secs: Option<u64>,
}

/// A directory entry as read from the file system: its file name, its full
/// path, and its metadata when that could be read.
#[derive(Debug, Clone)]
pub struct DirItem {
    pub name: String,
    pub path: String,
    pub meta: Option<FileMeta>,
}

pub struct DirItemView {
    pub name: Seq<char>,
    pub path: Seq<char>,
    pub meta: Option<FileMeta>,
}

impl View for DirItem {
    type V = DirItemView;

    open spec fn view(&self) -> DirItemView {
        DirItemView { name: self.name@, path: self.path@, meta: self.meta }
    }
}

/// A window of quick commands that can be sent to a serial port.
#[derive(Debug, Clone)]
pub struct QuickCommandWindow {
    pub id: i64,
    pub name: String,
    pub commands: Vec<String>,
    pub interval_ms: u64,
    pub append_newline: bool,
    pub created_at: String,
    pub updated_at: String,
}

/// The editable part of a quick command window.
#[derive(Debug, Clone)]
pub struct QuickCommandInput {
    pub name: String,
    pub commands: Vec<String>,
    pub interval_ms: u64,
    pub append_newline: bool,
}

pub struct QuickWindowView {
    pub id: i64,
    pub name: Seq<char>,
    pub commands: Seq<Seq<char>>,
    pub interval_ms: u64,
    pub append_newline: bool,
    pub created_at: Seq<char>,
    pub updated_at: Seq<char>,
}

pub struct QuickInputView {
    pub name: Seq<char>,
    pub commands: Seq<Seq<char>>,
    pub interval_ms: u64,
    pub append_newline: bool,
}

impl View for QuickCommandWindow {
    type V = QuickWindowView;

    open spec fn view(&self) -> QuickWindowView {
        QuickWindowView {
            id: self.id,
            name: self.name@,
            commands: crate::text::views(self.commands@),
            interval_ms: self.interval_ms,
            append_newline: self.append_newline,
            created_at: self.created_at@,
            updated_at: self.updated_at@,
        }
    }
}

impl View for QuickCommandInput {
    type V = QuickInputView;

    open spec fn view(&self) -> QuickInputView {
        QuickInputView {
            name: self.name@,
            commands: crate::text::views(self.commands@),
            interval_ms: self.interval_ms,
            append_newline: self.append_newline,
        }
    }
}

impl Default for QuickCommandInput {
    /// An empty form: no name, no commands, interval 0, no newline.
    fn default() -> (res: Self)
        ensures
            res@ == (QuickInputView {
                name: Seq::empty(),
                commands: Seq::empty(),
                interval_ms: 0,
                append_newline: false,
            }),
    {
        let res = QuickCommandInput {
            name: String::new(),
            commands: Vec::new(),
            interval_ms: 0,
            append_newline: false,
        };
        assert(crate::text::views(res.commands@) =~= Seq::<Seq<char>>::empty());
        res
    }
}

/// The state of the reverse SSH tunnel.
#[derive(Debug, Clone)]
pub struct TunnelStatus {
    pub running: bool,
    pub pid: Option<u32>,
    pub command: String,
    pub started_at: Option<String>,
    pub last_error: Option<String>,
}

/// The state of the MCP server.
#[derive(Debug, Clone)]
pub struct McpServerStatus {
    pub running: bool,
    pub port: u16,
    pub token_required: bool,
    pub tools: Vec<String>,
    pub error: Option<String>,
}

/// The persisted settings of the workbench.
#[derive(Debug, Clone)]
pub struct Settings {
    pub log_enabled: bool,
    pub log_max_file_size: u64,
    pub log_max_days: u32,
    pub adb_path: String,
    pub host_root: String,
    pub host_shell_enabled: bool,
    pub mcp_enabled: bool,
    pub mcp_port: u16,
    pub mcp_token: String,
    pub tunnel_enabled: bool,
    pub tunnel_host: String,
    pub tunnel_ssh_port: u16,
    pub tunnel_user: String,
    pub tunnel_auth_method: String,
    pub tunnel_private_key: String,
    pub tunnel_password: String,
    pub tunnel_remote_bind: String,
    pub tunnel_remote_port: u16,
}

impl Default for Settings {
    /// Logging on with 16 MiB files kept 30 days, `adb` from the path, no host
    /// root, host shell, MCP server or tunnel; MCP on port 9847; the tunnel on
    /// SSH port 22 with key authentication, bound to 127.0.0.1, remote port 0.
    fn default() -> (res: Self)
        ensures
            res.log_enabled,
            res.log_max_file_size == 16 * 1024 * 1024,
            res.log_max_days == 30,
            res.adb_path@ == "adb"@,
            res.host_root@ == Seq::<char>::empty(),
            !res.host_shell_enabled,
            !res.mcp_enabled,
            res.mcp_port == 9847,
            res.mcp_token@ == Seq::<char>::empty(),
            !res.tunnel_enabled,
            res.tunnel_host@ == Seq::<char>::empty(),
            res.tunnel_ssh_port == 22,
            res.tunnel_user@ == Seq::<char>::empty(),
            res.tunnel_auth_method@ == "key"@,
            res.tunnel_private_key@ == Seq::<char>::empty(),
            res.tunnel_password@ == Seq::<char>::empty(),
            res.tunnel_remote_bind@ == "127.0.0.1"@,
            res.tunnel_remote_port == 0,
    {
        Settings {
            log_enabled: true,
            log_max_file_size: 16 * 1024 * 1024,
            log_max_days: 30,
            adb_path: crate::text::owned("adb"),
            host_root: String::new(),
            host_shell_enabled: false,
            mcp_enabled: false,
            mcp_port: 9847,
            mcp_token: String::new(),
            tunnel_enabled: false,
            tunnel_host: String::new(),
            tunnel_ssh_port: 22,
            tunnel_user: String::new(),
            tunnel_auth_method: crate::text::owned("key"),
            tunnel_private_key: String::new(),
            tunnel_password: String::new(),
            tunnel_remote_bind: crate::text::owned("127.0.0.1"),
            tunnel_remote_port: 0,
        }
    }
}

} // verus!
