//! Firmware workspaces (one directory per device) and the flashing service.
use vstd::prelude::*;
use crate::models::{DirItem, DirItemView, FileView, FirmwareInfo, FlashDevice};
use crate::order::{
    Ranked, is_ranked, lemma_filter_map_keeps, lemma_ranked_contains, lemma_ranked_is_ranked,
    lemma_ranked_same_items,
    lemma_text_lt_irreflexive, lemma_text_lt_transitive, order_of, ranked, seq_view, sort_ranked,
    strict_order, text_less, text_lt,
};
use crate::path::{components, is_single_name, join_path, lemma_join_single_name, path_join, path_within};
use crate::text::{append_str, decimal, owned, push_decimal};
use crate::util::{is_name_char, sanitize, sanitized, time_string, time_text};

verus! {

/// The firmware images uploaded for each device, under one directory.
pub struct FirmwareService {
    pub dir: String,
}

impl Ranked for FirmwareInfo {
    /// Firmware images are listed by name, last name first.
    open spec fn goes_before(a: FileView, b: FileView) -> bool {
        text_lt(b.name, a.name)
    }

    fn precedes(&self, other: &Self) -> (res: bool) {
        text_less(other.name.as_str(), self.name.as_str())
    }
}

/// The listing entry for a directory entry that is a regular file.
pub open spec fn firmware_entry(it: DirItemView) -> Option<FileView> {
    match it.meta {
        Some(m) => if m.is_file {
            Some(FileView { name: it.name, size: m.size, modified_at: time_text(m.modified_secs) })
        } else {
            None
        },
        None => None,
    }
}

/// The regular files among the directory entries, in the order found.
pub open spec fn firmware_entries(items: Seq<DirItemView>) -> Seq<FileView> {
    items.filter_map(|it: DirItemView| firmware_entry(it))
}

/// The workspace directory of the device with serial `serial`.
pub open spec fn device_dir_of(dir: Seq<char>, serial: Seq<char>) -> Seq<char> {
    join_path(dir, sanitized(serial))
}

impl FirmwareService {
    pub fn new(dir: String) -> (res: Self)
        ensures
            res.dir@ == dir@,
    {
        FirmwareService { dir }
    }

    /// The workspace directory of a device: its serial, made a safe name, under `dir`.
    pub fn device_dir(&self, serial: &str) -> (res: String)
        ensures
            res@ == device_dir_of(self.dir@, serial@),
    {
        let s = sanitize(serial);
        path_join(self.dir.as_str(), s.as_str())
    }

    /// Where image `name` of a device is kept.
    pub fn path(&self, serial: &str, name: &str) -> (res: String)
        ensures
            res@ == join_path(device_dir_of(self.dir@, serial@), name@),
    {
        let d = self.device_dir(serial);
        path_join(d.as_str(), name)
    }

    /// The images among the entries of a workspace directory, last name first.
    pub fn list(&self, items: Vec<DirItem>) -> (res: Vec<FirmwareInfo>)
        ensures
            seq_view(res@) == ranked(firmware_entries(seq_view(items@)), order_of::<FirmwareInfo>()),
    {
        let mut found: Vec<FirmwareInfo> = Vec::new();
        let mut i: usize = 0;
        while i < items.len()
            invariant
                i <= items.len(),
                seq_view(found@) == firmware_entries(seq_view(items@).take(i as int)),
            decreases items.len() - i,
        {
            let it = &items[i];
            assert(seq_view(items@).take(i + 1).drop_last() =~= seq_view(items@).take(i as int));
            assert(seq_view(items@).take(i + 1).last() == it@);
            match it.meta {
                Some(m) => {
                    if m.is_file {
                        let info = FirmwareInfo {
                            name: it.name.clone(),
                            size: m.size,
                            modified_at: time_string(m.modified_secs),
                        };
                        let ghost old_found = found@;
                        found.push(info);
                        assert(seq_view(found@) =~= seq_view(old_found).push(info@));
                    }
                },
                None => {},
            }
            i += 1;
        }
        assert(seq_view(items@).take(items.len() as int) =~= seq_view(items@));
        sort_ranked(found)
    }
}

/// A device's workspace is one directory directly under the firmware
/// directory, whatever characters a non-empty serial holds: its path is the
/// directory's components and then one more, the serial made a safe name.
pub proof fn lemma_workspace_is_one_level(dir: Seq<char>, serial: Seq<char>)
    requires
        serial.len() > 0,
    ensures
        is_single_name(sanitized(serial)),
        components(device_dir_of(dir, serial)) == components(dir).push(sanitized(serial)),
        path_within(device_dir_of(dir, serial), dir),
{
    let s = sanitized(serial);
    assert(is_name_char(s[0]));
    if s.len() == 1 {
        assert(s != seq!['.']) by {
            assert(s[0] != seq!['.'][0]);
        }
    }
    if s.len() == 2 {
        assert(s != seq!['.', '.']) by {
            assert(s[0] != seq!['.', '.'][0]);
        }
    }
    if s.len() >= 2 {
        assert(is_name_char(s[1]));
    }
    lemma_join_single_name(dir, s);
}

/// Firmware listings go by name, last first, and that is a strict order.
pub proof fn lemma_firmware_order_strict()
    ensures
        strict_order(order_of::<FirmwareInfo>()),
{
    let before = order_of::<FirmwareInfo>();
    assert forall|a: FileView| !#[trigger] before(a, a) by {
        lemma_text_lt_irreflexive(a.name);
    }
    assert forall|a: FileView, b: FileView, c: FileView|
        #[trigger] before(a, b) && #[trigger] before(b, c) implies before(a, c) by {
        lemma_text_lt_transitive(c.name, b.name, a.name);
    }
}

/// A firmware listing holds exactly the regular files found, in name order,
/// last name first.
pub proof fn lemma_firmware_listing(items: Seq<DirItemView>)
    ensures
        ranked(firmware_entries(items), order_of::<FirmwareInfo>()).to_multiset()
            == firmware_entries(items).to_multiset(),
        is_ranked(
            ranked(firmware_entries(items), order_of::<FirmwareInfo>()),
            order_of::<FirmwareInfo>(),
        ),
{
    lemma_firmware_order_strict();
    lemma_ranked_same_items(firmware_entries(items), order_of::<FirmwareInfo>());
    lemma_ranked_is_ranked(firmware_entries(items), order_of::<FirmwareInfo>());
}

/// A firmware listing shows exactly the regular files found in the
/// workspace, each with its own name, the size and the modification time of
/// its metadata: every listed image is such a file, and every such file is
/// listed. Directories and entries whose metadata could not be read are not.
pub proof fn lemma_firmware_listing_shows_files(items: Seq<DirItemView>)
    ensures
        ({
            let res = ranked(firmware_entries(items), order_of::<FirmwareInfo>());
            &&& forall|i: int|
                0 <= i < res.len() ==> exists|j: int|
                    0 <= j < items.len() && shows_file(#[trigger] res[i], #[trigger] items[j])
            &&& forall|j: int|
                0 <= j < items.len() && (#[trigger] items[j]).meta is Some
                    && items[j].meta->Some_0.is_file ==> exists|i: int|
                    0 <= i < res.len() && shows_file(#[trigger] res[i], items[j])
        }),
{
    let before = order_of::<FirmwareInfo>();
    let fe = firmware_entries(items);
    let res = ranked(fe, before);
    assert forall|i: int| 0 <= i < res.len() implies exists|j: int|
        0 <= j < items.len() && shows_file(#[trigger] res[i], #[trigger] items[j]) by {
        let x = res[i];
        assert(res.contains(x));
        lemma_ranked_contains(fe, before, x);
        items.lemma_filter_map_contains(|it: DirItemView| firmware_entry(it), x);
        let t = choose|t: DirItemView| items.contains(t) && firmware_entry(t) == Some(x);
        let j = choose|j: int| 0 <= j < items.len() && items[j] == t;
        assert(shows_file(x, items[j]));
    }
    assert forall|j: int|
        0 <= j < items.len() && (#[trigger] items[j]).meta is Some
            && items[j].meta->Some_0.is_file implies exists|i: int|
        0 <= i < res.len() && shows_file(#[trigger] res[i], items[j]) by {
        lemma_filter_map_keeps(items, |it: DirItemView| firmware_entry(it), j);
        let x = firmware_entry(items[j])->Some_0;
        assert(fe.contains(x));
        lemma_ranked_contains(fe, before, x);
        let i = choose|i: int| 0 <= i < res.len() && res[i] == x;
        assert(shows_file(res[i], items[j]));
    }
}

/// Listing entry `e` shows directory entry `it` as a regular file: `it` is
/// one, and `e` has its name and the size and time of its metadata.
pub open spec fn shows_file(e: FileView, it: DirItemView) -> bool {
    &&& it.meta is Some
    &&& it.meta->Some_0.is_file
    &&& e.name == it.name
    &&& e.size == it.meta->Some_0.size
    &&& e.modified_at == time_text(it.meta->Some_0.modified_secs)
}

/// A flashing back end: finds the devices that are in flashing mode.
/// Implementations say which lists a scan of theirs may report (a scan reads
/// the hardware, so two scans need not agree), and every scan reports one.
pub trait FlashBackend: Send + Sync {
    /// `devices` is a list this back end may report from a scan.
    spec fn may_report(&self, devices: Seq<FlashDevice>) -> bool;

    fn name(&self) -> &'static str;

    fn scan(&self) -> (res: Vec<FlashDevice>)
        ensures
            self.may_report(res@),
    ;
}

/// Flashing: the firmware workspaces and, once one is installed, a back end.
pub struct FlashService {
    pub firmware: FirmwareService,
    pub backend: Option<Box<dyn FlashBackend>>,
}

impl FlashService {
    /// A service over the workspaces under `firmware_dir`, with no back end.
    pub fn new(firmware_dir: String) -> (res: Self)
        ensures
            res.firmware.dir@ == firmware_dir@,
            res.backend is None,
    {
        FlashService { firmware: FirmwareService::new(firmware_dir), backend: None }
    }

    /// The devices in flashing mode, as the back end's scan reports them;
    /// none without a back end.
    pub fn scan(&self) -> (res: Vec<FlashDevice>)
        ensures
            self.backend is None ==> res@.len() == 0,
            self.backend matches Some(b) ==> b.may_report(res@),
    {
        match &self.backend {
            Some(b) => b.scan(),
            None => Vec::new(),
        }
    }
}

/// The phases of a flashing run, each with the progress in percent it reaches.
pub open spec fn flash_phases() -> Seq<(Seq<char>, u32)> {
    seq![
        ("初始化烧录引擎"@, 5u32),
        ("连接 FES 设备"@, 20u32),
        ("发送固件头"@, 35u32),
        ("写入固件数据"@, 75u32),
        ("校验固件"@, 95u32),
    ]
}

/// The message shown when a phase is reached: `phase（N%）`.
pub open spec fn phase_message(phase: Seq<char>, percent: u32) -> Seq<char> {
    phase + "（"@ + decimal(percent as nat) + "%）"@
}

/// Where a flashing run stands.
pub enum FlashProgress {
    /// Phase `name` is reached, at `percent`, with `message` shown.
    Phase { name: String, percent: u32, message: String },
    /// Every phase has passed.
    Done,
}

fn reached(name: &str, percent: u32) -> (res: FlashProgress)
    ensures
        res matches FlashProgress::Phase { name: n, percent: p, message: m } && n@ == name@ && p
            == percent && m@ == phase_message(name@, percent),
{
    let mut message = owned(name);
    append_str(&mut message, "（");
    push_decimal(&mut message, percent as u64);
    append_str(&mut message, "%）");
    FlashProgress::Phase { name: owned(name), percent, message }
}

/// The state of a flashing run once `step` phases have been entered before
/// this one: the phase it enters now, or `Done` after the last.
pub fn flash_progress(step: usize) -> (res: FlashProgress)
    ensures
        step < flash_phases().len() ==> (res matches FlashProgress::Phase {
            name,
            percent,
            message,
        } && name@ == flash_phases()[step as int].0 && percent == flash_phases()[step as int].1
            && message@ == phase_message(name@, percent)),
        step >= flash_phases().len() ==> res is Done,
{
    if step == 0 {
        reached("初始化烧录引擎", 5)
    } else if step == 1 {
        reached("连接 FES 设备", 20)
    } else if step == 2 {
        reached("发送固件头", 35)
    } else if step == 3 {
        reached("写入固件数据", 75)
    } else if step == 4 {
        reached("校验固件", 95)
    } else {
        FlashProgress::Done
    }
}

/// The message that opens a flashing run of image `name`.
pub fn flash_start_message(name: &str) -> (res: String)
    ensures
        res@ == "开始烧录 "@ + name@,
{
    let mut m = owned("开始烧录 ");
    append_str(&mut m, name);
    m
}

} // verus!
