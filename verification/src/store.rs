//! The workbench's lists and how they change: devices and quick command
//! windows are added, edited and removed by id; settings changes report
//! what failed.
use vstd::prelude::*;
use crate::models::{
    Device, DeviceInput, DeviceInputView, DeviceView, QuickCommandInput, QuickCommandWindow,
    QuickInputView, QuickWindowView,
};
use crate::order::seq_view;
use crate::path::{join_path, path_join};
use crate::text::{
    append_str, is_blank, join, join_strings, lemma_views_push, lines, lines_of, owned,
    parse_u64, parse_u64_spec, trim, trimmed, views, opt_view,
};

verus! {

/// The pages of the workbench.
#[derive(Debug, Clone, Copy, PartialEq, Eq, Structural)]
pub enum Page {
    Devices,
    Serial,
    Logs,
    Firmware,
    Adb,
    Host,
    Quick,
    Settings,
}

// ---------------------------------------------------------------------------
// Ids
// ---------------------------------------------------------------------------

/// The largest of the ids, or 0 when there are none.
pub open spec fn max_id(ids: Seq<i64>) -> int
    decreases ids.len(),
{
    if ids.len() == 0 {
        0
    } else if ids.len() == 1 {
        ids[0] as int
    } else {
        let m = max_id(ids.drop_last());
        if ids.last() > m {
            ids.last() as int
        } else {
            m
        }
    }
}

/// Every id is at most `max_id`, and (when there is one) `max_id` is one of them.
pub proof fn lemma_max_id(ids: Seq<i64>)
    ensures
        forall|i: int| 0 <= i < ids.len() ==> ids[i] <= max_id(ids),
        ids.len() > 0 ==> exists|i: int| 0 <= i < ids.len() && ids[i] == max_id(ids),
    decreases ids.len(),
{
    if ids.len() > 1 {
        lemma_max_id(ids.drop_last());
        let m = max_id(ids.drop_last());
        assert forall|i: int| 0 <= i < ids.len() implies ids[i] <= max_id(ids) by {
            if i < ids.len() - 1 {
                assert(ids[i] == ids.drop_last()[i]);
            }
        }
        if ids.last() <= m {
            let k = choose|k: int| 0 <= k < ids.len() - 1 && ids.drop_last()[k] == m;
            assert(ids[k] == max_id(ids));
        } else {
            assert(ids[ids.len() - 1] == max_id(ids));
        }
    } else if ids.len() == 1 {
        assert(ids[0] == max_id(ids));
    }
}

/// The largest id, or 0 when there are none.
fn largest_id(ids: &Vec<i64>) -> (res: i64)
    ensures
        res as int == max_id(ids@),
{
    let mut m: i64 = 0;
    let mut i: usize = 0;
    while i < ids.len()
        invariant
            i <= ids.len(),
            m as int == max_id(ids@.take(i as int)),
        decreases ids.len() - i,
    {
        assert(ids@.take(i + 1).drop_last() =~= ids@.take(i as int));
        if i == 0 || ids[i] > m {
            m = ids[i];
        }
        i += 1;
    }
    assert(ids@.take(ids.len() as int) =~= ids@);
    m
}

// ---------------------------------------------------------------------------
// Devices
// ---------------------------------------------------------------------------

pub open spec fn device_ids(ds: Seq<DeviceView>) -> Seq<i64> {
    ds.map_values(|d: DeviceView| d.id)
}

/// The index of the first device with id `id`, if any.
pub open spec fn first_with_id(ds: Seq<DeviceView>, id: i64) -> Option<int>
    decreases ds.len(),
{
    if ds.len() == 0 {
        None
    } else if ds[0].id == id {
        Some(0)
    } else {
        match first_with_id(ds.drop_first(), id) {
            Some(k) => Some(k + 1),
            None => None,
        }
    }
}

pub proof fn lemma_first_with_id(ds: Seq<DeviceView>, id: i64)
    ensures
        match first_with_id(ds, id) {
            Some(k) => 0 <= k < ds.len() && ds[k].id == id && forall|j: int|
                0 <= j < k ==> ds[j].id != id,
            None => forall|j: int| 0 <= j < ds.len() ==> ds[j].id != id,
        },
    decreases ds.len(),
{
    if ds.len() > 0 {
        lemma_first_with_id(ds.drop_first(), id);
        assert forall|j: int| 1 <= j < ds.len() implies ds[j] == ds.drop_first()[j - 1] by {}
    }
}

/// A new device made from the form: not connected, created and updated `now`.
pub open spec fn new_device(id: i64, d: DeviceInputView, now: Seq<char>) -> DeviceView {
    DeviceView {
        id: id,
        name: d.name,
        address: d.address,
        serial: d.serial,
        username: d.username,
        auth_method: d.auth_method,
        password: d.password,
        private_key_path: d.private_key_path,
        os_type: d.os_type,
        serial_port: d.serial_port,
        baud_rate: d.baud_rate,
        remark: d.remark,
        connected: false,
        created_at: now,
        updated_at: now,
    }
}

/// A device with its editable part taken from the form and updated `now`.
pub open spec fn edited_device(old: DeviceView, d: DeviceInputView, now: Seq<char>) -> DeviceView {
    DeviceView {
        id: old.id,
        name: d.name,
        address: d.address,
        serial: d.serial,
        username: d.username,
        auth_method: d.auth_method,
        password: d.password,
        private_key_path: d.private_key_path,
        os_type: d.os_type,
        serial_port: d.serial_port,
        baud_rate: d.baud_rate,
        remark: d.remark,
        connected: old.connected,
        created_at: old.created_at,
        updated_at: now,
    }
}

/// What saving the device form does to the list: a new device is added at
/// the end with the next id (one more than the largest); an edited device is
/// replaced in place (the first with its id); an id that is gone changes nothing.
pub open spec fn saved_devices(
    ds: Seq<DeviceView>,
    edit_id: Option<i64>,
    d: DeviceInputView,
    now: Seq<char>,
) -> Seq<DeviceView> {
    match edit_id {
        None => ds.push(new_device((max_id(device_ids(ds)) + 1) as i64, d, now)),
        Some(id) => match first_with_id(ds, id) {
            Some(k) => ds.update(k, edited_device(ds[k], d, now)),
            None => ds,
        },
    }
}

/// Saves the device form: adds a device, or edits the device with `edit_id`.
pub fn save_device(devices: &mut Vec<Device>, edit_id: Option<i64>, draft: DeviceInput, now: &str)
    requires
        edit_id is None ==> max_id(device_ids(seq_view(old(devices)@))) < i64::MAX,
    ensures
        seq_view(final(devices)@) == saved_devices(
            seq_view(old(devices)@),
            edit_id,
            draft@,
            now@,
        ),
{
    let ghost before = seq_view(devices@);
    match edit_id {
        None => {
            let mut ids: Vec<i64> = Vec::new();
            let mut i: usize = 0;
            while i < devices.len()
                invariant
                    i <= devices.len(),
                    before == seq_view(devices@),
                    ids@ == device_ids(before).take(i as int),
                decreases devices.len() - i,
            {
                ids.push(devices[i].id);
                assert(device_ids(before).take(i + 1) =~= device_ids(before).take(i as int).push(
                    before[i as int].id,
                ));
                i += 1;
            }
            assert(device_ids(before).take(devices.len() as int) =~= device_ids(before));
            let next = largest_id(&ids) + 1;
            let d = Device {
                id: next,
                name: draft.name,
                address: draft.address,
                serial: draft.serial,
                username: draft.username,
                auth_method: draft.auth_method,
                password: draft.password,
                private_key_path: draft.private_key_path,
                os_type: draft.os_type,
                serial_port: draft.serial_port,
                baud_rate: draft.baud_rate,
                remark: draft.remark,
                connected: false,
                created_at: owned(now),
                updated_at: owned(now),
            };
            devices.push(d);
            assert(seq_view(devices@) =~= before.push(d@));
        },
        Some(id) => {
            proof {
                lemma_first_with_id(before, id);
            }
            let mut k: usize = 0;
            while k < devices.len() && devices[k].id != id
                invariant
                    k <= devices.len(),
                    before == seq_view(devices@),
                    forall|j: int| 0 <= j < k ==> before[j].id != id,
                decreases devices.len() - k,
            {
                assert(before[k as int] == devices@[k as int]@);
                k += 1;
            }
            if k == devices.len() {
                return;
            }
            assert(before[k as int] == devices@[k as int]@);
            assert(first_with_id(before, id) == Some(k as int)) by {
                lemma_first_with_id(before, id);
                match first_with_id(before, id) {
                    Some(f) => {
                        if f < k {
                        } else if f > k {
                        }
                    },
                    None => {},
                }
            }
            let old = devices.remove(k);
            let d = Device {
                id: old.id,
                name: draft.name,
                address: draft.address,
                serial: draft.serial,
                username: draft.username,
                auth_method: draft.auth_method,
                password: draft.password,
                private_key_path: draft.private_key_path,
                os_type: draft.os_type,
                serial_port: draft.serial_port,
                baud_rate: draft.baud_rate,
                remark: draft.remark,
                connected: old.connected,
                created_at: old.created_at,
                updated_at: owned(now),
            };
            devices.insert(k, d);
            assert(seq_view(devices@) =~= before.update(k as int, d@));
        },
    }
}

/// A new device gets an id that no listed device has: larger than every one.
pub proof fn lemma_new_device_id_is_fresh(
    ds: Seq<DeviceView>,
    d: DeviceInputView,
    now: Seq<char>,
)
    requires
        max_id(device_ids(ds)) < i64::MAX,
    ensures
        ({
            let after = saved_devices(ds, None, d, now);
            &&& after.len() == ds.len() + 1
            &&& after.take(ds.len() as int) == ds
            &&& forall|i: int| 0 <= i < ds.len() ==> ds[i].id < after.last().id
        }),
{
    lemma_max_id(device_ids(ds));
    let after = saved_devices(ds, None, d, now);
    assert(after.take(ds.len() as int) =~= ds);
    assert forall|i: int| 0 <= i < ds.len() implies ds[i].id < after.last().id by {
        assert(device_ids(ds)[i] == ds[i].id);
    }
}

/// Saving keeps ids unique when they were: a new id is fresh, an edit keeps the id.
pub proof fn lemma_save_keeps_ids_unique(
    ds: Seq<DeviceView>,
    edit_id: Option<i64>,
    d: DeviceInputView,
    now: Seq<char>,
)
    requires
        edit_id is None ==> max_id(device_ids(ds)) < i64::MAX,
        forall|i: int, j: int| 0 <= i < j < ds.len() ==> ds[i].id != ds[j].id,
    ensures
        ({
            let after = saved_devices(ds, edit_id, d, now);
            forall|i: int, j: int| 0 <= i < j < after.len() ==> after[i].id != after[j].id
        }),
{
    let after = saved_devices(ds, edit_id, d, now);
    match edit_id {
        None => {
            lemma_new_device_id_is_fresh(ds, d, now);
            assert forall|i: int, j: int| 0 <= i < j < after.len() implies after[i].id
                != after[j].id by {
                if j == ds.len() {
                    assert(after[i] == ds[i]);
                } else {
                    assert(after[i] == ds[i] && after[j] == ds[j]);
                }
            }
        },
        Some(id) => {
            lemma_first_with_id(ds, id);
        },
    }
}

/// What removing the device with `id` leaves: every other device, in order.
pub open spec fn without_id(ds: Seq<DeviceView>, id: i64) -> Seq<DeviceView> {
    ds.filter(|x: DeviceView| x.id != id)
}

/// Removes every device with id `id`.
pub fn remove_device(devices: &mut Vec<Device>, id: i64)
    ensures
        seq_view(final(devices)@) == without_id(seq_view(old(devices)@), id),
{
    let ghost before = seq_view(devices@);
    let mut kept: Vec<Device> = Vec::new();
    let mut i: usize = 0;
    let total = devices.len();
    assert(seq_view(devices@) =~= before.skip(0));
    while devices.len() > 0
        invariant
            i + devices.len() == total,
            total == before.len(),
            seq_view(devices@) == before.skip(i as int),
            seq_view(kept@) == without_id(before.take(i as int), id),
        decreases devices.len(),
    {
        let ghost rest = devices@;
        let d = devices.remove(0);
        assert(d@ == before[i as int]) by {
            assert(seq_view(rest)[0] == rest[0]@);
        }
        assert(before.take(i + 1).drop_last() =~= before.take(i as int));
        assert(seq_view(devices@) =~= before.skip(i + 1)) by {
            assert forall|k: int| 0 <= k < devices@.len() implies seq_view(devices@)[k]
                == before.skip(i + 1)[k] by {
                assert(seq_view(rest)[k + 1] == rest[k + 1]@);
            }
        }
        proof {
            reveal(Seq::filter);
        }
        if d.id != id {
            let ghost old_kept = kept@;
            kept.push(d);
            assert(seq_view(kept@) =~= seq_view(old_kept).push(before[i as int]));
        }
        i += 1;
    }
    assert(before.take(i as int) =~= before);
    *devices = kept;
}

// ---------------------------------------------------------------------------
// Quick command windows
// ---------------------------------------------------------------------------

/// The commands typed in the editor: one per line, trimmed, blank lines dropped.
pub open spec fn command_lines(text: Seq<char>) -> Seq<Seq<char>> {
    lines(text).map_values(|l: Seq<char>| trim(l)).filter(|l: Seq<char>| l.len() > 0)
}

/// The commands typed in the editor.
pub fn commands_from_text(text: &str) -> (res: Vec<String>)
    ensures
        views(res@) == command_lines(text@),
{
    let ls = lines_of(text);
    let ghost all = lines(text@).map_values(|l: Seq<char>| trim(l));
    let mut res: Vec<String> = Vec::new();
    let mut i: usize = 0;
    while i < ls.len()
        invariant
            i <= ls.len(),
            views(ls@) == lines(text@),
            all == lines(text@).map_values(|l: Seq<char>| trim(l)),
            views(res@) == all.take(i as int).filter(|l: Seq<char>| l.len() > 0),
        decreases ls.len() - i,
    {
        proof {
            reveal(Seq::filter);
        }
        assert(all.take(i + 1).drop_last() =~= all.take(i as int));
        assert(all[i as int] == trim(ls@[i as int]@));
        let t = trimmed(ls[i].as_str());
        if !t.as_str().is_empty() {
            proof {
                lemma_views_push(res@, t);
            }
            res.push(t);
        }
        i += 1;
    }
    assert(all.take(ls.len() as int) =~= all);
    res
}

/// The quick command form read: the name (trimmed, not blank), the commands,
/// the interval in ms (0 when not a number) and whether to add a newline.
pub fn quick_input(name: &str, commands: &str, interval_ms: &str, append_newline: bool) -> (res:
    Result<QuickCommandInput, String>)
    ensures
        res is Ok <==> trim(name@).len() != 0,
        res matches Ok(q) ==> q@ == (QuickInputView {
            name: trim(name@),
            commands: command_lines(commands@),
            interval_ms: match parse_u64_spec(interval_ms@) {
                Some(n) => n,
                None => 0,
            },
            append_newline: append_newline,
        }),
        res matches Err(e) ==> e@ == "请填写窗口名称"@,
{
    if is_blank(name) {
        return Err(owned("请填写窗口名称"));
    }
    let interval = match parse_u64(interval_ms) {
        Some(n) => n,
        None => 0,
    };
    Ok(
        QuickCommandInput {
            name: trimmed(name),
            commands: commands_from_text(commands),
            interval_ms: interval,
            append_newline,
        },
    )
}

pub open spec fn window_ids(ws: Seq<QuickWindowView>) -> Seq<i64> {
    ws.map_values(|w: QuickWindowView| w.id)
}

/// The index of the first window with id `id`, if any.
pub open spec fn first_window_with_id(ws: Seq<QuickWindowView>, id: i64) -> Option<int>
    decreases ws.len(),
{
    if ws.len() == 0 {
        None
    } else if ws[0].id == id {
        Some(0)
    } else {
        match first_window_with_id(ws.drop_first(), id) {
            Some(k) => Some(k + 1),
            None => None,
        }
    }
}

proof fn lemma_first_window_with_id(ws: Seq<QuickWindowView>, id: i64)
    ensures
        match first_window_with_id(ws, id) {
            Some(k) => 0 <= k < ws.len() && ws[k].id == id && forall|j: int|
                0 <= j < k ==> ws[j].id != id,
            None => forall|j: int| 0 <= j < ws.len() ==> ws[j].id != id,
        },
    decreases ws.len(),
{
    if ws.len() > 0 {
        lemma_first_window_with_id(ws.drop_first(), id);
        assert forall|j: int| 1 <= j < ws.len() implies ws[j] == ws.drop_first()[j - 1] by {}
    }
}

/// What saving the quick command form does to the windows: as for devices, a
/// new window gets the next id and goes last; an edited one is replaced in place.
pub open spec fn saved_windows(
    ws: Seq<QuickWindowView>,
    edit_id: Option<i64>,
    q: QuickInputView,
    now: Seq<char>,
) -> Seq<QuickWindowView> {
    match edit_id {
        None => ws.push(
            QuickWindowView {
                id: (max_id(window_ids(ws)) + 1) as i64,
                name: q.name,
                commands: q.commands,
                interval_ms: q.interval_ms,
                append_newline: q.append_newline,
                created_at: now,
                updated_at: now,
            },
        ),
        Some(id) => match first_window_with_id(ws, id) {
            Some(k) => ws.update(
                k,
                QuickWindowView {
                    id: ws[k].id,
                    name: q.name,
                    commands: q.commands,
                    interval_ms: q.interval_ms,
                    append_newline: q.append_newline,
                    created_at: ws[k].created_at,
                    updated_at: now,
                },
            ),
            None => ws,
        },
    }
}

/// Saves the quick command form: adds a window, or edits the window with `edit_id`.
pub fn save_window(
    windows: &mut Vec<QuickCommandWindow>,
    edit_id: Option<i64>,
    input: QuickCommandInput,
    now: &str,
)
    requires
        edit_id is None ==> max_id(window_ids(seq_view(old(windows)@))) < i64::MAX,
    ensures
        seq_view(final(windows)@) == saved_windows(
            seq_view(old(windows)@),
            edit_id,
            input@,
            now@,
        ),
{
    let ghost before = seq_view(windows@);
    match edit_id {
        None => {
            let mut ids: Vec<i64> = Vec::new();
            let mut i: usize = 0;
            while i < windows.len()
                invariant
                    i <= windows.len(),
                    before == seq_view(windows@),
                    ids@ == window_ids(before).take(i as int),
                decreases windows.len() - i,
            {
                ids.push(windows[i].id);
                assert(window_ids(before).take(i + 1) =~= window_ids(before).take(i as int).push(
                    before[i as int].id,
                ));
                i += 1;
            }
            assert(window_ids(before).take(windows.len() as int) =~= window_ids(before));
            let next = largest_id(&ids) + 1;
            let w = QuickCommandWindow {
                id: next,
                name: input.name,
                commands: input.commands,
                interval_ms: input.interval_ms,
                append_newline: input.append_newline,
                created_at: owned(now),
                updated_at: owned(now),
            };
            windows.push(w);
            assert(seq_view(windows@) =~= before.push(w@));
        },
        Some(id) => {
            proof {
                lemma_first_window_with_id(before, id);
            }
            let mut k: usize = 0;
            while k < windows.len() && windows[k].id != id
                invariant
                    k <= windows.len(),
                    before == seq_view(windows@),
                    forall|j: int| 0 <= j < k ==> before[j].id != id,
                decreases windows.len() - k,
            {
                assert(before[k as int] == windows@[k as int]@);
                k += 1;
            }
            if k == windows.len() {
                return;
            }
            assert(before[k as int] == windows@[k as int]@);
            assert(first_window_with_id(before, id) == Some(k as int)) by {
                lemma_first_window_with_id(before, id);
            }
            let old = windows.remove(k);
            let w = QuickCommandWindow {
                id: old.id,
                name: input.name,
                commands: input.commands,
                interval_ms: input.interval_ms,
                append_newline: input.append_newline,
                created_at: old.created_at,
                updated_at: owned(now),
            };
            windows.insert(k, w);
            assert(seq_view(windows@) =~= before.update(k as int, w@));
        },
    }
}

/// Removes every window with id `id`.
pub fn remove_window(windows: &mut Vec<QuickCommandWindow>, id: i64)
    ensures
        seq_view(final(windows)@) == seq_view(old(windows)@).filter(
            |x: QuickWindowView| x.id != id,
        ),
{
    let ghost before = seq_view(windows@);
    let mut kept: Vec<QuickCommandWindow> = Vec::new();
    let mut i: usize = 0;
    let total = windows.len();
    assert(seq_view(windows@) =~= before.skip(0));
    while windows.len() > 0
        invariant
            i + windows.len() == total,
            total == before.len(),
            seq_view(windows@) == before.skip(i as int),
            seq_view(kept@) == before.take(i as int).filter(|x: QuickWindowView| x.id != id),
        decreases windows.len(),
    {
        let ghost rest = windows@;
        let w = windows.remove(0);
        assert(w@ == before[i as int]) by {
            assert(seq_view(rest)[0] == rest[0]@);
        }
        assert(before.take(i + 1).drop_last() =~= before.take(i as int));
        assert(seq_view(windows@) =~= before.skip(i + 1)) by {
            assert forall|k: int| 0 <= k < windows@.len() implies seq_view(windows@)[k]
                == before.skip(i + 1)[k] by {
                assert(seq_view(rest)[k + 1] == rest[k + 1]@);
            }
        }
        proof {
            reveal(Seq::filter);
        }
        if w.id != id {
            let ghost old_kept = kept@;
            kept.push(w);
            assert(seq_view(kept@) =~= seq_view(old_kept).push(before[i as int]));
        }
        i += 1;
    }
    assert(before.take(i as int) =~= before);
    *windows = kept;
}

// ---------------------------------------------------------------------------
// Applying settings
// ---------------------------------------------------------------------------

/// The errors of applying settings, each labelled with what failed.
pub open spec fn apply_errors(tunnel: Option<Seq<char>>, mcp: Option<Seq<char>>) -> Seq<Seq<char>> {
    (match tunnel {
        Some(e) => seq!["隧道："@ + e],
        None => Seq::empty(),
    }) + (match mcp {
        Some(e) => seq!["MCP："@ + e],
        None => Seq::empty(),
    })
}

/// The outcome of applying settings: success when the tunnel and the MCP
/// server both started (or were not wanted), else the labelled errors
/// joined by `；`.
pub fn apply_outcome(tunnel: Option<String>, mcp: Option<String>) -> (res: Result<(), String>)
    ensures
        ({
            let errs = apply_errors(opt_view(tunnel), opt_view(mcp));
            &&& res is Ok <==> errs.len() == 0
            &&& res matches Err(e) ==> e@ == join(errs, "；"@)
        }),
{
    let mut errs: Vec<String> = Vec::new();
    let ghost t = opt_view(tunnel);
    let ghost m = opt_view(mcp);
    match tunnel {
        Some(e) => {
            let mut s = owned("隧道：");
            append_str(&mut s, e.as_str());
            proof {
                lemma_views_push(errs@, s);
            }
            errs.push(s);
        },
        None => {},
    }
    let ghost first = views(errs@);
    match mcp {
        Some(e) => {
            let mut s = owned("MCP：");
            append_str(&mut s, e.as_str());
            proof {
                lemma_views_push(errs@, s);
            }
            errs.push(s);
        },
        None => {},
    }
    assert(views(errs@) =~= apply_errors(t, m));
    if errs.len() == 0 {
        Ok(())
    } else {
        Err(join_strings(&errs, "；"))
    }
}

// ---------------------------------------------------------------------------
// What saving a form does to the record
// ---------------------------------------------------------------------------

/// A device added from the form holds every field of the form, is not
/// connected, and was created and updated `now`.
pub proof fn lemma_added_device_is_the_form(ds: Seq<DeviceView>, d: DeviceInputView, now: Seq<char>)
    ensures
        ({
            let r = saved_devices(ds, None, d, now);
            let n = r.last();
            &&& r.len() == ds.len() + 1
            &&& n.name == d.name && n.address == d.address && n.serial == d.serial
            &&& n.username == d.username && n.auth_method == d.auth_method
            &&& n.password == d.password && n.private_key_path == d.private_key_path
            &&& n.os_type == d.os_type && n.serial_port == d.serial_port
            &&& n.baud_rate == d.baud_rate && n.remark == d.remark
            &&& !n.connected && n.created_at == now && n.updated_at == now
        }),
{
}

/// Editing a device takes every editable field from the form: after saving
/// with the id of a device in the list, the first device with that id holds
/// the form's name, address, serial, user, authentication, password, key
/// path, system, port, speed and remark; it keeps its id, connection state
/// and creation time, and was updated `now`. No other device changes, and
/// the list keeps its length.
pub proof fn lemma_edit_takes_the_form(
    ds: Seq<DeviceView>,
    id: i64,
    d: DeviceInputView,
    now: Seq<char>,
    k: int,
)
    requires
        0 <= k < ds.len(),
        ds[k].id == id,
        forall|j: int| 0 <= j < k ==> ds[j].id != id,
    ensures
        ({
            let r = saved_devices(ds, Some(id), d, now);
            &&& r.len() == ds.len()
            &&& r[k].id == id
            &&& r[k].name == d.name && r[k].address == d.address && r[k].serial == d.serial
            &&& r[k].username == d.username && r[k].auth_method == d.auth_method
            &&& r[k].password == d.password && r[k].private_key_path == d.private_key_path
            &&& r[k].os_type == d.os_type && r[k].serial_port == d.serial_port
            &&& r[k].baud_rate == d.baud_rate && r[k].remark == d.remark
            &&& r[k].connected == ds[k].connected && r[k].created_at == ds[k].created_at
            &&& r[k].updated_at == now
            &&& forall|j: int| 0 <= j < ds.len() && j != k ==> r[j] == ds[j]
        }),
{
    lemma_first_with_id(ds, id);
}

/// Editing with an id that no device has changes nothing.
pub proof fn lemma_edit_of_missing_id(ds: Seq<DeviceView>, id: i64, d: DeviceInputView, now: Seq<char>)
    requires
        forall|j: int| 0 <= j < ds.len() ==> ds[j].id != id,
    ensures
        saved_devices(ds, Some(id), d, now) == ds,
{
    lemma_first_with_id(ds, id);
}

/// A window added from the form holds the form's name, commands, interval
/// and newline choice, was created and updated `now`, and its id is larger
/// than every id before it.
pub proof fn lemma_added_window_is_the_form(ws: Seq<QuickWindowView>, q: QuickInputView, now: Seq<char>)
    requires
        max_id(window_ids(ws)) < i64::MAX,
    ensures
        ({
            let r = saved_windows(ws, None, q, now);
            let n = r.last();
            &&& r.len() == ws.len() + 1
            &&& r.take(ws.len() as int) == ws
            &&& n.name == q.name && n.commands == q.commands
            &&& n.interval_ms == q.interval_ms && n.append_newline == q.append_newline
            &&& n.created_at == now && n.updated_at == now
            &&& forall|i: int| 0 <= i < ws.len() ==> ws[i].id < n.id
        }),
{
    lemma_max_id(window_ids(ws));
    let r = saved_windows(ws, None, q, now);
    assert(r.take(ws.len() as int) =~= ws);
    assert forall|i: int| 0 <= i < ws.len() implies ws[i].id < r.last().id by {
        assert(window_ids(ws)[i] == ws[i].id);
    }
}

/// Editing a window takes its name, commands, interval and newline choice
/// from the form: after saving with the id of a window in the list, the first
/// window with that id holds them, keeps its id and creation time, and was
/// updated `now`. No other window changes, and the list keeps its length.
pub proof fn lemma_window_edit_takes_the_form(
    ws: Seq<QuickWindowView>,
    id: i64,
    q: QuickInputView,
    now: Seq<char>,
    k: int,
)
    requires
        0 <= k < ws.len(),
        ws[k].id == id,
        forall|j: int| 0 <= j < k ==> ws[j].id != id,
    ensures
        ({
            let r = saved_windows(ws, Some(id), q, now);
            &&& r.len() == ws.len()
            &&& r[k].id == id
            &&& r[k].name == q.name && r[k].commands == q.commands
            &&& r[k].interval_ms == q.interval_ms && r[k].append_newline == q.append_newline
            &&& r[k].created_at == ws[k].created_at && r[k].updated_at == now
            &&& forall|j: int| 0 <= j < ws.len() && j != k ==> r[j] == ws[j]
        }),
{
    lemma_first_window_with_id(ws, id);
}

/// Editing with an id that no window has changes nothing.
pub proof fn lemma_window_edit_of_missing_id(
    ws: Seq<QuickWindowView>,
    id: i64,
    q: QuickInputView,
    now: Seq<char>,
)
    requires
        forall|j: int| 0 <= j < ws.len() ==> ws[j].id != id,
    ensures
        saved_windows(ws, Some(id), q, now) == ws,
{
    lemma_first_window_with_id(ws, id);
}

// ---------------------------------------------------------------------------
// Where the data lives
// ---------------------------------------------------------------------------

/// The data directory: `openworkbench` under `APPDATA` on Windows when that
/// is set, else `.openworkbench` under `HOME` when that is set, else `.`.
pub open spec fn data_dir_spec(
    windows: bool,
    appdata: Option<Seq<char>>,
    home: Option<Seq<char>>,
) -> Seq<char> {
    if windows && appdata is Some {
        join_path(appdata->Some_0, "openworkbench"@)
    } else if home is Some {
        join_path(home->Some_0, ".openworkbench"@)
    } else {
        "."@
    }
}

/// The data directory, from the platform and the values of `APPDATA` and
/// `HOME` (`None` where a variable is not set).
pub fn data_dir_of(windows: bool, appdata: Option<String>, home: Option<String>) -> (res: String)
    ensures
        res@ == data_dir_spec(windows, opt_view(appdata), opt_view(home)),
{
    if windows {
        if let Some(a) = &appdata {
            return path_join(a.as_str(), "openworkbench");
        }
    }
    match &home {
        Some(h) => path_join(h.as_str(), ".openworkbench"),
        None => owned("."),
    }
}

} // verus!
