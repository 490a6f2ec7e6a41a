//! Operations on the host: which paths may be used, how a directory is
//! listed and how a shell command is run.
use vstd::prelude::*;
use crate::models::{DirItem, DirItemView, EntryView, HostEntry, Invocation, InvocationView};
use crate::order::{
    Ranked, is_ranked, lemma_ranked_contains, lemma_ranked_is_ranked, lemma_ranked_same_items,
    lemma_text_lt_irreflexive, lemma_text_lt_transitive, order_of, ranked, seq_view, sort_ranked,
    strict_order, text_less, text_lt,
};
use crate::path::{
    can_climb, components, is_drive_comp, join_path, path_join, is_marker, lemma_resolved_shape, resolve, resolved_starts_with,
    resolved_within, settled, well_placed,
};
use crate::text::{append_str, is_blank, owned, trim, views};
use crate::util::{time_string, time_text};

verus! {

/// Host operations. They have no state: the settings are passed in.
pub struct HostService;

impl Ranked for HostEntry {
    /// Directories first, then by name.
    open spec fn goes_before(a: EntryView, b: EntryView) -> bool {
        (a.is_dir && !b.is_dir) || (a.is_dir == b.is_dir && text_lt(a.name, b.name))
    }

    fn precedes(&self, other: &Self) -> (res: bool) {
        (self.is_dir && !other.is_dir) || (self.is_dir == other.is_dir && text_less(
            self.name.as_str(),
            other.name.as_str(),
        ))
    }
}

/// The listing entry for a directory entry; unreadable metadata counts as a
/// file of size 0 with no time.
pub open spec fn host_entry(it: DirItemView) -> EntryView {
    match it.meta {
        Some(m) => EntryView {
            name: it.name,
            path: it.path,
            is_dir: m.is_dir,
            size: m.size,
            modified_at: time_text(m.modified_secs),
        },
        None => EntryView {
            name: it.name,
            path: it.path,
            is_dir: false,
            size: 0,
            modified_at: Seq::empty(),
        },
    }
}

/// The message for a path outside the allowed root.
pub open spec fn outside_root_message(root: Seq<char>) -> Seq<char> {
    "路径超出允许访问根目录："@ + root
}

/// The message for a shell command while the host shell is off.
pub open spec fn shell_disabled_message() -> Seq<char> {
    "主机 shell 未启用（请在设置页开启）"@
}

/// How the host shell runs `command`: `cmd /c` on Windows, else `sh -c`, for
/// at most 30 seconds.
pub open spec fn shell_invocation(command: Seq<char>, windows: bool) -> InvocationView {
    if windows {
        InvocationView { program: "cmd"@, args: seq!["/c"@, command], timeout_secs: 30 }
    } else {
        InvocationView { program: "sh"@, args: seq!["-c"@, command], timeout_secs: 30 }
    }
}

impl HostService {
    /// Decides whether `path` may be used when access is limited to `root`.
    /// With a blank root every path may. Otherwise the path must lie under
    /// the root: the caller passes the root's canonical form (the root as it
    /// stands when it has none), the canonical form of the longest part of
    /// `path` that exists, and the rest of `path` after that part (empty when
    /// the whole path exists). The rest is placed under the existing part,
    /// and `..` is resolved in both before they are compared, so neither a
    /// link nor `..` lets a path that does not exist yet leave the root.
    pub fn check(
        root: &str,
        path: &str,
        canonical_root: &str,
        canonical_existing: &str,
        pending: &str,
    ) -> (res: Result<String, String>)
        ensures
            trim(root@).len() == 0 ==> res is Ok,
            trim(root@).len() != 0 ==> (res is Ok <==> resolved_within(
                join_path(canonical_existing@, pending@),
                canonical_root@,
            )),
            res matches Ok(p) ==> p@ == path@,
            res matches Err(e) ==> e@ == outside_root_message(root@),
    {
        if is_blank(root) {
            return Ok(owned(path));
        }
        let target = path_join(canonical_existing, pending);
        if resolved_starts_with(target.as_str(), canonical_root) {
            Ok(owned(path))
        } else {
            let mut e = owned("路径超出允许访问根目录：");
            append_str(&mut e, root);
            Err(e)
        }
    }

    /// The entries of a directory, directories first, each group by name.
    pub fn list_dir(items: Vec<DirItem>) -> (res: Vec<HostEntry>)
        ensures
            seq_view(res@) == ranked(
                seq_view(items@).map_values(|it: DirItemView| host_entry(it)),
                order_of::<HostEntry>(),
            ),
    {
        let ghost all = seq_view(items@).map_values(|it: DirItemView| host_entry(it));
        let mut found: Vec<HostEntry> = Vec::new();
        let mut i: usize = 0;
        while i < items.len()
            invariant
                i <= items.len(),
                all == seq_view(items@).map_values(|it: DirItemView| host_entry(it)),
                seq_view(found@) == all.take(i as int),
            decreases items.len() - i,
        {
            let it = &items[i];
            let entry = match it.meta {
                Some(m) => HostEntry {
                    name: it.name.clone(),
                    path: it.path.clone(),
                    is_dir: m.is_dir,
                    size: m.size,
                    modified_at: time_string(m.modified_secs),
                },
                None => HostEntry {
                    name: it.name.clone(),
                    path: it.path.clone(),
                    is_dir: false,
                    size: 0,
                    modified_at: String::new(),
                },
            };
            let ghost old_found = found@;
            found.push(entry);
            assert(all[i as int] == host_entry(seq_view(items@)[i as int]));
            assert(seq_view(items@)[i as int] == it@);
            assert(entry@ == host_entry(it@));
            assert(seq_view(found@) =~= seq_view(old_found).push(entry@));
            assert(all.take(i + 1) =~= all.take(i as int).push(all[i as int]));
            assert(seq_view(found@) =~= all.take(i + 1));
            i += 1;
        }
        assert(all.take(items.len() as int) =~= all);
        sort_ranked(found)
    }

    /// The shell command to run `command`, if the host shell is enabled.
    pub fn exec(shell_enabled: bool, command: &str, windows: bool) -> (res: Result<
        Invocation,
        String,
    >)
        ensures
            res is Ok <==> shell_enabled,
            res matches Ok(inv) ==> inv@ == shell_invocation(command@, windows),
            res matches Err(e) ==> e@ == shell_disabled_message(),
    {
        if !shell_enabled {
            return Err(owned("主机 shell 未启用（请在设置页开启）"));
        }
        let mut args: Vec<String> = Vec::new();
        let (program, flag) = if windows {
            (owned("cmd"), owned("/c"))
        } else {
            (owned("sh"), owned("-c"))
        };
        args.push(flag);
        args.push(owned(command));
        let inv = Invocation { program, args, timeout_secs: 30 };
        assert(views(inv.args@) =~= seq![inv.args@[0]@, inv.args@[1]@]);
        Ok(inv)
    }
}

/// Directories first, then names in order: a strict order.
pub proof fn lemma_host_order_strict()
    ensures
        strict_order(order_of::<HostEntry>()),
{
    let before = order_of::<HostEntry>();
    assert forall|a: EntryView| !#[trigger] before(a, a) by {
        lemma_text_lt_irreflexive(a.name);
    }
    assert forall|a: EntryView, b: EntryView, c: EntryView|
        #[trigger] before(a, b) && #[trigger] before(b, c) implies before(a, c) by {
        if a.is_dir == b.is_dir && b.is_dir == c.is_dir {
            lemma_text_lt_transitive(a.name, b.name, c.name);
        }
    }
}

/// A directory listing holds every entry found, and no entry comes after one
/// that it goes before: directories first, each group by name.
pub proof fn lemma_host_listing(items: Seq<DirItemView>)
    ensures
        ({
            let all = items.map_values(|it: DirItemView| host_entry(it));
            &&& ranked(all, order_of::<HostEntry>()).to_multiset() == all.to_multiset()
            &&& is_ranked(ranked(all, order_of::<HostEntry>()), order_of::<HostEntry>())
        }),
{
    let all = items.map_values(|it: DirItemView| host_entry(it));
    lemma_host_order_strict();
    lemma_ranked_same_items(all, order_of::<HostEntry>());
    lemma_ranked_is_ranked(all, order_of::<HostEntry>());
}

proof fn lemma_no_climb_from(r: Seq<Seq<char>>, m: int, i: int)
    requires
        settled(r),
        well_placed(r),
        1 <= m <= i < r.len(),
        can_climb(r.take(m)),
    ensures
        r[i] != seq!['.', '.'],
    decreases i - m,
{
    if r[i] == seq!['.', '.'] {
        assert(!can_climb(r.take(i)));
        if i == m {
        } else {
            lemma_no_climb_from(r, m, i - 1);
            let t = r.take(i);
            assert(t.last() == r[i - 1]);
            assert(t[0] == r[0]);
            if is_marker(r[i - 1]) {
                assert(i - 1 == 1 && is_drive_comp(r[0]));
                assert(r.take(m) =~= seq![r[0]]);
            }
            assert(can_climb(t));
        }
    }
}

/// A path accepted under a root never climbs out of it: once `..` is
/// resolved, the root's components begin the path's, and no component after
/// them is `..` (for a root that ends in a name, as a canonical directory does).
pub proof fn lemma_accepted_path_stays_under_root(path: Seq<char>, root: Seq<char>)
    requires
        resolved_within(path, root),
        can_climb(resolve(components(root))),
    ensures
        ({
            let r = resolve(components(path));
            let m = resolve(components(root)).len();
            &&& resolve(components(root)) == r.take(m as int)
            &&& forall|i: int| m <= i < r.len() ==> r[i] != seq!['.', '.']
        }),
{
    let r = resolve(components(path));
    let rb = resolve(components(root));
    let m = rb.len() as int;
    lemma_resolved_shape(path);
    assert(rb =~= r.take(m));
    assert forall|i: int| m <= i < r.len() implies r[i] != seq!['.', '.'] by {
        lemma_no_climb_from(r, m, i);
    }
}

/// Listing entry `e` shows directory entry `it`: the same name and full
/// path; a directory exactly when the metadata says so; the size and time of
/// the metadata, or size 0 and no time when it could not be read.
pub open spec fn shows_entry(e: EntryView, it: DirItemView) -> bool {
    &&& e.name == it.name
    &&& e.path == it.path
    &&& e.is_dir == (it.meta is Some && it.meta->Some_0.is_dir)
    &&& e.size == (if it.meta is Some {
        it.meta->Some_0.size
    } else {
        0
    })
    &&& e.modified_at == (if it.meta is Some {
        time_text(it.meta->Some_0.modified_secs)
    } else {
        Seq::empty()
    })
}

/// A host listing has one entry for each directory entry found, and each
/// entry shows one of them with its own name and full path, whether it is a
/// directory, and its size and time: every listed entry shows a found one,
/// and every found one is shown.
pub proof fn lemma_host_listing_shows_items(items: Seq<DirItemView>)
    ensures
        ({
            let res = ranked(
                items.map_values(|it: DirItemView| host_entry(it)),
                order_of::<HostEntry>(),
            );
            &&& res.len() == items.len()
            &&& forall|i: int|
                0 <= i < res.len() ==> exists|j: int|
                    0 <= j < items.len() && shows_entry(#[trigger] res[i], #[trigger] items[j])
            &&& forall|j: int|
                0 <= j < items.len() ==> exists|i: int|
                    0 <= i < res.len() && shows_entry(#[trigger] res[i], #[trigger] items[j])
        }),
{
    let before = order_of::<HostEntry>();
    let all = items.map_values(|it: DirItemView| host_entry(it));
    let res = ranked(all, before);
    lemma_ranked_same_items(all, before);
    assert forall|i: int| 0 <= i < res.len() implies exists|j: int|
        0 <= j < items.len() && shows_entry(#[trigger] res[i], #[trigger] items[j]) by {
        let x = res[i];
        assert(res.contains(x));
        lemma_ranked_contains(all, before, x);
        let j = choose|j: int| 0 <= j < all.len() && all[j] == x;
        assert(all[j] == host_entry(items[j]));
        assert(shows_entry(x, items[j]));
    }
    assert forall|j: int| 0 <= j < items.len() implies exists|i: int|
        0 <= i < res.len() && shows_entry(#[trigger] res[i], #[trigger] items[j]) by {
        let x = all[j];
        assert(all[j] == host_entry(items[j]));
        assert(all.contains(x));
        lemma_ranked_contains(all, before, x);
        let i = choose|i: int| 0 <= i < res.len() && res[i] == x;
        assert(shows_entry(res[i], items[j]));
    }
}

} // verus!
