//! Recorded serial logs: which files count as logs, how they are listed and
//! which names may be read or deleted.
use vstd::prelude::*;
use crate::models::{DirItem, DirItemView, FileView, LogFileInfo};
use crate::order::{
    Ranked, lemma_filter_map_keeps, lemma_ranked_contains, lemma_ranked_is_ranked, lemma_ranked_same_items,
    lemma_text_lt_irreflexive, lemma_text_lt_transitive, order_of, ranked, seq_view,
    sort_ranked, strict_order, is_ranked, text_less, text_lt,
};
use crate::path::{
    components, extension, has_extension, is_single_name, join_path, lemma_join_single_name, path_join,
    path_within, single_name,
};
use crate::text::{ends_with, has_suffix, owned};
use crate::util::{size_text, time_string, time_text};

verus! {

/// The log service: the directory of log files and the size at which a
/// recording moves on to a new file.
pub struct LogService {
    pub dir: String,
    pub max_file_size: u64,
}

impl Ranked for LogFileInfo {
    /// Logs are listed by name, last name first.
    open spec fn goes_before(a: FileView, b: FileView) -> bool {
        text_lt(b.name, a.name)
    }

    fn precedes(&self, other: &Self) -> (res: bool) {
        text_less(other.name.as_str(), self.name.as_str())
    }
}

/// The entry for a listed log file, if the directory entry is one: its
/// extension is `log` and its metadata could be read.
pub open spec fn log_entry(it: DirItemView) -> Option<FileView> {
    if extension(it.name) == Some("log"@) && it.meta is Some {
        Some(
            FileView {
                name: it.name,
                size: it.meta->0.size,
                modified_at: time_text(it.meta->0.modified_secs),
            },
        )
    } else {
        None
    }
}

/// The log files among the directory entries, in the order found.
pub open spec fn log_entries(items: Seq<DirItemView>) -> Seq<FileView> {
    items.filter_map(|it: DirItemView| log_entry(it))
}

/// What `safe_log_name` accepts: one file name, ending in `.log`.
pub open spec fn is_log_name(name: Seq<char>) -> bool {
    is_single_name(name) && ends_with(name, ".log"@)
}

/// Accepts `name` only if it names one file directly in the log directory
/// and ends in `.log`.
pub fn safe_log_name(name: &str) -> (res: Result<&str, String>)
    ensures
        res is Ok <==> is_log_name(name@),
        res matches Ok(n) ==> n@ == name@,
        res matches Err(e) ==> e@ == "日志文件名无效"@,
{
    if !single_name(name) || !has_suffix(name, ".log") {
        return Err(owned("日志文件名无效"));
    }
    Ok(name)
}

impl LogService {
    pub fn new(dir: String, max_file_size: u64) -> (res: Self)
        ensures
            res.dir@ == dir@,
            res.max_file_size == max_file_size,
    {
        LogService { dir, max_file_size }
    }

    /// The log files among the entries of the log directory, last name first.
    pub fn list(&self, items: Vec<DirItem>) -> (res: Vec<LogFileInfo>)
        ensures
            seq_view(res@) == ranked(log_entries(seq_view(items@)), order_of::<LogFileInfo>()),
    {
        let mut found: Vec<LogFileInfo> = Vec::new();
        let mut i: usize = 0;
        while i < items.len()
            invariant
                i <= items.len(),
                seq_view(found@) == log_entries(seq_view(items@).take(i as int)),
            decreases items.len() - i,
        {
            let it = &items[i];
            let ghost pre = seq_view(items@).take(i as int);
            assert(seq_view(items@).take(i + 1).drop_last() =~= pre);
            assert(seq_view(items@).take(i + 1).last() == it@);
            if has_extension(it.name.as_str(), "log") && it.meta.is_some() {
                let meta = it.meta.unwrap();
                let info = LogFileInfo {
                    name: it.name.clone(),
                    size: meta.size,
                    modified_at: time_string(meta.modified_secs),
                };
                let ghost old_found = found@;
                found.push(info);
                assert(seq_view(found@) =~= seq_view(old_found).push(info@));
            }
            i += 1;
        }
        assert(seq_view(items@).take(items.len() as int) =~= seq_view(items@));
        sort_ranked(found)
    }

    /// The path of log file `name`, if it is a log name.
    pub fn file_path(&self, name: &str) -> (res: Result<String, String>)
        ensures
            res is Ok <==> is_log_name(name@),
            res matches Ok(p) ==> p@ == join_path(self.dir@, name@),
            res matches Err(e) ==> e@ == "日志文件名无效"@,
    {
        let n = safe_log_name(name)?;
        Ok(path_join(self.dir.as_str(), n))
    }

    /// The size limit of a log file, for people.
    pub fn debug_size(&self) -> (res: String)
        ensures
            res@ == size_text(self.max_file_size as nat),
    {
        crate::util::fmt_size(self.max_file_size)
    }
}

/// Log listings go by name, last first, and that is a strict order.
pub proof fn lemma_log_order_strict()
    ensures
        strict_order(order_of::<LogFileInfo>()),
{
    let before = order_of::<LogFileInfo>();
    assert forall|a: FileView| !#[trigger] before(a, a) by {
        lemma_text_lt_irreflexive(a.name);
    }
    assert forall|a: FileView, b: FileView, c: FileView|
        #[trigger] before(a, b) && #[trigger] before(b, c) implies before(a, c) by {
        lemma_text_lt_transitive(c.name, b.name, a.name);
    }
}

/// A log listing holds exactly the log files found, each once for each time
/// it was found, and no name in it comes after a greater one.
pub proof fn lemma_log_listing(items: Seq<DirItemView>)
    ensures
        ranked(log_entries(items), order_of::<LogFileInfo>()).to_multiset() == log_entries(
            items,
        ).to_multiset(),
        is_ranked(ranked(log_entries(items), order_of::<LogFileInfo>()), order_of::<LogFileInfo>()),
{
    lemma_log_order_strict();
    lemma_ranked_same_items(log_entries(items), order_of::<LogFileInfo>());
    lemma_ranked_is_ranked(log_entries(items), order_of::<LogFileInfo>());
}

/// A log that is read or deleted lies directly in the log directory: the
/// path of an accepted name is the directory's components and then the name.
pub proof fn lemma_log_path_in_dir(dir: Seq<char>, name: Seq<char>)
    requires
        is_log_name(name),
    ensures
        components(join_path(dir, name)) == components(dir).push(name),
        path_within(join_path(dir, name), dir),
{
    lemma_join_single_name(dir, name);
}

/// Listing entry `e` shows directory entry `it` as a log file: its
/// extension is `log`, its metadata was read, and `e` has its name and the
/// size and time of that metadata.
pub open spec fn shows_log(e: FileView, it: DirItemView) -> bool {
    &&& extension(it.name) == Some("log"@)
    &&& it.meta is Some
    &&& e.name == it.name
    &&& e.size == it.meta->Some_0.size
    &&& e.modified_at == time_text(it.meta->Some_0.modified_secs)
}

/// A log listing shows exactly the `.log` files of the log directory whose
/// metadata could be read, each with its own name, size and modification
/// time: every listed log is such a file, and every such file is listed.
pub proof fn lemma_log_listing_shows_files(items: Seq<DirItemView>)
    ensures
        ({
            let res = ranked(log_entries(items), order_of::<LogFileInfo>());
            &&& forall|i: int|
                0 <= i < res.len() ==> exists|j: int|
                    0 <= j < items.len() && shows_log(#[trigger] res[i], #[trigger] items[j])
            &&& forall|j: int|
                0 <= j < items.len() && extension((#[trigger] items[j]).name) == Some("log"@)
                    && items[j].meta is Some ==> exists|i: int|
                    0 <= i < res.len() && shows_log(#[trigger] res[i], items[j])
        }),
{
    let before = order_of::<LogFileInfo>();
    let le = log_entries(items);
    let res = ranked(le, before);
    assert forall|i: int| 0 <= i < res.len() implies exists|j: int|
        0 <= j < items.len() && shows_log(#[trigger] res[i], #[trigger] items[j]) by {
        let x = res[i];
        assert(res.contains(x));
        lemma_ranked_contains(le, before, x);
        items.lemma_filter_map_contains(|it: DirItemView| log_entry(it), x);
        let t = choose|t: DirItemView| items.contains(t) && log_entry(t) == Some(x);
        let j = choose|j: int| 0 <= j < items.len() && items[j] == t;
        assert(shows_log(x, items[j]));
    }
    assert forall|j: int|
        0 <= j < items.len() && extension((#[trigger] items[j]).name) == Some("log"@)
            && items[j].meta is Some implies exists|i: int|
        0 <= i < res.len() && shows_log(#[trigger] res[i], items[j]) by {
        lemma_filter_map_keeps(items, |it: DirItemView| log_entry(it), j);
        let x = log_entry(items[j])->Some_0;
        assert(le.contains(x));
        lemma_ranked_contains(le, before, x);
        let i = choose|i: int| 0 <= i < res.len() && res[i] == x;
        assert(shows_log(res[i], items[j]));
    }
}

} // verus!
