//! ADB: the command lines the workbench runs, and what it reads from their output.
use vstd::prelude::*;
use crate::models::{AdbDevice, AdbDeviceView, EntryView, HostEntry, Invocation, InvocationView};
use crate::order::seq_view;
use crate::text::{
    append_str, chars_of, find, find_in, has_prefix, is_blank, join, join_strings, lines,
    lines_of, owned, parse_u64, parse_u64_spec, push_char, split_whitespace, split_ws,
    starts_with, string_of, trim, trimmed, views, token_or_empty, tokens_from, after_first, token_at,
};
use crate::util::iso_text;

verus! {

/// ADB operations. They have no state: the `adb` path is passed in.
pub struct AdbService;

/// The views of a sequence of string slices.
pub open spec fn strs(a: Seq<&str>) -> Seq<Seq<char>> {
    a.map_values(|s: &str| s@)
}

/// The program that runs ADB: `adb` when the configured path is blank.
pub open spec fn adb_program(adb_path: Seq<char>) -> Seq<char> {
    if trim(adb_path).len() == 0 {
        "adb"@
    } else {
        adb_path
    }
}

/// ADB run with `args` for at most `timeout` seconds.
pub open spec fn adb_call(adb_path: Seq<char>, args: Seq<Seq<char>>, timeout: u64) -> InvocationView {
    InvocationView { program: adb_program(adb_path), args, timeout_secs: timeout }
}

// ---------------------------------------------------------------------------
// Quoting for the device shell
// ---------------------------------------------------------------------------

/// How one character appears inside single quotes: a quote closes the
/// quotes, is written escaped, and reopens them.
pub open spec fn quoted_char(c: char) -> Seq<char> {
    if c == '\'' {
        seq!['\'', '\\', '\'', '\'']
    } else {
        seq![c]
    }
}

pub open spec fn quoted_body(p: Seq<char>) -> Seq<char>
    decreases p.len(),
{
    if p.len() == 0 {
        Seq::empty()
    } else {
        quoted_body(p.drop_last()) + quoted_char(p.last())
    }
}

/// `p` as one single-quoted shell word (`'...'`, each `'` written `'\''`).
pub open spec fn sh_quote(p: Seq<char>) -> Seq<char> {
    seq!['\''] + quoted_body(p) + seq!['\'']
}

/// The text that a POSIX shell reads from the word `s` made of single-quoted
/// parts, backslash escapes and plain characters; `quoted` tells whether the
/// word starts inside single quotes.
pub open spec fn sh_unquote(s: Seq<char>, quoted: bool) -> Seq<char>
    decreases s.len(),
{
    if s.len() == 0 {
        Seq::empty()
    } else if quoted {
        if s[0] == '\'' {
            sh_unquote(s.drop_first(), false)
        } else {
            seq![s[0]] + sh_unquote(s.drop_first(), true)
        }
    } else if s[0] == '\'' {
        sh_unquote(s.drop_first(), true)
    } else if s[0] == '\\' && s.len() >= 2 {
        seq![s[1]] + sh_unquote(s.skip(2), false)
    } else {
        seq![s[0]] + sh_unquote(s.drop_first(), false)
    }
}

proof fn lemma_quoted_body_split(a: Seq<char>, b: Seq<char>)
    ensures
        quoted_body(a + b) == quoted_body(a) + quoted_body(b),
    decreases b.len(),
{
    if b.len() == 0 {
        assert(a + b =~= a);
        assert(quoted_body(a) + quoted_body(b) =~= quoted_body(a));
    } else {
        assert((a + b).drop_last() =~= a + b.drop_last());
        lemma_quoted_body_split(a, b.drop_last());
        assert(quoted_body(a + b) =~= quoted_body(a) + quoted_body(b));
    }
}

proof fn lemma_unquote_body(p: Seq<char>, t: Seq<char>)
    ensures
        sh_unquote(quoted_body(p) + seq!['\''] + t, true) == p + sh_unquote(t, false),
    decreases p.len(),
{
    if p.len() == 0 {
        assert(quoted_body(p) + seq!['\''] + t =~= seq!['\''] + t);
        assert((seq!['\''] + t).drop_first() =~= t);
        assert(p + sh_unquote(t, false) =~= sh_unquote(t, false));
    } else {
        let c = p[0];
        let q = p.drop_first();
        assert(p =~= seq![c] + q);
        lemma_quoted_body_split(seq![c], q);
        assert(quoted_body(seq![c]) =~= quoted_char(c)) by {
            assert(seq![c].drop_last() =~= Seq::<char>::empty());
            assert(quoted_body(Seq::<char>::empty()) == Seq::<char>::empty());
            assert(seq![c].last() == c);
            assert(Seq::<char>::empty() + quoted_char(c) =~= quoted_char(c));
        }
        lemma_unquote_body(q, t);
        let rest = quoted_body(q) + seq!['\''] + t;
        if c == '\'' {
            let w = seq!['\'', '\\', '\'', '\''] + rest;
            let w1 = seq!['\\', '\'', '\''] + rest;
            let w2 = seq!['\''] + rest;
            assert(quoted_body(p) + seq!['\''] + t =~= w);
            assert(w[0] == '\'');
            assert(w.drop_first() =~= w1);
            assert(sh_unquote(w, true) == sh_unquote(w1, false));
            assert(w1[0] == '\\' && w1[1] == '\'' && w1.len() >= 2);
            assert(w1.skip(2) =~= w2);
            assert(sh_unquote(w1, false) == seq!['\''] + sh_unquote(w2, false));
            assert(w2[0] == '\'');
            assert(w2.drop_first() =~= rest);
            assert(sh_unquote(w2, false) == sh_unquote(rest, true));
            assert(sh_unquote(w, true) == seq!['\''] + sh_unquote(rest, true));
            assert(sh_unquote(w, true) =~= p + sh_unquote(t, false));
        } else {
            let w = seq![c] + rest;
            assert(quoted_body(p) + seq!['\''] + t =~= w);
            assert(w.drop_first() =~= rest);
            assert(sh_unquote(w, true) =~= p + sh_unquote(t, false));
        }
    }
}

/// A quoted path reads back, through the device shell, as the path itself.
pub proof fn lemma_quote_round_trip(p: Seq<char>)
    ensures
        sh_unquote(sh_quote(p), false) == p,
{
    let e: Seq<char> = Seq::empty();
    lemma_unquote_body(p, e);
    let w = sh_quote(p);
    assert(w.drop_first() =~= quoted_body(p) + seq!['\''] + e);
    assert(p + sh_unquote(e, false) =~= p);
}

/// `'{p}'` with every `'` in `p` written `'\''`.
pub fn quote_path(p: &str) -> (res: String)
    ensures
        res@ == sh_quote(p@),
{
    let v = chars_of(p);
    let mut res = String::new();
    push_char(&mut res, '\'');
    let mut i: usize = 0;
    while i < v.len()
        invariant
            i <= v.len(),
            v@ == p@,
            res@ == seq!['\''] + quoted_body(v@.take(i as int)),
        decreases v.len() - i,
    {
        let c = v[i];
        assert(v@.take(i + 1).drop_last() =~= v@.take(i as int));
        let ghost before = res@;
        if c == '\'' {
            push_char(&mut res, '\'');
            push_char(&mut res, '\\');
            push_char(&mut res, '\'');
            push_char(&mut res, '\'');
        } else {
            push_char(&mut res, c);
        }
        assert(res@ =~= before + quoted_char(c));
        i += 1;
    }
    assert(v@.take(v.len() as int) =~= v@);
    push_char(&mut res, '\'');
    res
}

// ---------------------------------------------------------------------------
// Reading `adb devices -l`
// ---------------------------------------------------------------------------

/// The value of the last token that starts with `tag`, without the tag;
/// empty when none does.
pub open spec fn tagged_value(toks: Seq<Seq<char>>, tag: Seq<char>) -> Seq<char>
    decreases toks.len(),
{
    if toks.len() == 0 {
        Seq::empty()
    } else if starts_with(toks.last(), tag) {
        toks.last().skip(tag.len() as int)
    } else {
        tagged_value(toks.drop_last(), tag)
    }
}

/// The device that a line of `adb devices -l` lists, if any: blank lines and
/// daemon messages (starting with `*`) list none.
pub open spec fn device_of_line(line: Seq<char>) -> Option<AdbDeviceView> {
    let t = trim(line);
    if t.len() == 0 || t[0] == '*' {
        None
    } else {
        let toks = split_ws(t);
        Some(
            AdbDeviceView {
                serial: token_or_empty(toks, 0),
                state: token_or_empty(toks, 1),
                model: tagged_value(tokens_from(toks, 2), "model:"@),
                device: tagged_value(tokens_from(toks, 2), "device:"@),
            },
        )
    }
}

/// The devices that the output of `adb devices -l` lists, after its header line.
pub open spec fn parse_devices(out: Seq<char>) -> Seq<AdbDeviceView> {
    after_first(lines(out)).filter_map(|l: Seq<char>| device_of_line(l))
}

/// The value after `tag` of the last token that carries it.
fn tagged_in(toks: &Vec<String>, from: usize, tag: &str) -> (res: String)
    ensures
        res@ == tagged_value(tokens_from(views(toks@), from as int), tag@),
{
    let t = chars_of(tag);
    let mut res = String::new();
    let mut j = from;
    let ghost all = tokens_from(views(toks@), from as int);
    if from >= toks.len() {
        assert(all =~= Seq::<Seq<char>>::empty());
        return res;
    }
    assert(all =~= views(toks@).skip(from as int));
    while j < toks.len()
        invariant
            from <= j <= toks.len(),
            t@ == tag@,
            all == views(toks@).skip(from as int),
            res@ == tagged_value(views(toks@).subrange(from as int, j as int), tag@),
        decreases toks.len() - j,
    {
        let ghost pre = views(toks@).subrange(from as int, j as int);
        assert(views(toks@).subrange(from as int, j + 1).drop_last() =~= pre);
        assert(views(toks@).subrange(from as int, j + 1).last() == toks@[j as int]@);
        if has_prefix(toks[j].as_str(), tag) {
            let v = chars_of(toks[j].as_str());
            res = string_of(&v, t.len(), v.len());
            assert(v@.subrange(t.len() as int, v.len() as int) =~= v@.skip(tag@.len() as int));
        }
        j += 1;
    }
    assert(views(toks@).subrange(from as int, toks.len() as int) =~= all);
    res
}

/// The device listed by one line of `adb devices -l`, if any.
pub fn device_from_line(line: &str) -> (res: Option<AdbDevice>)
    ensures
        match res {
            Some(d) => device_of_line(line@) == Some(d@),
            None => device_of_line(line@) is None,
        },
{
    let t = trimmed(line);
    let tc = chars_of(t.as_str());
    if tc.len() == 0 || tc[0] == '*' {
        return None;
    }
    let toks = split_whitespace(t.as_str());
    let serial = token_at(&toks, 0);
    let state = token_at(&toks, 1);
    let model = tagged_in(&toks, 2, "model:");
    let device = tagged_in(&toks, 2, "device:");
    Some(AdbDevice { serial, state, model, device })
}

/// The devices listed by the output of `adb devices -l`.
pub fn devices_from_output(out: &str) -> (res: Vec<AdbDevice>)
    ensures
        seq_view(res@) == parse_devices(out@),
{
    let ls = lines_of(out);
    let ghost rest = after_first(views(ls@));
    let mut res: Vec<AdbDevice> = Vec::new();
    if ls.len() == 0 {
        assert(rest =~= Seq::<Seq<char>>::empty());
        return res;
    }
    let mut i: usize = 1;
    assert(rest.take(0) =~= Seq::<Seq<char>>::empty());
    while i < ls.len()
        invariant
            1 <= i <= ls.len(),
            views(ls@) == lines(out@),
            rest == views(ls@).drop_first(),
            seq_view(res@) == rest.take(i - 1).filter_map(|l: Seq<char>| device_of_line(l)),
        decreases ls.len() - i,
    {
        assert(rest.take(i as int).drop_last() =~= rest.take(i - 1));
        assert(rest.take(i as int).last() == ls@[i as int]@);
        match device_from_line(ls[i].as_str()) {
            Some(d) => {
                let ghost old_res = res@;
                res.push(d);
                assert(seq_view(res@) =~= seq_view(old_res) + seq![d@]);
            },
            None => {},
        }
        i += 1;
    }
    assert(rest.take(ls.len() - 1) =~= rest);
    res
}

// ---------------------------------------------------------------------------
// Reading `ls -la`
// ---------------------------------------------------------------------------

/// `s` without its trailing `/` characters.
pub open spec fn trim_end_slashes(s: Seq<char>) -> Seq<char>
    decreases s.len(),
{
    if s.len() > 0 && s.last() == '/' {
        trim_end_slashes(s.drop_last())
    } else {
        s
    }
}

/// The file name of an `ls -la` line: the tokens from the ninth on joined by
/// single spaces, cut before a symbolic link's ` -> `.
pub open spec fn listed_name(toks: Seq<Seq<char>>) -> Seq<char> {
    let joined = join(tokens_from(toks, 8), " "@);
    match find(joined, " -> "@) {
        Some(i) => joined.take(i),
        None => joined,
    }
}

/// The entry that a line of `ls -la` in directory `dir` shows, if any: blank
/// lines, the `total` line and lines without a name show none.
pub open spec fn entry_of_line(dir: Seq<char>, line: Seq<char>) -> Option<EntryView> {
    let t = trim(line);
    if t.len() == 0 || starts_with(t, "total"@) {
        None
    } else {
        let toks = split_ws(t);
        let perms = token_or_empty(toks, 0);
        let name = listed_name(toks);
        if perms.len() == 0 || name.len() == 0 {
            None
        } else {
            Some(
                EntryView {
                    name: name,
                    path: trim_end_slashes(dir) + seq!['/'] + name,
                    is_dir: perms[0] == 'd',
                    size: match parse_u64_spec(token_or_empty(toks, 4)) {
                        Some(n) => n,
                        None => 0,
                    },
                    modified_at: token_or_empty(toks, 5) + " "@ + token_or_empty(toks, 6) + " "@
                        + token_or_empty(toks, 7),
                },
            )
        }
    }
}

/// What an `ls -la` line shows: nothing for a blank line, the `total`
/// line, or a line without permissions or a name; otherwise an entry that is
/// a directory exactly when its permissions (the first token) start with
/// `d` (a link, `l`, is not one), with a non-empty name, the path of that
/// name in the directory (the directory's trailing `/`s dropped, then one
/// `/`), and the size that the fifth token gives (0 when it is no number).
pub proof fn lemma_listing_line(dir: Seq<char>, line: Seq<char>)
    ensures
        ({
            let t = trim(line);
            let toks = split_ws(t);
            let perms = token_or_empty(toks, 0);
            match entry_of_line(dir, line) {
                Some(e) => {
                    &&& t.len() > 0 && !starts_with(t, "total"@)
                    &&& perms.len() > 0 && e.name.len() > 0
                    &&& (e.is_dir <==> starts_with(perms, "d"@))
                    &&& e.path == trim_end_slashes(dir) + "/"@ + e.name
                    &&& e.size == match parse_u64_spec(token_or_empty(toks, 4)) {
                        Some(n) => n,
                        None => 0,
                    }
                },
                None => t.len() == 0 || starts_with(t, "total"@) || perms.len() == 0
                    || listed_name(toks).len() == 0,
            }
        }),
{
    reveal_strlit("d");
    reveal_strlit("/");
    let t = trim(line);
    let toks = split_ws(t);
    let perms = token_or_empty(toks, 0);
    if perms.len() > 0 {
        assert(starts_with(perms, "d"@) <==> perms[0] == 'd') by {
            assert("d"@ =~= seq!['d']);
            if perms[0] == 'd' {
                assert(perms.take(1) =~= seq!['d']);
            }
            if starts_with(perms, "d"@) {
                assert(perms.take(1)[0] == perms[0]);
            }
        }
    }
    assert("/"@ =~= seq!['/']);
}

/// The entries that the output of `ls -la` in directory `dir` shows.
pub open spec fn parse_listing(dir: Seq<char>, out: Seq<char>) -> Seq<EntryView> {
    lines(out).filter_map(|l: Seq<char>| entry_of_line(dir, l))
}

fn trim_slashes(s: &str) -> (res: String)
    ensures
        res@ == trim_end_slashes(s@),
{
    let v = chars_of(s);
    let mut n = v.len();
    assert(v@.take(n as int) =~= v@);
    while n > 0 && v[n - 1] == '/'
        invariant
            n <= v.len(),
            v@ == s@,
            trim_end_slashes(s@) == trim_end_slashes(v@.take(n as int)),
        decreases n,
    {
        assert(v@.take(n as int).drop_last() =~= v@.take(n - 1));
        n -= 1;
    }
    assert(trim_end_slashes(v@.take(n as int)) == v@.take(n as int));
    string_of(&v, 0, n)
}

fn name_from_tokens(toks: &Vec<String>) -> (res: String)
    ensures
        res@ == listed_name(views(toks@)),
{
    let mut rest: Vec<String> = Vec::new();
    let mut j: usize = 8;
    let ghost want = tokens_from(views(toks@), 8);
    if toks.len() > 8 {
        assert(want =~= views(toks@).skip(8));
    } else {
        assert(want =~= Seq::<Seq<char>>::empty());
    }
    while j < toks.len()
        invariant
            8 <= j,
            toks.len() > 8 ==> j <= toks.len(),
            toks.len() > 8 ==> views(rest@) == views(toks@).subrange(8, j as int),
            toks.len() <= 8 ==> rest@.len() == 0,
        decreases toks.len() - j,
    {
        let t = toks[j].clone();
        proof {
            crate::text::lemma_views_push(rest@, t);
        }
        rest.push(t);
        assert(views(toks@).subrange(8, j + 1) =~= views(toks@).subrange(8, j as int).push(
            toks@[j as int]@,
        ));
        j += 1;
    }
    if toks.len() > 8 {
        assert(views(toks@).subrange(8, toks.len() as int) =~= want);
    } else {
        assert(views(rest@) =~= want);
    }
    let joined = join_strings(&rest, " ");
    let jc = chars_of(joined.as_str());
    let arrow = chars_of(" -> ");
    match find_in(&jc, &arrow) {
        Some(i) => {
            assert(i <= jc.len()) by {
                crate::text::lemma_find_from_bounds(jc@, arrow@, 0);
            }
            assert(jc@.subrange(0, i as int) =~= jc@.take(i as int));
            string_of(&jc, 0, i)
        },
        None => joined,
    }
}

/// The entry shown by one line of `ls -la` in directory `dir`, if any.
pub fn entry_from_line(dir: &str, line: &str) -> (res: Option<HostEntry>)
    ensures
        match res {
            Some(e) => entry_of_line(dir@, line@) == Some(e@),
            None => entry_of_line(dir@, line@) is None,
        },
{
    let t = trimmed(line);
    if t.as_str().is_empty() || has_prefix(t.as_str(), "total") {
        return None;
    }
    let toks = split_whitespace(t.as_str());
    let perms = token_at(&toks, 0);
    let name = name_from_tokens(&toks);
    let pc = chars_of(perms.as_str());
    if pc.len() == 0 || name.as_str().is_empty() {
        return None;
    }
    let size_text = token_at(&toks, 4);
    let size = match parse_u64(size_text.as_str()) {
        Some(n) => n,
        None => 0,
    };
    let mut path = trim_slashes(dir);
    push_char(&mut path, '/');
    append_str(&mut path, name.as_str());
    let mut when = token_at(&toks, 5);
    append_str(&mut when, " ");
    append_str(&mut when, token_at(&toks, 6).as_str());
    append_str(&mut when, " ");
    append_str(&mut when, token_at(&toks, 7).as_str());
    let is_dir = pc[0] == 'd';
    assert(path@ =~= trim_end_slashes(dir@) + seq!['/'] + name@);
    let e = HostEntry { name, path, is_dir, size, modified_at: when };
    assert(e@.name == listed_name(split_ws(trim(line@))));
    assert(e@.is_dir == (token_or_empty(split_ws(trim(line@)), 0)[0] == 'd'));
    assert(e@.modified_at == token_or_empty(split_ws(trim(line@)), 5) + " "@ + token_or_empty(
        split_ws(trim(line@)),
        6,
    ) + " "@ + token_or_empty(split_ws(trim(line@)), 7));
    Some(e)
}

/// The entries shown by the output of `ls -la` in directory `dir`.
pub fn entries_from_output(dir: &str, out: &str) -> (res: Vec<HostEntry>)
    ensures
        seq_view(res@) == parse_listing(dir@, out@),
{
    let ls = lines_of(out);
    let mut res: Vec<HostEntry> = Vec::new();
    let mut i: usize = 0;
    while i < ls.len()
        invariant
            i <= ls.len(),
            views(ls@) == lines(out@),
            seq_view(res@) == views(ls@).take(i as int).filter_map(
                |l: Seq<char>| entry_of_line(dir@, l),
            ),
        decreases ls.len() - i,
    {
        assert(views(ls@).take(i + 1).drop_last() =~= views(ls@).take(i as int));
        assert(views(ls@).take(i + 1).last() == ls@[i as int]@);
        match entry_from_line(dir, ls[i].as_str()) {
            Some(e) => {
                let ghost old_res = res@;
                res.push(e);
                assert(seq_view(res@) =~= seq_view(old_res) + seq![e@]);
            },
            None => {},
        }
        i += 1;
    }
    assert(views(ls@).take(ls.len() as int) =~= views(ls@));
    res
}

// ---------------------------------------------------------------------------
// Commands
// ---------------------------------------------------------------------------

impl AdbService {
    /// ADB, from `adb_path` or `adb` when that is blank, with `args`, for at
    /// most `timeout` seconds.
    pub fn cmd(&self, adb_path: &str, args: &[&str], timeout: u64) -> (res: Invocation)
        ensures
            res@ == adb_call(adb_path@, strs(args@), timeout),
    {
        let program = if is_blank(adb_path) {
            owned("adb")
        } else {
            owned(adb_path)
        };
        let mut list: Vec<String> = Vec::new();
        let mut i: usize = 0;
        while i < args.len()
            invariant
                i <= args.len(),
                views(list@) == strs(args@).take(i as int),
            decreases args.len() - i,
        {
            let a = owned(args[i]);
            proof {
                crate::text::lemma_views_push(list@, a);
            }
            list.push(a);
            assert(strs(args@).take(i + 1) =~= strs(args@).take(i as int).push(args@[i as int]@));
            i += 1;
        }
        assert(strs(args@).take(args.len() as int) =~= strs(args@));
        Invocation { program, args: list, timeout_secs: timeout }
    }

    /// `adb devices -l`, for at most 10 seconds.
    pub fn scan_command(&self, adb_path: &str) -> (res: Invocation)
        ensures
            res@ == adb_call(adb_path@, seq!["devices"@, "-l"@], 10),
    {
        let args: [&str; 2] = ["devices", "-l"];
        let r = self.cmd(adb_path, &args, 10);
        assert(strs(args@) =~= seq!["devices"@, "-l"@]);
        r
    }

    /// The devices that `adb devices -l` reported, or its error.
    pub fn scan(&self, out: Result<String, String>) -> (res: Result<Vec<AdbDevice>, String>)
        ensures
            out is Ok <==> res is Ok,
            res matches Ok(d) ==> seq_view(d@) == parse_devices(out->Ok_0@),
            res matches Err(e) ==> e@ == out->Err_0@,
    {
        match out {
            Ok(o) => Ok(devices_from_output(o.as_str())),
            Err(e) => Err(e),
        }
    }

    /// `adb connect addr`, for at most 15 seconds.
    pub fn connect(&self, adb_path: &str, addr: &str) -> (res: Invocation)
        ensures
            res@ == adb_call(adb_path@, seq!["connect"@, addr@], 15),
    {
        let args: [&str; 2] = ["connect", addr];
        let r = self.cmd(adb_path, &args, 15);
        assert(strs(args@) =~= seq!["connect"@, addr@]);
        r
    }

    /// `adb disconnect addr`, for at most 10 seconds.
    pub fn disconnect(&self, adb_path: &str, addr: &str) -> (res: Invocation)
        ensures
            res@ == adb_call(adb_path@, seq!["disconnect"@, addr@], 10),
    {
        let args: [&str; 2] = ["disconnect", addr];
        let r = self.cmd(adb_path, &args, 10);
        assert(strs(args@) =~= seq!["disconnect"@, addr@]);
        r
    }

    /// `adb -s serial shell command`, for at most 30 seconds.
    pub fn shell(&self, adb_path: &str, serial: &str, command: &str) -> (res: Invocation)
        ensures
            res@ == adb_call(adb_path@, seq!["-s"@, serial@, "shell"@, command@], 30),
    {
        let args: [&str; 4] = ["-s", serial, "shell", command];
        let r = self.cmd(adb_path, &args, 30);
        assert(strs(args@) =~= seq!["-s"@, serial@, "shell"@, command@]);
        r
    }

    /// `adb -s serial push local remote`, for at most 60 seconds.
    pub fn push(&self, adb_path: &str, serial: &str, local: &str, remote: &str) -> (res:
        Invocation)
        ensures
            res@ == adb_call(adb_path@, seq!["-s"@, serial@, "push"@, local@, remote@], 60),
    {
        let args: [&str; 5] = ["-s", serial, "push", local, remote];
        let r = self.cmd(adb_path, &args, 60);
        assert(strs(args@) =~= seq!["-s"@, serial@, "push"@, local@, remote@]);
        r
    }

    /// `adb -s serial pull remote local`, for at most 60 seconds.
    pub fn pull(&self, adb_path: &str, serial: &str, remote: &str, local: &str) -> (res:
        Invocation)
        ensures
            res@ == adb_call(adb_path@, seq!["-s"@, serial@, "pull"@, remote@, local@], 60),
    {
        let args: [&str; 5] = ["-s", serial, "pull", remote, local];
        let r = self.cmd(adb_path, &args, 60);
        assert(strs(args@) =~= seq!["-s"@, serial@, "pull"@, remote@, local@]);
        r
    }

    /// `adb -s serial reboot`, with `mode` after it unless empty, for at most 15 seconds.
    pub fn reboot(&self, adb_path: &str, serial: &str, mode: &str) -> (res: Invocation)
        ensures
            mode@.len() == 0 ==> res@ == adb_call(adb_path@, seq!["-s"@, serial@, "reboot"@], 15),
            mode@.len() != 0 ==> res@ == adb_call(
                adb_path@,
                seq!["-s"@, serial@, "reboot"@, mode@],
                15,
            ),
    {
        if mode.is_empty() {
            let args: [&str; 3] = ["-s", serial, "reboot"];
            let r = self.cmd(adb_path, &args, 15);
            assert(strs(args@) =~= seq!["-s"@, serial@, "reboot"@]);
            r
        } else {
            let args: [&str; 4] = ["-s", serial, "reboot", mode];
            let r = self.cmd(adb_path, &args, 15);
            assert(strs(args@) =~= seq!["-s"@, serial@, "reboot"@, mode@]);
            r
        }
    }

    /// The shell command that reports a device's kernel and version.
    pub fn fs_detect(&self, adb_path: &str, serial: &str) -> (res: Invocation)
        ensures
            res@ == adb_call(
                adb_path@,
                seq!["-s"@, serial@, "shell"@, "uname -a && cat /proc/version"@],
                30,
            ),
    {
        self.shell(adb_path, serial, "uname -a && cat /proc/version")
    }

    /// `ls -la` of `path` on the device, the path quoted, for at most 15 seconds.
    pub fn fs_list_command(&self, adb_path: &str, serial: &str, path: &str) -> (res: Invocation)
        ensures
            res@ == adb_call(
                adb_path@,
                seq!["-s"@, serial@, "shell"@, "ls -la "@ + sh_quote(path@)],
                15,
            ),
    {
        let mut command = owned("ls -la ");
        let q = quote_path(path);
        append_str(&mut command, q.as_str());
        let args: [&str; 4] = ["-s", serial, "shell", command.as_str()];
        let r = self.cmd(adb_path, &args, 15);
        assert(strs(args@) =~= seq!["-s"@, serial@, "shell"@, "ls -la "@ + sh_quote(path@)]);
        r
    }

    /// The entries of directory `path` that `ls -la` reported, or its error.
    pub fn fs_list(&self, path: &str, out: Result<String, String>) -> (res: Result<
        Vec<HostEntry>,
        String,
    >)
        ensures
            out is Ok <==> res is Ok,
            res matches Ok(d) ==> seq_view(d@) == parse_listing(path@, out->Ok_0@),
            res matches Err(e) ==> e@ == out->Err_0@,
    {
        match out {
            Ok(o) => Ok(entries_from_output(path, o.as_str())),
            Err(e) => Err(e),
        }
    }

    /// `cat` of `path` on the device, the path quoted, for at most 30 seconds.
    pub fn fs_read(&self, adb_path: &str, serial: &str, path: &str) -> (res: Invocation)
        ensures
            res@ == adb_call(
                adb_path@,
                seq!["-s"@, serial@, "exec-out"@, "cat"@, sh_quote(path@)],
                30,
            ),
    {
        let q = quote_path(path);
        let args: [&str; 5] = ["-s", serial, "exec-out", "cat", q.as_str()];
        let r = self.cmd(adb_path, &args, 30);
        assert(strs(args@) =~= seq!["-s"@, serial@, "exec-out"@, "cat"@, sh_quote(path@)]);
        r
    }

    /// `adb start-server`, for at most 15 seconds.
    pub fn start_server(&self, adb_path: &str) -> (res: Invocation)
        ensures
            res@ == adb_call(adb_path@, seq!["start-server"@], 15),
    {
        let args: [&str; 1] = ["start-server"];
        let r = self.cmd(adb_path, &args, 15);
        assert(strs(args@) =~= seq!["start-server"@]);
        r
    }

    /// `adb kill-server`, for at most 15 seconds.
    pub fn kill_server(&self, adb_path: &str) -> (res: Invocation)
        ensures
            res@ == adb_call(adb_path@, seq!["kill-server"@], 15),
    {
        let args: [&str; 1] = ["kill-server"];
        let r = self.cmd(adb_path, &args, 15);
        assert(strs(args@) =~= seq!["kill-server"@]);
        r
    }

    /// A change time for a device file: the current time, whatever the text.
    pub fn mtime_from_str(_s: &str) -> (res: String)
        ensures
            exists|secs: u64| res@ == iso_text(secs as nat),
    {
        crate::util::now_iso()
    }
}

} // verus!
