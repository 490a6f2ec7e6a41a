//! Paths as text. Both `/` and `\` separate components, as on Windows, where
//! the workbench runs.
use vstd::prelude::*;
use crate::text::{
    append_str, chars_of, lemma_views_push, owned, push_char, same_text, string_of, views,
};

verus! {

pub open spec fn is_sep(c: char) -> bool {
    c == '/' || c == '\\'
}

pub fn is_separator(c: char) -> (r: bool)
    ensures
        r == is_sep(c),
{
    c == '/' || c == '\\'
}

// ---------------------------------------------------------------------------
// Joining
// ---------------------------------------------------------------------------

/// `part` placed under `base`, as `PathBuf::join` places it on Windows: a
/// part with a drive replaces the base; a part that starts at a root keeps
/// only the base's drive; otherwise the two are joined by one separator,
/// none being added after an empty base, a bare drive (`C:`) or a separator.
pub open spec fn join_path(base: Seq<char>, part: Seq<char>) -> Seq<char> {
    if has_drive(part) {
        part
    } else if part.len() > 0 && is_sep(part[0]) {
        if has_drive(base) {
            base.take(2) + part
        } else {
            part
        }
    } else if base.len() == 0 {
        part
    } else if base.len() == 2 && has_drive(base) {
        base + part
    } else if is_sep(base.last()) {
        base + part
    } else {
        base + seq!['/'] + part
    }
}

/// Whether the characters `v` start with a drive such as `C:`.
fn chars_start_with_drive(v: &Vec<char>) -> (res: bool)
    ensures
        res == has_drive(v@),
{
    v.len() >= 2 && v[1] == ':' && (('a' <= v[0] && v[0] <= 'z') || ('A' <= v[0] && v[0] <= 'Z'))
}

/// Whether `s` starts with a drive such as `C:`.
pub fn starts_with_drive(s: &str) -> (res: bool)
    ensures
        res == has_drive(s@),
{
    let v = chars_of(s);
    chars_start_with_drive(&v)
}

/// `base.join(part)`, as text.
pub fn path_join(base: &str, part: &str) -> (res: String)
    ensures
        res@ == join_path(base@, part@),
{
    let b = chars_of(base);
    let p = chars_of(part);
    if chars_start_with_drive(&p) {
        return owned(part);
    }
    if p.len() > 0 && is_separator(p[0]) {
        if chars_start_with_drive(&b) {
            let mut res = string_of(&b, 0, 2);
            append_str(&mut res, part);
            assert(b@.subrange(0, 2) =~= base@.take(2));
            return res;
        }
        return owned(part);
    }
    let mut res = String::new();
    append_str(&mut res, base);
    let bare_drive = b.len() == 2 && chars_start_with_drive(&b);
    if b.len() > 0 && !bare_drive && !is_separator(b[b.len() - 1]) {
        push_char(&mut res, '/');
    }
    append_str(&mut res, part);
    res
}

// ---------------------------------------------------------------------------
// Components
// ---------------------------------------------------------------------------

/// Adds a finished segment; empty segments and `.` name no component.
pub open spec fn keep_seg(done: Seq<Seq<char>>, seg: Seq<char>) -> Seq<Seq<char>> {
    if seg.len() == 0 || seg == seq!['.'] {
        done
    } else {
        done.push(seg)
    }
}

pub open spec fn seg_step(st: (Seq<Seq<char>>, Seq<char>), c: char) -> (Seq<Seq<char>>, Seq<char>) {
    if is_sep(c) {
        (keep_seg(st.0, st.1), Seq::empty())
    } else {
        (st.0, st.1.push(c))
    }
}

pub open spec fn seg_state(p: Seq<char>) -> (Seq<Seq<char>>, Seq<char>)
    decreases p.len(),
{
    if p.len() == 0 {
        (Seq::empty(), Seq::empty())
    } else {
        seg_step(seg_state(p.drop_last()), p.last())
    }
}

/// The named components of `p`, in order.
pub open spec fn segments(p: Seq<char>) -> Seq<Seq<char>> {
    keep_seg(seg_state(p).0, seg_state(p).1)
}

/// `p` starts with a `.` component: `.` alone, or `.` and a separator.
pub open spec fn lead_dot(p: Seq<char>) -> bool {
    p.len() > 0 && p[0] == '.' && (p.len() == 1 || is_sep(p[1]))
}

/// The components of a path without a drive: a root marker `/` when it
/// starts with a separator, else `.` when it starts with a `.` component,
/// then its named components.
pub open spec fn rest_components(p: Seq<char>) -> Seq<Seq<char>> {
    if p.len() > 0 && is_sep(p[0]) {
        seq![seq!['/']] + segments(p)
    } else if lead_dot(p) {
        seq![seq!['.']] + segments(p)
    } else {
        segments(p)
    }
}

/// The components of `p`, as `Path::components` gives them on Windows: its
/// drive first when it has one, then the components of the rest.
pub open spec fn components(p: Seq<char>) -> Seq<Seq<char>> {
    if has_drive(p) {
        seq![p.take(2)] + rest_components(p.skip(2))
    } else {
        rest_components(p)
    }
}

/// `Path::starts_with`: the components of `base` begin the components of `p`.
pub open spec fn path_within(p: Seq<char>, base: Seq<char>) -> bool {
    components(base).is_prefix_of(components(p))
}

fn keep_segment(done: &mut Vec<String>, cur: &Vec<char>)
    ensures
        views(final(done)@) == keep_seg(views(old(done)@), cur@),
{
    let n = cur.len();
    if n == 0 {
        return;
    }
    if n == 1 && cur[0] == '.' {
        assert(cur@ =~= seq!['.']);
        return;
    }
    assert(cur@ != seq!['.']) by {
        if n == 1 {
            assert(cur@[0] != seq!['.'][0]);
        }
    }
    let s = string_of(cur, 0, n);
    assert(cur@.subrange(0, n as int) =~= cur@);
    proof {
        lemma_views_push(done@, s);
    }
    done.push(s);
}

fn push_text(done: &mut Vec<String>, t: String)
    ensures
        views(final(done)@) == views(old(done)@).push(t@),
{
    proof {
        lemma_views_push(done@, t);
    }
    done.push(t);
}

/// The components of `p`.
pub fn components_of(p: &str) -> (res: Vec<String>)
    ensures
        views(res@) == components(p@),
{
    let v = chars_of(p);
    let n = v.len();
    let mut done: Vec<String> = Vec::new();
    let drive = chars_start_with_drive(&v);
    let s: usize = if drive {
        2
    } else {
        0
    };
    if drive {
        push_text(&mut done, string_of(&v, 0, 2));
        assert(v@.subrange(0, 2) =~= p@.take(2));
    }
    let ghost q = v@.skip(s as int);
    let rooted = n > s && is_separator(v[s]);
    let dot = n > s && v[s] == '.' && (n == s + 1 || is_separator(v[s + 1]));
    if rooted {
        let mut root = String::new();
        push_char(&mut root, '/');
        push_text(&mut done, root);
    } else if dot {
        let mut d = String::new();
        push_char(&mut d, '.');
        push_text(&mut done, d);
    }
    let ghost head = views(done@);
    assert(head == (if drive {
        seq![p@.take(2)]
    } else {
        Seq::<Seq<char>>::empty()
    }) + (if q.len() > 0 && is_sep(q[0]) {
        seq![seq!['/']]
    } else if lead_dot(q) {
        seq![seq!['.']]
    } else {
        Seq::<Seq<char>>::empty()
    }));
    let mut cur: Vec<char> = Vec::new();
    let mut i: usize = s;
    assert(v@.subrange(s as int, s as int) =~= Seq::<char>::empty());
    while i < n
        invariant
            s <= i <= n == v.len(),
            v@ == p@,
            views(done@) == head + seg_state(v@.subrange(s as int, i as int)).0,
            cur@ == seg_state(v@.subrange(s as int, i as int)).1,
        decreases n - i,
    {
        let c = v[i];
        assert(v@.subrange(s as int, i + 1).drop_last() =~= v@.subrange(s as int, i as int));
        assert(v@.subrange(s as int, i + 1).last() == c);
        let ghost before = seg_state(v@.subrange(s as int, i as int)).0;
        if is_separator(c) {
            keep_segment(&mut done, &cur);
            assert(head + keep_seg(before, cur@) =~= keep_seg(head + before, cur@));
            cur = Vec::new();
        } else {
            cur.push(c);
        }
        i += 1;
    }
    assert(v@.subrange(s as int, n as int) =~= q);
    let ghost before = seg_state(q).0;
    keep_segment(&mut done, &cur);
    assert(head + keep_seg(before, cur@) =~= keep_seg(head + before, cur@));
    assert(views(done@) == head + segments(q));
    assert(has_drive(p@) == drive);
    if drive {
        assert(q == p@.skip(2));
    } else {
        assert(q =~= p@);
    }
    assert(views(done@) =~= components(p@));
    done
}

/// Whether the texts `a` begin the texts `b`.
fn texts_prefix(a: &Vec<String>, b: &Vec<String>) -> (res: bool)
    ensures
        res == views(a@).is_prefix_of(views(b@)),
{
    if a.len() > b.len() {
        return false;
    }
    let mut i: usize = 0;
    while i < a.len()
        invariant
            i <= a.len() <= b.len(),
            forall|j: int| 0 <= j < i ==> views(a@)[j] == views(b@)[j],
        decreases a.len() - i,
    {
        if a[i] != b[i] {
            assert(views(b@)[i as int] == b@[i as int]@);
            assert(views(a@)[i as int] == a@[i as int]@);
            assert(views(b@).subrange(0, a.len() as int)[i as int] != views(a@)[i as int]);
            return false;
        }
        i += 1;
    }
    assert(views(a@) =~= views(b@).subrange(0, a.len() as int));
    true
}

/// `Path::new(p).starts_with(base)`.
pub fn path_starts_with(p: &str, base: &str) -> (res: bool)
    ensures
        res == path_within(p@, base@),
{
    let cp = components_of(p);
    let cb = components_of(base);
    texts_prefix(&cb, &cp)
}

// ---------------------------------------------------------------------------
// Resolving `..`
// ---------------------------------------------------------------------------

/// A `..` after the last of `r` removes it: the last is a name, not a root,
/// `.`, `..` or the path's drive.
pub open spec fn can_climb(r: Seq<Seq<char>>) -> bool {
    &&& r.len() > 0
    &&& r.last() != seq!['/']
    &&& r.last() != seq!['.']
    &&& r.last() != seq!['.', '.']
    &&& !(r.len() == 1 && has_drive(r[0]))
}

/// The components with each `..` that follows a name taken out together
/// with that name, as the file system reads them when no link is involved.
pub open spec fn resolve(cs: Seq<Seq<char>>) -> Seq<Seq<char>>
    decreases cs.len(),
{
    if cs.len() == 0 {
        cs
    } else {
        let r = resolve(cs.drop_last());
        if cs.last() == seq!['.', '.'] && can_climb(r) {
            r.drop_last()
        } else {
            r.push(cs.last())
        }
    }
}

/// `p` lies under `base` once `..` is resolved in both.
pub open spec fn resolved_within(p: Seq<char>, base: Seq<char>) -> bool {
    resolve(components(base)).is_prefix_of(resolve(components(p)))
}

proof fn lemma_views_drop_last(s: Seq<String>)
    requires
        s.len() > 0,
    ensures
        views(s.drop_last()) == views(s).drop_last(),
{
    assert(views(s.drop_last()) =~= views(s).drop_last());
}

/// The components of `p` with `..` resolved.
pub fn resolved_components_of(p: &str) -> (res: Vec<String>)
    ensures
        views(res@) == resolve(components(p@)),
{
    let cs = components_of(p);
    let ghost all = views(cs@);
    let mut r: Vec<String> = Vec::new();
    let mut i: usize = 0;
    assert(all.take(0) =~= Seq::<Seq<char>>::empty());
    while i < cs.len()
        invariant
            i <= cs.len(),
            all == views(cs@),
            all == components(p@),
            views(r@) == resolve(all.take(i as int)),
        decreases cs.len() - i,
    {
        let c = &cs[i];
        assert(all.take(i + 1).drop_last() =~= all.take(i as int));
        assert(all.take(i + 1).last() == c@);
        let n = r.len();
        let climb = same_text(c.as_str(), "..") && n > 0 && !same_text(r[n - 1].as_str(), "/")
            && !same_text(r[n - 1].as_str(), ".") && !same_text(r[n - 1].as_str(), "..") && !(n == 1
            && starts_with_drive(r[0].as_str()));
        proof {
            reveal_strlit("..");
            reveal_strlit(".");
            reveal_strlit("/");
            assert(".."@ =~= seq!['.', '.']);
            assert("."@ =~= seq!['.']);
            assert("/"@ =~= seq!['/']);
            if n > 0 {
                assert(views(r@)[n - 1] == r@[n - 1]@);
                assert(views(r@)[0] == r@[0]@);
            }
        }
        if climb {
            let ghost before = r@;
            proof {
                lemma_views_drop_last(before);
            }
            r.pop();
            assert(r@ == before.drop_last());
        } else {
            let t = c.clone();
            proof {
                lemma_views_push(r@, t);
            }
            r.push(t);
        }
        i += 1;
    }
    assert(all.take(cs.len() as int) =~= all);
    r
}


/// Characters with no separator among them extend the segment being read.
proof fn lemma_seg_state_plain(a: Seq<char>, b: Seq<char>)
    requires
        forall|i: int| 0 <= i < b.len() ==> !is_sep(#[trigger] b[i]),
    ensures
        seg_state(a + b) == (seg_state(a).0, seg_state(a).1 + b),
    decreases b.len(),
{
    if b.len() == 0 {
        assert(a + b =~= a);
        assert(seg_state(a).1 + b =~= seg_state(a).1);
    } else {
        let c = b.last();
        let b0 = b.drop_last();
        lemma_seg_state_plain(a, b0);
        assert((a + b).drop_last() =~= a + b0);
        assert((a + b).last() == c);
        assert(seg_state(a).1 + b0 + seq![c] =~= seg_state(a).1 + b);
    }
}

/// `name` placed under a path without a drive.
spec fn join_rest(q: Seq<char>, name: Seq<char>) -> Seq<char> {
    if q.len() == 0 {
        name
    } else if is_sep(q.last()) {
        q + name
    } else {
        q + seq!['/'] + name
    }
}

proof fn lemma_rest_join(q: Seq<char>, name: Seq<char>)
    requires
        is_single_name(name),
    ensures
        rest_components(join_rest(q, name)) == rest_components(q).push(name),
{
    let j = join_rest(q, name);
    if q.len() == 0 {
        assert(seq![] + name =~= name);
        lemma_seg_state_plain(seq![], name);
        assert(seg_state(Seq::<char>::empty()) == (Seq::<Seq<char>>::empty(), Seq::<char>::empty()));
        assert(seg_state(name) == (Seq::<Seq<char>>::empty(), name));
        assert(!lead_dot(name)) by {
            if name.len() == 1 && name[0] == '.' {
                assert(name =~= seq!['.']);
            }
        }
        assert(rest_components(j) =~= rest_components(q).push(name));
    } else if is_sep(q.last()) {
        lemma_seg_state_plain(q, name);
        assert(q =~= q.drop_last().push(q.last()));
        let st = seg_state(q.drop_last());
        assert(seg_state(q) == (keep_seg(st.0, st.1), Seq::<char>::empty()));
        assert(seg_state(q).1 + name =~= name);
        assert(segments(q) == seg_state(q).0);
        assert(j[0] == q[0]);
        if q.len() >= 2 {
            assert(j[1] == q[1]);
        }
        assert(rest_components(j) =~= rest_components(q).push(name));
    } else {
        let b1 = q + seq!['/'];
        assert(j =~= b1 + name);
        lemma_seg_state_plain(b1, name);
        assert(b1.drop_last() =~= q);
        assert(b1.last() == '/');
        assert(seg_state(b1) == (segments(q), Seq::<char>::empty()));
        assert(seg_state(b1).1 + name =~= name);
        assert(j[0] == q[0]);
        if q.len() >= 2 {
            assert(j[1] == q[1]);
        } else {
            assert(j[1] == '/');
        }
        assert(rest_components(j) =~= rest_components(q).push(name));
    }
}

/// A single name placed under `base` adds exactly one component to it.
pub proof fn lemma_join_single_name(base: Seq<char>, name: Seq<char>)
    requires
        is_single_name(name),
    ensures
        components(join_path(base, name)) == components(base).push(name),
        path_within(join_path(base, name), base),
{
    let j = join_path(base, name);
    if has_drive(base) {
        let q = base.skip(2);
        lemma_rest_join(q, name);
        if base.len() == 2 {
            assert(q =~= Seq::<char>::empty());
            assert(j.skip(2) =~= join_rest(q, name));
        } else if is_sep(base.last()) {
            assert(q.last() == base.last());
            assert(j.skip(2) =~= join_rest(q, name));
        } else {
            assert(q.last() == base.last());
            assert(j.skip(2) =~= join_rest(q, name));
        }
        assert(j[0] == base[0] && j[1] == base[1]);
        assert(j.take(2) =~= base.take(2));
        assert(components(j) =~= components(base).push(name));
    } else {
        lemma_rest_join(base, name);
        assert(j == join_rest(base, name));
        assert(!has_drive(j)) by {
            if base.len() >= 2 {
                assert(j[0] == base[0] && j[1] == base[1]);
            } else if base.len() == 1 {
                assert(j[0] == base[0]);
                if !is_sep(base[0]) {
                    assert(j[1] == '/');
                }
            }
        }
        assert(components(j) =~= components(base).push(name));
    }
    assert(components(base).is_prefix_of(components(j))) by {
        assert(components(j).subrange(0, components(base).len() as int) =~= components(base));
    }
}

/// A root marker or a `.` component.
pub open spec fn is_marker(x: Seq<char>) -> bool {
    x == seq!['/'] || x == seq!['.']
}

/// A drive component such as `C:`.
pub open spec fn is_drive_comp(x: Seq<char>) -> bool {
    x.len() == 2 && has_drive(x)
}

/// Root markers and `.` come only first, or second after a drive.
pub open spec fn well_placed(r: Seq<Seq<char>>) -> bool {
    forall|i: int|
        0 <= i < r.len() && is_marker(#[trigger] r[i]) ==> i == 0 || (i == 1 && is_drive_comp(r[0]))
}

/// No `..` is left where it could still remove the component before it.
pub open spec fn settled(r: Seq<Seq<char>>) -> bool {
    forall|i: int| 0 <= i < r.len() && #[trigger] r[i] == seq!['.', '.'] ==> !can_climb(r.take(i))
}

spec fn plain_part(x: Seq<char>) -> bool {
    forall|j: int| 0 <= j < x.len() ==> !is_sep(#[trigger] x[j])
}

proof fn lemma_seg_state_parts(p: Seq<char>)
    ensures
        forall|i: int|
            0 <= i < seg_state(p).0.len() ==> plain_part(#[trigger] seg_state(p).0[i]) && seg_state(
                p,
            ).0[i] != seq!['.'] && seg_state(p).0[i].len() > 0,
        plain_part(seg_state(p).1),
    decreases p.len(),
{
    if p.len() > 0 {
        lemma_seg_state_parts(p.drop_last());
        let st = seg_state(p.drop_last());
        let c = p.last();
        if !is_sep(c) {
            assert forall|j: int| 0 <= j < st.1.push(c).len() implies !is_sep(
                #[trigger] st.1.push(c)[j],
            ) by {
                if j < st.1.len() {
                    assert(st.1.push(c)[j] == st.1[j]);
                }
            }
        }
    }
}

proof fn lemma_components_well_placed(p: Seq<char>)
    ensures
        well_placed(components(p)),
{
    let q = if has_drive(p) {
        p.skip(2)
    } else {
        p
    };
    lemma_seg_state_parts(q);
    let st = seg_state(q);
    let sg = segments(q);
    assert forall|i: int| 0 <= i < sg.len() implies !is_marker(#[trigger] sg[i]) by {
        if i < st.0.len() {
            assert(sg[i] == st.0[i]);
            assert(plain_part(st.0[i]));
            if st.0[i] == seq!['/'] {
                assert(is_sep(st.0[i][0]));
            }
        } else {
            assert(sg[i] == st.1);
            if st.1 == seq!['/'] {
                assert(is_sep(st.1[0]));
            }
        }
    }
    let c = components(p);
    assert(has_drive(p) ==> is_drive_comp(p.take(2)));
    assert forall|i: int| 0 <= i < c.len() && is_marker(#[trigger] c[i]) implies i == 0 || (i == 1
        && is_drive_comp(c[0])) by {
        let rc = rest_components(q);
        if has_drive(p) {
            assert(c[0] == p.take(2));
            if i >= 1 {
                assert(c[i] == rc[i - 1]);
                if q.len() > 0 && is_sep(q[0]) || lead_dot(q) {
                    if i >= 2 {
                        assert(rc[i - 1] == sg[i - 2]);
                    }
                } else {
                    assert(rc[i - 1] == sg[i - 1]);
                }
            }
        } else {
            if q.len() > 0 && is_sep(q[0]) || lead_dot(q) {
                if i >= 1 {
                    assert(c[i] == sg[i - 1]);
                }
            } else {
                assert(c[i] == sg[i]);
            }
        }
    }
}

proof fn lemma_resolve_len(cs: Seq<Seq<char>>)
    ensures
        resolve(cs).len() <= cs.len(),
    decreases cs.len(),
{
    if cs.len() > 0 {
        lemma_resolve_len(cs.drop_last());
    }
}

proof fn lemma_resolve_well_placed(cs: Seq<Seq<char>>)
    requires
        well_placed(cs),
    ensures
        well_placed(resolve(cs)),
    decreases cs.len(),
{
    if cs.len() > 0 {
        let d = cs.drop_last();
        assert forall|i: int| 0 <= i < d.len() && is_marker(#[trigger] d[i]) implies i == 0 || (i
            == 1 && is_drive_comp(d[0])) by {
            assert(d[i] == cs[i]);
        }
        lemma_resolve_well_placed(d);
        lemma_resolve_len(d);
        let r = resolve(d);
        let c = cs.last();
        if c == seq!['.', '.'] && can_climb(r) {
            let r2 = r.drop_last();
            assert forall|i: int| 0 <= i < r2.len() && is_marker(#[trigger] r2[i]) implies i == 0
                || (i == 1 && is_drive_comp(r2[0])) by {
                assert(r2[i] == r[i]);
                assert(r2[0] == r[0]);
            }
        } else {
            let r2 = r.push(c);
            assert forall|i: int| 0 <= i < r2.len() && is_marker(#[trigger] r2[i]) implies i == 0
                || (i == 1 && is_drive_comp(r2[0])) by {
                if i < r.len() {
                    assert(r2[i] == r[i]);
                    assert(r2[0] == r[0]);
                } else {
                    assert(r2[i] == cs[cs.len() - 1]);
                    let k = cs.len() - 1;
                    assert(is_marker(cs[k]));
                    if i == 1 {
                        assert(k == 1);
                        assert(d =~= seq![cs[0]]);
                        assert(d.drop_last() =~= Seq::<Seq<char>>::empty());
                        assert(r == seq![cs[0]]);
                        assert(r2[0] == cs[0]);
                    }
                }
            }
        }
    }
}

proof fn lemma_resolve_settled(cs: Seq<Seq<char>>)
    ensures
        settled(resolve(cs)),
    decreases cs.len(),
{
    if cs.len() > 0 {
        let d = cs.drop_last();
        lemma_resolve_settled(d);
        let r = resolve(d);
        let c = cs.last();
        if c == seq!['.', '.'] && can_climb(r) {
            let r2 = r.drop_last();
            assert forall|i: int| 0 <= i < r2.len() && #[trigger] r2[i] == seq!['.', '.'] implies !can_climb(
                r2.take(i),
            ) by {
                assert(r2[i] == r[i]);
                assert(r2.take(i) =~= r.take(i));
            }
        } else {
            let r2 = r.push(c);
            assert forall|i: int| 0 <= i < r2.len() && #[trigger] r2[i] == seq!['.', '.'] implies !can_climb(
                r2.take(i),
            ) by {
                if i < r.len() {
                    assert(r2[i] == r[i]);
                    assert(r2.take(i) =~= r.take(i));
                } else {
                    assert(r2.take(i) =~= r);
                }
            }
        }
    }
}

/// Resolving `..` leaves no `..` right after a name, and keeps root markers
/// and `.` at the front.
pub proof fn lemma_resolved_shape(p: Seq<char>)
    ensures
        settled(resolve(components(p))),
        well_placed(resolve(components(p))),
{
    lemma_components_well_placed(p);
    lemma_resolve_well_placed(components(p));
    lemma_resolve_settled(components(p));
}

/// Whether `p` lies under `base` once `..` is resolved in both.
pub fn resolved_starts_with(p: &str, base: &str) -> (res: bool)
    ensures
        res == resolved_within(p@, base@),
{
    let rp = resolved_components_of(p);
    let rb = resolved_components_of(base);
    texts_prefix(&rb, &rp)
}

// ---------------------------------------------------------------------------
// File names
// ---------------------------------------------------------------------------

/// `s` starts with a drive such as `C:`.
pub open spec fn has_drive(s: Seq<char>) -> bool {
    s.len() >= 2 && s[1] == ':' && (('a' <= s[0] <= 'z') || ('A' <= s[0] <= 'Z'))
}

/// `Path::new(s).file_name() == Some(s)`: `s` names exactly one entry of a
/// directory: not empty, no separator, no drive, not `.` or `..`.
pub open spec fn is_single_name(s: Seq<char>) -> bool {
    &&& s.len() > 0
    &&& forall|i: int| 0 <= i < s.len() ==> !is_sep(#[trigger] s[i])
    &&& !has_drive(s)
    &&& s != seq!['.']
    &&& s != seq!['.', '.']
}

pub fn single_name(s: &str) -> (res: bool)
    ensures
        res == is_single_name(s@),
{
    let v = chars_of(s);
    let n = v.len();
    if n == 0 {
        return false;
    }
    let mut i: usize = 0;
    while i < n
        invariant
            i <= n == v.len(),
            v@ == s@,
            forall|j: int| 0 <= j < i ==> !is_sep(v@[j]),
        decreases n - i,
    {
        if is_separator(v[i]) {
            return false;
        }
        i += 1;
    }
    if n >= 2 && v[1] == ':' && (('a' <= v[0] && v[0] <= 'z') || ('A' <= v[0] && v[0] <= 'Z')) {
        return false;
    }
    if n == 1 && v[0] == '.' {
        assert(v@ =~= seq!['.']);
        return false;
    }
    if n == 2 && v[0] == '.' && v[1] == '.' {
        assert(v@ =~= seq!['.', '.']);
        return false;
    }
    assert(s@ != seq!['.']) by {
        if n == 1 {
            assert(v@[0] != seq!['.'][0]);
        }
    }
    assert(s@ != seq!['.', '.']) by {
        if n == 2 {
            if v@[0] != '.' {
                assert(v@[0] != seq!['.', '.'][0]);
            } else {
                assert(v@[1] != seq!['.', '.'][1]);
            }
        }
    }
    true
}

/// The index of the last `.` before position `i`, or -1.
pub open spec fn last_dot_before(s: Seq<char>, i: int) -> int
    decreases i,
{
    if i <= 0 {
        -1
    } else if s[i - 1] == '.' {
        i - 1
    } else {
        last_dot_before(s, i - 1)
    }
}

/// `Path::extension` of a file name: what follows its last `.`, unless that
/// dot starts the name or the name is `..`.
pub open spec fn extension(s: Seq<char>) -> Option<Seq<char>> {
    let j = last_dot_before(s, s.len() as int);
    if j > 0 && s != seq!['.', '.'] {
        Some(s.skip(j + 1))
    } else {
        None
    }
}

/// Whether the extension of file name `s` is exactly `ext`.
pub fn has_extension(s: &str, ext: &str) -> (res: bool)
    ensures
        res == (extension(s@) == Some(ext@)),
{
    let v = chars_of(s);
    let mut i = v.len();
    while i > 0 && v[i - 1] != '.'
        invariant
            i <= v.len(),
            v@ == s@,
            last_dot_before(s@, s@.len() as int) == last_dot_before(s@, i as int),
        decreases i,
    {
        i -= 1;
    }
    if i <= 1 {
        return false;
    }
    if v.len() == 2 && v[0] == '.' && v[1] == '.' {
        assert(v@ =~= seq!['.', '.']);
        return false;
    }
    assert(s@ != seq!['.', '.']) by {
        if v.len() == 2 {
            if v@[0] != '.' {
                assert(v@[0] != seq!['.', '.'][0]);
            } else {
                assert(v@[1] != seq!['.', '.'][1]);
            }
        }
    }
    let tail = string_of(&v, i, v.len());
    assert(v@.subrange(i as int, v.len() as int) =~= s@.skip(i as int));
    crate::text::same_text(tail.as_str(), ext)
}

} // verus!
