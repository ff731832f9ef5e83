//! `git status --porcelain -z` and `git ls-files -z` parsing, and the rows of
//! the files panel: a flat list of changed files, or a folder tree.

use crate::event::{FilesMode, FilesRow, RowColor, RowKind};
use crate::text::{
    char_width, chars_of, contains_chars, contains_seq, lossy_string, lower_chars, lower_seq,
    push_char, push_range, push_str, str_width, unicode_char_width, unicode_str_width, utf8_lossy,
};
use vstd::prelude::*;

verus! {

/// One porcelain record: the two status letters and the work-tree path.
pub struct PorcelainEntry {
    pub xy: (char, char),
    pub path: String,
}

pub type EntryView = ((char, char), Seq<char>);

impl View for PorcelainEntry {
    type V = EntryView;

    open spec fn view(&self) -> EntryView {
        (self.xy, self.path@)
    }
}

pub open spec fn entries_view(v: Seq<PorcelainEntry>) -> Seq<EntryView> {
    v.map_values(|e: PorcelainEntry| e@)
}

impl PorcelainEntry {
    pub fn duplicate(&self) -> (r: PorcelainEntry)
        ensures
            r@ == self@,
    {
        PorcelainEntry { xy: self.xy, path: self.path.clone() }
    }
}

/// The row a spec speaks of: a `FilesRow` with its strings as characters.
pub struct RowView {
    pub path: Seq<char>,
    pub display: Seq<char>,
    pub xy: Seq<char>,
    pub kind: RowKind,
    pub color: RowColor,
    pub depth: int,
    pub expanded: Option<bool>,
}

impl View for FilesRow {
    type V = RowView;

    open spec fn view(&self) -> RowView {
        RowView {
            path: self.path@,
            display: self.display@,
            xy: self.xy@,
            kind: self.kind,
            color: self.color,
            depth: self.depth as int,
            expanded: self.expanded,
        }
    }
}

pub open spec fn rows_view(v: Seq<FilesRow>) -> Seq<RowView> {
    v.map_values(|r: FilesRow| r@)
}

impl FilesRow {
    pub fn duplicate(&self) -> (r: FilesRow)
        ensures
            r@ == self@,
    {
        FilesRow {
            path: self.path.clone(),
            display: self.display.clone(),
            xy: self.xy.clone(),
            kind: self.kind,
            color: self.color,
            depth: self.depth,
            expanded: self.expanded,
        }
    }
}

// ---------------------------------------------------------------- parsing

/// Index of the first NUL at or after `i`, or the length when there is none.
pub open spec fn nul_from(b: Seq<u8>, i: int) -> int
    decreases b.len() - i,
{
    if i < 0 || i >= b.len() {
        b.len() as int
    } else if b[i] == 0 {
        i
    } else {
        nul_from(b, i + 1)
    }
}

/// Where the next field starts after the NUL-terminated field at `i`.
pub open spec fn after_field(b: Seq<u8>, i: int) -> int {
    let e = nul_from(b, i);
    if e < b.len() {
        e + 1
    } else {
        b.len() as int
    }
}

pub proof fn lemma_nul_from(b: Seq<u8>, i: int)
    requires
        0 <= i <= b.len(),
    ensures
        i <= nul_from(b, i) <= b.len(),
        nul_from(b, i) < b.len() ==> b[nul_from(b, i)] == 0,
        forall|k: int| i <= k < nul_from(b, i) ==> b[k] != 0,
        i < after_field(b, i) || i == b.len(),
        after_field(b, i) <= b.len(),
    decreases b.len() - i,
{
    if i < b.len() && b[i] != 0 {
        lemma_nul_from(b, i + 1);
    }
}

/// Whether the bytes at `i` start like a porcelain record (`XY ` ...).
pub open spec fn looks_like_entry_at(b: Seq<u8>, i: int) -> bool {
    0 <= i && i + 3 <= b.len() && b[i + 2] == 32
}

/// The porcelain records from byte `p` on. Each is two status letters, an
/// optional space, and a NUL-terminated path; a rename or copy (`R`/`C`) is
/// followed by its source path unless what follows already looks like a
/// record. Records whose path decodes to nothing are dropped.
pub open spec fn porcelain_from(b: Seq<u8>, p: int) -> Seq<EntryView>
    decreases b.len() - p,
{
    if p < 0 || p + 3 > b.len() {
        Seq::empty()
    } else {
        let x = b[p] as char;
        let y = b[p + 1] as char;
        let q = if b[p + 2] == 32 {
            p + 3
        } else {
            p + 2
        };
        let next = after_field(b, q);
        let next2 = if (x == 'R' || x == 'C') && !looks_like_entry_at(b, next) && next
            < b.len() {
            after_field(b, next)
        } else {
            next
        };
        let path = utf8_lossy(b.subrange(q, nul_from(b, q)));
        proof {
            lemma_nul_from(b, q);
            if next < b.len() {
                lemma_nul_from(b, next);
            }
        }
        let tail = porcelain_from(b, next2);
        if path.len() > 0 {
            seq![((x, y), path)] + tail
        } else {
            tail
        }
    }
}

pub open spec fn porcelain_entries(b: Seq<u8>) -> Seq<EntryView> {
    porcelain_from(b, 0)
}

/// The NUL-separated paths from byte `p` on, empty fields dropped.
pub open spec fn ls_from(b: Seq<u8>, p: int) -> Seq<Seq<char>>
    decreases b.len() - p,
{
    if p < 0 || p >= b.len() {
        Seq::empty()
    } else {
        let e = nul_from(b, p);
        proof {
            lemma_nul_from(b, p);
        }
        let tail = ls_from(b, after_field(b, p));
        if e > p {
            seq![utf8_lossy(b.subrange(p, e))] + tail
        } else {
            tail
        }
    }
}

pub open spec fn ls_paths(b: Seq<u8>) -> Seq<Seq<char>> {
    ls_from(b, 0)
}

fn nul_index(b: &[u8], i: usize) -> (e: usize)
    requires
        i <= b@.len(),
    ensures
        e == nul_from(b@, i as int),
{
    proof {
        lemma_nul_from(b@, i as int);
    }
    let mut k = i;
    while k < b.len()
        invariant
            i <= k <= b@.len(),
            nul_from(b@, k as int) == nul_from(b@, i as int),
        decreases b.len() - k,
    {
        if b[k] == 0 {
            return k;
        }
        k = k + 1;
    }
    k
}

fn copy_range(b: &[u8], from: usize, to: usize) -> (v: Vec<u8>)
    requires
        from <= to <= b@.len(),
    ensures
        v@ == b@.subrange(from as int, to as int),
{
    let mut v: Vec<u8> = Vec::new();
    let mut k = from;
    while k < to
        invariant
            from <= k <= to <= b@.len(),
            v@ == b@.subrange(from as int, k as int),
        decreases to - k,
    {
        v.push(b[k]);
        assert(b@.subrange(from as int, k + 1) == b@.subrange(from as int, k as int).push(
            b@[k as int],
        ));
        k = k + 1;
    }
    v
}

/// Parses `git status --porcelain -z` output.
pub fn parse_porcelain(bytes: &[u8]) -> (v: Vec<PorcelainEntry>)
    ensures
        entries_view(v@) == porcelain_entries(bytes@),
{
    let ghost b = bytes@;
    let n = bytes.len();
    let mut out: Vec<PorcelainEntry> = Vec::new();
    let mut p: usize = 0;
    while n - p >= 3
        invariant
            n == b.len(),
            b == bytes@,
            p <= n,
            entries_view(out@) + porcelain_from(b, p as int) == porcelain_entries(b),
        decreases n - p,
    {
        let x = bytes[p] as char;
        let y = bytes[p + 1] as char;
        let q = if bytes[p + 2] == 32 {
            p + 3
        } else {
            p + 2
        };
        proof {
            lemma_nul_from(b, q as int);
        }
        let e = nul_index(bytes, q);
        let first = copy_range(bytes, q, e);
        let next = if e < n {
            e + 1
        } else {
            n
        };
        let looks = n - next >= 3 && bytes[next + 2] == 32;
        let next2 = if (x == 'R' || x == 'C') && !looks && next < n {
            proof {
                lemma_nul_from(b, next as int);
            }
            let e2 = nul_index(bytes, next);
            if e2 < n {
                e2 + 1
            } else {
                n
            }
        } else {
            next
        };
        let path = lossy_string(first.as_slice());
        let ghost tail = porcelain_from(b, next2 as int);
        assert(porcelain_from(b, p as int) == if path@.len() > 0 {
            seq![((x, y), path@)] + tail
        } else {
            tail
        });
        if path.unicode_len() > 0 {
            let ghost before = entries_view(out@);
            out.push(PorcelainEntry { xy: (x, y), path });
            assert(entries_view(out@) == before.push(((x, y), path@)));
            assert(before + (seq![((x, y), path@)] + tail) == before.push(((x, y), path@)) + tail);
        }
        p = next2;
    }
    assert(porcelain_from(b, p as int) == Seq::<EntryView>::empty());
    assert(entries_view(out@) + Seq::<EntryView>::empty() == entries_view(out@));
    out
}

/// Parses `git ls-files -z` output.
pub fn parse_ls_files(bytes: &[u8]) -> (v: Vec<String>)
    ensures
        v@.map_values(|s: String| s@) == ls_paths(bytes@),
{
    let ghost b = bytes@;
    let n = bytes.len();
    let mut out: Vec<String> = Vec::new();
    let mut p: usize = 0;
    while p < n
        invariant
            n == b.len(),
            b == bytes@,
            p <= n,
            out@.map_values(|s: String| s@) + ls_from(b, p as int) == ls_paths(b),
        decreases n - p,
    {
        proof {
            lemma_nul_from(b, p as int);
        }
        let e = nul_index(bytes, p);
        let next = if e < n {
            e + 1
        } else {
            n
        };
        let ghost tail = ls_from(b, next as int);
        if e > p {
            let field = copy_range(bytes, p, e);
            let path = lossy_string(field.as_slice());
            let ghost before = out@.map_values(|s: String| s@);
            out.push(path);
            assert(out@.map_values(|s: String| s@) == before.push(path@));
            assert(before + (seq![path@] + tail) == before.push(path@) + tail);
        }
        p = next;
    }
    assert(ls_from(b, p as int) == Seq::<Seq<char>>::empty());
    assert(out@.map_values(|s: String| s@) + Seq::<Seq<char>>::empty() == out@.map_values(
        |s: String| s@,
    ));
    out
}

// ---------------------------------------------------------- status letters

pub open spec fn staged_spec(xy: (char, char)) -> bool {
    xy.0 != ' ' && xy.0 != '?'
}

pub open spec fn untracked_spec(xy: (char, char)) -> bool {
    xy.0 == '?' && xy.1 == '?'
}

pub open spec fn unstaged_spec(xy: (char, char)) -> bool {
    untracked_spec(xy) || xy.1 != ' '
}

pub open spec fn in_head_spec(xy: (char, char)) -> bool {
    xy.0 != 'A' && !untracked_spec(xy)
}

pub open spec fn color_spec(xy: (char, char)) -> RowColor {
    if staged_spec(xy) && xy.1 != ' ' {
        RowColor::Both
    } else if staged_spec(xy) {
        RowColor::Staged
    } else {
        RowColor::Default
    }
}

/// Staged and also dirty in the work tree, staged only, or neither.
pub fn row_color(xy: (char, char)) -> (c: RowColor)
    ensures
        c == color_spec(xy),
{
    let staged = xy.0 != ' ' && xy.0 != '?';
    if staged && xy.1 != ' ' {
        RowColor::Both
    } else if staged {
        RowColor::Staged
    } else {
        RowColor::Default
    }
}

/// The work tree differs from the index (untracked counts).
pub fn has_unstaged(xy: (char, char)) -> (b: bool)
    ensures
        b == unstaged_spec(xy),
{
    (xy.0 == '?' && xy.1 == '?') || xy.1 != ' '
}

pub fn is_untracked(xy: (char, char)) -> (b: bool)
    ensures
        b == untracked_spec(xy),
{
    xy.0 == '?' && xy.1 == '?'
}

/// The path exists in HEAD: not added, not untracked.
pub fn is_in_head(xy: (char, char)) -> (b: bool)
    ensures
        b == in_head_spec(xy),
{
    xy.0 != 'A' && !(xy.0 == '?' && xy.1 == '?')
}

/// The index differs from HEAD.
pub fn has_staged(xy: (char, char)) -> (b: bool)
    ensures
        b == staged_spec(xy),
{
    xy.0 != ' ' && xy.0 != '?'
}

/// Status letters of the first porcelain record for `path`.
pub open spec fn xy_in(por: Seq<EntryView>, path: Seq<char>) -> Option<(char, char)>
    decreases por.len(),
{
    if por.len() == 0 {
        None
    } else if por[0].1 == path {
        Some(por[0].0)
    } else {
        xy_in(por.drop_first(), path)
    }
}

pub fn xy_of(porcelain: &Vec<PorcelainEntry>, path: &String) -> (r: Option<(char, char)>)
    ensures
        r == xy_in(entries_view(porcelain@), path@),
{
    let ghost ev = entries_view(porcelain@);
    let mut i: usize = 0;
    assert(ev.skip(0) == ev);
    while i < porcelain.len()
        invariant
            i <= porcelain.len(),
            ev == entries_view(porcelain@),
            xy_in(ev.skip(i as int), path@) == xy_in(ev, path@),
        decreases porcelain.len() - i,
    {
        assert(ev.skip(i as int).drop_first() == ev.skip(i + 1));
        if porcelain[i].path == *path {
            return Some(porcelain[i].xy);
        }
        i = i + 1;
    }
    None
}

// -------------------------------------------------------------- display

/// The search query matches a path: case-insensitive (ASCII) substring;
/// an empty query matches everything.
pub open spec fn filter_matches(path: Seq<char>, query: Seq<char>) -> bool {
    query.len() == 0 || contains_seq(lower_seq(path), lower_seq(query))
}

pub fn matches_filter(path: &str, query: &str) -> (b: bool)
    ensures
        b == filter_matches(path@, query@),
{
    if query.unicode_len() == 0 {
        return true;
    }
    let p = lower_chars(&chars_of(path));
    let q = lower_chars(&chars_of(query));
    contains_chars(&p, &q)
}

pub open spec fn width_or_zero(c: char) -> int {
    match unicode_char_width(c) {
        Some(w) => w as int,
        None => 0,
    }
}

/// How many leading characters of `t[i..]` fit in `width` columns when
/// `used` columns are already taken.
pub open spec fn fitting(t: Seq<char>, width: int, used: int, i: int) -> int
    decreases t.len() - i,
{
    if i < 0 || i >= t.len() {
        i
    } else if used + width_or_zero(t[i]) > width {
        i
    } else {
        fitting(t, width, used + width_or_zero(t[i]), i + 1)
    }
}

/// `t` cut to `width` columns: whole when it fits, else the longest prefix
/// whose characters fit.
pub open spec fn truncated(t: Seq<char>, width: int) -> Seq<char> {
    if unicode_str_width(t) <= width {
        t
    } else {
        t.take(fitting(t, width, 0, 0))
    }
}

/// Sum of the character widths of `t`.
pub open spec fn chars_width(t: Seq<char>) -> int
    decreases t.len(),
{
    if t.len() == 0 {
        0
    } else {
        chars_width(t.drop_last()) + width_or_zero(t.last())
    }
}

proof fn lemma_fitting(t: Seq<char>, width: int, used: int, i: int)
    requires
        0 <= i <= t.len(),
        used == chars_width(t.take(i)),
        used <= width,
    ensures
        i <= fitting(t, width, used, i) <= t.len(),
        chars_width(t.take(fitting(t, width, used, i))) <= width,
    decreases t.len() - i,
{
    if i < t.len() && used + width_or_zero(t[i]) <= width {
        assert(t.take(i + 1).drop_last() == t.take(i));
        lemma_fitting(t, width, used + width_or_zero(t[i]), i + 1);
    }
}

/// A truncated display is whole, or its characters fit the width.
pub proof fn law_truncated_fits(t: Seq<char>, width: int)
    requires
        width >= 0,
    ensures
        truncated(t, width) == t || chars_width(truncated(t, width)) <= width,
{
    assert(t.take(0) == Seq::<char>::empty());
    lemma_fitting(t, width, 0, 0);
}

/// Cuts `text` to `width` columns.
pub fn truncate(text: &str, width: usize) -> (r: String)
    ensures
        r@ == truncated(text@, width as int),
{
    if str_width(text) <= width {
        return text.to_owned();
    }
    let chars = chars_of(text);
    let mut out = String::new();
    let mut used: usize = 0;
    let mut i: usize = 0;
    while i < chars.len()
        invariant
            i <= chars.len(),
            chars@ == text@,
            used <= width,
            out@ == chars@.take(i as int),
            fitting(chars@, width as int, used as int, i as int) == fitting(
                chars@,
                width as int,
                0,
                0,
            ),
        ensures
            out@ == chars@.take(fitting(chars@, width as int, 0, 0)),
        decreases chars.len() - i,
    {
        let w = match char_width(chars[i]) {
            Some(w) => w,
            None => 0,
        };
        if w > width - used {
            break;
        }
        push_char(&mut out, chars[i]);
        assert(chars@.take(i + 1) == chars@.take(i as int).push(chars@[i as int]));
        used = used + w;
        i = i + 1;
    }
    out
}

/// The two status letters as a string.
pub fn xy_string(xy: (char, char)) -> (s: String)
    ensures
        s@ == seq![xy.0, xy.1],
{
    let mut s = String::new();
    push_char(&mut s, xy.0);
    push_char(&mut s, xy.1);
    s
}

pub const FLAT_SEPARATOR: char = ' ';

/// The flat-list row of a porcelain record.
pub open spec fn flat_row(e: EntryView, width: int) -> RowView {
    RowView {
        path: e.1,
        display: truncated(seq![e.0.0, e.0.1, ' '] + e.1, width),
        xy: seq![e.0.0, e.0.1],
        kind: RowKind::File,
        color: color_spec(e.0),
        depth: 0,
        expanded: None,
    }
}

/// Flat rows of the records whose paths match the query, in porcelain order.
pub open spec fn flat_rows(por: Seq<EntryView>, query: Seq<char>, width: int) -> Seq<RowView>
    decreases por.len(),
{
    if por.len() == 0 {
        Seq::empty()
    } else {
        let rest = flat_rows(por.drop_last(), query, width);
        if filter_matches(por.last().1, query) {
            rest.push(flat_row(por.last(), width))
        } else {
            rest
        }
    }
}

fn make_flat_row(e: &PorcelainEntry, width: usize) -> (r: FilesRow)
    ensures
        r@ == flat_row(e@, width as int),
{
    let mut label = xy_string(e.xy);
    push_char(&mut label, ' ');
    push_str(&mut label, e.path.as_str());
    assert(label@ == seq![e.xy.0, e.xy.1, ' '] + e.path@);
    FilesRow {
        path: e.path.clone(),
        display: truncate(label.as_str(), width),
        xy: xy_string(e.xy),
        kind: RowKind::File,
        color: row_color(e.xy),
        depth: 0,
        expanded: None,
    }
}

pub fn changed_flat_rows(porcelain: &Vec<PorcelainEntry>, query: &str, width: usize) -> (v: Vec<
    FilesRow,
>)
    ensures
        rows_view(v@) == flat_rows(entries_view(porcelain@), query@, width as int),
{
    let ghost ev = entries_view(porcelain@);
    let mut out: Vec<FilesRow> = Vec::new();
    let mut i: usize = 0;
    while i < porcelain.len()
        invariant
            i <= porcelain.len(),
            ev == entries_view(porcelain@),
            rows_view(out@) == flat_rows(ev.take(i as int), query@, width as int),
        decreases porcelain.len() - i,
    {
        assert(ev.take(i + 1).drop_last() == ev.take(i as int));
        if matches_filter(porcelain[i].path.as_str(), query) {
            let r = make_flat_row(&porcelain[i], width);
            out.push(r);
            assert(rows_view(out@) =~= rows_view(out@).drop_last().push(r@));
        }
        i = i + 1;
    }
    assert(ev.take(porcelain.len() as int) == ev);
    out
}

} // verus!

verus! {

// ------------------------------------------------------------------ tree

/// A node of the folder tree: a directory or a file, with its children.
pub struct Node {
    pub name: String,
    pub path: String,
    pub dir: bool,
    pub xy: Option<(char, char)>,
    pub children: Vec<Node>,
}

pub struct NodeView {
    pub name: Seq<char>,
    pub path: Seq<char>,
    pub dir: bool,
    pub xy: Option<(char, char)>,
    pub children: Seq<NodeView>,
}

pub open spec fn node_view(n: Node) -> NodeView
    decreases n,
{
    NodeView {
        name: n.name@,
        path: n.path@,
        dir: n.dir,
        xy: n.xy,
        children: nodes_view(n.children@),
    }
}

pub open spec fn nodes_view(s: Seq<Node>) -> Seq<NodeView>
    decreases s,
{
    if s.len() == 0 {
        Seq::empty()
    } else {
        nodes_view(s.drop_last()).push(node_view(s.last()))
    }
}

} // verus!

verus! {

pub proof fn lemma_nodes_view(s: Seq<Node>)
    ensures
        nodes_view(s) == s.map_values(|n: Node| node_view(n)),
    decreases s.len(),
{
    if s.len() > 0 {
        lemma_nodes_view(s.drop_last());
        assert(s.map_values(|n: Node| node_view(n)) =~= s.drop_last().map_values(
            |n: Node| node_view(n),
        ).push(node_view(s.last())));
    } else {
        assert(s.map_values(|n: Node| node_view(n)) =~= Seq::<NodeView>::empty());
    }
}

// ----------------------------------------------------------- path parts

/// Components of a path seen so far, and the component being read.
pub open spec fn parts_state(s: Seq<char>) -> (Seq<Seq<char>>, Seq<char>)
    decreases s.len(),
{
    if s.len() == 0 {
        (Seq::empty(), Seq::empty())
    } else {
        let prev = parts_state(s.drop_last());
        if s.last() == '/' {
            (
                if prev.1.len() > 0 {
                    prev.0.push(prev.1)
                } else {
                    prev.0
                },
                Seq::empty(),
            )
        } else {
            (prev.0, prev.1.push(s.last()))
        }
    }
}

/// The non-empty `/`-separated components of a path.
pub open spec fn path_parts(s: Seq<char>) -> Seq<Seq<char>> {
    let st = parts_state(s);
    if st.1.len() > 0 {
        st.0.push(st.1)
    } else {
        st.0
    }
}

/// Components joined with `/`.
pub open spec fn join_slash(parts: Seq<Seq<char>>) -> Seq<char>
    decreases parts.len(),
{
    if parts.len() == 0 {
        Seq::empty()
    } else if parts.len() == 1 {
        parts[0]
    } else {
        join_slash(parts.drop_last()) + seq!['/'] + parts.last()
    }
}

pub fn split_path(path: &str) -> (v: Vec<String>)
    ensures
        v@.map_values(|s: String| s@) == path_parts(path@),
{
    let chars = chars_of(path);
    let mut done: Vec<String> = Vec::new();
    let mut cur = String::new();
    let mut cur_len: usize = 0;
    let mut i: usize = 0;
    while i < chars.len()
        invariant
            i <= chars.len(),
            chars@ == path@,
            done@.map_values(|s: String| s@) == parts_state(chars@.take(i as int)).0,
            cur@ == parts_state(chars@.take(i as int)).1,
            cur_len == cur@.len(),
            cur_len <= i,
        decreases chars.len() - i,
    {
        assert(chars@.take(i + 1).drop_last() == chars@.take(i as int));
        if chars[i] == '/' {
            if cur_len > 0 {
                let ghost before = done@.map_values(|s: String| s@);
                done.push(cur);
                assert(done@.map_values(|s: String| s@) =~= before.push(
                    parts_state(chars@.take(i as int)).1,
                ));
            }
            cur = String::new();
            cur_len = 0;
        } else {
            push_char(&mut cur, chars[i]);
            cur_len = cur_len + 1;
        }
        i = i + 1;
    }
    assert(chars@.take(chars.len() as int) == path@);
    if cur_len > 0 {
        let ghost before = done@.map_values(|s: String| s@);
        done.push(cur);
        assert(done@.map_values(|s: String| s@) =~= before.push(parts_state(path@).1));
    }
    done
}

/// `parts[..n]` joined with `/`.
fn join_prefix(parts: &Vec<String>, n: usize) -> (s: String)
    requires
        n <= parts.len(),
    ensures
        s@ == join_slash(parts@.map_values(|p: String| p@).take(n as int)),
{
    let ghost pv = parts@.map_values(|p: String| p@);
    let mut s = String::new();
    let mut i: usize = 0;
    assert(pv.take(0) =~= Seq::<Seq<char>>::empty());
    while i < n
        invariant
            i <= n <= parts.len(),
            pv == parts@.map_values(|p: String| p@),
            s@ == join_slash(pv.take(i as int)),
        decreases n - i,
    {
        assert(pv.take(i + 1).drop_last() == pv.take(i as int));
        if i > 0 {
            push_char(&mut s, '/');
        }
        push_str(&mut s, parts[i].as_str());
        if i == 0 {
            assert(s@ =~= join_slash(pv.take(1)));
        }
        i = i + 1;
    }
    s
}

// ------------------------------------------------------------- inserting

/// Index of the first of `s[i..]` named `name`, or -1.
pub open spec fn find_child(s: Seq<NodeView>, name: Seq<char>, i: int) -> int
    decreases s.len() - i,
{
    if i < 0 || i >= s.len() {
        -1
    } else if s[i].name == name {
        i
    } else {
        find_child(s, name, i + 1)
    }
}

proof fn lemma_find_child(s: Seq<NodeView>, name: Seq<char>, i: int)
    requires
        0 <= i <= s.len(),
    ensures
        find_child(s, name, i) == -1 || (i <= find_child(s, name, i) < s.len() && s[find_child(
            s,
            name,
            i,
        )].name == name),
    decreases s.len() - i,
{
    if i < s.len() && s[i].name != name {
        lemma_find_child(s, name, i + 1);
    }
}

/// The tree with the path `parts` (from component `at` on) added under
/// `n`: a component that exists is reused and its kind follows its role in
/// this path; a missing one is appended. The last component is the file and
/// carries `xy`.
pub open spec fn insert_spec(n: NodeView, parts: Seq<Seq<char>>, at: int, xy: Option<
    (char, char),
>) -> NodeView
    decreases parts.len() - at,
{
    if at < 0 || at >= parts.len() {
        n
    } else {
        let name = parts[at];
        let last = at + 1 == parts.len();
        let k = find_child(n.children, name, 0);
        if 0 <= k < n.children.len() {
            let child = n.children[k];
            let updated = if last {
                NodeView { dir: false, xy: xy, ..child }
            } else {
                insert_spec(NodeView { dir: true, ..child }, parts, at + 1, xy)
            };
            NodeView { children: n.children.update(k, updated), ..n }
        } else {
            let fresh = NodeView {
                name: name,
                path: join_slash(parts.take(at + 1)),
                dir: !last,
                xy: if last {
                    xy
                } else {
                    None
                },
                children: Seq::empty(),
            };
            let added = if last {
                fresh
            } else {
                insert_spec(fresh, parts, at + 1, xy)
            };
            NodeView { children: n.children.push(added), ..n }
        }
    }
}

fn find_child_index(children: &Vec<Node>, name: &String) -> (r: Option<usize>)
    ensures
        match r {
            Some(k) => k as int == find_child(nodes_view(children@), name@, 0),
            None => find_child(nodes_view(children@), name@, 0) == -1,
        },
{
    let ghost cv = nodes_view(children@);
    proof {
        lemma_nodes_view(children@);
    }
    let mut i: usize = 0;
    while i < children.len()
        invariant
            i <= children.len(),
            cv == nodes_view(children@),
            cv == children@.map_values(|n: Node| node_view(n)),
            find_child(cv, name@, i as int) == find_child(cv, name@, 0),
        decreases children.len() - i,
    {
        if children[i].name == *name {
            return Some(i);
        }
        i = i + 1;
    }
    None
}

fn insert_parts(node: &mut Node, parts: &Vec<String>, at: usize, xy: Option<(char, char)>)
    requires
        at <= parts.len(),
    ensures
        node_view(*final(node)) == insert_spec(
            node_view(*old(node)),
            parts@.map_values(|p: String| p@),
            at as int,
            xy,
        ),
    decreases parts.len() - at,
{
    let ghost pv = parts@.map_values(|p: String| p@);
    if at >= parts.len() {
        return;
    }
    let last = at + 1 == parts.len();
    proof {
        lemma_nodes_view(node.children@);
        lemma_find_child(nodes_view(node.children@), pv[at as int], 0);
    }
    match find_child_index(&node.children, &parts[at]) {
        Some(k) => {
            let ghost before = node.children@;
            let mut child = node.children.remove(k);
            if last {
                child.dir = false;
                child.xy = xy;
            } else {
                child.dir = true;
                insert_parts(&mut child, parts, at + 1, xy);
            }
            node.children.insert(k, child);
            proof {
                assert(node.children@ =~= before.update(k as int, child));
                lemma_nodes_view(node.children@);
                lemma_nodes_view(before);
                assert(nodes_view(node.children@) =~= nodes_view(before).update(
                    k as int,
                    node_view(child),
                ));
            }
        },
        None => {
            let path = join_prefix(parts, at + 1);
            let mut child = Node {
                name: parts[at].clone(),
                path,
                dir: !last,
                xy: if last {
                    xy
                } else {
                    None
                },
                children: Vec::new(),
            };
            proof {
                assert(nodes_view(child.children@) =~= Seq::<NodeView>::empty());
            }
            if !last {
                insert_parts(&mut child, parts, at + 1, xy);
            }
            let ghost before = node.children@;
            node.children.push(child);
            proof {
                lemma_nodes_view(node.children@);
                lemma_nodes_view(before);
                assert(nodes_view(node.children@) =~= nodes_view(before).push(node_view(child)));
            }
        },
    }
}

} // verus!

verus! {

// --------------------------------------------------------------- sorting

/// Strict lexicographic order on characters (that of `String` comparison).
pub open spec fn seq_less(a: Seq<char>, b: Seq<char>) -> bool
    decreases a.len(),
{
    if a.len() == 0 {
        b.len() > 0
    } else if b.len() == 0 {
        false
    } else if a[0] != b[0] {
        (a[0] as u32) < (b[0] as u32)
    } else {
        seq_less(a.drop_first(), b.drop_first())
    }
}

/// Sibling order: folders before files, then names A to Z.
pub open spec fn node_before(a: NodeView, b: NodeView) -> bool {
    (a.dir && !b.dir) || (a.dir == b.dir && seq_less(a.name, b.name))
}

/// Index of the first of `s[i..]` that `n` goes before, or the length.
pub open spec fn slot_from(s: Seq<NodeView>, n: NodeView, i: int) -> int
    decreases s.len() - i,
{
    if i < 0 || i >= s.len() {
        s.len() as int
    } else if node_before(n, s[i]) {
        i
    } else {
        slot_from(s, n, i + 1)
    }
}

/// `n` placed before the first element it goes before (so after equals).
pub open spec fn insert_sorted(s: Seq<NodeView>, n: NodeView) -> Seq<NodeView> {
    let j = slot_from(s, n, 0);
    s.take(j).push(n) + s.skip(j)
}

/// The stable sort of siblings.
pub open spec fn sort_siblings(s: Seq<NodeView>) -> Seq<NodeView>
    decreases s.len(),
{
    if s.len() == 0 {
        s
    } else {
        insert_sorted(sort_siblings(s.drop_last()), s.last())
    }
}

/// The tree with every node's children in sibling order.
pub open spec fn sorted_tree(n: NodeView) -> NodeView
    decreases n,
{
    NodeView { children: sort_siblings(sort_each(n.children)), ..n }
}

pub open spec fn sort_each(s: Seq<NodeView>) -> Seq<NodeView>
    decreases s,
{
    if s.len() == 0 {
        s
    } else {
        sort_each(s.drop_last()).push(sorted_tree(s.last()))
    }
}

proof fn lemma_sort_each(s: Seq<NodeView>)
    ensures
        sort_each(s).len() == s.len(),
        forall|k: int| 0 <= k < s.len() ==> #[trigger] sort_each(s)[k] == sorted_tree(s[k]),
    decreases s.len(),
{
    if s.len() > 0 {
        lemma_sort_each(s.drop_last());
    }
}

proof fn lemma_slot_from(s: Seq<NodeView>, n: NodeView, i: int)
    requires
        0 <= i <= s.len(),
    ensures
        i <= slot_from(s, n, i) <= s.len(),
    decreases s.len() - i,
{
    if i < s.len() && !node_before(n, s[i]) {
        lemma_slot_from(s, n, i + 1);
    }
}

fn name_less(a: &String, b: &String) -> (r: bool)
    ensures
        r == seq_less(a@, b@),
{
    let x = chars_of(a.as_str());
    let y = chars_of(b.as_str());
    let mut i: usize = 0;
    assert(x@.skip(0) == x@ && y@.skip(0) == y@);
    while i < x.len() && i < y.len()
        invariant
            x@ == a@,
            y@ == b@,
            i <= x.len(),
            i <= y.len(),
            seq_less(x@.skip(i as int), y@.skip(i as int)) == seq_less(a@, b@),
        decreases x.len() - i,
    {
        if x[i] != y[i] {
            assert(x@.skip(i as int)[0] == x@[i as int]);
            assert(y@.skip(i as int)[0] == y@[i as int]);
            return (x[i] as u32) < (y[i] as u32);
        }
        assert(x@.skip(i as int).drop_first() == x@.skip(i + 1));
        assert(y@.skip(i as int).drop_first() == y@.skip(i + 1));
        i = i + 1;
    }
    i == x.len() && i < y.len()
}

fn goes_before(a: &Node, b: &Node) -> (r: bool)
    ensures
        r == node_before(node_view(*a), node_view(*b)),
{
    (a.dir && !b.dir) || (a.dir == b.dir && name_less(&a.name, &b.name))
}

fn insert_in_order(out: &mut Vec<Node>, n: Node)
    ensures
        nodes_view(final(out)@) == insert_sorted(nodes_view(old(out)@), node_view(n)),
{
    let ghost s = nodes_view(out@);
    proof {
        lemma_nodes_view(out@);
        lemma_slot_from(s, node_view(n), 0);
    }
    let mut j: usize = 0;
    while j < out.len()
        invariant
            j <= out.len(),
            s == nodes_view(out@),
            s == out@.map_values(|m: Node| node_view(m)),
            slot_from(s, node_view(n), j as int) == slot_from(s, node_view(n), 0),
        ensures
            slot_from(s, node_view(n), 0) == j,
            j <= out.len(),
        decreases out.len() - j,
    {
        if goes_before(&n, &out[j]) {
            break;
        }
        j = j + 1;
    }
    let ghost before = out@;
    out.insert(j, n);
    proof {
        lemma_nodes_view(out@);
        assert(out@ =~= before.take(j as int).push(n) + before.skip(j as int));
        assert(out@.map_values(|m: Node| node_view(m)) =~= s.take(j as int).push(node_view(n))
            + s.skip(j as int));
    }
}

fn sort_nodes(v: Vec<Node>) -> (r: Vec<Node>)
    ensures
        nodes_view(r@) == sort_siblings(nodes_view(v@)),
{
    let ghost orig = v@;
    let ghost ov = nodes_view(orig);
    proof {
        lemma_nodes_view(orig);
    }
    let mut src = v;
    let total = src.len();
    let mut out: Vec<Node> = Vec::new();
    let mut i: usize = 0;
    proof {
        assert(ov.take(0) =~= Seq::<NodeView>::empty());
        assert(nodes_view(out@) =~= Seq::<NodeView>::empty());
    }
    while src.len() > 0
        invariant
            ov == orig.map_values(|m: Node| node_view(m)),
            i <= orig.len(),
            src@ == orig.skip(i as int),
            src.len() + i == orig.len(),
            orig.len() == total,
            nodes_view(out@) == sort_siblings(ov.take(i as int)),
        decreases src.len(),
    {
        assert(i < orig.len());
        let n = src.remove(0);
        proof {
            assert(n == orig[i as int]);
            assert(ov.take(i + 1).drop_last() == ov.take(i as int));
            assert(src@ =~= orig.skip(i + 1));
        }
        insert_in_order(&mut out, n);
        i = i + 1;
    }
    proof {
        assert(ov.take(i as int) == ov);
    }
    out
}

fn sort_tree(node: &mut Node)
    ensures
        node_view(*final(node)) == sorted_tree(node_view(*old(node))),
    decreases *old(node),
{
    let n = node.children.len();
    let ghost oc = old(node).children@;
    let mut i: usize = 0;
    while i < n
        invariant
            i <= n,
            n == node.children.len(),
            n == oc.len(),
            oc == old(node).children@,
            node.name == old(node).name,
            node.path == old(node).path,
            node.dir == old(node).dir,
            node.xy == old(node).xy,
            forall|k: int| i <= k < n ==> node.children@[k] == oc[k],
            forall|k: int|
                0 <= k < i ==> node_view(#[trigger] node.children@[k]) == sorted_tree(
                    node_view(oc[k]),
                ),
        decreases n - i,
    {
        proof {
            let ghost o = *old(node);
            assert(decreases_to!(o => o.children));
            assert(decreases_to!(o.children => o.children@));
            assert(decreases_to!(o.children@ => o.children@[i as int]));
        }
        sort_tree(&mut node.children[i]);
        i = i + 1;
    }
    let mut kids: Vec<Node> = Vec::new();
    std::mem::swap(&mut kids, &mut node.children);
    proof {
        lemma_nodes_view(kids@);
        lemma_nodes_view(oc);
        lemma_sort_each(nodes_view(oc));
        assert(nodes_view(kids@) =~= sort_each(nodes_view(oc)));
    }
    node.children = sort_nodes(kids);
}

// -------------------------------------------------------------- building

/// The tree before sorting: each path added in turn to an empty root.
pub open spec fn grown_tree(paths: Seq<(Seq<char>, Option<(char, char)>)>) -> NodeView
    decreases paths.len(),
{
    if paths.len() == 0 {
        NodeView {
            name: Seq::empty(),
            path: Seq::empty(),
            dir: true,
            xy: None,
            children: Seq::empty(),
        }
    } else {
        insert_spec(grown_tree(paths.drop_last()), path_parts(paths.last().0), 0, paths.last().1)
    }
}

pub open spec fn built_tree(paths: Seq<(Seq<char>, Option<(char, char)>)>) -> NodeView {
    sorted_tree(grown_tree(paths))
}

pub open spec fn paths_view(v: Seq<(String, Option<(char, char)>)>) -> Seq<
    (Seq<char>, Option<(char, char)>),
> {
    v.map_values(|p: (String, Option<(char, char)>)| (p.0@, p.1))
}

fn build_tree(paths: &Vec<(String, Option<(char, char)>)>) -> (root: Node)
    ensures
        node_view(root) == built_tree(paths_view(paths@)),
{
    let ghost pv = paths_view(paths@);
    let mut root = Node {
        name: String::new(),
        path: String::new(),
        dir: true,
        xy: None,
        children: Vec::new(),
    };
    proof {
        assert(nodes_view(root.children@) =~= Seq::<NodeView>::empty());
        assert(pv.take(0) =~= Seq::<(Seq<char>, Option<(char, char)>)>::empty());
    }
    let mut i: usize = 0;
    while i < paths.len()
        invariant
            i <= paths.len(),
            pv == paths_view(paths@),
            node_view(root) == grown_tree(pv.take(i as int)),
        decreases paths.len() - i,
    {
        let parts = split_path(paths[i].0.as_str());
        insert_parts(&mut root, &parts, 0, paths[i].1);
        assert(pv.take(i + 1).drop_last() == pv.take(i as int));
        i = i + 1;
    }
    assert(pv.take(paths.len() as int) == pv);
    sort_tree(&mut root);
    root
}

// --------------------------------------------------------------- walking

pub open spec fn indent(depth: int) -> Seq<char> {
    Seq::new((2 * depth) as nat, |i: int| ' ')
}

/// One deeper, held at the largest `usize`.
pub open spec fn next_depth(depth: int) -> int {
    if depth < usize::MAX {
        depth + 1
    } else {
        depth
    }
}

pub open spec fn dir_row(n: NodeView, depth: int, expanded: bool, width: int) -> RowView {
    RowView {
        path: n.path,
        display: truncated(indent(depth) + n.name + seq!['/'], width),
        xy: seq![' ', ' '],
        kind: RowKind::Directory,
        color: RowColor::Default,
        depth: depth,
        expanded: Some(expanded),
    }
}

pub open spec fn node_xy(n: NodeView) -> (char, char) {
    match n.xy {
        Some(xy) => xy,
        None => (' ', ' '),
    }
}

pub open spec fn file_row(n: NodeView, depth: int, width: int) -> RowView {
    RowView {
        path: n.path,
        display: truncated(
            indent(depth) + seq![node_xy(n).0, node_xy(n).1, ' '] + n.name,
            width,
        ),
        xy: seq![node_xy(n).0, node_xy(n).1],
        kind: RowKind::File,
        color: color_spec(node_xy(n)),
        depth: depth,
        expanded: None,
    }
}

/// A node shows when its path matches the query or a descendant's does.
pub open spec fn node_visible(n: NodeView, query: Seq<char>) -> bool
    decreases n,
{
    filter_matches(n.path, query) || any_visible(n.children, query)
}

pub open spec fn any_visible(s: Seq<NodeView>, query: Seq<char>) -> bool
    decreases s,
{
    s.len() > 0 && (any_visible(s.drop_last(), query) || node_visible(s.last(), query))
}

/// Rows of a node and, when it is an expanded folder, of its children.
pub open spec fn walk_rows(
    n: NodeView,
    depth: int,
    collapsed: Seq<Seq<char>>,
    query: Seq<char>,
    width: int,
) -> Seq<RowView>
    decreases n,
{
    if !node_visible(n, query) {
        Seq::empty()
    } else if n.dir {
        let expanded = !collapsed.contains(n.path);
        seq![dir_row(n, depth, expanded, width)] + if expanded {
            walk_all(n.children, next_depth(depth), collapsed, query, width)
        } else {
            Seq::empty()
        }
    } else {
        seq![file_row(n, depth, width)]
    }
}

pub open spec fn walk_all(
    s: Seq<NodeView>,
    depth: int,
    collapsed: Seq<Seq<char>>,
    query: Seq<char>,
    width: int,
) -> Seq<RowView>
    decreases s,
{
    if s.len() == 0 {
        Seq::empty()
    } else {
        walk_all(s.drop_last(), depth, collapsed, query, width) + walk_rows(
            s.last(),
            depth,
            collapsed,
            query,
            width,
        )
    }
}

pub open spec fn strings_view(v: Seq<String>) -> Seq<Seq<char>> {
    v.map_values(|s: String| s@)
}

/// Whether `v` holds a string equal to `s`.
pub fn contains_string(v: &Vec<String>, s: &String) -> (b: bool)
    ensures
        b == strings_view(v@).contains(s@),
{
    let mut i: usize = 0;
    while i < v.len()
        invariant
            i <= v.len(),
            forall|k: int| 0 <= k < i ==> v@[k]@ != s@,
        decreases v.len() - i,
    {
        if v[i] == *s {
            assert(strings_view(v@)[i as int] == s@);
            return true;
        }
        i = i + 1;
    }
    assert forall|k: int| 0 <= k < strings_view(v@).len() implies strings_view(v@)[k] != s@ by {}
    false
}

fn visible(node: &Node, query: &str) -> (b: bool)
    ensures
        b == node_visible(node_view(*node), query@),
    decreases *node,
{
    if matches_filter(node.path.as_str(), query) {
        return true;
    }
    let ghost cv = nodes_view(node.children@);
    proof {
        lemma_nodes_view(node.children@);
        assert(cv.take(0) =~= Seq::<NodeView>::empty());
    }
    let mut i: usize = 0;
    while i < node.children.len()
        invariant
            i <= node.children.len(),
            cv == nodes_view(node.children@),
            cv == node.children@.map_values(|m: Node| node_view(m)),
            !any_visible(cv.take(i as int), query@),
        decreases node.children.len() - i,
    {
        proof {
            assert(decreases_to!(*node => node.children));
            assert(decreases_to!(node.children => node.children@));
            assert(decreases_to!(node.children@ => node.children@[i as int]));
            assert(cv.take(i + 1).drop_last() == cv.take(i as int));
        }
        if visible(&node.children[i], query) {
            proof {
                assert(cv.take(i + 1).last() == cv[i as int]);
                assert(any_visible(cv.take(i + 1), query@));
                lemma_any_visible_prefix(cv, query@, i + 1);
            }
            return true;
        }
        i = i + 1;
    }
    assert(cv.take(i as int) == cv);
    false
}

proof fn lemma_any_visible_prefix(s: Seq<NodeView>, query: Seq<char>, i: int)
    requires
        0 <= i <= s.len(),
        any_visible(s.take(i), query),
    ensures
        any_visible(s, query),
    decreases s.len() - i,
{
    if i < s.len() {
        assert(s.take(i + 1).drop_last() == s.take(i));
        lemma_any_visible_prefix(s, query, i + 1);
    } else {
        assert(s.take(i) == s);
    }
}

fn indent_string(depth: usize) -> (s: String)
    ensures
        s@ == indent(depth as int),
{
    let mut s = String::new();
    let mut i: usize = 0;
    while i < depth
        invariant
            i <= depth,
            s@ == indent(i as int),
        decreases depth - i,
    {
        push_char(&mut s, ' ');
        push_char(&mut s, ' ');
        assert(s@ =~= indent(i + 1));
        i = i + 1;
    }
    s
}

fn walk(
    node: &Node,
    depth: usize,
    collapsed: &Vec<String>,
    query: &str,
    width: usize,
    rows: &mut Vec<FilesRow>,
)
    ensures
        rows_view(final(rows)@) == rows_view(old(rows)@) + walk_rows(
            node_view(*node),
            depth as int,
            strings_view(collapsed@),
            query@,
            width as int,
        ),
    decreases *node,
{
    let ghost nv = node_view(*node);
    let ghost cl = strings_view(collapsed@);
    if !visible(node, query) {
        assert(rows_view(rows@) =~= rows_view(rows@) + Seq::<RowView>::empty());
        return ;
    }
    if node.dir {
        let expanded = !contains_string(collapsed, &node.path);
        let mut label = indent_string(depth);
        push_str(&mut label, node.name.as_str());
        push_char(&mut label, '/');
        assert(label@ =~= indent(depth as int) + node.name@ + seq!['/']);
        let row = FilesRow {
            path: node.path.clone(),
            display: truncate(label.as_str(), width),
            xy: xy_string((' ', ' ')),
            kind: RowKind::Directory,
            color: RowColor::Default,
            depth,
            expanded: Some(expanded),
        };
        let ghost base = rows_view(rows@);
        rows.push(row);
        proof {
            assert(rows_view(rows@) =~= base.push(dir_row(nv, depth as int, expanded, width as int)));
        }
        if expanded {
            let next: usize = if depth < usize::MAX {
                depth + 1
            } else {
                depth
            };
            let ghost cv = nodes_view(node.children@);
            let ghost start = rows_view(rows@);
            proof {
                lemma_nodes_view(node.children@);
                assert(cv.take(0) =~= Seq::<NodeView>::empty());
                assert(start =~= start + walk_all(cv.take(0), next as int, cl, query@, width as int));
            }
            let mut i: usize = 0;
            while i < node.children.len()
                invariant
                    i <= node.children.len(),
                    cv == nodes_view(node.children@),
                    cv == node.children@.map_values(|m: Node| node_view(m)),
                    cl == strings_view(collapsed@),
                    rows_view(rows@) == start + walk_all(
                        cv.take(i as int),
                        next as int,
                        cl,
                        query@,
                        width as int,
                    ),
                decreases node.children.len() - i,
            {
                proof {
                    assert(decreases_to!(*node => node.children));
                    assert(decreases_to!(node.children => node.children@));
                    assert(decreases_to!(node.children@ => node.children@[i as int]));
                    assert(cv.take(i + 1).drop_last() == cv.take(i as int));
                }
                walk(&node.children[i], next, collapsed, query, width, rows);
                proof {
                    assert(cv.take(i + 1).last() == cv[i as int]);
                }
                i = i + 1;
            }
            proof {
                assert(cv.take(i as int) == cv);
            }
        } else {
            assert(rows_view(rows@) =~= base + (seq![dir_row(nv, depth as int, expanded, width as int)]
                + Seq::<RowView>::empty()));
        }
    } else {
        let xy = match node.xy {
            Some(xy) => xy,
            None => (' ', ' '),
        };
        let mut label = indent_string(depth);
        push_char(&mut label, xy.0);
        push_char(&mut label, xy.1);
        push_char(&mut label, ' ');
        push_str(&mut label, node.name.as_str());
        proof {
            assert(label@ =~= indent(depth as int) + seq![xy.0, xy.1, ' '] + node.name@);
        }
        let row = FilesRow {
            path: node.path.clone(),
            display: truncate(label.as_str(), width),
            xy: xy_string(xy),
            kind: RowKind::File,
            color: row_color(xy),
            depth,
            expanded: None,
        };
        let ghost base = rows_view(rows@);
        rows.push(row);
        proof {
            assert(rows_view(rows@) =~= base.push(file_row(nv, depth as int, width as int)));
        }
    }
}

} // verus!

verus! {

// ------------------------------------------------------------ the panel

/// Rows of a folder tree built from `paths`: the root's children, depth 0.
pub open spec fn tree_rows(
    paths: Seq<(Seq<char>, Option<(char, char)>)>,
    collapsed: Seq<Seq<char>>,
    query: Seq<char>,
    width: int,
) -> Seq<RowView> {
    walk_all(built_tree(paths).children, 0, collapsed, query, width)
}

/// Each string once, at its first occurrence.
pub open spec fn dedup(s: Seq<Seq<char>>) -> Seq<Seq<char>>
    decreases s.len(),
{
    if s.len() == 0 {
        s
    } else {
        let d = dedup(s.drop_last());
        if d.contains(s.last()) {
            d
        } else {
            d.push(s.last())
        }
    }
}

pub open spec fn entry_paths(por: Seq<EntryView>) -> Seq<Seq<char>> {
    por.map_values(|e: EntryView| e.1)
}

/// The tree inputs of the changed-files tree: each record with its letters.
pub open spec fn changed_paths(por: Seq<EntryView>) -> Seq<(Seq<char>, Option<(char, char)>)> {
    por.map_values(|e: EntryView| (e.1, Some(e.0)))
}

/// The tree inputs of the all-files tree: `ls-files` and porcelain paths,
/// each once, with the letters of its first porcelain record.
pub open spec fn all_paths(ls: Seq<Seq<char>>, por: Seq<EntryView>) -> Seq<
    (Seq<char>, Option<(char, char)>),
> {
    dedup(ls + entry_paths(por)).map_values(|p: Seq<char>| (p, xy_in(por, p)))
}

/// The files panel in each mode.
pub open spec fn panel_rows(
    por: Seq<EntryView>,
    ls: Seq<Seq<char>>,
    mode: FilesMode,
    collapsed: Seq<Seq<char>>,
    query: Seq<char>,
    width: int,
) -> Seq<RowView> {
    match mode {
        FilesMode::ChangedFlat => flat_rows(por, query, width),
        FilesMode::ChangedTree => tree_rows(changed_paths(por), collapsed, query, width),
        FilesMode::AllTree => tree_rows(all_paths(ls, por), collapsed, query, width),
    }
}

fn flatten_tree(root: &Node, collapsed: &Vec<String>, query: &str, width: usize) -> (rows: Vec<
    FilesRow,
>)
    ensures
        rows_view(rows@) == walk_all(
            node_view(*root).children,
            0,
            strings_view(collapsed@),
            query@,
            width as int,
        ),
{
    let ghost cv = nodes_view(root.children@);
    let ghost cl = strings_view(collapsed@);
    let mut rows: Vec<FilesRow> = Vec::new();
    proof {
        lemma_nodes_view(root.children@);
        assert(cv.take(0) =~= Seq::<NodeView>::empty());
        assert(rows_view(rows@) =~= Seq::<RowView>::empty());
    }
    let mut i: usize = 0;
    while i < root.children.len()
        invariant
            i <= root.children.len(),
            cv == nodes_view(root.children@),
            cv == root.children@.map_values(|m: Node| node_view(m)),
            cl == strings_view(collapsed@),
            rows_view(rows@) == walk_all(cv.take(i as int), 0, cl, query@, width as int),
        decreases root.children.len() - i,
    {
        proof {
            assert(cv.take(i + 1).drop_last() == cv.take(i as int));
            assert(cv.take(i + 1).last() == cv[i as int]);
        }
        walk(&root.children[i], 0, collapsed, query, width, &mut rows);
        i = i + 1;
    }
    assert(cv.take(i as int) == cv);
    rows
}

fn union_paths(ls_files: &Vec<String>, porcelain: &Vec<PorcelainEntry>) -> (v: Vec<String>)
    ensures
        strings_view(v@) == dedup(strings_view(ls_files@) + entry_paths(entries_view(porcelain@))),
{
    let ghost all = strings_view(ls_files@) + entry_paths(entries_view(porcelain@));
    let mut out: Vec<String> = Vec::new();
    let n = ls_files.len();
    let mut i: usize = 0;
    assert(all.take(0) =~= Seq::<Seq<char>>::empty());
    assert(strings_view(out@) =~= Seq::<Seq<char>>::empty());
    while i < n
        invariant
            i <= n,
            n == ls_files.len(),
            all == strings_view(ls_files@) + entry_paths(entries_view(porcelain@)),
            strings_view(out@) == dedup(all.take(i as int)),
        decreases n - i,
    {
        assert(all.take(i + 1).drop_last() == all.take(i as int));
        assert(all[i as int] == ls_files@[i as int]@);
        if !contains_string(&out, &ls_files[i]) {
            let ghost before = strings_view(out@);
            out.push(ls_files[i].clone());
            assert(strings_view(out@) =~= before.push(ls_files@[i as int]@));
        }
        i = i + 1;
    }
    let m = porcelain.len();
    let mut j: usize = 0;
    while j < m
        invariant
            j <= m,
            n == ls_files.len(),
            m == porcelain.len(),
            all == strings_view(ls_files@) + entry_paths(entries_view(porcelain@)),
            all.len() == n + m,
            strings_view(out@) == dedup(all.take(n + j)),
        decreases m - j,
    {
        assert(all.take(n + j + 1).drop_last() == all.take(n + j));
        assert(all[n + j] == porcelain@[j as int].path@);
        if !contains_string(&out, &porcelain[j].path) {
            let ghost before = strings_view(out@);
            out.push(porcelain[j].path.clone());
            assert(strings_view(out@) =~= before.push(porcelain@[j as int].path@));
        }
        j = j + 1;
    }
    assert(all.take(n + m) == all);
    out
}

/// The files panel rows for a mode, collapsed folders, query and width.
pub fn visible_rows(
    porcelain: &Vec<PorcelainEntry>,
    ls_files: &Vec<String>,
    mode: FilesMode,
    collapsed: &Vec<String>,
    query: &str,
    width: usize,
) -> (rows: Vec<FilesRow>)
    ensures
        rows_view(rows@) == panel_rows(
            entries_view(porcelain@),
            strings_view(ls_files@),
            mode,
            strings_view(collapsed@),
            query@,
            width as int,
        ),
{
    let ghost ev = entries_view(porcelain@);
    match mode {
        FilesMode::ChangedFlat => changed_flat_rows(porcelain, query, width),
        FilesMode::ChangedTree => {
            let mut paths: Vec<(String, Option<(char, char)>)> = Vec::new();
            let mut i: usize = 0;
            while i < porcelain.len()
                invariant
                    i <= porcelain.len(),
                    ev == entries_view(porcelain@),
                    paths_view(paths@) == changed_paths(ev.take(i as int)),
                decreases porcelain.len() - i,
            {
                let ghost before = paths_view(paths@);
                paths.push((porcelain[i].path.clone(), Some(porcelain[i].xy)));
                assert(paths_view(paths@) =~= before.push((ev[i as int].1, Some(ev[i as int].0))));
                assert(changed_paths(ev.take(i + 1)) =~= changed_paths(ev.take(i as int)).push(
                    (ev[i as int].1, Some(ev[i as int].0)),
                ));
                i = i + 1;
            }
            assert(ev.take(porcelain.len() as int) == ev);
            let root = build_tree(&paths);
            flatten_tree(&root, collapsed, query, width)
        },
        FilesMode::AllTree => {
            let names = union_paths(ls_files, porcelain);
            let ghost nv = strings_view(names@);
            let mut paths: Vec<(String, Option<(char, char)>)> = Vec::new();
            let mut i: usize = 0;
            while i < names.len()
                invariant
                    i <= names.len(),
                    ev == entries_view(porcelain@),
                    nv == strings_view(names@),
                    paths_view(paths@) == nv.take(i as int).map_values(
                        |p: Seq<char>| (p, xy_in(ev, p)),
                    ),
                decreases names.len() - i,
            {
                let xy = xy_of(porcelain, &names[i]);
                let ghost before = paths_view(paths@);
                paths.push((names[i].clone(), xy));
                assert(paths_view(paths@) =~= before.push((nv[i as int], xy_in(ev, nv[i as int]))));
                assert(nv.take(i + 1).map_values(|p: Seq<char>| (p, xy_in(ev, p))) =~= nv.take(
                    i as int,
                ).map_values(|p: Seq<char>| (p, xy_in(ev, p))).push(
                    (nv[i as int], xy_in(ev, nv[i as int])),
                ));
                i = i + 1;
            }
            assert(nv.take(names.len() as int) == nv);
            let root = build_tree(&paths);
            flatten_tree(&root, collapsed, query, width)
        },
    }
}

/// The tree mode that a folder's stack is read from.
pub open spec fn tree_mode_spec(mode: FilesMode) -> FilesMode {
    match mode {
        FilesMode::AllTree => FilesMode::AllTree,
        _ => FilesMode::ChangedTree,
    }
}

pub fn tree_mode(mode: FilesMode) -> (m: FilesMode)
    ensures
        m == tree_mode_spec(mode),
{
    match mode {
        FilesMode::ChangedFlat | FilesMode::ChangedTree => FilesMode::ChangedTree,
        FilesMode::AllTree => FilesMode::AllTree,
    }
}

/// `path` is `folder` or lies below it.
pub open spec fn under(path: Seq<char>, folder: Seq<char>) -> bool {
    path == folder || (folder.len() + 1 <= path.len() && path.take(folder.len() as int) == folder
        && path[folder.len() as int] == '/')
}

pub fn is_under(path: &str, folder: &str) -> (b: bool)
    ensures
        b == under(path@, folder@),
{
    let p = chars_of(path);
    let f = chars_of(folder);
    if p.len() == f.len() {
        let mut i: usize = 0;
        while i < p.len()
            invariant
                i <= p.len(),
                p.len() == f.len(),
                p@ == path@,
                f@ == folder@,
                forall|k: int| 0 <= k < i ==> p@[k] == f@[k],
            decreases p.len() - i,
        {
            if p[i] != f[i] {
                return false;
            }
            i = i + 1;
        }
        assert(p@ =~= f@);
        return true;
    }
    if p.len() <= f.len() {
        return false;
    }
    let mut i: usize = 0;
    while i < f.len()
        invariant
            i <= f.len(),
            f.len() + 1 <= p.len(),
            p@ == path@,
            f@ == folder@,
            forall|k: int| 0 <= k < i ==> p@[k] == f@[k],
        decreases f.len() - i,
    {
        if p[i] != f[i] {
            assert(path@.take(folder@.len() as int)[i as int] != folder@[i as int]);
            return false;
        }
        i = i + 1;
    }
    assert(path@.take(folder@.len() as int) =~= folder@);
    p[f.len()] == '/'
}

/// Unicode `White_Space`, as `char::is_whitespace` has it.
pub open spec fn whitespace(c: char) -> bool {
    ('\u{9}' <= c && c <= '\u{d}') || c == ' ' || c == '\u{85}' || c == '\u{a0}' || c
        == '\u{1680}' || ('\u{2000}' <= c && c <= '\u{200a}') || c == '\u{2028}' || c
        == '\u{2029}' || c == '\u{202f}' || c == '\u{205f}' || c == '\u{3000}'
}

pub fn is_whitespace(c: char) -> (b: bool)
    ensures
        b == whitespace(c),
{
    ('\u{9}' <= c && c <= '\u{d}') || c == ' ' || c == '\u{85}' || c == '\u{a0}' || c
        == '\u{1680}' || ('\u{2000}' <= c && c <= '\u{200a}') || c == '\u{2028}' || c
        == '\u{2029}' || c == '\u{202f}' || c == '\u{205f}' || c == '\u{3000}'
}

/// The letters a row's `xy` text stands for: none when it is blank, else
/// its first two characters (a missing one read as a space).
pub open spec fn row_letters(xy: Seq<char>) -> Option<(char, char)> {
    if forall|k: int| 0 <= k < xy.len() ==> whitespace(#[trigger] xy[k]) {
        None
    } else {
        Some(
            (
                if xy.len() > 0 {
                    xy[0]
                } else {
                    ' '
                },
                if xy.len() > 1 {
                    xy[1]
                } else {
                    ' '
                },
            ),
        )
    }
}

fn letters_of(xy: &String) -> (r: Option<(char, char)>)
    ensures
        r == row_letters(xy@),
{
    let v = chars_of(xy.as_str());
    let mut i: usize = 0;
    let mut blank = true;
    while i < v.len()
        invariant
            i <= v.len(),
            v@ == xy@,
            blank == forall|k: int| 0 <= k < i ==> whitespace(#[trigger] v@[k]),
        decreases v.len() - i,
    {
        if !is_whitespace(v[i]) {
            blank = false;
        }
        i = i + 1;
    }
    if blank {
        None
    } else {
        let a = if v.len() > 0 {
            v[0]
        } else {
            ' '
        };
        let b = if v.len() > 1 {
            v[1]
        } else {
            ' '
        };
        Some((a, b))
    }
}

/// Width the stack of a folder is laid out at before its files are read.
pub const STACK_WIDTH: usize = 256;

/// The files of `rows` that lie under `folder`, in row order, with their
/// letters.
pub open spec fn stack_of(rows: Seq<RowView>, folder: Seq<char>) -> Seq<
    (Seq<char>, Option<(char, char)>),
>
    decreases rows.len(),
{
    if rows.len() == 0 {
        Seq::empty()
    } else {
        let rest = stack_of(rows.drop_last(), folder);
        let r = rows.last();
        if r.kind == RowKind::File && under(r.path, folder) {
            rest.push((r.path, row_letters(r.xy)))
        } else {
            rest
        }
    }
}

/// Files a focused folder stacks, in tree order: the tree of the current
/// scope, nothing folded, filtered by the query.
pub open spec fn folder_stack_spec(
    por: Seq<EntryView>,
    ls: Seq<Seq<char>>,
    mode: FilesMode,
    folder: Seq<char>,
    query: Seq<char>,
) -> Seq<(Seq<char>, Option<(char, char)>)> {
    stack_of(
        panel_rows(por, ls, tree_mode_spec(mode), Seq::empty(), query, STACK_WIDTH as int),
        folder,
    )
}

pub fn folder_stack(
    porcelain: &Vec<PorcelainEntry>,
    ls_files: &Vec<String>,
    mode: FilesMode,
    folder: &str,
    query: &str,
) -> (v: Vec<(String, Option<(char, char)>)>)
    ensures
        paths_view(v@) == folder_stack_spec(
            entries_view(porcelain@),
            strings_view(ls_files@),
            mode,
            folder@,
            query@,
        ),
{
    let none: Vec<String> = Vec::new();
    assert(strings_view(none@) =~= Seq::<Seq<char>>::empty());
    let rows = visible_rows(porcelain, ls_files, tree_mode(mode), &none, query, STACK_WIDTH);
    let ghost rv = rows_view(rows@);
    let mut out: Vec<(String, Option<(char, char)>)> = Vec::new();
    let mut i: usize = 0;
    while i < rows.len()
        invariant
            i <= rows.len(),
            rv == rows_view(rows@),
            paths_view(out@) == stack_of(rv.take(i as int), folder@),
        decreases rows.len() - i,
    {
        assert(rv.take(i + 1).drop_last() == rv.take(i as int));
        assert(rv.take(i + 1).last() == rows@[i as int]@);
        let is_file = match rows[i].kind {
            RowKind::File => true,
            RowKind::Directory => false,
        };
        if is_file && is_under(rows[i].path.as_str(), folder) {
            let xy = letters_of(&rows[i].xy);
            let ghost before = paths_view(out@);
            out.push((rows[i].path.clone(), xy));
            assert(paths_view(out@) =~= before.push((rows@[i as int].path@, xy)));
        }
        i = i + 1;
    }
    assert(rv.take(rows.len() as int) == rv);
    out
}

} // verus!
