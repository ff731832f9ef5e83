//! Caret motion and editing for the one-line and the wrapped text fields.
//! A caret is a character index into its field.

use crate::text::{chars_of, push_char, push_range};
use vstd::prelude::*;

verus! {

pub open spec fn min_int(a: int, b: int) -> int {
    if a <= b {
        a
    } else {
        b
    }
}

pub open spec fn max_int(a: int, b: int) -> int {
    if a >= b {
        a
    } else {
        b
    }
}

pub open spec fn clamp(x: int, lo: int, hi: int) -> int {
    if x < lo {
        lo
    } else if x > hi {
        hi
    } else {
        x
    }
}

/// `s` with `c` inserted before character `caret`, or at the end when the
/// caret lies past it.
pub open spec fn insert_at(s: Seq<char>, caret: int, c: char) -> Seq<char> {
    let p = min_int(caret, s.len() as int);
    s.take(p).push(c) + s.skip(p)
}

/// `s` without character `i`, or `s` itself when there is none.
pub open spec fn remove_at(s: Seq<char>, i: int) -> Seq<char> {
    if 0 <= i < s.len() {
        s.take(i) + s.skip(i + 1)
    } else {
        s
    }
}

/// Number of characters.
pub fn char_len(s: &str) -> (n: usize)
    ensures
        n == s@.len(),
{
    s.unicode_len()
}

/// Inserts `c` at the caret and moves the caret past it.
pub fn insert_char(s: &mut String, caret: &mut usize, c: char)
    requires
        *old(caret) < usize::MAX,
    ensures
        final(s)@ == insert_at(old(s)@, *old(caret) as int, c),
        *final(caret) == *old(caret) + 1,
{
    let v = chars_of(s.as_str());
    let p = if *caret < v.len() {
        *caret
    } else {
        v.len()
    };
    let mut out = String::new();
    push_range(&mut out, &v, 0, p);
    push_char(&mut out, c);
    push_range(&mut out, &v, p, v.len());
    assert(out@ =~= insert_at(v@, *caret as int, c));
    *s = out;
    *caret = *caret + 1;
}

/// Builds `v` without character `i`.
fn without(v: &Vec<char>, i: usize) -> (s: String)
    requires
        i < v.len(),
    ensures
        s@ == remove_at(v@, i as int),
{
    let mut out = String::new();
    push_range(&mut out, v, 0, i);
    push_range(&mut out, v, i + 1, v.len());
    assert(out@ =~= remove_at(v@, i as int));
    out
}

/// Backspace: removes the character before the caret and steps back.
pub fn delete_before(s: &mut String, caret: &mut usize)
    ensures
        *old(caret) == 0 ==> final(s)@ == old(s)@ && *final(caret) == 0,
        *old(caret) > 0 ==> final(s)@ == remove_at(old(s)@, *old(caret) - 1) && *final(caret)
            == *old(caret) - 1,
{
    if *caret == 0 {
        return;
    }
    *caret = *caret - 1;
    let v = chars_of(s.as_str());
    if *caret < v.len() {
        *s = without(&v, *caret);
    }
}

/// Delete: removes the character under the caret; the caret stays.
pub fn delete_after(s: &mut String, caret: usize)
    ensures
        final(s)@ == remove_at(old(s)@, caret as int),
{
    let v = chars_of(s.as_str());
    if caret < v.len() {
        *s = without(&v, caret);
    }
}

/// Moves the caret by `delta`, kept within `0..=len`.
pub fn move_caret(caret: &mut usize, len: usize, delta: isize)
    ensures
        *final(caret) == clamp(*old(caret) + delta, 0, len as int),
{
    let next: usize = if delta < 0 {
        let back: usize = if delta == isize::MIN {
            (isize::MAX as usize) + 1
        } else {
            (-delta) as usize
        };
        if *caret >= back {
            *caret - back
        } else {
            0
        }
    } else {
        let fwd = delta as usize;
        if *caret <= usize::MAX - fwd {
            *caret + fwd
        } else {
            usize::MAX
        }
    };
    *caret = if next < len {
        next
    } else {
        len
    };
}

/// Visual line starts of `t` wrapped at `w` columns, and the column after
/// its last character. A line breaks after a newline and after the `w`-th
/// character of a row.
pub open spec fn wrap_state(t: Seq<char>, w: int) -> (Seq<int>, int)
    decreases t.len(),
{
    if t.len() == 0 {
        (seq![0int], 0int)
    } else {
        let prev = wrap_state(t.drop_last(), w);
        let i = t.len() - 1;
        if t.last() == '\n' {
            (prev.0.push(i + 1), 0int)
        } else if prev.1 + 1 >= w {
            (prev.0.push(i + 1), 0int)
        } else {
            (prev.0, prev.1 + 1)
        }
    }
}

pub open spec fn field_cols(width: u16) -> int {
    if width == 0 {
        1
    } else {
        width as int
    }
}

pub open spec fn line_starts(t: Seq<char>, width: u16) -> Seq<int> {
    wrap_state(t, field_cols(width)).0
}

proof fn lemma_wrap_state_shape(t: Seq<char>, w: int)
    requires
        w >= 1,
    ensures
        wrap_state(t, w).0.len() >= 1,
        wrap_state(t, w).0[0] == 0,
        0 <= wrap_state(t, w).1 < w,
        forall|k: int|
            0 <= k < wrap_state(t, w).0.len() ==> 0 <= #[trigger] wrap_state(t, w).0[k] <= t.len(),
        forall|a: int, b: int|
            0 <= a < b < wrap_state(t, w).0.len() ==> #[trigger] wrap_state(t, w).0[a]
                < #[trigger] wrap_state(t, w).0[b],
    decreases t.len(),
{
    if t.len() > 0 {
        lemma_wrap_state_shape(t.drop_last(), w);
    }
}

/// Visual line starts of a wrapped field, in character indices.
pub fn visual_line_starts(text: &str, width: u16) -> (v: Vec<usize>)
    ensures
        v.len() == line_starts(text@, width).len(),
        forall|k: int| 0 <= k < v.len() ==> v@[k] as int == #[trigger] line_starts(text@, width)[k],
        v.len() >= 1,
        v@[0] == 0,
        forall|k: int| 0 <= k < v.len() ==> #[trigger] v@[k] <= text@.len(),
        forall|a: int, b: int| 0 <= a < b < v.len() ==> #[trigger] v@[a] < #[trigger] v@[b],
{
    let chars = chars_of(text);
    let w: usize = if width == 0 {
        1
    } else {
        width as usize
    };
    let mut starts: Vec<usize> = Vec::new();
    starts.push(0);
    let mut col: usize = 0;
    let mut i: usize = 0;
    proof {
        lemma_wrap_state_shape(chars@.take(0), w as int);
    }
    while i < chars.len()
        invariant
            i <= chars.len(),
            chars@ == text@,
            w as int == field_cols(width),
            w >= 1,
            col as int == wrap_state(chars@.take(i as int), w as int).1,
            starts.len() == wrap_state(chars@.take(i as int), w as int).0.len(),
            forall|k: int|
                0 <= k < starts.len() ==> starts@[k] as int == #[trigger] wrap_state(
                    chars@.take(i as int),
                    w as int,
                ).0[k],
            forall|k: int| 0 <= k < starts.len() ==> #[trigger] starts@[k] <= i,
        decreases chars.len() - i,
    {
        let ghost before = chars@.take(i as int);
        proof {
            lemma_wrap_state_shape(before, w as int);
            assert(chars@.take(i + 1).drop_last() == before);
        }
        if chars[i] == '\n' {
            starts.push(i + 1);
            col = 0;
        } else {
            col = col + 1;
            if col >= w {
                starts.push(i + 1);
                col = 0;
            }
        }
        i = i + 1;
    }
    proof {
        assert(chars@.take(chars.len() as int) == text@);
        lemma_wrap_state_shape(text@, w as int);
        let st = line_starts(text@, width);
        assert forall|a: int, b: int| 0 <= a < b < starts.len() implies #[trigger] starts@[a]
            < #[trigger] starts@[b] by {
            assert(starts@[a] as int == st[a]);
            assert(starts@[b] as int == st[b]);
        }
        assert forall|k: int| 0 <= k < starts.len() implies #[trigger] starts@[k] <= text@.len() by {
            assert(starts@[k] as int == st[k]);
        }
    }
    starts
}

/// Index of the last start at or before `caret` among the first `n`
/// starts, or zero when there is none.
pub open spec fn last_start_at_or_before(st: Seq<int>, caret: int, n: int) -> int
    decreases n,
{
    if n <= 0 {
        0
    } else if st[n - 1] <= caret {
        n - 1
    } else {
        last_start_at_or_before(st, caret, n - 1)
    }
}

/// Where the caret lands after moving `dy` visual lines: the same column,
/// held within the target line (before its newline, if it ends in one).
pub open spec fn caret_after_vertical(t: Seq<char>, caret: int, width: u16, dy: int) -> int {
    let st = line_starts(t, width);
    let line = last_start_at_or_before(st, caret, st.len() as int);
    let col = max_int(caret - st[line], 0);
    let target = clamp(line + dy, 0, st.len() - 1);
    let start = st[target];
    let end = if target + 1 < st.len() {
        st[target + 1]
    } else {
        t.len() as int
    };
    let len = max_int(end - start, 0);
    let at_nl = end > start && t[end - 1] == '\n';
    let usable = if at_nl {
        max_int(len - 1, 0)
    } else {
        len
    };
    start + min_int(col, usable)
}

proof fn lemma_last_start(st: Seq<int>, caret: int, n: int)
    requires
        0 <= n <= st.len(),
        st.len() >= 1,
    ensures
        0 <= last_start_at_or_before(st, caret, n) < st.len(),
        n >= 1 ==> last_start_at_or_before(st, caret, n) < n,
    decreases n,
{
    if n > 0 {
        lemma_last_start(st, caret, n - 1);
    }
}

/// Up or down in a wrapped field.
pub fn move_caret_vert(text: &str, caret: usize, width: u16, dy: isize) -> (r: usize)
    ensures
        r == caret_after_vertical(text@, caret as int, width, dy as int),
        r <= text@.len(),
{
    let chars = chars_of(text);
    let total = chars.len();
    let starts = visual_line_starts(text, width);
    let ghost st = line_starts(text@, width);
    let mut n = starts.len();
    let mut line: usize = 0;
    proof {
        lemma_last_start(st, caret as int, n as int);
    }
    while n > 0
        invariant_except_break
            line == 0,
        invariant
            n <= starts.len(),
            starts.len() == st.len(),
            st.len() >= 1,
            forall|k: int| 0 <= k < starts.len() ==> starts@[k] as int == #[trigger] st[k],
            last_start_at_or_before(st, caret as int, starts.len() as int)
                == last_start_at_or_before(st, caret as int, n as int),
        ensures
            line as int == last_start_at_or_before(st, caret as int, st.len() as int),
        decreases n,
    {
        if starts[n - 1] <= caret {
            line = n - 1;
            break;
        }
        n = n - 1;
    }
    proof {
        lemma_last_start(st, caret as int, starts.len() as int);
    }
    assert(line as int == last_start_at_or_before(st, caret as int, st.len() as int));
    let col = if caret >= starts[line] {
        caret - starts[line]
    } else {
        0
    };
    let last_line = starts.len() - 1;
    let target: usize = if dy < 0 {
        let back: usize = if dy == isize::MIN {
            (isize::MAX as usize) + 1
        } else {
            (-dy) as usize
        };
        if line >= back {
            line - back
        } else {
            0
        }
    } else {
        let fwd = dy as usize;
        if fwd >= last_line - line {
            last_line
        } else {
            line + fwd
        }
    };
    let start = starts[target];
    let end = if target + 1 < starts.len() {
        starts[target + 1]
    } else {
        total
    };
    let len = if end >= start {
        end - start
    } else {
        0
    };
    let at_nl = end > start && chars[end - 1] == '\n';
    let usable = if at_nl && len > 0 {
        len - 1
    } else if at_nl {
        0
    } else {
        len
    };
    let step = if col < usable {
        col
    } else {
        usable
    };
    start + step
}

/// A click at column `x` of a one-line field.
pub fn caret_on_line(text: &str, click_x: u16) -> (r: usize)
    ensures
        r == min_int(click_x as int, text@.len() as int),
{
    let n = char_len(text);
    if (click_x as usize) < n {
        click_x as usize
    } else {
        n
    }
}

/// Where a click at (`tx`, `ty`) lands in a field wrapped at `w` columns,
/// scanning from character `i` with the scan at column `x` of visual row `y`.
pub open spec fn click_scan(t: Seq<char>, i: int, x: int, y: int, tx: int, ty: int, w: int) -> int
    decreases t.len() - i,
{
    if i >= t.len() || i < 0 {
        t.len() as int
    } else if y > ty {
        max_int(i - 1, 0)
    } else if y == ty && x >= tx {
        i
    } else if t[i] == '\n' {
        if y == ty {
            i
        } else {
            click_scan(t, i + 1, 0, y + 1, tx, ty, w)
        }
    } else if x + 1 >= w {
        click_scan(t, i + 1, 0, y + 1, tx, ty, w)
    } else {
        click_scan(t, i + 1, x + 1, y, tx, ty, w)
    }
}

pub proof fn lemma_click_scan_bound(t: Seq<char>, i: int, x: int, y: int, tx: int, ty: int, w: int)
    requires
        0 <= i,
    ensures
        0 <= click_scan(t, i, x, y, tx, ty, w) <= t.len(),
    decreases t.len() - i,
{
    if i < t.len() {
        lemma_click_scan_bound(t, i + 1, 0, y + 1, tx, ty, w);
        lemma_click_scan_bound(t, i + 1, x + 1, y, tx, ty, w);
    }
}

/// A click in the wrapped description field.
pub fn caret_in_wrapped(text: &str, click_x: u16, click_y: u16, width: u16) -> (r: usize)
    ensures
        r == click_scan(text@, 0, 0, 0, click_x as int, click_y as int, field_cols(width)),
        r <= text@.len(),
{
    proof {
        lemma_click_scan_bound(text@, 0, 0, 0, click_x as int, click_y as int, field_cols(width));
    }
    let chars = chars_of(text);
    let w: usize = if width == 0 {
        1
    } else {
        width as usize
    };
    let tx = click_x as usize;
    let ty = click_y as usize;
    let mut y: usize = 0;
    let mut x: usize = 0;
    let mut i: usize = 0;
    while i < chars.len()
        invariant
            i <= chars.len(),
            chars@ == text@,
            w as int == field_cols(width),
            w >= 1,
            x < w,
            y <= i,
            tx == click_x as usize,
            ty == click_y as usize,
            click_scan(text@, i as int, x as int, y as int, tx as int, ty as int, w as int)
                == click_scan(text@, 0, 0, 0, tx as int, ty as int, w as int),
        decreases chars.len() - i,
    {
        if y > ty {
            return if i > 0 {
                i - 1
            } else {
                0
            };
        }
        if y == ty && x >= tx {
            return i;
        }
        if chars[i] == '\n' {
            if y == ty {
                return i;
            }
            y = y + 1;
            x = 0;
        } else {
            x = x + 1;
            if x >= w {
                y = y + 1;
                x = 0;
            }
        }
        i = i + 1;
    }
    chars.len()
}

/// Rows the commit overlay takes for a description of `lines` lines:
/// borders and summary, and two to eight description rows.
pub open spec fn strip_height_spec(lines: usize) -> u16 {
    let m = if lines >= 2 {
        lines
    } else {
        2
    };
    let l = m as u16;
    (3 + if l <= 8 {
        l
    } else {
        8
    }) as u16
}

pub fn strip_height(description_lines: usize) -> (h: u16)
    ensures
        h == strip_height_spec(description_lines),
        5 <= h <= 11 || h == 3 || h == 4,
{
    let m = if description_lines >= 2 {
        description_lines
    } else {
        2
    };
    let l = m as u16;
    let lines = if l <= 8 {
        l
    } else {
        8
    };
    3 + lines
}

/// How many times `c` occurs in `s`.
pub open spec fn count_char(s: Seq<char>, c: char) -> nat
    decreases s.len(),
{
    if s.len() == 0 {
        0
    } else {
        count_char(s.drop_last(), c) + if s.last() == c {
            1nat
        } else {
            0nat
        }
    }
}

/// Lines of a description: one more than its newlines.
pub fn description_line_count(description: &str) -> (n: usize)
    requires
        description@.len() < usize::MAX,
    ensures
        n == count_char(description@, '\n') + 1,
{
    let chars = chars_of(description);
    let mut n: usize = 1;
    let mut i: usize = 0;
    while i < chars.len()
        invariant
            i <= chars.len(),
            chars@ == description@,
            chars.len() < usize::MAX,
            n == count_char(chars@.take(i as int), '\n') + 1,
            n <= i + 1,
        decreases chars.len() - i,
    {
        assert(chars@.take(i + 1).drop_last() == chars@.take(i as int));
        if chars[i] == '\n' {
            n = n + 1;
        }
        i = i + 1;
    }
    assert(chars@.take(chars.len() as int) == chars@);
    n
}

} // verus!
