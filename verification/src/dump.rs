//! The diff pane body: dumps turned into styled lines, clipped to the pane,
//! side-by-side columns padded, failures and stacks of dumps.

use crate::caret::min_int;
use crate::files::fitting;
use crate::text::{
    chars_of, lossy_string, push_char, push_signed, push_str, signed_decimal, str_width,
    unicode_str_width, utf8_lossy,
};
use ansi_to_tui::IntoText;
use vstd::prelude::*;

verus! {

/// `ratatui::style::Color`, carried through as it is.
#[verifier::external_type_specification]
#[verifier::external_body]
pub struct ExColor(ratatui::style::Color);

/// `ansi_to_tui::Error`.
#[verifier::external_type_specification]
#[verifier::external_body]
pub struct ExAnsiError(ansi_to_tui::Error);

/// The look of a run: foreground, background and underline colours, and
/// the modifier bits it adds and removes (as `ratatui` keeps them).
#[derive(Clone, Copy, Debug, PartialEq, Eq)]
pub struct PaneStyle {
    pub fg: Option<ratatui::style::Color>,
    pub bg: Option<ratatui::style::Color>,
    pub underline: Option<ratatui::style::Color>,
    pub add: u16,
    pub sub: u16,
}

/// The look of an unstyled run: no colours, no modifiers.
pub open spec fn no_style() -> PaneStyle {
    PaneStyle { fg: None, bg: None, underline: None, add: 0, sub: 0 }
}

pub fn plain_style() -> (s: PaneStyle)
    ensures
        s == no_style(),
{
    PaneStyle { fg: None, bg: None, underline: None, add: 0, sub: 0 }
}

/// One styled run of text within a line.
pub struct PaneSpan {
    pub content: String,
    pub style: PaneStyle,
}

/// The pane's text: lines of styled runs. The view is the runs' contents;
/// `styles` gives their looks, line by line and run by run.
pub struct PaneText {
    pub lines: Vec<Vec<PaneSpan>>,
}

pub open spec fn line_view(l: Seq<PaneSpan>) -> Seq<Seq<char>> {
    l.map_values(|s: PaneSpan| s.content@)
}

pub open spec fn line_styles(l: Seq<PaneSpan>) -> Seq<PaneStyle> {
    l.map_values(|s: PaneSpan| s.style)
}

impl PaneText {
    pub open spec fn styles(&self) -> Seq<Seq<PaneStyle>> {
        self.lines@.map_values(|l: Vec<PaneSpan>| line_styles(l@))
    }
}

/// Looks that fit contents: as many lines, and as many runs in each.
pub open spec fn fits<A, B>(t: Seq<Seq<A>>, st: Seq<Seq<B>>) -> bool {
    t.len() == st.len() && forall|i: int| 0 <= i < t.len() ==> #[trigger] t[i].len() == st[i].len()
}

pub proof fn lemma_styles_fit(t: PaneText)
    ensures
        fits(t@, t.styles()),
{
}

impl View for PaneText {
    type V = Seq<Seq<Seq<char>>>;

    open spec fn view(&self) -> Seq<Seq<Seq<char>>> {
        self.lines@.map_values(|l: Vec<PaneSpan>| line_view(l@))
    }
}

impl PaneSpan {
    pub fn duplicate(&self) -> (r: PaneSpan)
        ensures
            r.content@ == self.content@,
            r.style == self.style,
    {
        PaneSpan { content: self.content.clone(), style: self.style }
    }
}

fn copy_line(l: &Vec<PaneSpan>) -> (r: Vec<PaneSpan>)
    ensures
        line_view(r@) == line_view(l@),
        line_styles(r@) == line_styles(l@),
{
    let mut out: Vec<PaneSpan> = Vec::new();
    let mut i: usize = 0;
    while i < l.len()
        invariant
            i <= l.len(),
            line_view(out@) == line_view(l@.take(i as int)),
            line_styles(out@) == line_styles(l@.take(i as int)),
        decreases l.len() - i,
    {
        let d = l[i].duplicate();
        let ghost before = line_view(out@);
        let ghost sb = line_styles(out@);
        out.push(d);
        assert(line_view(out@) =~= before.push(d.content@));
        assert(line_styles(out@) =~= sb.push(d.style));
        assert(line_view(l@.take(i + 1)) =~= line_view(l@.take(i as int)).push(l@[i as int].content@));
        assert(line_styles(l@.take(i + 1)) =~= line_styles(l@.take(i as int)).push(l@[i as int].style));
        i = i + 1;
    }
    assert(l@.take(l.len() as int) == l@);
    out
}

impl PaneText {
    pub fn empty() -> (t: PaneText)
        ensures
            t@ == Seq::<Seq<Seq<char>>>::empty(),
            t.styles() == Seq::<Seq<PaneStyle>>::empty(),
    {
        let t = PaneText { lines: Vec::new() };
        assert(t@ =~= Seq::<Seq<Seq<char>>>::empty());
        assert(t.styles() =~= Seq::<Seq<PaneStyle>>::empty());
        t
    }

    pub fn duplicate(&self) -> (r: PaneText)
        ensures
            r@ == self@,
            r.styles() == self.styles(),
    {
        let mut lines: Vec<Vec<PaneSpan>> = Vec::new();
        let mut i: usize = 0;
        while i < self.lines.len()
            invariant
                i <= self.lines.len(),
                lines@.map_values(|l: Vec<PaneSpan>| line_view(l@)) == self@.take(i as int),
                lines@.map_values(|l: Vec<PaneSpan>| line_styles(l@)) == self.styles().take(i as int),
            decreases self.lines.len() - i,
        {
            let l = copy_line(&self.lines[i]);
            let ghost before = lines@.map_values(|l: Vec<PaneSpan>| line_view(l@));
            let ghost sb = lines@.map_values(|l: Vec<PaneSpan>| line_styles(l@));
            lines.push(l);
            assert(lines@.map_values(|l: Vec<PaneSpan>| line_view(l@)) =~= before.push(
                line_view(l@),
            ));
            assert(lines@.map_values(|l: Vec<PaneSpan>| line_styles(l@)) =~= sb.push(
                line_styles(l@),
            ));
            assert(self@.take(i + 1) =~= self@.take(i as int).push(self@[i as int]));
            assert(self.styles().take(i + 1) =~= self.styles().take(i as int).push(
                self.styles()[i as int],
            ));
            i = i + 1;
        }
        assert(self@.take(self.lines.len() as int) == self@);
        assert(self.styles().take(self.lines.len() as int) == self.styles());
        PaneText { lines }
    }
}

/// The lines and run contents `ansi-to-tui` reads from a dump.
pub uninterp spec fn ansi_lines(bytes: Seq<u8>) -> Seq<Seq<Seq<char>>>;

/// The looks `ansi-to-tui` gives those runs, line by line and run by run.
pub uninterp spec fn ansi_styles(bytes: Seq<u8>) -> Seq<Seq<PaneStyle>>;

/// `IntoText::into_text` of `ansi-to-tui`: escape sequences become styles,
/// each `\n` ends a line. Claimed, as the crate's source shows: the parse
/// never fails (its line loop stops rather than erring), it yields at least
/// one line, the contents are the function `ansi_lines` of the bytes and
/// the runs' looks the function `ansi_styles` of them. Each run's style is
/// taken over field by field (colours as they are, modifiers as bits).
#[verifier::external_body]
pub(crate) fn ansi_text(bytes: &Vec<u8>) -> (r: Result<PaneText, ansi_to_tui::Error>)
    ensures
        r is Ok,
        r matches Ok(t) ==> t@ == ansi_lines(bytes@) && t@.len() >= 1 && t.styles() == ansi_styles(
            bytes@,
        ),
{
    bytes.into_text().map(|text| PaneText {
        lines: text.lines.into_iter().map(|line| line.spans.into_iter().map(|span| PaneSpan {
            content: span.content.into_owned(),
            style: PaneStyle { fg: span.style.fg, bg: span.style.bg, underline: span.style.underline_color,
                add: span.style.add_modifier.bits(), sub: span.style.sub_modifier.bits() },
        }).collect()).collect(),
    })
}

/// A line with its `\r` dropped when one ends it.
pub open spec fn without_cr(l: Seq<char>) -> Seq<char> {
    if l.len() > 0 && l.last() == '\r' {
        l.drop_last()
    } else {
        l
    }
}

/// `str::lines` from here on, with `cur` the line read so far: lines end at
/// `\n` (a `\r` before it goes too), and the last one needs no `\n`.
pub open spec fn lines_from(s: Seq<char>, cur: Seq<char>) -> Seq<Seq<char>>
    decreases s.len(),
{
    if s.len() == 0 {
        if cur.len() == 0 {
            Seq::empty()
        } else {
            seq![cur]
        }
    } else if s[0] == '\n' {
        seq![without_cr(cur)] + lines_from(s.drop_first(), Seq::empty())
    } else {
        lines_from(s.drop_first(), cur.push(s[0]))
    }
}

/// The lines and runs `ratatui` makes of a plain string (`Text::raw`): the
/// empty string is one line with no runs; otherwise one line per line of
/// the string, with one run holding it, or none when it is empty.
pub open spec fn raw_lines(s: Seq<char>) -> Seq<Seq<Seq<char>>> {
    if s.len() == 0 {
        seq![Seq::empty()]
    } else {
        lines_from(s, Seq::empty()).map_values(
            |l: Seq<char>|
                if l.len() == 0 {
                    Seq::empty()
                } else {
                    seq![l]
                },
        )
    }
}

/// Every run of those lines unstyled.
pub open spec fn raw_styles(s: Seq<char>) -> Seq<Seq<PaneStyle>> {
    raw_lines(s).map_values(|l: Seq<Seq<char>>| l.map_values(|r: Seq<char>| no_style()))
}

/// `Text::from(String)` of `ratatui` (`Text::raw`), taken over run by run.
/// Claimed, as the crate's source and `str::lines` show: the contents are
/// `raw_lines` of the string and every run has the default style.
#[verifier::external_body]
pub(crate) fn text_from_string(s: String) -> (t: PaneText)
    ensures
        t@ == raw_lines(s@),
        t.styles() == raw_styles(s@),
{
    let text = ratatui::text::Text::from(s);
    PaneText {
        lines: text.lines.into_iter().map(|line| line.spans.into_iter().map(|span| PaneSpan {
            content: span.content.into_owned(),
            style: PaneStyle { fg: span.style.fg, bg: span.style.bg, underline: span.style.underline_color,
                add: span.style.add_modifier.bits(), sub: span.style.sub_modifier.bits() },
        }).collect()).collect(),
    }
}

proof fn lemma_lines_one(s: Seq<char>, cur: Seq<char>)
    requires
        !s.contains('\n'),
        cur.len() + s.len() > 0,
    ensures
        lines_from(s, cur) == seq![cur + s],
    decreases s.len(),
{
    if s.len() == 0 {
        assert(cur + s =~= cur);
    } else {
        assert(s[0] != '\n');
        assert(!s.drop_first().contains('\n')) by {
            if s.drop_first().contains('\n') {
                let k = choose|k: int| 0 <= k < s.drop_first().len() && s.drop_first()[k] == '\n';
                assert(s[k + 1] == '\n');
            }
        }
        lemma_lines_one(s.drop_first(), cur.push(s[0]));
        assert(cur.push(s[0]) + s.drop_first() =~= cur + s);
    }
}

/// A non-empty string without a newline is one line of one run.
pub proof fn lemma_raw_one_line(s: Seq<char>)
    requires
        s.len() > 0,
        !s.contains('\n'),
    ensures
        raw_lines(s) == seq![seq![s]],
        raw_styles(s) == seq![seq![no_style()]],
{
    lemma_lines_one(s, Seq::empty());
    assert(Seq::<char>::empty() + s =~= s);
    assert(raw_lines(s) =~= seq![seq![s]]);
    assert(raw_styles(s)[0] =~= seq![no_style()]);
    assert(raw_styles(s) =~= seq![seq![no_style()]]);
}

// ---------------------------------------------------------------- bodies

#[derive(Clone, Copy, Debug, PartialEq, Eq, Structural)]
pub enum FailKind {
    Git,
    Difft,
}

pub open spec fn program_name(kind: FailKind) -> Seq<char> {
    match kind {
        FailKind::Git => seq!['g', 'i', 't'],
        FailKind::Difft => seq!['d', 'i', 'f', 'f', 't'],
    }
}

pub open spec fn named_failure(kind: FailKind, exit: i32) -> Seq<char> {
    program_name(kind) + seq![' ', 'f', 'a', 'i', 'l', 'e', 'd', ' ', '(', 'e', 'x', 'i', 't', ' ']
        + signed_decimal(exit as int) + seq![')']
}

/// What a failed child shows: its stderr then its stdout, or, when both are
/// empty, which program failed with which exit code.
pub open spec fn failure_spec(stderr: Seq<u8>, stdout: Seq<u8>, exit: i32, kind: FailKind) -> Seq<
    char,
> {
    let text = utf8_lossy(stderr) + utf8_lossy(stdout);
    if text.len() == 0 {
        named_failure(kind, exit)
    } else {
        text
    }
}

pub fn failure_text(stderr: &[u8], stdout: &[u8], exit: i32, kind: FailKind) -> (s: String)
    ensures
        s@ == failure_spec(stderr@, stdout@, exit, kind),
{
    let mut text = lossy_string(stderr);
    let out = lossy_string(stdout);
    push_str(&mut text, out.as_str());
    if text.unicode_len() > 0 {
        return text;
    }
    let mut s = String::new();
    match kind {
        FailKind::Git => push_str(&mut s, "git"),
        FailKind::Difft => push_str(&mut s, "difft"),
    }
    push_str(&mut s, " failed (exit ");
    push_signed(&mut s, exit);
    push_char(&mut s, ')');
    proof {
        reveal_strlit("git");
        reveal_strlit("difft");
        reveal_strlit(" failed (exit ");
    }
    assert(s@ =~= named_failure(kind, exit));
    s
}

/// The pane body as plain text: runs joined, lines joined with `\n`.
pub open spec fn line_string(l: Seq<Seq<char>>) -> Seq<char>
    decreases l.len(),
{
    if l.len() == 0 {
        Seq::empty()
    } else {
        line_string(l.drop_last()) + l.last()
    }
}

pub open spec fn body_string(t: Seq<Seq<Seq<char>>>) -> Seq<char>
    decreases t.len(),
{
    if t.len() == 0 {
        Seq::empty()
    } else if t.len() == 1 {
        line_string(t[0])
    } else {
        body_string(t.drop_last()) + seq!['\n'] + line_string(t.last())
    }
}

pub fn pane_string(text: &PaneText) -> (s: String)
    ensures
        s@ == body_string(text@),
{
    let ghost tv = text@;
    let mut s = String::new();
    let mut i: usize = 0;
    assert(tv.take(0) =~= Seq::<Seq<Seq<char>>>::empty());
    while i < text.lines.len()
        invariant
            i <= text.lines.len(),
            tv == text@,
            s@ == body_string(tv.take(i as int)),
        decreases text.lines.len() - i,
    {
        if i > 0 {
            push_char(&mut s, '\n');
        }
        let line = &text.lines[i];
        let ghost lv = line_view(line@);
        let ghost base = s@;
        let mut j: usize = 0;
        assert(lv.take(0) =~= Seq::<Seq<char>>::empty());
        assert(base == base + line_string(lv.take(0)));
        while j < line.len()
            invariant
                j <= line.len(),
                lv == line_view(line@),
                s@ == base + line_string(lv.take(j as int)),
            decreases line.len() - j,
        {
            push_str(&mut s, line[j].content.as_str());
            assert(lv.take(j + 1).drop_last() == lv.take(j as int));
            assert(s@ =~= base + line_string(lv.take(j + 1)));
            j = j + 1;
        }
        assert(lv.take(line.len() as int) == lv);
        assert(tv[i as int] == lv);
        assert(tv.take(i + 1).drop_last() == tv.take(i as int));
        if i == 0 {
            assert(s@ =~= body_string(tv.take(1)));
        }
        i = i + 1;
    }
    assert(tv.take(text.lines.len() as int) == tv);
    s
}

/// Parts stacked in order, an empty line between two non-empty ones.
pub open spec fn stacked<A>(parts: Seq<Seq<Seq<A>>>) -> Seq<Seq<A>>
    decreases parts.len(),
{
    if parts.len() == 0 {
        Seq::empty()
    } else {
        let before = stacked(parts.drop_last());
        let part = parts.last();
        if parts.len() > 1 && before.len() > 0 && part.len() > 0 {
            before.push(Seq::empty()) + part
        } else {
            before + part
        }
    }
}

pub open spec fn texts_view(v: Seq<PaneText>) -> Seq<Seq<Seq<Seq<char>>>> {
    v.map_values(|t: PaneText| t@)
}

pub open spec fn texts_styles(v: Seq<PaneText>) -> Seq<Seq<Seq<PaneStyle>>> {
    v.map_values(|t: PaneText| t.styles())
}

pub fn stack_texts(parts: Vec<PaneText>) -> (t: PaneText)
    ensures
        t@ == stacked(texts_view(parts@)),
        t.styles() == stacked(texts_styles(parts@)),
{
    let ghost pv = texts_view(parts@);
    let ghost ps = texts_styles(parts@);
    let mut lines: Vec<Vec<PaneSpan>> = Vec::new();
    let mut i: usize = 0;
    assert(pv.take(0) =~= Seq::<Seq<Seq<Seq<char>>>>::empty());
    assert(ps.take(0) =~= Seq::<Seq<Seq<PaneStyle>>>::empty());
    assert(lines@.map_values(|l: Vec<PaneSpan>| line_view(l@)) =~= Seq::<Seq<Seq<char>>>::empty());
    assert(lines@.map_values(|l: Vec<PaneSpan>| line_styles(l@)) =~= Seq::<Seq<PaneStyle>>::empty());
    while i < parts.len()
        invariant
            i <= parts.len(),
            pv == texts_view(parts@),
            ps == texts_styles(parts@),
            lines@.map_values(|l: Vec<PaneSpan>| line_view(l@)) == stacked(pv.take(i as int)),
            lines@.map_values(|l: Vec<PaneSpan>| line_styles(l@)) == stacked(ps.take(i as int)),
            lines@.len() == stacked(pv.take(i as int)).len(),
        decreases parts.len() - i,
    {
        let part = &parts[i];
        let ghost before = lines@.map_values(|l: Vec<PaneSpan>| line_view(l@));
        let ghost sbefore = lines@.map_values(|l: Vec<PaneSpan>| line_styles(l@));
        assert(pv.take(i + 1).drop_last() == pv.take(i as int));
        assert(pv.take(i + 1).last() == part@);
        assert(ps.take(i + 1).drop_last() == ps.take(i as int));
        assert(ps.take(i + 1).last() == part.styles());
        assert(stacked(ps.take(i as int)).len() == stacked(pv.take(i as int)).len());
        if i > 0 && lines.len() > 0 && part.lines.len() > 0 {
            let e: Vec<PaneSpan> = Vec::new();
            assert(line_view(e@) =~= Seq::<Seq<char>>::empty());
            assert(line_styles(e@) =~= Seq::<PaneStyle>::empty());
            lines.push(e);
            assert(lines@.map_values(|l: Vec<PaneSpan>| line_view(l@)) =~= before.push(
                Seq::empty(),
            ));
            assert(lines@.map_values(|l: Vec<PaneSpan>| line_styles(l@)) =~= sbefore.push(
                Seq::empty(),
            ));
        }
        let ghost mid = lines@.map_values(|l: Vec<PaneSpan>| line_view(l@));
        let ghost smid = lines@.map_values(|l: Vec<PaneSpan>| line_styles(l@));
        let mut j: usize = 0;
        while j < part.lines.len()
            invariant
                j <= part.lines.len(),
                lines@.map_values(|l: Vec<PaneSpan>| line_view(l@)) == mid + part@.take(j as int),
                lines@.map_values(|l: Vec<PaneSpan>| line_styles(l@)) == smid + part.styles().take(
                    j as int,
                ),
            decreases part.lines.len() - j,
        {
            let l = copy_line(&part.lines[j]);
            let ghost b2 = lines@.map_values(|l: Vec<PaneSpan>| line_view(l@));
            let ghost s2 = lines@.map_values(|l: Vec<PaneSpan>| line_styles(l@));
            lines.push(l);
            assert(lines@.map_values(|l: Vec<PaneSpan>| line_view(l@)) =~= b2.push(line_view(l@)));
            assert(lines@.map_values(|l: Vec<PaneSpan>| line_styles(l@)) =~= s2.push(line_styles(l@)));
            assert(part@.take(j + 1) =~= part@.take(j as int).push(part@[j as int]));
            assert(part.styles().take(j + 1) =~= part.styles().take(j as int).push(
                part.styles()[j as int],
            ));
            j = j + 1;
        }
        assert(part@.take(part.lines.len() as int) == part@);
        assert(part.styles().take(part.lines.len() as int) == part.styles());
        i = i + 1;
    }
    assert(pv.take(parts.len() as int) == pv);
    assert(ps.take(parts.len() as int) == ps);
    PaneText { lines }
}

// ------------------------------------------------------- clip and widen

pub open spec fn span_width(c: Seq<char>) -> int {
    unicode_str_width(c) as int
}

/// A line's runs kept within `max_w` columns when `used` are taken: whole
/// runs while they fit, then the part of the next run whose characters fit
/// (if any), then nothing.
pub open spec fn clip_spans(spans: Seq<Seq<char>>, max_w: int, used: int) -> Seq<Seq<char>>
    decreases spans.len(),
{
    if spans.len() == 0 || used >= max_w {
        Seq::empty()
    } else if used + span_width(spans[0]) <= max_w {
        seq![spans[0]] + clip_spans(spans.drop_first(), max_w, used + span_width(spans[0]))
    } else {
        let cut = spans[0].take(fitting(spans[0], max_w, used, 0));
        if cut.len() > 0 {
            seq![cut]
        } else {
            Seq::empty()
        }
    }
}

pub open spec fn pane_cols(pane: u16) -> int {
    if pane == 0 {
        1
    } else {
        pane as int
    }
}

proof fn lemma_fitting_bounds(t: Seq<char>, width: int, used: int, i: int)
    requires
        0 <= i <= t.len(),
    ensures
        i <= fitting(t, width, used, i) <= t.len(),
    decreases t.len() - i,
{
    if i < t.len() && used + crate::files::width_or_zero(t[i]) <= width {
        lemma_fitting_bounds(t, width, used + crate::files::width_or_zero(t[i]), i + 1);
    }
}

pub fn clip_line(line: &Vec<PaneSpan>, max_w: usize) -> (r: Vec<PaneSpan>)
    ensures
        line_view(r@) == clip_spans(line_view(line@), max_w as int, 0),
        r@.len() <= line@.len(),
        line_styles(r@) == line_styles(line@).take(r@.len() as int),
{
    let ghost lv = line_view(line@);
    let mut used: usize = 0;
    let mut spans: Vec<PaneSpan> = Vec::new();
    let mut i: usize = 0;
    assert(lv.skip(0) == lv);
    assert(line_view(spans@) =~= Seq::<Seq<char>>::empty());
    if line.len() == 0 {
        assert(lv =~= Seq::<Seq<char>>::empty());
        return spans;
    }
    while i < line.len()
        invariant_except_break
            line_view(spans@) + clip_spans(lv.skip(i as int), max_w as int, used as int)
                == clip_spans(lv, max_w as int, 0),
            spans@.len() == i,
            line_styles(spans@) == line_styles(line@).take(i as int),
        invariant
            i < line.len(),
            lv == line_view(line@),
        ensures
            line_view(spans@) == clip_spans(lv, max_w as int, 0),
            spans@.len() <= line@.len(),
            line_styles(spans@) == line_styles(line@).take(spans@.len() as int),
        decreases line.len() - i,
    {
        let ghost rest = lv.skip(i as int);
        assert(rest[0] == line@[i as int].content@);
        assert(rest.drop_first() == lv.skip(i + 1));
        if used >= max_w {
            assert(line_view(spans@) + Seq::<Seq<char>>::empty() == line_view(spans@));
            break;
        }
        let w = str_width(line[i].content.as_str());
        if w <= max_w - used {
            let ghost before = line_view(spans@);
            let ghost sb = line_styles(spans@);
            spans.push(line[i].duplicate());
            assert(line_view(spans@) =~= before.push(lv[i as int]));
            assert(line_styles(spans@) =~= sb.push(line@[i as int].style));
            assert(line_styles(line@).take(i + 1) =~= line_styles(line@).take(i as int).push(
                line@[i as int].style,
            ));
            assert(before + (seq![lv[i as int]] + clip_spans(lv.skip(i + 1), max_w as int, (used
                + w) as int)) =~= before.push(lv[i as int]) + clip_spans(
                lv.skip(i + 1),
                max_w as int,
                (used + w) as int,
            ));
            used = used + w;
            if i + 1 == line.len() {
                assert(lv.skip(i + 1) =~= Seq::<Seq<char>>::empty());
                assert(line_view(spans@) + Seq::<Seq<char>>::empty() == line_view(spans@));
                break;
            }
            i = i + 1;
            continue;
        }
        let chars = chars_of(line[i].content.as_str());
        let ghost c = chars@;
        let ghost before = line_view(spans@);
        let cut = cut_to_fit(&chars, max_w, used);
        let ghost sb = line_styles(spans@);
        if cut.unicode_len() > 0 {
            spans.push(PaneSpan { content: cut, style: line[i].style });
            assert(line_styles(spans@) =~= sb.push(line@[i as int].style));
            assert(line_styles(line@).take(i + 1) =~= line_styles(line@).take(i as int).push(
                line@[i as int].style,
            ));
            assert(line_view(spans@) =~= before.push(c.take(fitting(c, max_w as int, used as int, 0))));
            assert(before + seq![c.take(fitting(c, max_w as int, used as int, 0))] =~= before.push(c.take(fitting(c, max_w as int, used as int, 0))));
        } else {
            assert(line_view(spans@) + Seq::<Seq<char>>::empty() == line_view(spans@));
        }
        break;
    }
    spans
}

/// The characters of `c` that fit, from the start, with `used` columns
/// taken of `max_w`.
fn cut_to_fit(c: &Vec<char>, max_w: usize, used: usize) -> (s: String)
    requires
        used <= max_w,
    ensures
        s@ == c@.take(fitting(c@, max_w as int, used as int, 0)),
{
    let mut s = String::new();
    let mut u = used;
    let mut k: usize = 0;
    while k < c.len()
        invariant
            k <= c.len(),
            used <= u <= max_w,
            s@ == c@.take(k as int),
            fitting(c@, max_w as int, u as int, k as int) == fitting(
                c@,
                max_w as int,
                used as int,
                0,
            ),
        ensures
            s@ == c@.take(fitting(c@, max_w as int, used as int, 0)),
        decreases c.len() - k,
    {
        let cw = match crate::text::char_width(c[k]) {
            Some(w) => w,
            None => 0,
        };
        if cw > max_w - u {
            break;
        }
        push_char(&mut s, c[k]);
        assert(c@.take(k + 1) == c@.take(k as int).push(c@[k as int]));
        u = u + cw;
        k = k + 1;
    }
    s
}

} // verus!

verus! {

pub open spec fn is_digit(c: char) -> bool {
    '0' <= c && c <= '9'
}

/// A side-by-side line-number run: 2 to 8 characters, a trailing space,
/// before it only digits, dots and spaces, and at least one digit.
pub open spec fn is_line_number(s: Seq<char>) -> bool {
    &&& 2 <= s.len() <= 8
    &&& s.last() == ' '
    &&& forall|k: int| 0 <= k < s.len() - 1 ==> (is_digit(#[trigger] s[k]) || s[k] == '.' || s[k] == ' ')
    &&& exists|k: int| 0 <= k < s.len() - 1 && is_digit(#[trigger] s[k])
}

pub fn is_line_num_span(content: &str) -> (b: bool)
    ensures
        b == is_line_number(content@),
{
    let c = chars_of(content);
    if c.len() < 2 || c.len() > 8 || c[c.len() - 1] != ' ' {
        return false;
    }
    let mut digit = false;
    let mut k: usize = 0;
    while k < c.len() - 1
        invariant
            2 <= c.len() <= 8,
            c@ == content@,
            k <= c.len() - 1,
            forall|j: int| 0 <= j < k ==> (is_digit(#[trigger] c@[j]) || c@[j] == '.' || c@[j] == ' '),
            digit == exists|j: int| 0 <= j < k && is_digit(#[trigger] c@[j]),
        decreases c.len() - 1 - k,
    {
        let ch = c[k];
        if '0' <= ch && ch <= '9' {
            digit = true;
        } else if ch != '.' && ch != ' ' {
            return false;
        }
        k = k + 1;
    }
    digit
}

/// Index of the first line-number run at or after `i`, or -1.
pub open spec fn find_number(s: Seq<Seq<char>>, i: int) -> int
    decreases s.len() - i,
{
    if i < 0 || i >= s.len() {
        -1
    } else if is_line_number(s[i]) {
        i
    } else {
        find_number(s, i + 1)
    }
}

proof fn lemma_find_number(s: Seq<Seq<char>>, i: int)
    requires
        0 <= i <= s.len(),
    ensures
        find_number(s, i) == -1 || (i <= find_number(s, i) < s.len() && is_line_number(
            s[find_number(s, i)],
        )),
    decreases s.len() - i,
{
    if i < s.len() && !is_line_number(s[i]) {
        lemma_find_number(s, i + 1);
    }
}

/// Total column width of some runs.
pub open spec fn widths(s: Seq<Seq<char>>) -> int
    decreases s.len(),
{
    if s.len() == 0 {
        0
    } else {
        widths(s.drop_last()) + span_width(s.last())
    }
}

proof fn lemma_widths_nonneg(s: Seq<Seq<char>>)
    ensures
        widths(s) >= 0,
    decreases s.len(),
{
    if s.len() > 0 {
        lemma_widths_nonneg(s.drop_last());
    }
}

/// Column where the right-hand side of a side-by-side dump starts.
pub open spec fn rhs_column(pane: u16) -> int {
    (if pane >= 1 {
        pane - 1
    } else {
        0
    }) / 2 + 1
}

pub open spec fn spaces(n: int) -> Seq<char> {
    Seq::new(n as nat, |i: int| ' ')
}

/// A side-by-side line whose left column is short gets spaces before its
/// second line number, so the right column starts at `rhs_column`. Lines
/// without two line numbers, with nothing between them, or with a left
/// column that is wide enough, are kept.
pub open spec fn widen_spec(s: Seq<Seq<char>>, pane: u16) -> Seq<Seq<char>> {
    let first = find_number(s, 0);
    let rhs = find_number(s, first + 1);
    if first < 0 || rhs < 0 {
        s
    } else if widths(s.subrange(first + 1, rhs)) == 0 {
        s
    } else if widths(s.take(rhs)) >= rhs_column(pane) {
        s
    } else {
        s.take(rhs).push(spaces(rhs_column(pane) - widths(s.take(rhs)))) + s.skip(rhs)
    }
}

/// The looks of the runs `widen_spec` keeps or adds: the kept runs keep
/// theirs, and the padding run is unstyled.
pub open spec fn widen_styles(s: Seq<Seq<char>>, st: Seq<PaneStyle>, pane: u16) -> Seq<PaneStyle> {
    let first = find_number(s, 0);
    let rhs = find_number(s, first + 1);
    if first < 0 || rhs < 0 {
        st
    } else if widths(s.subrange(first + 1, rhs)) == 0 {
        st
    } else if widths(s.take(rhs)) >= rhs_column(pane) {
        st
    } else {
        st.take(rhs).push(no_style()) + st.skip(rhs)
    }
}

/// Sum of the widths of `line[from..to]`, held at `usize::MAX`.
fn widths_sat(line: &Vec<PaneSpan>, from: usize, to: usize) -> (w: usize)
    requires
        from <= to <= line.len(),
    ensures
        w == min_int(widths(line_view(line@).subrange(from as int, to as int)), usize::MAX as int),
{
    let ghost lv = line_view(line@);
    let mut w: usize = 0;
    let mut k = from;
    assert(lv.subrange(from as int, from as int) =~= Seq::<Seq<char>>::empty());
    while k < to
        invariant
            from <= k <= to <= line.len(),
            lv == line_view(line@),
            w == min_int(widths(lv.subrange(from as int, k as int)), usize::MAX as int),
        decreases to - k,
    {
        let x = str_width(line[k].content.as_str());
        assert(lv.subrange(from as int, k + 1).drop_last() == lv.subrange(from as int, k as int));
        proof {
            lemma_widths_nonneg(lv.subrange(from as int, k as int));
        }
        w = if w <= usize::MAX - x {
            w + x
        } else {
            usize::MAX
        };
        k = k + 1;
    }
    w
}

fn find_number_from(line: &Vec<PaneSpan>, i: usize) -> (r: Option<usize>)
    requires
        i <= line.len(),
    ensures
        match r {
            Some(k) => k as int == find_number(line_view(line@), i as int),
            None => find_number(line_view(line@), i as int) == -1,
        },
{
    let ghost lv = line_view(line@);
    let mut k = i;
    while k < line.len()
        invariant
            i <= k <= line.len(),
            lv == line_view(line@),
            find_number(lv, k as int) == find_number(lv, i as int),
        decreases line.len() - k,
    {
        if is_line_num_span(line[k].content.as_str()) {
            return Some(k);
        }
        k = k + 1;
    }
    None
}

pub fn widen_line(line: Vec<PaneSpan>, pane: u16) -> (r: Vec<PaneSpan>)
    ensures
        line_view(r@) == widen_spec(line_view(line@), pane),
        line_styles(r@) == widen_styles(line_view(line@), line_styles(line@), pane),
{
    let ghost lv = line_view(line@);
    let ghost ls = line_styles(line@);
    proof {
        lemma_find_number(lv, 0);
    }
    let first = match find_number_from(&line, 0) {
        Some(k) => k,
        None => {
            return line;
        },
    };
    assert(lv.len() == line.len());
    assert(first < line.len());
    proof {
        lemma_find_number(lv, first + 1);
    }
    let rhs_at = match find_number_from(&line, first + 1) {
        Some(k) => k,
        None => {
            return line;
        },
    };
    let between = widths_sat(&line, first + 1, rhs_at);
    if between == 0 {
        return line;
    }
    let lhs_w = widths_sat(&line, 0, rhs_at);
    assert(lv.subrange(0, rhs_at as int) == lv.take(rhs_at as int));
    let half: u16 = (if pane >= 1 {
        pane - 1
    } else {
        0
    }) / 2;
    let target: usize = (half + 1) as usize;
    if lhs_w >= target {
        return line;
    }
    let mut pad = String::new();
    let mut k: usize = 0;
    while k < target - lhs_w
        invariant
            k <= target - lhs_w,
            pad@ == spaces(k as int),
        decreases target - lhs_w - k,
    {
        push_char(&mut pad, ' ');
        assert(pad@ =~= spaces(k + 1));
        k = k + 1;
    }
    let mut spans = line;
    let ghost before = spans@;
    spans.insert(rhs_at, PaneSpan { content: pad, style: plain_style() });
    assert(spans@ =~= before.take(rhs_at as int).push(spans@[rhs_at as int]) + before.skip(
        rhs_at as int,
    ));
    assert(line_view(spans@) =~= lv.take(rhs_at as int).push(spaces((target - lhs_w) as int))
        + lv.skip(rhs_at as int));
    assert(line_styles(spans@) =~= ls.take(rhs_at as int).push(no_style()) + ls.skip(
        rhs_at as int,
    ));
    spans
}

/// A dump's lines: each clipped to the pane, then widened.
pub open spec fn shaped_lines(t: Seq<Seq<Seq<char>>>, pane: u16) -> Seq<Seq<Seq<char>>> {
    t.map_values(|l: Seq<Seq<char>>| widen_spec(clip_spans(l, pane_cols(pane), 0), pane))
}

/// The looks of a dump's lines after clipping and widening: each clipped
/// run keeps the look of the run it came from, padding is unstyled.
pub open spec fn shaped_styles(t: Seq<Seq<Seq<char>>>, st: Seq<Seq<PaneStyle>>, pane: u16) -> Seq<
    Seq<PaneStyle>,
> {
    Seq::new(
        t.len(),
        |i: int|
            widen_styles(
                clip_spans(t[i], pane_cols(pane), 0),
                st[i].take(clip_spans(t[i], pane_cols(pane), 0).len() as int),
                pane,
            ),
    )
}

pub fn shape_lines(text: PaneText, pane: u16) -> (r: PaneText)
    ensures
        r@ == shaped_lines(text@, pane),
        r.styles() == shaped_styles(text@, text.styles(), pane),
{
    let ghost tv = text@;
    let ghost ts = text.styles();
    let max_w: usize = if pane == 0 {
        1
    } else {
        pane as usize
    };
    let mut lines: Vec<Vec<PaneSpan>> = Vec::new();
    let mut i: usize = 0;
    while i < text.lines.len()
        invariant
            i <= text.lines.len(),
            tv == text@,
            max_w as int == pane_cols(pane),
            lines@.map_values(|l: Vec<PaneSpan>| line_view(l@)) == shaped_lines(
                tv.take(i as int),
                pane,
            ),
            ts == text.styles(),
            lines@.map_values(|l: Vec<PaneSpan>| line_styles(l@)) == shaped_styles(tv, ts, pane).take(
                i as int,
            ),
        decreases text.lines.len() - i,
    {
        let clipped = clip_line(&text.lines[i], max_w);
        let ghost cl = clipped@;
        let widened = widen_line(clipped, pane);
        let ghost before = lines@.map_values(|l: Vec<PaneSpan>| line_view(l@));
        let ghost sbefore = lines@.map_values(|l: Vec<PaneSpan>| line_styles(l@));
        assert(line_view(cl).len() == cl.len());
        assert(line_styles(cl) == ts[i as int].take(cl.len() as int));
        assert(line_styles(widened@) == shaped_styles(tv, ts, pane)[i as int]);
        lines.push(widened);
        assert(lines@.map_values(|l: Vec<PaneSpan>| line_styles(l@)) =~= sbefore.push(
            line_styles(widened@),
        ));
        assert(shaped_styles(tv, ts, pane).take(i + 1) =~= shaped_styles(tv, ts, pane).take(
            i as int,
        ).push(shaped_styles(tv, ts, pane)[i as int]));
        assert(lines@.map_values(|l: Vec<PaneSpan>| line_view(l@)) =~= before.push(
            line_view(widened@),
        ));
        assert(shaped_lines(tv.take(i + 1), pane) =~= shaped_lines(tv.take(i as int), pane).push(
            widen_spec(clip_spans(tv[i as int], pane_cols(pane), 0), pane),
        ));
        i = i + 1;
    }
    assert(tv.take(text.lines.len() as int) == tv);
    assert(shaped_styles(tv, ts, pane).take(text.lines.len() as int) =~= shaped_styles(tv, ts, pane));
    PaneText { lines }
}

pub open spec fn binary_notice() -> Seq<char> {
    "Binary contents changed."@
}

/// The pane text of a successful dump: a NUL anywhere makes it the binary
/// one-liner; otherwise its ANSI lines, clipped and widened to the pane.
pub open spec fn dump_lines(bytes: Seq<u8>, pane: u16) -> Seq<Seq<Seq<char>>> {
    if bytes.contains(0u8) {
        seq![seq![binary_notice()]]
    } else if ansi_lines(bytes).len() > 0 {
        shaped_lines(ansi_lines(bytes), pane)
    } else {
        Seq::empty()
    }
}

/// The looks of those lines: the binary notice is unstyled; otherwise the
/// ANSI looks, clipped and widened with the lines.
pub open spec fn dump_styles(bytes: Seq<u8>, pane: u16) -> Seq<Seq<PaneStyle>> {
    if bytes.contains(0u8) {
        seq![seq![no_style()]]
    } else if ansi_lines(bytes).len() > 0 {
        shaped_styles(ansi_lines(bytes), ansi_styles(bytes), pane)
    } else {
        Seq::empty()
    }
}

fn has_nul(bytes: &Vec<u8>) -> (b: bool)
    ensures
        b == bytes@.contains(0u8),
{
    let mut i: usize = 0;
    while i < bytes.len()
        invariant
            i <= bytes.len(),
            forall|k: int| 0 <= k < i ==> bytes@[k] != 0u8,
        decreases bytes.len() - i,
    {
        if bytes[i] == 0 {
            assert(bytes@[i as int] == 0u8);
            return true;
        }
        i = i + 1;
    }
    false
}

pub fn bytes_to_text(bytes: &Vec<u8>, pane: u16) -> (t: PaneText)
    ensures
        t@ == dump_lines(bytes@, pane),
        t.styles() == dump_styles(bytes@, pane),
{
    if has_nul(bytes) {
        let notice = String::from_str("Binary contents changed.");
        proof {
            reveal_strlit("Binary contents changed.");
            assert(notice@.len() > 0);
            assert(!notice@.contains('\n'));
            lemma_raw_one_line(notice@);
        }
        return text_from_string(notice);
    }
    match ansi_text(bytes) {
        Ok(text) => {
            if text.lines.len() > 0 {
                shape_lines(text, pane)
            } else {
                PaneText::empty()
            }
        },
        Err(_) => text_from_string(lossy_string(bytes.as_slice())),
    }
}

} // verus!
