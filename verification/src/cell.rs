use vstd::prelude::*;
use vstd::string::StrSliceExecFns;
use vstd::string::StringExecFns;

use crate::width::WidthFunc;
use crate::width::lemma_max_of_bound;
use crate::width::max_of;

verus! {

/// Splits `s` into display lines. A line break is `"\r\n"` or `"\n"`,
/// treated uniformly; a carriage return not followed by a line feed is an
/// ordinary character. Every text has at least one line; the empty text has
/// exactly one, empty.
pub open spec fn split_lines(s: Seq<char>) -> Seq<Seq<char>>
    decreases s.len(),
{
    if s.len() == 0 {
        seq![Seq::<char>::empty()]
    } else if s[0] == '\n' {
        seq![Seq::<char>::empty()] + split_lines(s.drop_first())
    } else if s[0] == '\r' && s.len() >= 2 && s[1] == '\n' {
        seq![Seq::<char>::empty()] + split_lines(s.skip(2))
    } else {
        let rest = split_lines(s.drop_first());
        seq![seq![s[0]] + rest[0]] + rest.drop_first()
    }
}

/// Every text splits into at least one line.
pub proof fn lemma_split_lines_nonempty(s: Seq<char>)
    ensures
        split_lines(s).len() >= 1,
    decreases s.len(),
{
    if s.len() == 0 {
    } else if s[0] == '\n' {
        lemma_split_lines_nonempty(s.drop_first());
    } else if s[0] == '\r' && s.len() >= 2 && s[1] == '\n' {
        lemma_split_lines_nonempty(s.skip(2));
    } else {
        lemma_split_lines_nonempty(s.drop_first());
    }
}

/// A text without a line break is a single display line: itself.
pub proof fn lemma_split_single_line(s: Seq<char>)
    requires
        forall|i: int| 0 <= i < s.len() ==> s[i] != '\n',
    ensures
        split_lines(s) == seq![s],
    decreases s.len(),
{
    if s.len() == 0 {
        assert(s =~= Seq::<char>::empty());
    } else {
        assert(forall|i: int| 0 <= i < s.drop_first().len() ==> s.drop_first()[i] != '\n');
        lemma_split_single_line(s.drop_first());
        let rest = split_lines(s.drop_first());
        assert(rest[0] == s.drop_first());
        assert(seq![s[0]] + s.drop_first() =~= s);
        assert(rest.drop_first() =~= Seq::<Seq<char>>::empty());
        assert(split_lines(s) =~= seq![s]);
    }
}

/// A text that holds a line feed splits into at least two lines.
pub proof fn lemma_split_multi_line(s: Seq<char>)
    requires
        exists|i: int| 0 <= i < s.len() && s[i] == '\n',
    ensures
        split_lines(s).len() >= 2,
    decreases s.len(),
{
    if s[0] == '\n' {
        lemma_split_lines_nonempty(s.drop_first());
    } else if s[0] == '\r' && s.len() >= 2 && s[1] == '\n' {
        lemma_split_lines_nonempty(s.skip(2));
    } else {
        let i = choose|i: int| 0 <= i < s.len() && s[i] == '\n';
        assert(s.drop_first()[i - 1] == '\n');
        lemma_split_multi_line(s.drop_first());
    }
}

/// A text that splits into a single line is that line.
pub proof fn lemma_split_len_one(s: Seq<char>)
    requires
        split_lines(s).len() == 1,
    ensures
        split_lines(s) == seq![s],
{
    if exists|i: int| 0 <= i < s.len() && s[i] == '\n' {
        lemma_split_multi_line(s);
    }
    lemma_split_single_line(s);
}

/// The views of a sequence of owned strings.
pub open spec fn views_of(ls: Seq<String>) -> Seq<Seq<char>> {
    ls.map_values(|l: String| l@)
}

/// `ls` with `pre` prepended to its first line.
pub open spec fn prepend_first(pre: Seq<char>, ls: Seq<Seq<char>>) -> Seq<Seq<char>>
    recommends
        ls.len() >= 1,
{
    seq![pre + ls[0]] + ls.drop_first()
}

/// Relies on `String::push`: appends exactly the one character `c`.
#[verifier::external_body]
pub(crate) fn push_char(s: &mut String, c: char)
    ensures
        final(s)@ == old(s)@.push(c),
{
    s.push(c);
}

/// Split `text` into its display lines.
pub fn split_str_lines(text: &str) -> (out: Vec<String>)
    ensures
        views_of(out@) == split_lines(text@),
{
    let ghost s = text@;
    let n = text.unicode_len();
    let mut out: Vec<String> = Vec::new();
    let mut cur = String::new();
    let mut i: usize = 0;
    proof {
        assert(s.skip(0) =~= s);
        lemma_split_lines_nonempty(s);
        assert(views_of(out@) =~= Seq::<Seq<char>>::empty());
        assert(cur@ + split_lines(s)[0] =~= split_lines(s)[0]);
        assert(Seq::<Seq<char>>::empty() + prepend_first(cur@, split_lines(s)) =~= split_lines(
            s,
        ));
    }
    while i < n
        invariant
            i <= n,
            n == s.len(),
            text@ == s,
            split_lines(s.skip(i as int)).len() >= 1,
            split_lines(s) == views_of(out@) + prepend_first(cur@, split_lines(s.skip(i as int))),
        decreases n - i,
    {
        let ghost rem = s.skip(i as int);
        let c = text.get_char(i);
        proof {
            assert(rem[0] == s[i as int]);
        }
        if c == '\n' {
            proof {
                assert(rem.drop_first() =~= s.skip(i + 1));
                lemma_split_lines_nonempty(s.skip(i + 1));
                let tail = split_lines(s.skip(i + 1));
                assert(split_lines(rem) == seq![Seq::<char>::empty()] + tail);
                assert(split_lines(rem)[0] == Seq::<char>::empty());
                assert(cur@ + Seq::<char>::empty() =~= cur@);
                assert((seq![Seq::<char>::empty()] + tail).drop_first() =~= tail);
                assert(Seq::<char>::empty() + tail[0] =~= tail[0]);
                assert(views_of(out@.push(cur)) =~= views_of(out@).push(cur@));
                assert(prepend_first(cur@, split_lines(rem)) =~= seq![cur@] + tail);
                assert(seq![cur@] + prepend_first(Seq::<char>::empty(), tail) =~= seq![cur@]
                    + tail);
                assert(views_of(out@.push(cur)) + prepend_first(Seq::<char>::empty(), tail)
                    =~= views_of(out@) + prepend_first(cur@, split_lines(rem)));
            }
            out.push(cur);
            cur = String::new();
            i = i + 1;
        } else if c == '\r' && i + 1 < n && text.get_char(i + 1) == '\n' {
            proof {
                assert(rem[1] == s[i + 1]);
                assert(rem.skip(2) =~= s.skip(i + 2));
                lemma_split_lines_nonempty(s.skip(i + 2));
                let tail = split_lines(s.skip(i + 2));
                assert(split_lines(rem) == seq![Seq::<char>::empty()] + tail);
                assert(split_lines(rem)[0] == Seq::<char>::empty());
                assert(cur@ + Seq::<char>::empty() =~= cur@);
                assert((seq![Seq::<char>::empty()] + tail).drop_first() =~= tail);
                assert(Seq::<char>::empty() + tail[0] =~= tail[0]);
                assert(views_of(out@.push(cur)) =~= views_of(out@).push(cur@));
                assert(prepend_first(cur@, split_lines(rem)) =~= seq![cur@] + tail);
                assert(seq![cur@] + prepend_first(Seq::<char>::empty(), tail) =~= seq![cur@]
                    + tail);
                assert(views_of(out@.push(cur)) + prepend_first(Seq::<char>::empty(), tail)
                    =~= views_of(out@) + prepend_first(cur@, split_lines(rem)));
            }
            out.push(cur);
            cur = String::new();
            i = i + 2;
        } else {
            proof {
                assert(rem.drop_first() =~= s.skip(i + 1));
                lemma_split_lines_nonempty(s.skip(i + 1));
                let tail = split_lines(s.skip(i + 1));
                if rem[0] == '\r' && rem.len() >= 2 {
                    assert(rem[1] == s[i + 1]);
                }
                assert(split_lines(rem) == seq![seq![rem[0]] + tail[0]] + tail.drop_first());
                assert(cur@ + (seq![rem[0]] + tail[0]) =~= cur@.push(c) + tail[0]);
                assert((seq![seq![rem[0]] + tail[0]] + tail.drop_first()).drop_first()
                    =~= tail.drop_first());
                assert(prepend_first(cur@, split_lines(rem)) =~= prepend_first(
                    cur@.push(c),
                    tail,
                ));
            }
            push_char(&mut cur, c);
            i = i + 1;
        }
    }
    proof {
        assert(s.skip(n as int) =~= Seq::<char>::empty());
        assert(split_lines(s.skip(n as int)) == seq![Seq::<char>::empty()]);
        assert(cur@ + Seq::<char>::empty() =~= cur@);
        assert(prepend_first(cur@, split_lines(s.skip(n as int))) =~= seq![cur@]);
        assert(views_of(out@.push(cur)) =~= views_of(out@).push(cur@));
        assert(views_of(out@) + seq![cur@] =~= views_of(out@).push(cur@));
        assert(views_of(out@.push(cur)) =~= split_lines(s));
    }
    out.push(cur);
    out
}

/// The mathematical shape of one measured cell: its display lines, each
/// line's cached width, and the overall (maximum) width.
pub struct CellShape {
    pub lines: Seq<Seq<char>>,
    pub widths: Seq<nat>,
    pub width: nat,
}

impl CellShape {
    /// There is at least one line, each line has a cached width, and the
    /// overall width bounds every line width.
    pub open spec fn wf(self) -> bool {
        &&& self.widths.len() == self.lines.len()
        &&& self.lines.len() >= 1
        &&& forall|i: int| 0 <= i < self.widths.len() ==> self.widths[i] <= self.width
    }
}

/// The measure of each line under the width policy `w`.
pub open spec fn line_widths<W: WidthFunc>(ls: Seq<Seq<char>>, w: &W) -> Seq<nat> {
    ls.map_values(|l: Seq<char>| w.spec_width(l))
}

/// The shape a cell holding `t` reports once measured under `w`: the display
/// lines of `t`, their widths, and the maximum of those widths.
pub open spec fn shape_of_text<W: WidthFunc>(t: Seq<char>, w: &W) -> CellShape {
    CellShape {
        lines: split_lines(t),
        widths: line_widths(split_lines(t), w),
        width: max_of(line_widths(split_lines(t), w)),
    }
}

/// A freshly measured cell reports the display lines of its text, each with
/// the measure of that line, under an overall width that is their maximum
/// and so bounds each of them.
pub proof fn lemma_cell_measurement<W: WidthFunc>(t: Seq<char>, w: &W)
    ensures
        shape_of_text(t, w).lines == split_lines(t),
        shape_of_text(t, w).widths.len() == split_lines(t).len(),
        forall|i: int|
            0 <= i < split_lines(t).len() ==> shape_of_text(t, w).widths[i] == w.spec_width(
                split_lines(t)[i],
            ),
        shape_of_text(t, w).width == max_of(shape_of_text(t, w).widths),
        shape_of_text(t, w).wf(),
{
    lemma_split_lines_nonempty(t);
    lemma_max_of_bound(line_widths(split_lines(t), w));
}

/// A cell holding a text without a line break reports exactly one display
/// line — the text itself — and its overall width is the measure of that
/// whole text.
pub proof fn lemma_single_line_cell<W: WidthFunc>(t: Seq<char>, w: &W)
    requires
        forall|i: int| 0 <= i < t.len() ==> t[i] != '\n',
    ensures
        shape_of_text(t, w).lines.len() == 1,
        shape_of_text(t, w).lines[0] == t,
        shape_of_text(t, w).width == w.spec_width(t),
{
    lemma_split_single_line(t);
    assert(line_widths(seq![t], w) =~= seq![w.spec_width(t)]);
    assert(max_of(seq![w.spec_width(t)]) == w.spec_width(t)) by {
        assert(seq![w.spec_width(t)].drop_last() =~= Seq::<nat>::empty());
        assert(max_of(Seq::<nat>::empty()) == 0);
    }
}

/// One display line and its cached width.
#[derive(Debug, Clone)]
pub struct StrWithWidth {
    pub text: String,
    pub width: usize,
}

impl StrWithWidth {
    pub fn new(text: String, width: usize) -> (r: Self)
        ensures
            r.text == text,
            r.width == width,
    {
        Self { text, width }
    }
}

/// The line texts of a sequence of measured lines.
pub open spec fn texts_of(ls: Seq<StrWithWidth>) -> Seq<Seq<char>> {
    ls.map_values(|l: StrWithWidth| l.text@)
}

/// The cached widths of a sequence of measured lines.
pub open spec fn widths_of(ls: Seq<StrWithWidth>) -> Seq<nat> {
    ls.map_values(|l: StrWithWidth| l.width as nat)
}

/// One cell's text, split into display lines with cached widths.
///
/// A cell whose text holds no line break keeps no materialized line entries
/// and reports the whole text as its single line; this is a representation
/// choice with no observable difference, so the view hides it.
#[derive(Debug, Clone)]
pub struct CellInfo {
    text: String,
    lines: Vec<StrWithWidth>,
    width: usize,
}

impl View for CellInfo {
    type V = CellShape;

    closed spec fn view(&self) -> CellShape {
        CellShape {
            lines: if self.lines@.len() == 0 {
                seq![self.text@]
            } else {
                texts_of(self.lines@)
            },
            widths: if self.lines@.len() == 0 {
                seq![self.width as nat]
            } else {
                widths_of(self.lines@)
            },
            width: self.width as nat,
        }
    }
}

impl CellInfo {
    /// The raw text this cell holds.
    pub closed spec fn spec_text(self) -> Seq<char> {
        self.text@
    }

    /// Build a cell from raw text, split into display lines and measured
    /// under `width_ctrl`.
    pub fn new<W: WidthFunc>(text: &str, width_ctrl: &W) -> (r: Self)
        ensures
            r.spec_text() == text@,
            r@ == shape_of_text(text@, width_ctrl),
            r@.wf(),
    {
        create_cell_info(text, width_ctrl)
    }

    /// Whether the raw text is empty; independent of the cached lines.
    pub fn is_empty(&self) -> (r: bool)
        ensures
            r == (self.spec_text().len() == 0),
    {
        self.text.as_str().is_empty()
    }

    /// The display line `i`. Callers must stay under `count_lines()`.
    pub fn get_line(&self, i: usize) -> (r: &str)
        requires
            i < self@.lines.len(),
        ensures
            r@ == self@.lines[i as int],
    {
        if i == 0 && self.lines.len() == 0 {
            self.text.as_str()
        } else {
            self.lines[i].text.as_str()
        }
    }

    /// How many display lines the cell reports: at least one, even for
    /// empty text.
    pub fn count_lines(&self) -> (r: usize)
        ensures
            r == self@.lines.len(),
    {
        if self.lines.len() == 0 {
            1
        } else {
            self.lines.len()
        }
    }

    /// The cached overall width. The width policy argument is unused: the
    /// cache is authoritative until `update` re-measures.
    pub fn width<W: WidthFunc>(&self, _width_ctrl: &W) -> (r: usize)
        ensures
            r == self@.width,
    {
        self.width
    }

    /// The cached width of display line `i`.
    pub fn line_width<W: WidthFunc>(&self, i: usize, _width_ctrl: &W) -> (r: usize)
        requires
            i < self@.widths.len(),
        ensures
            r == self@.widths[i as int],
    {
        if i == 0 && self.lines.len() == 0 {
            self.width
        } else {
            self.lines[i].width
        }
    }

    /// Re-split and re-measure from the raw text: a full recompute, never an
    /// incremental patch.
    pub fn update<W: WidthFunc>(&mut self, width_ctrl: &W)
        ensures
            final(self).spec_text() == old(self).spec_text(),
            final(self)@ == shape_of_text(old(self).spec_text(), width_ctrl),
            final(self)@.wf(),
    {
        update_cell_info(self, width_ctrl);
    }

    /// Replace the raw text. The cached lines and widths are stale until
    /// `update` runs: the reported line count and the cached widths stay as
    /// they were, and a cell reporting two or more lines keeps exactly those
    /// lines; only a single-line cell, which reports the raw text as its one
    /// line, reports the new text at once.
    pub fn set(&mut self, text: String)
        ensures
            final(self).spec_text() == text@,
            final(self)@.width == old(self)@.width,
            final(self)@.lines.len() == old(self)@.lines.len(),
            final(self)@.widths == old(self)@.widths,
            old(self)@.lines.len() >= 2 ==> final(self)@ == old(self)@,
    {
        self.text = text;
    }

    /// The raw text as a borrowed string.
    pub fn as_ref(&self) -> (r: &str)
        ensures
            r@ == self.spec_text(),
    {
        self.text.as_str()
    }
}

/// Build a cell from raw text and measure it under `width_fn`.
pub fn create_cell_info<W: WidthFunc>(text: &str, width_fn: &W) -> (r: CellInfo)
    ensures
        r.spec_text() == text@,
        r@ == shape_of_text(text@, width_fn),
        r@.wf(),
{
    let mut info = CellInfo { text: String::from_str(text), lines: Vec::new(), width: 0 };
    update_cell_info(&mut info, width_fn);
    info
}

/// Recompute a cell's display lines and cached widths from its raw text.
pub fn update_cell_info<W: WidthFunc>(info: &mut CellInfo, width_fn: &W)
    ensures
        final(info).spec_text() == old(info).spec_text(),
        final(info)@ == shape_of_text(old(info).spec_text(), width_fn),
        final(info)@.wf(),
{
    let ghost t = info.text@;
    let parts = split_str_lines(info.text.as_str());
    proof {
        lemma_cell_measurement(t, width_fn);
    }
    if parts.len() == 1 {
        // the common single-line case: keep no materialized line entries
        let w = width_fn.width(parts[0].as_str());
        info.lines = Vec::new();
        info.width = w;
        proof {
            lemma_split_len_one(t);
            assert(views_of(parts@)[0] == parts@[0]@);
            assert(split_lines(t)[0] == t);
            assert(parts@[0]@ == t);
            assert(line_widths(split_lines(t), width_fn) =~= seq![width_fn.spec_width(t)]);
            assert(max_of(line_widths(split_lines(t), width_fn)) == width_fn.spec_width(t)) by {
                assert(line_widths(split_lines(t), width_fn).drop_last()
                    =~= Seq::<nat>::empty());
                assert(max_of(Seq::<nat>::empty()) == 0);
            }
            assert(info@.lines =~= split_lines(t));
            assert(info@.widths =~= line_widths(split_lines(t), width_fn));
            assert(info@ == shape_of_text(t, width_fn));
        }
    } else {
        let ghost ws = line_widths(split_lines(t), width_fn);
        let mut sw: Vec<StrWithWidth> = Vec::new();
        let mut wmax: usize = 0;
        let mut j: usize = 0;
        proof {
            assert(ws.take(0) =~= Seq::<nat>::empty());
            assert(texts_of(sw@) =~= views_of(parts@).take(0));
            assert(widths_of(sw@) =~= ws.take(0));
        }
        while j < parts.len()
            invariant
                j <= parts@.len(),
                sw@.len() == j,
                views_of(parts@) == split_lines(t),
                ws == line_widths(split_lines(t), width_fn),
                texts_of(sw@) == views_of(parts@).take(j as int),
                widths_of(sw@) == ws.take(j as int),
                wmax == max_of(ws.take(j as int)),
            decreases parts@.len() - j,
        {
            let ghost j0 = j as int;
            let l = parts[j].clone();
            let ghost lv = l@;
            let w = width_fn.width(l.as_str());
            proof {
                assert(views_of(parts@)[j0] == parts@[j0]@);
                assert(lv == parts@[j0]@);
                assert(ws[j0] == width_fn.spec_width(split_lines(t)[j0]));
                assert(w == ws[j0]);
                assert(ws.take(j0 + 1).drop_last() =~= ws.take(j0));
                assert(ws.take(j0 + 1).last() == ws[j0]);
            }
            if w > wmax {
                wmax = w;
            }
            let entry = StrWithWidth::new(l, w);
            let ghost sw0 = sw@;
            sw.push(entry);
            j = j + 1;
            proof {
                assert(sw@ == sw0.push(entry));
                assert(texts_of(sw@) =~= texts_of(sw0).push(lv));
                assert(views_of(parts@).take(j0 + 1) =~= views_of(parts@).take(j0).push(lv));
                assert(widths_of(sw@) =~= widths_of(sw0).push(w as nat));
                assert(ws.take(j0 + 1) =~= ws.take(j0).push(ws[j0]));
            }
        }
        info.lines = sw;
        info.width = wmax;
        proof {
            assert(ws.take(parts@.len() as int) =~= ws);
            assert(views_of(parts@).take(parts@.len() as int) =~= views_of(parts@));
            assert(info@.lines == split_lines(t));
            assert(info@.widths == ws);
            assert(info@ == shape_of_text(t, width_fn));
        }
    }
}

} // verus!
