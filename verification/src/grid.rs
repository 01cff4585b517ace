use vstd::prelude::*;
use vstd::string::StringExecFns;

use crate::cell::CellInfo;
use crate::cell::CellShape;
use crate::cell::push_char;
use crate::width::WidthFunc;

verus! {

/// Border glyphs and padding for a grid. Corners and crossings share the
/// `intersection` glyph; `padding` counts the spaces on each side of a
/// cell's content.
#[derive(Debug, Clone, Copy)]
pub struct Style {
    pub horizontal: char,
    pub vertical: char,
    pub intersection: char,
    pub padding: usize,
}

/// `n` copies of `c`.
pub open spec fn repeat_ch(c: char, n: nat) -> Seq<char> {
    Seq::new(n, |i: int| c)
}

/// Saturating difference.
pub open spec fn sub0(a: nat, b: nat) -> nat {
    if a >= b {
        (a - b) as nat
    } else {
        0
    }
}

/// The widths of a row of measured columns, as mathematical integers.
pub open spec fn nats_of(ws: Seq<usize>) -> Seq<nat> {
    ws.map_values(|w: usize| w as nat)
}

/// The shapes of a row of cells.
pub open spec fn row_shapes(row: Seq<CellInfo>) -> Seq<CellShape> {
    row.map_values(|c: CellInfo| c@)
}

/// The shapes of a matrix of cells.
pub open spec fn shapes_of(cells: Seq<Vec<CellInfo>>) -> Seq<Seq<CellShape>> {
    cells.map_values(|row: Vec<CellInfo>| row_shapes(row@))
}

/// Rectangular, with every cell's shape well formed.
pub open spec fn matrix_wf(m: Seq<Seq<CellShape>>) -> bool {
    &&& forall|i: int| 0 <= i < m.len() ==> (#[trigger] m[i]).len() == m[0].len()
    &&& forall|i: int, j: int|
        0 <= i < m.len() && 0 <= j < m[i].len() ==> (#[trigger] m[i][j]).wf()
}

/// The width of column `j`: the largest cell width in it.
pub open spec fn col_width(m: Seq<Seq<CellShape>>, j: int) -> nat
    decreases m.len(),
{
    if m.len() == 0 {
        0
    } else {
        let rest = col_width(m.drop_last(), j);
        let w = m.last()[j].width;
        if w > rest {
            w
        } else {
            rest
        }
    }
}

/// The widths of the first `ncols` columns.
pub open spec fn col_widths(m: Seq<Seq<CellShape>>, ncols: nat) -> Seq<nat> {
    Seq::new(ncols, |j: int| col_width(m, j))
}

/// Every cell's width in column `j` is bounded by the column width.
pub proof fn lemma_col_width_bound(m: Seq<Seq<CellShape>>, i: int, j: int)
    requires
        0 <= i < m.len(),
    ensures
        m[i][j].width <= col_width(m, j),
    decreases m.len(),
{
    if i == m.len() - 1 {
        assert(m.last() == m[i]);
    } else {
        lemma_col_width_bound(m.drop_last(), i, j);
        assert(m.drop_last()[i] == m[i]);
    }
}

/// The height of a row: the largest line count among its cells.
pub open spec fn row_height(row: Seq<CellShape>) -> nat
    decreases row.len(),
{
    if row.len() == 0 {
        0
    } else {
        let rest = row_height(row.drop_last());
        let h = row.last().lines.len();
        if h > rest {
            h
        } else {
            rest
        }
    }
}

/// A separator line: an intersection glyph, then for each column a run of
/// horizontal glyphs covering its padded width, closed by an intersection.
pub open spec fn sep_line(widths: Seq<nat>, st: Style) -> Seq<char>
    decreases widths.len(),
{
    if widths.len() == 0 {
        seq![st.intersection]
    } else {
        sep_line(widths.drop_last(), st) + repeat_ch(
            st.horizontal,
            st.padding as nat + widths.last() + st.padding as nat,
        ) + seq![st.intersection]
    }
}

/// Cell `c`'s contribution to output line `k` of its row, padded to column
/// width `w`: the line's text followed by fill spaces, or spaces alone when
/// the cell has fewer lines than the row is tall.
pub open spec fn cell_line_padded(c: CellShape, w: nat, k: int) -> Seq<char> {
    if 0 <= k < c.lines.len() {
        c.lines[k] + repeat_ch(' ', sub0(w, c.widths[k]))
    } else {
        repeat_ch(' ', w)
    }
}

/// Output line `k` of one row: a vertical glyph, then each cell's padded
/// content between padding spaces, each closed by a vertical glyph.
pub open spec fn data_line(row: Seq<CellShape>, widths: Seq<nat>, k: int, st: Style) -> Seq<char>
    decreases row.len(),
{
    if row.len() == 0 {
        seq![st.vertical]
    } else {
        data_line(row.drop_last(), widths.drop_last(), k, st) + repeat_ch(
            ' ',
            st.padding as nat,
        ) + cell_line_padded(row.last(), widths.last(), k) + repeat_ch(' ', st.padding as nat)
            + seq![st.vertical]
    }
}

/// The `height` output lines of one row.
pub open spec fn row_lines(row: Seq<CellShape>, widths: Seq<nat>, height: nat, st: Style) -> Seq<
    Seq<char>,
>
    decreases height,
{
    if height == 0 {
        Seq::empty()
    } else {
        row_lines(row, widths, (height - 1) as nat, st).push(
            data_line(row, widths, height - 1, st),
        )
    }
}

/// All output lines of a grid: a separator, then each row's lines, each row
/// closed by a separator. A grid of one row and one column still draws a
/// full four-corner box.
pub open spec fn grid_lines(m: Seq<Seq<CellShape>>, widths: Seq<nat>, st: Style) -> Seq<Seq<char>>
    decreases m.len(),
{
    if m.len() == 0 {
        seq![sep_line(widths, st)]
    } else {
        grid_lines(m.drop_last(), widths, st) + row_lines(
            m.last(),
            widths,
            row_height(m.last()),
            st,
        ) + seq![sep_line(widths, st)]
    }
}

/// There is always at least one output line: the opening separator.
pub proof fn lemma_grid_lines_nonempty(m: Seq<Seq<CellShape>>, widths: Seq<nat>, st: Style)
    ensures
        grid_lines(m, widths, st).len() >= 1,
    decreases m.len(),
{
    if m.len() > 0 {
        lemma_grid_lines_nonempty(m.drop_last(), widths, st);
    }
}

/// Lines joined by a line feed, with no trailing line feed.
pub open spec fn join_lines(ls: Seq<Seq<char>>) -> Seq<char>
    decreases ls.len(),
{
    if ls.len() == 0 {
        Seq::empty()
    } else if ls.len() == 1 {
        ls[0]
    } else {
        join_lines(ls.drop_last()) + seq!['\n'] + ls.last()
    }
}

/// Appending one more line appends one line feed and that line.
pub proof fn lemma_join_push(ls: Seq<Seq<char>>, l: Seq<char>)
    requires
        ls.len() >= 1,
    ensures
        join_lines(ls.push(l)) == join_lines(ls) + seq!['\n'] + l,
{
    assert(ls.push(l).drop_last() =~= ls);
    assert(ls.push(l).last() == l);
}

/// The rendered text of a whole grid. A grid with no rows or no columns
/// renders as the empty text, not as a degenerate bordered box.
pub open spec fn grid_output(m: Seq<Seq<CellShape>>, st: Style) -> Seq<char> {
    if m.len() == 0 || m[0].len() == 0 {
        Seq::empty()
    } else {
        join_lines(grid_lines(m, col_widths(m, m[0].len()), st))
    }
}

/// Append `n` copies of `c` to `out`.
fn push_repeat(out: &mut String, c: char, n: usize)
    ensures
        final(out)@ == old(out)@ + repeat_ch(c, n as nat),
{
    let mut i: usize = 0;
    proof {
        assert(old(out)@ + repeat_ch(c, 0) =~= old(out)@);
    }
    while i < n
        invariant
            i <= n,
            out@ == old(out)@ + repeat_ch(c, i as nat),
        decreases n - i,
    {
        push_char(out, c);
        proof {
            assert((old(out)@ + repeat_ch(c, i as nat)).push(c) =~= old(out)@ + repeat_ch(
                c,
                (i + 1) as nat,
            ));
        }
        i = i + 1;
    }
}

/// Build one separator line.
fn build_sep_line(widths: &Vec<usize>, st: &Style) -> (r: String)
    ensures
        r@ == sep_line(nats_of(widths@), *st),
{
    let ghost ws = nats_of(widths@);
    let mut out = String::new();
    push_char(&mut out, st.intersection);
    proof {
        assert(ws.take(0) =~= Seq::<nat>::empty());
        assert(out@ =~= sep_line(ws.take(0), *st));
    }
    let mut j: usize = 0;
    while j < widths.len()
        invariant
            j <= widths@.len(),
            ws == nats_of(widths@),
            out@ == sep_line(ws.take(j as int), *st),
            *st == *st,
        decreases widths@.len() - j,
    {
        let ghost out0 = out@;
        let ghost j0 = j as int;
        let w = widths[j];
        push_repeat(&mut out, st.horizontal, st.padding);
        push_repeat(&mut out, st.horizontal, w);
        push_repeat(&mut out, st.horizontal, st.padding);
        push_char(&mut out, st.intersection);
        proof {
            assert(ws[j0] == w as nat);
            assert(ws.take(j0 + 1).drop_last() =~= ws.take(j0));
            assert(ws.take(j0 + 1).last() == ws[j0]);
            assert(out@ =~= out0 + repeat_ch(
                st.horizontal,
                st.padding as nat + ws[j0] + st.padding as nat,
            ) + seq![st.intersection]);
            assert(out@ == sep_line(ws.take(j0 + 1), *st));
        }
        j = j + 1;
    }
    proof {
        assert(ws.take(widths@.len() as int) =~= ws);
    }
    out
}

/// Build output line `k` of one row, padding every cell to its column
/// width and filling missing lines with blanks.
fn build_data_line<W: WidthFunc>(
    row: &Vec<CellInfo>,
    widths: &Vec<usize>,
    k: usize,
    st: &Style,
    width_ctrl: &W,
) -> (r: String)
    requires
        row@.len() == widths@.len(),
        forall|j: int| 0 <= j < row@.len() ==> (#[trigger] row@[j]@).wf(),
        forall|j: int| 0 <= j < row@.len() ==> (#[trigger] row@[j]@).width <= widths@[j],
    ensures
        r@ == data_line(row_shapes(row@), nats_of(widths@), k as int, *st),
{
    let ghost shapes = row_shapes(row@);
    let ghost ws = nats_of(widths@);
    let mut out = String::new();
    push_char(&mut out, st.vertical);
    proof {
        assert(shapes.take(0) =~= Seq::<CellShape>::empty());
        assert(ws.take(0) =~= Seq::<nat>::empty());
        assert(out@ =~= data_line(shapes.take(0), ws.take(0), k as int, *st));
    }
    let mut j: usize = 0;
    while j < row.len()
        invariant
            j <= row@.len(),
            row@.len() == widths@.len(),
            shapes == row_shapes(row@),
            ws == nats_of(widths@),
            forall|jj: int| 0 <= jj < row@.len() ==> (#[trigger] row@[jj]@).wf(),
            forall|jj: int| 0 <= jj < row@.len() ==> (#[trigger] row@[jj]@).width <= widths@[jj],
            out@ == data_line(shapes.take(j as int), ws.take(j as int), k as int, *st),
        decreases row@.len() - j,
    {
        let ghost out0 = out@;
        let ghost j0 = j as int;
        proof {
            assert(shapes[j0] == row@[j0]@);
            assert(ws[j0] == widths@[j0] as nat);
        }
        push_repeat(&mut out, ' ', st.padding);
        let cl = row[j].count_lines();
        let cw = widths[j];
        if k < cl {
            let line = row[j].get_line(k);
            out.append(line);
            let lw = row[j].line_width(k, width_ctrl);
            proof {
                assert(row@[j0]@.widths[k as int] <= row@[j0]@.width);
            }
            push_repeat(&mut out, ' ', cw - lw);
            proof {
                assert(sub0(ws[j0], row@[j0]@.widths[k as int]) == (cw - lw) as nat);
                assert(cell_line_padded(shapes[j0], ws[j0], k as int) =~= row@[j0]@.lines[k as int]
                    + repeat_ch(' ', (cw - lw) as nat));
            }
        } else {
            push_repeat(&mut out, ' ', cw);
            proof {
                assert(cell_line_padded(shapes[j0], ws[j0], k as int) == repeat_ch(' ', ws[j0]));
            }
        }
        push_repeat(&mut out, ' ', st.padding);
        push_char(&mut out, st.vertical);
        proof {
            assert(shapes.take(j0 + 1).drop_last() =~= shapes.take(j0));
            assert(ws.take(j0 + 1).drop_last() =~= ws.take(j0));
            assert(shapes.take(j0 + 1).last() == shapes[j0]);
            assert(ws.take(j0 + 1).last() == ws[j0]);
            assert(out@ =~= out0 + repeat_ch(' ', st.padding as nat) + cell_line_padded(
                shapes[j0],
                ws[j0],
                k as int,
            ) + repeat_ch(' ', st.padding as nat) + seq![st.vertical]);
            assert(out@ == data_line(shapes.take(j0 + 1), ws.take(j0 + 1), k as int, *st));
        }
        j = j + 1;
    }
    proof {
        assert(shapes.take(row@.len() as int) =~= shapes);
        assert(ws.take(widths@.len() as int) =~= ws);
    }
    out
}

/// The height of one row of cells: its largest line count.
fn row_max_lines(row: &Vec<CellInfo>) -> (r: usize)
    ensures
        r == row_height(row_shapes(row@)),
{
    let ghost shapes = row_shapes(row@);
    let mut best: usize = 0;
    let mut j: usize = 0;
    proof {
        assert(shapes.take(0) =~= Seq::<CellShape>::empty());
    }
    while j < row.len()
        invariant
            j <= row@.len(),
            shapes == row_shapes(row@),
            best == row_height(shapes.take(j as int)),
        decreases row@.len() - j,
    {
        let ghost j0 = j as int;
        let h = row[j].count_lines();
        proof {
            assert(shapes[j0] == row@[j0]@);
            assert(shapes.take(j0 + 1).drop_last() =~= shapes.take(j0));
            assert(shapes.take(j0 + 1).last() == shapes[j0]);
        }
        if h > best {
            best = h;
        }
        j = j + 1;
    }
    proof {
        assert(shapes.take(row@.len() as int) =~= shapes);
    }
    best
}

/// The per-column widths of a rectangular matrix.
fn compute_col_widths<W: WidthFunc>(
    cells: &Vec<Vec<CellInfo>>,
    ncols: usize,
    width_ctrl: &W,
) -> (r: Vec<usize>)
    requires
        forall|i: int| 0 <= i < cells@.len() ==> (#[trigger] cells@[i]@).len() == ncols,
    ensures
        nats_of(r@) == col_widths(shapes_of(cells@), ncols as nat),
        r@.len() == ncols,
{
    let ghost m = shapes_of(cells@);
    let mut r: Vec<usize> = Vec::new();
    let mut j: usize = 0;
    proof {
        assert(nats_of(r@) =~= col_widths(m, 0));
    }
    while j < ncols
        invariant
            j <= ncols,
            m == shapes_of(cells@),
            forall|i: int| 0 <= i < cells@.len() ==> (#[trigger] cells@[i]@).len() == ncols,
            r@.len() == j,
            nats_of(r@) == col_widths(m, j as nat),
        decreases ncols - j,
    {
        let ghost j0 = j as int;
        let mut best: usize = 0;
        let mut i: usize = 0;
        proof {
            assert(m.take(0) =~= Seq::<Seq<CellShape>>::empty());
        }
        while i < cells.len()
            invariant
                i <= cells@.len(),
                j < ncols,
                j0 == j as int,
                m == shapes_of(cells@),
                forall|ii: int| 0 <= ii < cells@.len() ==> (#[trigger] cells@[ii]@).len() == ncols,
                best == col_width(m.take(i as int), j as int),
            decreases cells@.len() - i,
        {
            let ghost i0 = i as int;
            proof {
                assert(m[i0] == row_shapes(cells@[i0]@));
                assert(m[i0][j0] == cells@[i0]@[j0]@);
                assert(m.take(i0 + 1).drop_last() =~= m.take(i0));
                assert(m.take(i0 + 1).last() == m[i0]);
            }
            let w = cells[i][j].width(width_ctrl);
            if w > best {
                best = w;
            }
            i = i + 1;
        }
        proof {
            assert(m.take(cells@.len() as int) =~= m);
        }
        let ghost r0 = r@;
        r.push(best);
        j = j + 1;
        proof {
            assert(nats_of(r@) =~= nats_of(r0).push(best as nat));
            assert(col_widths(m, (j0 + 1) as nat) =~= col_widths(m, j0 as nat).push(
                col_width(m, j0),
            ));
        }
    }
    r
}

/// Render a rectangular matrix of measured cells as one bordered text
/// block: a separator line, then each row's lines — every cell padded to
/// its column's width and its row's height — each row closed by a
/// separator line, all joined by line feeds.
pub fn build_grid<W: WidthFunc>(cells: &Vec<Vec<CellInfo>>, style: &Style, width_ctrl: &W) -> (r:
    String)
    requires
        matrix_wf(shapes_of(cells@)),
    ensures
        r@ == grid_output(shapes_of(cells@), *style),
{
    let ghost m = shapes_of(cells@);
    if cells.len() == 0 {
        return String::new();
    }
    let ncols = cells[0].len();
    proof {
        assert(m[0] == row_shapes(cells@[0]@));
    }
    if ncols == 0 {
        proof {
            assert(m[0].len() == 0);
        }
        return String::new();
    }
    proof {
        assert forall|i: int| 0 <= i < cells@.len() implies (#[trigger] cells@[i]@).len()
            == ncols by {
            assert(m[i] == row_shapes(cells@[i]@));
            assert(m[i].len() == m[0].len());
        }
    }
    let widths = compute_col_widths(cells, ncols, width_ctrl);
    let ghost cw = col_widths(m, ncols as nat);
    let mut out = build_sep_line(&widths, style);
    proof {
        assert(m.take(0) =~= Seq::<Seq<CellShape>>::empty());
        assert(join_lines(grid_lines(m.take(0), cw, *style)) == sep_line(cw, *style));
    }
    let mut i: usize = 0;
    while i < cells.len()
        invariant
            i <= cells@.len(),
            m == shapes_of(cells@),
            matrix_wf(m),
            ncols == cells@[0]@.len(),
            ncols > 0,
            forall|ii: int| 0 <= ii < cells@.len() ==> (#[trigger] cells@[ii]@).len() == ncols,
            widths@.len() == ncols,
            nats_of(widths@) == cw,
            cw == col_widths(m, ncols as nat),
            out@ == join_lines(grid_lines(m.take(i as int), cw, *style)),
        decreases cells@.len() - i,
    {
        let ghost i0 = i as int;
        proof {
            assert(m[i0] == row_shapes(cells@[i0]@));
        }
        let h = row_max_lines(&cells[i]);
        proof {
            assert forall|j: int| 0 <= j < cells@[i0]@.len() implies (#[trigger] cells@[i0]@[j]@).wf()
                && cells@[i0]@[j]@.width <= widths@[j] by {
                assert(m[i0][j] == cells@[i0]@[j]@);
                assert(m[i0][j].wf());
                lemma_col_width_bound(m, i0, j);
                assert(cw[j] == col_width(m, j));
            }
        }
        let mut k: usize = 0;
        while k < h
            invariant
                k <= h,
                i < cells@.len(),
                i0 == i as int,
                m == shapes_of(cells@),
                matrix_wf(m),
                ncols == cells@[0]@.len(),
                ncols > 0,
                forall|ii: int| 0 <= ii < cells@.len() ==> (#[trigger] cells@[ii]@).len() == ncols,
                widths@.len() == ncols,
                nats_of(widths@) == cw,
                cw == col_widths(m, ncols as nat),
                m[i as int] == row_shapes(cells@[i as int]@),
                h == row_height(m[i as int]),
                forall|j: int|
                    0 <= j < cells@[i as int]@.len() ==> (#[trigger] cells@[i as int]@[j]@).wf()
                        && cells@[i as int]@[j]@.width <= widths@[j],
                out@ == join_lines(
                    grid_lines(m.take(i as int), cw, *style) + row_lines(
                        m[i as int],
                        cw,
                        k as nat,
                        *style,
                    ),
                ),
            decreases h - k,
        {
            let ghost lines0 = grid_lines(m.take(i0), cw, *style) + row_lines(
                m[i0],
                cw,
                k as nat,
                *style,
            );
            push_char(&mut out, '\n');
            let dl = build_data_line(&cells[i], &widths, k, style, width_ctrl);
            out.append(dl.as_str());
            proof {
                lemma_grid_lines_nonempty(m.take(i0), cw, *style);
                lemma_join_push(lines0, data_line(m[i0], cw, k as int, *style));
                assert(row_lines(m[i0], cw, (k + 1) as nat, *style) == row_lines(
                    m[i0],
                    cw,
                    k as nat,
                    *style,
                ).push(data_line(m[i0], cw, k as int, *style)));
                assert(lines0.push(data_line(m[i0], cw, k as int, *style)) =~= grid_lines(
                    m.take(i0),
                    cw,
                    *style,
                ) + row_lines(m[i0], cw, (k + 1) as nat, *style));
                assert(out@ =~= join_lines(lines0) + seq!['\n'] + data_line(
                    m[i0],
                    cw,
                    k as int,
                    *style,
                ));
            }
            k = k + 1;
        }
        let ghost lines1 = grid_lines(m.take(i0), cw, *style) + row_lines(
            m[i0],
            cw,
            row_height(m[i0]),
            *style,
        );
        push_char(&mut out, '\n');
        let sep = build_sep_line(&widths, style);
        out.append(sep.as_str());
        i = i + 1;
        proof {
            lemma_grid_lines_nonempty(m.take(i0), cw, *style);
            lemma_join_push(lines1, sep_line(cw, *style));
            assert(m.take(i0 + 1).drop_last() =~= m.take(i0));
            assert(m.take(i0 + 1).last() == m[i0]);
            assert(grid_lines(m.take(i0 + 1), cw, *style) =~= lines1.push(sep_line(cw, *style)));
            assert(out@ =~= join_lines(lines1) + seq!['\n'] + sep_line(cw, *style));
            assert(out@ == join_lines(grid_lines(m.take(i0 + 1), cw, *style)));
        }
    }
    proof {
        assert(m.take(cells@.len() as int) =~= m);
    }
    out
}

} // verus!
