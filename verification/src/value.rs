use vstd::prelude::*;
use vstd::string::StringExecFns;

use crate::cell::CellInfo;
use crate::cell::CellShape;
use crate::cell::push_char;
use crate::cell::shape_of_text;
use crate::grid::Style;
use crate::grid::build_grid;
use crate::grid::col_widths;
use crate::grid::grid_lines;
use crate::grid::grid_output;
use crate::grid::join_lines;
use crate::grid::lemma_grid_lines_nonempty;
use crate::grid::matrix_wf;
use crate::grid::row_shapes;
use crate::grid::shapes_of;
use crate::width::WidthFunc;

verus! {

broadcast use vstd::std_specs::vec::group_vec_axioms;

/// Layout direction for a container's children: side by side, or stacked.
#[derive(Debug, Clone, Copy, PartialEq, Eq, Structural)]
pub enum Orientation {
    Row,
    Column,
}

/// A tagged tree of structured data: a scalar text, an ordered sequence of
/// values, or an ordered map of text keys to values. Supplied by the
/// caller; the renderer never mutates it.
#[derive(Debug)]
pub enum Value {
    Scalar(String),
    Sequence(Vec<Value>),
    Mapping(Vec<(String, Value)>),
}

/// The cell shapes that the first `n` children of a sequence contribute: a
/// child whose contribution is the empty text — an empty container —
/// contributes nothing at all, no blank row or column.
pub open spec fn seq_shapes<W: WidthFunc>(
    vs: Vec<Value>,
    n: int,
    so: Orientation,
    mo: Orientation,
    st: Style,
    w: &W,
) -> Seq<CellShape>
    decreases vs, n,
{
    if n <= 0 || n > vs.len() {
        Seq::empty()
    } else {
        let init = seq_shapes(vs, n - 1, so, mo, st, w);
        let t = child_text(vs[n - 1], so, mo, st, w);
        if t.len() == 0 {
            init
        } else {
            init.push(shape_of_text(t, w))
        }
    }
}

/// The key and value cell shapes of a map's first `n` entries: the key as
/// a plain scalar cell, the value as its child contribution.
pub open spec fn map_shapes<W: WidthFunc>(
    ps: Vec<(String, Value)>,
    n: int,
    so: Orientation,
    mo: Orientation,
    st: Style,
    w: &W,
) -> Seq<(CellShape, CellShape)>
    decreases ps, n,
{
    if n <= 0 || n > ps.len() {
        Seq::empty()
    } else {
        map_shapes(ps, n - 1, so, mo, st, w).push(
            (
                shape_of_text(ps[n - 1].0@, w),
                shape_of_text(child_text(ps[n - 1].1, so, mo, st, w), w),
            ),
        )
    }
}

/// A sequence's cells arranged by orientation: one row of n columns, or n
/// rows of one column.
pub open spec fn arrange_seq(shapes: Seq<CellShape>, so: Orientation) -> Seq<Seq<CellShape>> {
    match so {
        Orientation::Row => seq![shapes],
        Orientation::Column => shapes.map_values(|s: CellShape| seq![s]),
    }
}

/// A map's key and value cells arranged by orientation: a keys row over a
/// values row, or one (key, value) row per entry.
pub open spec fn arrange_map(pairs: Seq<(CellShape, CellShape)>, mo: Orientation) -> Seq<
    Seq<CellShape>,
> {
    match mo {
        Orientation::Row => seq![
            pairs.map_values(|p: (CellShape, CellShape)| p.0),
            pairs.map_values(|p: (CellShape, CellShape)| p.1),
        ],
        Orientation::Column => pairs.map_values(|p: (CellShape, CellShape)| seq![p.0, p.1]),
    }
}

/// The rendered text of `v` under the given orientations and style: a pure
/// function of these arguments alone. The same orientation pair applies
/// unchanged at every nesting depth.
pub open spec fn spec_render<W: WidthFunc>(
    v: Value,
    so: Orientation,
    mo: Orientation,
    st: Style,
    w: &W,
) -> Seq<char>
    decreases v, 0int,
{
    match v {
        Value::Scalar(s) => grid_output(seq![seq![shape_of_text(s@, w)]], st),
        Value::Sequence(vs) => grid_output(
            arrange_seq(seq_shapes(vs, vs.len() as int, so, mo, st, w), so),
            st,
        ),
        Value::Mapping(ps) => grid_output(
            arrange_map(map_shapes(ps, ps.len() as int, so, mo, st, w), mo),
            st,
        ),
    }
}

/// The cell text one child of a container contributes. A scalar child
/// appears inline: its text between single spaces, never a box of its own.
/// A container child contributes its fully rendered bordered grid, which
/// the parent then treats as one opaque multi-line cell.
pub open spec fn child_text<W: WidthFunc>(
    v: Value,
    so: Orientation,
    mo: Orientation,
    st: Style,
    w: &W,
) -> Seq<char>
    decreases v, 1int,
{
    match v {
        Value::Scalar(s) => seq![' '] + s@ + seq![' '],
        Value::Sequence(vs) => spec_render(Value::Sequence(vs), so, mo, st, w),
        Value::Mapping(ps) => spec_render(Value::Mapping(ps), so, mo, st, w),
    }
}

/// Render `value` as a bordered text grid.
///
/// A value rendered alone — a scalar too — becomes a bordered grid. Within
/// a container, a scalar child appears inline, its text between single
/// spaces, while a container child embeds its fully rendered bordered
/// sub-grid as one opaque multi-line cell. A sequence's children are laid
/// side by side (`seq_orientation` = `Row`) or stacked (`Column`); a child
/// whose contribution is empty — an empty container — is left out rather
/// than kept as a blank column or row. A map becomes a keys row over a
/// values row (`map_orientation` = `Row`) or one (key, value) row per entry
/// (`Column`), keys as plain cells, in insertion order. An empty sequence
/// or map renders as the empty text.
#[verifier::loop_isolation(false)]
#[verifier::rlimit(100)]
pub fn render<W: WidthFunc>(
    value: &Value,
    seq_orientation: Orientation,
    map_orientation: Orientation,
    style: &Style,
    width_ctrl: &W,
) -> (r: String)
    ensures
        r@ == spec_render(*value, seq_orientation, map_orientation, *style, width_ctrl),
    decreases *value, 0int,
{
    match value {
        Value::Scalar(s) => {
            let cell = CellInfo::new(s.as_str(), width_ctrl);
            let mut row: Vec<CellInfo> = Vec::new();
            row.push(cell);
            let mut matrix: Vec<Vec<CellInfo>> = Vec::new();
            matrix.push(row);
            proof {
                assert(shapes_of(matrix@) =~~= seq![seq![shape_of_text(s@, width_ctrl)]]);
                assert(matrix_wf(shapes_of(matrix@)));
            }
            build_grid(&matrix, style, width_ctrl)
        },
        Value::Sequence(vs) => {
            let ghost vsg = *vs;
            match seq_orientation {
                Orientation::Row => {
                    let mut row: Vec<CellInfo> = Vec::new();
                    let mut i: usize = 0;
                    proof {
                        assert(row_shapes(row@) =~= seq_shapes(
                            vsg,
                            0,
                            seq_orientation,
                            map_orientation,
                            *style,
                            width_ctrl,
                        ));
                    }
                    while i < vs.len()
                        invariant
                            i <= vs@.len(),
                            vsg == *vs,
                            seq_orientation == Orientation::Row,
                            forall|j: int| 0 <= j < row@.len() ==> (#[trigger] row@[j]@).wf(),
                            row_shapes(row@) == seq_shapes(
                                vsg,
                                i as int,
                                seq_orientation,
                                map_orientation,
                                *style,
                                width_ctrl,
                            ),
                        decreases vs@.len() - i,
                    {
                        let ghost row0 = row@;
                        proof {
                            assert(*vs == value->Sequence_0);
                            assert(decreases_to!(*value => value->Sequence_0));
                            assert(decreases_to!(value->Sequence_0 => value->Sequence_0@));
                            assert(decreases_to!(
                                value->Sequence_0@ => value->Sequence_0@[i as int]
                            ));
                        }
                        let t = render_child(
                            &vs[i],
                            seq_orientation,
                            map_orientation,
                            style,
                            width_ctrl,
                        );
                        if !t.as_str().is_empty() {
                            let cell = CellInfo::new(t.as_str(), width_ctrl);
                            row.push(cell);
                            proof {
                                assert(row_shapes(row@) =~= row_shapes(row0).push(
                                    shape_of_text(t@, width_ctrl),
                                ));
                            }
                        }
                        i = i + 1;
                    }
                    let mut matrix: Vec<Vec<CellInfo>> = Vec::new();
                    matrix.push(row);
                    proof {
                        assert(shapes_of(matrix@) =~~= arrange_seq(
                            seq_shapes(
                                vsg,
                                vsg.len() as int,
                                seq_orientation,
                                map_orientation,
                                *style,
                                width_ctrl,
                            ),
                            seq_orientation,
                        ));
                        assert(matrix_wf(shapes_of(matrix@)));
                    }
                    build_grid(&matrix, style, width_ctrl)
                },
                Orientation::Column => {
                    let mut matrix: Vec<Vec<CellInfo>> = Vec::new();
                    let mut i: usize = 0;
                    proof {
                        assert(shapes_of(matrix@) =~~= arrange_seq(
                            seq_shapes(
                                vsg,
                                0,
                                seq_orientation,
                                map_orientation,
                                *style,
                                width_ctrl,
                            ),
                            seq_orientation,
                        ));
                    }
                    while i < vs.len()
                        invariant
                            i <= vs@.len(),
                            vsg == *vs,
                            seq_orientation == Orientation::Column,
                            matrix_wf(shapes_of(matrix@)),
                            shapes_of(matrix@) == arrange_seq(
                                seq_shapes(
                                    vsg,
                                    i as int,
                                    seq_orientation,
                                    map_orientation,
                                    *style,
                                    width_ctrl,
                                ),
                                seq_orientation,
                            ),
                        decreases vs@.len() - i,
                    {
                        let ghost m0 = shapes_of(matrix@);
                        proof {
                            assert(*vs == value->Sequence_0);
                            assert(decreases_to!(*value => value->Sequence_0));
                            assert(decreases_to!(value->Sequence_0 => value->Sequence_0@));
                            assert(decreases_to!(
                                value->Sequence_0@ => value->Sequence_0@[i as int]
                            ));
                        }
                        let t = render_child(
                            &vs[i],
                            seq_orientation,
                            map_orientation,
                            style,
                            width_ctrl,
                        );
                        if !t.as_str().is_empty() {
                            let cell = CellInfo::new(t.as_str(), width_ctrl);
                            let ghost cs = cell@;
                            let mut one: Vec<CellInfo> = Vec::new();
                            one.push(cell);
                            matrix.push(one);
                            proof {
                                assert(row_shapes(seq![one@[0]]) =~= seq![cs]);
                                assert(shapes_of(matrix@) =~~= m0.push(seq![cs]));
                                let shapes1 = seq_shapes(
                                    vsg,
                                    i + 1,
                                    seq_orientation,
                                    map_orientation,
                                    *style,
                                    width_ctrl,
                                );
                                assert(arrange_seq(shapes1, seq_orientation) =~~= m0.push(
                                    seq![cs],
                                ));
                                assert(matrix_wf(shapes_of(matrix@))) by {
                                    assert(shapes_of(matrix@)[0].len() == 1 || shapes_of(
                                        matrix@,
                                    ).len() == 0);
                                }
                            }
                        }
                        i = i + 1;
                    }
                    build_grid(&matrix, style, width_ctrl)
                },
            }
        },
        Value::Mapping(ps) => {
            let ghost psg = *ps;
            match map_orientation {
                Orientation::Row => {
                    let mut keys: Vec<CellInfo> = Vec::new();
                    let mut vals: Vec<CellInfo> = Vec::new();
                    let mut i: usize = 0;
                    while i < ps.len()
                        invariant
                            i <= ps@.len(),
                            psg == *ps,
                            keys@.len() == i,
                            vals@.len() == i,
                            forall|j: int| 0 <= j < keys@.len() ==> (#[trigger] keys@[j]@).wf(),
                            forall|j: int| 0 <= j < vals@.len() ==> (#[trigger] vals@[j]@).wf(),
                            row_shapes(keys@) == map_shapes(
                                psg,
                                i as int,
                                seq_orientation,
                                map_orientation,
                                *style,
                                width_ctrl,
                            ).map_values(|p: (CellShape, CellShape)| p.0),
                            row_shapes(vals@) == map_shapes(
                                psg,
                                i as int,
                                seq_orientation,
                                map_orientation,
                                *style,
                                width_ctrl,
                            ).map_values(|p: (CellShape, CellShape)| p.1),
                        decreases ps@.len() - i,
                    {
                        let ghost keys0 = keys@;
                        let ghost vals0 = vals@;
                        let kcell = CellInfo::new(ps[i].0.as_str(), width_ctrl);
                        proof {
                            assert(*ps == value->Mapping_0);
                            assert(decreases_to!(*value => value->Mapping_0));
                            assert(decreases_to!(value->Mapping_0 => value->Mapping_0@));
                            assert(decreases_to!(
                                value->Mapping_0@ => value->Mapping_0@[i as int]
                            ));
                            assert(decreases_to!(
                                value->Mapping_0@[i as int] => value->Mapping_0@[i as int].1
                            ));
                        }
                        let t = render_child(
                            &ps[i].1,
                            seq_orientation,
                            map_orientation,
                            style,
                            width_ctrl,
                        );
                        let vcell = CellInfo::new(t.as_str(), width_ctrl);
                        let ghost kshape = kcell@;
                        let ghost vshape = vcell@;
                        let ghost i0 = i as int;
                        keys.push(kcell);
                        vals.push(vcell);
                        i = i + 1;
                        proof {
                            let pairs0 = map_shapes(
                                psg,
                                i0,
                                seq_orientation,
                                map_orientation,
                                *style,
                                width_ctrl,
                            );
                            let pairs1 = map_shapes(
                                psg,
                                i0 + 1,
                                seq_orientation,
                                map_orientation,
                                *style,
                                width_ctrl,
                            );
                            assert(pairs1 == pairs0.push((kshape, vshape)));
                            assert(row_shapes(keys@) =~= row_shapes(keys0).push(kshape));
                            assert(row_shapes(vals@) =~= row_shapes(vals0).push(vshape));
                            assert(row_shapes(keys@) =~= pairs1.map_values(
                                |p: (CellShape, CellShape)| p.0,
                            ));
                            assert(row_shapes(vals@) =~= pairs1.map_values(
                                |p: (CellShape, CellShape)| p.1,
                            ));
                        }
                    }
                    let mut matrix: Vec<Vec<CellInfo>> = Vec::new();
                    matrix.push(keys);
                    matrix.push(vals);
                    proof {
                        assert(shapes_of(matrix@) =~~= arrange_map(
                            map_shapes(
                                psg,
                                psg.len() as int,
                                seq_orientation,
                                map_orientation,
                                *style,
                                width_ctrl,
                            ),
                            map_orientation,
                        ));
                        assert(matrix_wf(shapes_of(matrix@)));
                    }
                    build_grid(&matrix, style, width_ctrl)
                },
                Orientation::Column => {
                    let mut matrix: Vec<Vec<CellInfo>> = Vec::new();
                    let mut i: usize = 0;
                    while i < ps.len()
                        invariant
                            i <= ps@.len(),
                            psg == *ps,
                            map_orientation == Orientation::Column,
                            matrix@.len() == i,
                            matrix_wf(shapes_of(matrix@)),
                            shapes_of(matrix@) == arrange_map(
                                map_shapes(
                                    psg,
                                    i as int,
                                    seq_orientation,
                                    map_orientation,
                                    *style,
                                    width_ctrl,
                                ),
                                map_orientation,
                            ),
                        decreases ps@.len() - i,
                    {
                        let ghost m0 = shapes_of(matrix@);
                        let kcell = CellInfo::new(ps[i].0.as_str(), width_ctrl);
                        proof {
                            assert(*ps == value->Mapping_0);
                            assert(decreases_to!(*value => value->Mapping_0));
                            assert(decreases_to!(value->Mapping_0 => value->Mapping_0@));
                            assert(decreases_to!(
                                value->Mapping_0@ => value->Mapping_0@[i as int]
                            ));
                            assert(decreases_to!(
                                value->Mapping_0@[i as int] => value->Mapping_0@[i as int].1
                            ));
                        }
                        let t = render_child(
                            &ps[i].1,
                            seq_orientation,
                            map_orientation,
                            style,
                            width_ctrl,
                        );
                        let vcell = CellInfo::new(t.as_str(), width_ctrl);
                        let ghost ks = kcell@;
                        let ghost vsh = vcell@;
                        let mut pair_row: Vec<CellInfo> = Vec::new();
                        pair_row.push(kcell);
                        pair_row.push(vcell);
                        matrix.push(pair_row);
                        i = i + 1;
                        proof {
                            assert(row_shapes(pair_row@) =~= seq![ks, vsh]);
                            assert(shapes_of(matrix@) =~~= m0.push(seq![ks, vsh]));
                            let pairs1 = map_shapes(
                                psg,
                                i as int,
                                seq_orientation,
                                map_orientation,
                                *style,
                                width_ctrl,
                            );
                            assert(arrange_map(pairs1, map_orientation) =~~= m0.push(
                                seq![ks, vsh],
                            ));
                            assert(matrix_wf(shapes_of(matrix@)));
                        }
                    }
                    build_grid(&matrix, style, width_ctrl)
                },
            }
        },
    }
}

/// Build the cell text one container child contributes: a scalar inline
/// between single spaces, a container as its fully rendered grid.
fn render_child<W: WidthFunc>(
    value: &Value,
    seq_orientation: Orientation,
    map_orientation: Orientation,
    style: &Style,
    width_ctrl: &W,
) -> (r: String)
    ensures
        r@ == child_text(*value, seq_orientation, map_orientation, *style, width_ctrl),
    decreases *value, 1int,
{
    match value {
        Value::Scalar(s) => {
            let mut t = String::new();
            push_char(&mut t, ' ');
            t.append(s.as_str());
            push_char(&mut t, ' ');
            proof {
                assert(t@ =~= seq![' '] + s@ + seq![' ']);
            }
            t
        },
        _ => render(value, seq_orientation, map_orientation, style, width_ctrl),
    }
}

/// A container child contributes exactly its own full rendering, so an
/// empty sequence or map vanishes from its parent; a scalar child's inline
/// text is never empty, so a scalar never vanishes.
pub proof fn lemma_child_contribution<W: WidthFunc>(
    v: Value,
    so: Orientation,
    mo: Orientation,
    st: Style,
    w: &W,
)
    ensures
        !(v matches Value::Scalar(..)) ==> child_text(v, so, mo, st, w) == spec_render(
            v,
            so,
            mo,
            st,
            w,
        ),
        v matches Value::Scalar(..) ==> child_text(v, so, mo, st, w).len() >= 2,
{
}

/// Rendering is deterministic: two renderings of the same value under the
/// same orientations, style and width policy are byte-identical, since both
/// equal the one mathematical rendering of those inputs.
pub proof fn lemma_render_deterministic<W: WidthFunc>(
    r1: Seq<char>,
    r2: Seq<char>,
    v: Value,
    so: Orientation,
    mo: Orientation,
    st: Style,
    w: &W,
)
    requires
        r1 == spec_render(v, so, mo, st, w),
        r2 == spec_render(v, so, mo, st, w),
    ensures
        r1 == r2,
{
}

/// An empty sequence or an empty map renders as the empty text, not as a
/// degenerate bordered box.
pub proof fn lemma_empty_container_renders_empty<W: WidthFunc>(
    v: Value,
    so: Orientation,
    mo: Orientation,
    st: Style,
    w: &W,
)
    requires
        (v matches Value::Sequence(vs) && vs@.len() == 0) || (v matches Value::Mapping(ps)
            && ps@.len() == 0),
    ensures
        spec_render(v, so, mo, st, w).len() == 0,
{
    match v {
        Value::Scalar(_s) => {
        },
        Value::Sequence(vs) => {
            let shapes = seq_shapes(vs, 0, so, mo, st, w);
            match so {
                Orientation::Row => {
                    assert(arrange_seq(shapes, so) == seq![shapes]);
                },
                Orientation::Column => {
                    assert(arrange_seq(shapes, so) =~= Seq::<Seq<CellShape>>::empty());
                },
            }
        },
        Value::Mapping(ps) => {
            let pairs = map_shapes(ps, 0, so, mo, st, w);
            match mo {
                Orientation::Row => {
                    assert(arrange_map(pairs, mo)[0] =~= Seq::<CellShape>::empty());
                },
                Orientation::Column => {
                    assert(arrange_map(pairs, mo) =~= Seq::<Seq<CellShape>>::empty());
                },
            }
        },
    }
}

/// A scalar never renders to the empty text: it is always at least a
/// bordered box. Only empty containers contribute nothing to a parent.
pub proof fn lemma_scalar_renders_nonempty<W: WidthFunc>(
    v: Value,
    so: Orientation,
    mo: Orientation,
    st: Style,
    w: &W,
)
    requires
        v matches Value::Scalar(..),
    ensures
        spec_render(v, so, mo, st, w).len() > 0,
{
    let s = v->Scalar_0;
    let m = seq![seq![shape_of_text(s@, w)]];
    let cw = col_widths(m, 1);
    lemma_grid_lines_nonempty(m.drop_last(), cw, st);
    let gl = grid_lines(m, cw, st);
    assert(gl.len() >= 2);
    assert(join_lines(gl).len() > 0);
}

/// A child that renders to the empty text contributes no cell — hence no
/// spurious blank row or column — to the grid of the sequence that holds
/// it.
pub proof fn lemma_empty_child_contributes_nothing<W: WidthFunc>(
    vs: Vec<Value>,
    n: int,
    so: Orientation,
    mo: Orientation,
    st: Style,
    w: &W,
)
    requires
        0 < n <= vs@.len(),
        child_text(vs[n - 1], so, mo, st, w).len() == 0,
    ensures
        seq_shapes(vs, n, so, mo, st, w) == seq_shapes(vs, n - 1, so, mo, st, w),
{
}

} // verus!
