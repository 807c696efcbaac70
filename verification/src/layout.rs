//! Comment-editor layout in terminal cells.
//!
//! A comment is laid out grapheme cluster by grapheme cluster: a cluster that would cross the
//! right edge starts a new row, and a newline cluster ends the row.

use vstd::prelude::*;

use crate::format::rows_text;
use crate::width::{
    cells_of, grapheme_clusters, graphemes, lemma_cells_of_push, lemma_flatten_take_prefix,
    string_views, string_width, unicode_str_width,
};

verus! {

/// Laid-out comment lines and cursor position.
#[derive(Debug, Clone, PartialEq, Eq)]
pub struct CommentLayout {
    pub lines: Vec<String>,
    pub cursor_row: usize,
    pub cursor_col: usize,
}

/// The layout part way through the clusters: finished rows, the row being filled, the
/// current row and column, the cursor found so far, and the characters consumed.
pub struct LayoutState {
    pub done: Seq<Seq<char>>,
    pub current: Seq<char>,
    pub row: int,
    pub col: int,
    pub cursor_row: int,
    pub cursor_col: int,
    pub index: int,
}

/// The cluster that is a line break.
pub open spec fn is_newline(g: Seq<char>) -> bool {
    g == seq!['\n']
}

/// Whether a cluster of `cells` cells placed at `col` would cross a row of `width` cells.
pub open spec fn crosses_edge(col: int, cells: int, width: int) -> bool {
    col > 0 && col + cells > width
}

/// The layout before the first cluster: one empty row, cursor at the origin.
pub open spec fn layout_start() -> LayoutState {
    LayoutState {
        done: seq![],
        current: seq![],
        row: 0,
        col: 0,
        cursor_row: 0,
        cursor_col: 0,
        index: 0,
    }
}

/// Place one cluster.
pub open spec fn layout_step(s: LayoutState, g: Seq<char>, cursor: int, width: int) -> LayoutState {
    let cells = unicode_str_width(g) as int;
    let end = s.index + g.len();
    let wrap = crosses_edge(s.col, cells, width);
    let done1 = if wrap { s.done.push(s.current) } else { s.done };
    let current1 = if wrap { seq![] } else { s.current };
    let row1 = if wrap { s.row + 1 } else { s.row };
    let col1 = if wrap { 0 } else { s.col };
    let cr1 = if cursor == s.index { row1 } else { s.cursor_row };
    let cc1 = if cursor == s.index { col1 } else { s.cursor_col };
    let done2 = if is_newline(g) { done1.push(current1) } else { done1 };
    let current2 = if is_newline(g) { seq![] } else { current1 + g };
    let row2 = if is_newline(g) { row1 + 1 } else { row1 };
    let col2 = if is_newline(g) { 0 } else { col1 + cells };
    let inside = s.index < cursor && cursor < end;
    LayoutState {
        done: done2,
        current: current2,
        row: row2,
        col: col2,
        cursor_row: if inside { row2 } else { cr1 },
        cursor_col: if inside { col2 } else { cc1 },
        index: end,
    }
}

/// Place the clusters in order.
pub open spec fn layout_fold(clusters: Seq<Seq<char>>, cursor: int, width: int) -> LayoutState
    decreases clusters.len(),
{
    if clusters.len() == 0 {
        layout_start()
    } else {
        layout_step(layout_fold(clusters.drop_last(), cursor, width), clusters.last(), cursor, width)
    }
}

/// The rows of the laid-out comment.
pub open spec fn layout_lines(comment: Seq<char>, cursor: int, width: int) -> Seq<Seq<char>> {
    let s = layout_fold(grapheme_clusters(comment), cursor, if width < 1 { 1 } else { width });
    s.done.push(s.current)
}

/// The row and column of the cursor, in cells.
pub open spec fn layout_cursor(comment: Seq<char>, cursor: int, width: int) -> (int, int) {
    let s = layout_fold(grapheme_clusters(comment), cursor, if width < 1 { 1 } else { width });
    if cursor >= comment.len() {
        (s.row, s.col)
    } else {
        (s.cursor_row, s.cursor_col)
    }
}

/// The rows of a laid-out comment as lists of whole clusters, built as `layout_fold` builds
/// their text.
pub struct LayoutRows {
    pub done: Seq<Seq<Seq<char>>>,
    pub current: Seq<Seq<char>>,
    pub col: int,
}

/// Place one cluster in the cluster rows, breaking where `layout_step` breaks.
pub open spec fn layout_rows_step(s: LayoutRows, g: Seq<char>, width: int) -> LayoutRows {
    let cells = unicode_str_width(g) as int;
    let wrap = crosses_edge(s.col, cells, width);
    let done1 = if wrap { s.done.push(s.current) } else { s.done };
    let current1 = if wrap { seq![] } else { s.current };
    let col1 = if wrap { 0 } else { s.col };
    if is_newline(g) {
        LayoutRows { done: done1.push(current1), current: seq![], col: 0 }
    } else {
        LayoutRows { done: done1, current: current1.push(g), col: col1 + cells }
    }
}

/// The cluster rows after placing the clusters in order.
pub open spec fn layout_rows_fold(clusters: Seq<Seq<char>>, width: int) -> LayoutRows
    decreases clusters.len(),
{
    if clusters.len() == 0 {
        LayoutRows { done: seq![], current: seq![], col: 0 }
    } else {
        layout_rows_step(layout_rows_fold(clusters.drop_last(), width), clusters.last(), width)
    }
}

/// The clusters of each row of the laid-out comment.
pub open spec fn layout_row_clusters(comment: Seq<char>, width: int) -> Seq<Seq<Seq<char>>> {
    let s = layout_rows_fold(grapheme_clusters(comment), if width < 1 { 1 } else { width });
    s.done.push(s.current)
}

/// A laid-out row fits in `width` cells, or it is wider only because of its last cluster, which
/// follows clusters of no width: a cluster wider than the editor has a row of its own.
pub open spec fn layout_row_fits(row: Seq<Seq<char>>, width: int) -> bool {
    cells_of(row) <= width || (row.len() > 0 && cells_of(row.drop_last()) == 0)
}

proof fn lemma_layout_rows(clusters: Seq<Seq<char>>, cursor: int, width: int)
    requires
        0 <= width,
    ensures
        ({
            let s = layout_rows_fold(clusters, width);
            let t = layout_fold(clusters, cursor, width);
            &&& rows_text(s.done) == t.done
            &&& s.current.flatten() == t.current
            &&& s.col == t.col
            &&& s.col >= 0
            &&& cells_of(s.current) == s.col
            &&& layout_row_fits(s.current, width)
            &&& forall|k: int| 0 <= k < s.done.len() ==> layout_row_fits(#[trigger] s.done[k], width)
        }),
    decreases clusters.len(),
{
    broadcast use Seq::lemma_flatten_push;

    assert(Seq::<Seq<char>>::empty().flatten() =~= Seq::<char>::empty());
    assert(cells_of(Seq::<Seq<char>>::empty()) == 0);
    if clusters.len() == 0 {
        assert(rows_text(Seq::<Seq<Seq<char>>>::empty()) =~= Seq::<Seq<char>>::empty());
    } else {
        let prev = clusters.drop_last();
        let g = clusters.last();
        lemma_layout_rows(prev, cursor, width);
        let s = layout_rows_fold(prev, width);
        let t = layout_fold(prev, cursor, width);
        let cells = unicode_str_width(g) as int;
        let wrap = crosses_edge(s.col, cells, width);
        let done1 = if wrap { s.done.push(s.current) } else { s.done };
        let current1: Seq<Seq<char>> = if wrap { seq![] } else { s.current };
        assert(rows_text(s.done.push(s.current)) =~= rows_text(s.done).push(s.current.flatten()));
        assert(rows_text(done1.push(current1)) =~= rows_text(done1).push(current1.flatten()));
        assert forall|k: int| 0 <= k < done1.len() implies layout_row_fits(#[trigger] done1[k], width) by {
            if k < s.done.len() {
                assert(done1[k] == s.done[k]);
            } else {
                assert(done1[k] == s.current);
            }
        }
        lemma_cells_of_push(current1, g);
        assert(current1.push(g).drop_last() =~= current1);
        if is_newline(g) {
            let s1 = layout_rows_fold(clusters, width);
            assert(s1.done == done1.push(current1));
            assert forall|k: int| 0 <= k < s1.done.len() implies layout_row_fits(
                #[trigger] s1.done[k],
                width,
            ) by {
                if k < done1.len() {
                    assert(s1.done[k] == done1[k]);
                } else {
                    assert(s1.done[k] == current1);
                }
            }
        }
    }
}

/// The clusters that are not line breaks.
pub open spec fn glyphs(clusters: Seq<Seq<char>>) -> Seq<Seq<char>> {
    clusters.filter(|g: Seq<char>| !is_newline(g))
}

proof fn lemma_layout_keeps_glyphs(clusters: Seq<Seq<char>>, cursor: int, width: int)
    ensures
        ({
            let s = layout_fold(clusters, cursor, width);
            &&& s.done.push(s.current).flatten() == glyphs(clusters).flatten()
            &&& s.done.len() == s.row
            &&& s.index == clusters.flatten().len()
        }),
    decreases clusters.len(),
{
    broadcast use Seq::lemma_flatten_push;

    if clusters.len() == 0 {
        assert(glyphs(clusters) =~= Seq::<Seq<char>>::empty());
        assert(seq![Seq::<char>::empty()].flatten() =~= Seq::<char>::empty()) by {
            assert(seq![Seq::<char>::empty()].drop_first() =~= Seq::<Seq<char>>::empty());
        }
    } else {
        let prev = clusters.drop_last();
        let g = clusters.last();
        lemma_layout_keeps_glyphs(prev, cursor, width);
        let s = layout_fold(prev, cursor, width);
        assert(clusters =~= prev.push(g));
        reveal_with_fuel(Seq::filter, 1);
        assert(glyphs(clusters) == if is_newline(g) {
            glyphs(prev)
        } else {
            glyphs(prev).push(g)
        });
        Seq::lemma_flatten_and_flatten_alt_are_equivalent(clusters);
        Seq::lemma_flatten_and_flatten_alt_are_equivalent(prev);
        assert(s.done.push(seq![]).push(s.current).flatten() == s.done.push(s.current).flatten()) by {
            assert(s.done.push(seq![]).flatten() =~= s.done.flatten());
        }
    }
}

proof fn lemma_take_last<A>(s: Seq<A>, i: int)
    requires
        0 <= i < s.len(),
    ensures
        s.take(i + 1).drop_last() == s.take(i),
        s.take(i + 1).last() == s[i],
{
    assert(s.take(i + 1).drop_last() =~= s.take(i));
}

/// Lay the comment out and report the cursor in terminal cells.
pub fn layout_comment(comment: &[char], cursor: usize, width: usize) -> (result: CommentLayout)
    ensures
        string_views(result.lines@) == layout_lines(comment@, cursor as int, width as int),
        (result.cursor_row as int, result.cursor_col as int) == layout_cursor(
            comment@,
            cursor as int,
            width as int,
        ),
        string_views(result.lines@).flatten() == glyphs(grapheme_clusters(comment@)).flatten(),
        result.cursor_row < result.lines@.len(),
        // A row is only wider than the editor when it holds one cluster that is.
        rows_text(layout_row_clusters(comment@, width as int)) == string_views(result.lines@),
        forall|k: int|
            0 <= k < result.lines@.len() ==> layout_row_fits(
                #[trigger] layout_row_clusters(comment@, width as int)[k],
                if width < 1 {
                    1
                } else {
                    width as int
                },
            ),
{
    let safe_width: usize = if width < 1 { 1 } else { width };
    let total = comment.len();
    let text = crate::text::string_of(comment);
    let clusters = graphemes(text.as_str());
    let ghost gs = string_views(clusters@);
    let mut done: Vec<String> = Vec::new();
    let mut current = String::new();
    let mut row: usize = 0;
    let mut col: usize = 0;
    let mut cursor_row: usize = 0;
    let mut cursor_col: usize = 0;
    let mut scalar_index: usize = 0;
    let mut i: usize = 0;
    proof {
        assert(gs.take(0) =~= Seq::<Seq<char>>::empty());
    }
    while i < clusters.len()
        invariant
            i <= clusters@.len(),
            gs == string_views(clusters@),
            gs == grapheme_clusters(comment@),
            gs.flatten() == comment@,
            forall|k: int| 0 <= k < clusters@.len() ==> (#[trigger] clusters@[k])@.len() > 0,
            safe_width >= 1,
            safe_width == (if width < 1 { 1 } else { width }),
            ({
                let s = layout_fold(gs.take(i as int), cursor as int, safe_width as int);
                &&& string_views(done@) == s.done
                &&& current@ == s.current
                &&& row == s.row
                &&& col == s.col
                &&& cursor_row == s.cursor_row
                &&& cursor_col == s.cursor_col
                &&& scalar_index == s.index
            }),
            scalar_index == gs.take(i as int).flatten().len(),
            scalar_index <= comment@.len(),
            comment@.len() == total,
            row + (if col > 0 { 1int } else { 0int }) <= scalar_index,
            cursor_row <= row,
            done@.len() == row,
        decreases clusters@.len() - i,
    {
        let ghost before = layout_fold(gs.take(i as int), cursor as int, safe_width as int);
        let ghost g = gs[i as int];
        let grapheme = &clusters[i];
        assert(grapheme@ == g);
        let length = grapheme.as_str().unicode_len();
        proof {
            lemma_take_last(gs, i as int);
            lemma_flatten_take_prefix(gs, (i + 1) as int);
            assert(gs.take(i + 1) =~= gs.take(i as int).push(g));
            assert(gs.take(i + 1).flatten() =~= gs.take(i as int).flatten() + g) by {
                broadcast use Seq::lemma_flatten_push;
            }
        }
        assert(scalar_index + length <= comment@.len());
        let end = scalar_index + length;
        let cells = string_width(grapheme.as_str());
        let wrap = col > 0 && (col > safe_width || cells > safe_width - col);
        assert(wrap == crosses_edge(col as int, cells as int, safe_width as int));
        if wrap {
            done.push(current);
            current = String::new();
            row = row + 1;
            col = 0;
        }
        if cursor == scalar_index {
            cursor_row = row;
            cursor_col = col;
        }
        let newline = length == 1 && grapheme.as_str().get_char(0) == '\n';
        assert(newline == is_newline(g)) by {
            if length == 1 {
                assert(g.len() == 1);
                if g[0] == '\n' {
                    assert(g =~= seq!['\n']);
                }
            }
        }
        if newline {
            done.push(current);
            current = String::new();
            row = row + 1;
            col = 0;
        } else {
            current.append(grapheme.as_str());
            col = col + cells;
        }
        if cursor > scalar_index && cursor < end {
            cursor_row = row;
            cursor_col = col;
        }
        scalar_index = end;
        i = i + 1;
        proof {
            let after = layout_fold(gs.take(i as int), cursor as int, safe_width as int);
            assert(after == layout_step(before, g, cursor as int, safe_width as int));
            assert(string_views(done@) =~= after.done);
        }
    }
    if cursor >= comment.len() {
        cursor_row = row;
        cursor_col = col;
    }
    proof {
        assert(gs.take(clusters@.len() as int) =~= gs);
        lemma_layout_keeps_glyphs(gs, cursor as int, safe_width as int);
        lemma_layout_rows(gs, cursor as int, safe_width as int);
    }
    let ghost final_done = done@;
    done.push(current);
    assert(string_views(done@) =~= string_views(final_done).push(current@));
    proof {
        let r = layout_rows_fold(gs, safe_width as int);
        assert(rows_text(r.done.push(r.current)) =~= rows_text(r.done).push(r.current.flatten()));
        assert forall|k: int| 0 <= k < done@.len() implies layout_row_fits(
            #[trigger] layout_row_clusters(comment@, width as int)[k],
            safe_width as int,
        ) by {
            if k < r.done.len() {
                assert(layout_row_clusters(comment@, width as int)[k] == r.done[k]);
            }
        }
    }
    CommentLayout { lines: done, cursor_row, cursor_col }
}

/// The character index that a visual position maps to, scanning the remaining clusters with the
/// scan at row `vrow`, column `vcol` and character index `index`.
pub open spec fn cursor_scan(
    clusters: Seq<Seq<char>>,
    row: int,
    column: int,
    width: int,
    vrow: int,
    vcol: int,
    index: int,
    total: int,
) -> int
    decreases clusters.len(),
{
    if clusters.len() == 0 {
        total
    } else {
        let g = clusters[0];
        let end = index + g.len();
        let cells = unicode_str_width(g) as int;
        if is_newline(g) {
            if vrow == row {
                index
            } else {
                cursor_scan(clusters.drop_first(), row, column, width, vrow + 1, 0, end, total)
            }
        } else if crosses_edge(vcol, cells, width) && vrow == row {
            index
        } else {
            let vrow1 = if crosses_edge(vcol, cells, width) { vrow + 1 } else { vrow };
            let vcol1 = if crosses_edge(vcol, cells, width) { 0 } else { vcol };
            if vrow1 == row && column < vcol1 {
                index
            } else if vrow1 == row && cells > 0 && column < vcol1 + cells {
                if column == vcol1 {
                    index
                } else {
                    end
                }
            } else {
                cursor_scan(clusters.drop_first(), row, column, width, vrow1, vcol1 + cells, end, total)
            }
        }
    }
}

/// The cursor index for a click or arrow move to `row`, `column` of the laid-out comment.
pub open spec fn cursor_at(comment: Seq<char>, row: int, column: int, width: int) -> int {
    cursor_scan(
        grapheme_clusters(comment),
        row,
        column,
        if width < 1 { 1 } else { width },
        0,
        0,
        0,
        comment.len() as int,
    )
}

/// Whether `index` falls between two clusters (or at either end of the text).
pub open spec fn is_cluster_boundary(clusters: Seq<Seq<char>>, index: int) -> bool {
    exists|k: int| 0 <= k <= clusters.len() && #[trigger] clusters.take(k).flatten().len() == index
}

proof fn lemma_flatten_take_next(gs: Seq<Seq<char>>, i: int)
    requires
        0 <= i < gs.len(),
    ensures
        gs.take(i + 1).flatten().len() == gs.take(i).flatten().len() + gs[i].len(),
{
    lemma_take_last(gs, i);
    assert(gs.take(i + 1) =~= gs.take(i).push(gs[i]));
    assert(gs.take(i + 1).flatten() =~= gs.take(i).flatten() + gs[i]) by {
        broadcast use Seq::lemma_flatten_push;
    }
}

proof fn lemma_cursor_scan_boundary(
    gs: Seq<Seq<char>>,
    i: int,
    row: int,
    column: int,
    width: int,
    vrow: int,
    vcol: int,
)
    requires
        0 <= i <= gs.len(),
    ensures
        is_cluster_boundary(
            gs,
            cursor_scan(
                gs.skip(i),
                row,
                column,
                width,
                vrow,
                vcol,
                gs.take(i).flatten().len() as int,
                gs.flatten().len() as int,
            ),
        ),
    decreases gs.len() - i,
{
    let index = gs.take(i).flatten().len() as int;
    let total = gs.flatten().len() as int;
    assert(gs.take(gs.len() as int) =~= gs);
    assert(gs.take(gs.len() as int).flatten().len() == total);
    assert(gs.take(i).flatten().len() == index);
    if i < gs.len() {
        let rest = gs.skip(i);
        let g = gs[i];
        assert(rest[0] == g);
        assert(rest.drop_first() =~= gs.skip(i + 1));
        lemma_flatten_take_next(gs, i);
        assert(gs.take(i + 1).flatten().len() == index + g.len());
        let cells = unicode_str_width(g) as int;
        let wrap = crosses_edge(vcol, cells, width);
        let vrow1 = if wrap { vrow + 1 } else { vrow };
        let vcol1 = if wrap { 0 } else { vcol };
        lemma_cursor_scan_boundary(gs, i + 1, row, column, width, vrow + 1, 0);
        lemma_cursor_scan_boundary(gs, i + 1, row, column, width, vrow1, vcol1 + cells);
    } else {
        assert(gs.skip(i) =~= Seq::<Seq<char>>::empty());
    }
}

/// The layout once the first `i` clusters are placed.
pub open spec fn placed_prefix(clusters: Seq<Seq<char>>, i: int, cursor: int, width: int) -> LayoutState {
    layout_fold(clusters.take(i), cursor, width)
}

/// Clusters whose cursor positions map back from the layout: each is non-empty, each that is
/// not a line break takes at least one cell, and no line break comes where the layout would
/// first move it to a new row (right after a row already full).
pub open spec fn mappable_clusters(clusters: Seq<Seq<char>>, width: int) -> bool {
    forall|i: int|
        0 <= i < clusters.len() ==> {
            &&& (#[trigger] clusters[i]).len() > 0
            &&& !is_newline(clusters[i]) ==> unicode_str_width(clusters[i]) > 0
            &&& is_newline(clusters[i]) ==> !crosses_edge(
                placed_prefix(clusters, i, 0, width).col,
                unicode_str_width(clusters[i]) as int,
                width,
            )
        }
}

/// Row and column `a` come no later than `b` in reading order.
spec fn not_after(a: (int, int), b: (int, int)) -> bool {
    a.0 < b.0 || (a.0 == b.0 && a.1 <= b.1)
}

/// Where cluster `i` lands: on the next row when it would cross the edge.
spec fn landing(clusters: Seq<Seq<char>>, i: int, cursor: int, width: int) -> (int, int) {
    let s = placed_prefix(clusters, i, cursor, width);
    if crosses_edge(s.col, unicode_str_width(clusters[i]) as int, width) {
        (s.row + 1, 0)
    } else {
        (s.row, s.col)
    }
}

proof fn lemma_fold_ignores_cursor(clusters: Seq<Seq<char>>, cursor: int, other: int, width: int)
    ensures
        layout_fold(clusters, cursor, width).row == layout_fold(clusters, other, width).row,
        layout_fold(clusters, cursor, width).col == layout_fold(clusters, other, width).col,
        layout_fold(clusters, cursor, width).index == layout_fold(clusters, other, width).index,
    decreases clusters.len(),
{
    if clusters.len() > 0 {
        lemma_fold_ignores_cursor(clusters.drop_last(), cursor, other, width);
    }
}

proof fn lemma_prefix_step(clusters: Seq<Seq<char>>, i: int, cursor: int, width: int)
    requires
        0 <= i < clusters.len(),
    ensures
        placed_prefix(clusters, i + 1, cursor, width) == layout_step(
            placed_prefix(clusters, i, cursor, width),
            clusters[i],
            cursor,
            width,
        ),
        is_newline(clusters[i]) && mappable_clusters(clusters, width) ==> !crosses_edge(
            placed_prefix(clusters, i, cursor, width).col,
            unicode_str_width(clusters[i]) as int,
            width,
        ),
{
    lemma_take_last(clusters, i);
    lemma_fold_ignores_cursor(clusters.take(i), cursor, 0, width);
}

proof fn lemma_prefix_monotone(clusters: Seq<Seq<char>>, i: int, j: int, cursor: int, width: int)
    requires
        0 <= i <= j <= clusters.len(),
    ensures
        not_after(
            (placed_prefix(clusters, i, cursor, width).row, placed_prefix(clusters, i, cursor, width).col),
            (placed_prefix(clusters, j, cursor, width).row, placed_prefix(clusters, j, cursor, width).col),
        ),
    decreases j - i,
{
    if i < j {
        lemma_prefix_monotone(clusters, i, j - 1, cursor, width);
        lemma_prefix_step(clusters, j - 1, cursor, width);
    }
}

proof fn lemma_scan_finds(
    clusters: Seq<Seq<char>>,
    i: int,
    k: int,
    row: int,
    column: int,
    cursor: int,
    width: int,
)
    requires
        0 <= i <= k <= clusters.len(),
        mappable_clusters(clusters, width),
        not_after(
            (placed_prefix(clusters, k, cursor, width).row, placed_prefix(clusters, k, cursor, width).col),
            (row, column),
        ),
        k < clusters.len() ==> (row, column) == landing(clusters, k, cursor, width),
    ensures
        cursor_scan(
            clusters.skip(i),
            row,
            column,
            width,
            placed_prefix(clusters, i, cursor, width).row,
            placed_prefix(clusters, i, cursor, width).col,
            placed_prefix(clusters, i, cursor, width).index,
            placed_prefix(clusters, clusters.len() as int, cursor, width).index,
        ) == if k < clusters.len() {
            placed_prefix(clusters, k, cursor, width).index
        } else {
            placed_prefix(clusters, clusters.len() as int, cursor, width).index
        },
    decreases clusters.len() - i,
{
    let s = placed_prefix(clusters, i, cursor, width);
    let rest = clusters.skip(i);
    if i == clusters.len() {
        assert(rest =~= Seq::<Seq<char>>::empty());
    } else {
        let g = clusters[i];
        assert(rest[0] == g);
        assert(rest.drop_first() =~= clusters.skip(i + 1));
        lemma_prefix_step(clusters, i, cursor, width);
        if i < k {
            lemma_prefix_monotone(clusters, i + 1, k, cursor, width);
            lemma_scan_finds(clusters, i + 1, k, row, column, cursor, width);
        }
    }
}

proof fn lemma_cursor_recorded(clusters: Seq<Seq<char>>, k: int, i: int, cursor: int, width: int)
    requires
        0 <= k < i <= clusters.len(),
        mappable_clusters(clusters, width),
        cursor == placed_prefix(clusters, k, cursor, width).index,
    ensures
        (placed_prefix(clusters, i, cursor, width).cursor_row, placed_prefix(
            clusters,
            i,
            cursor,
            width,
        ).cursor_col) == landing(clusters, k, cursor, width),
        placed_prefix(clusters, i, cursor, width).index > cursor,
    decreases i,
{
    lemma_prefix_step(clusters, i - 1, cursor, width);
    assert(clusters[i - 1].len() > 0);
    if i - 1 > k {
        lemma_cursor_recorded(clusters, k, i - 1, cursor, width);
    }
}

/// Placing the cursor where the layout shows it finds it again: for a comment whose clusters
/// map back (`mappable_clusters`), the row and column that `layout_cursor` reports for a cursor
/// between two clusters map back to that cursor under `cursor_at`.
pub proof fn lemma_cursor_round_trip(comment: Seq<char>, cursor: int, width: int)
    requires
        grapheme_clusters(comment).flatten() == comment,
        mappable_clusters(grapheme_clusters(comment), if width < 1 { 1 } else { width }),
        is_cluster_boundary(grapheme_clusters(comment), cursor),
    ensures
        cursor_at(comment, layout_cursor(comment, cursor, width).0, layout_cursor(comment, cursor, width).1, width)
            == cursor,
{
    let clusters = grapheme_clusters(comment);
    let w = if width < 1 { 1 } else { width };
    let n = clusters.len() as int;
    let k = choose|k: int| 0 <= k <= clusters.len() && #[trigger] clusters.take(k).flatten().len() == cursor;
    lemma_layout_keeps_glyphs(clusters.take(k), cursor, w);
    lemma_layout_keeps_glyphs(clusters.take(n), cursor, w);
    assert(clusters.take(n) =~= clusters);
    assert(clusters.skip(0) =~= clusters);
    assert(clusters.take(0) =~= Seq::<Seq<char>>::empty());
    let end = placed_prefix(clusters, n, cursor, w);
    if k == n {
        lemma_scan_finds(clusters, 0, n, end.row, end.col, cursor, w);
    } else {
        lemma_cursor_recorded(clusters, k, n, cursor, w);
        let (row, column) = landing(clusters, k, cursor, w);
        lemma_scan_finds(clusters, 0, k, row, column, cursor, w);
    }
}

/// The character index of the cursor for a click or arrow move to a row and column of the
/// laid-out comment: a column on a glyph's first cell goes before the glyph and one on a later
/// cell after it, a column past a row's end goes to the end of that row, and a row past the
/// last goes to the end of the text.
pub fn cursor_at_visual_position(
    comment: &[char],
    row: usize,
    column: usize,
    width: usize,
) -> (index: usize)
    ensures
        index == cursor_at(comment@, row as int, column as int, width as int),
        index <= comment@.len(),
        // The cursor only ever lands between grapheme clusters.
        is_cluster_boundary(grapheme_clusters(comment@), index as int),
{
    let safe_width: usize = if width < 1 { 1 } else { width };
    let total = comment.len();
    let text = crate::text::string_of(comment);
    let clusters = graphemes(text.as_str());
    let ghost gs = string_views(clusters@);
    let ghost target = cursor_at(comment@, row as int, column as int, width as int);
    let mut visual_row: usize = 0;
    let mut visual_column: usize = 0;
    let mut scalar_index: usize = 0;
    let mut i: usize = 0;
    assert(gs.skip(0) =~= gs);
    assert(gs.take(0) =~= Seq::<Seq<char>>::empty());
    proof {
        lemma_cursor_scan_boundary(gs, 0, row as int, column as int, safe_width as int, 0, 0);
    }
    while i < clusters.len()
        invariant
            i <= clusters@.len(),
            gs == string_views(clusters@),
            gs == grapheme_clusters(comment@),
            gs.flatten() == comment@,
            comment@.len() == total,
            safe_width == (if width < 1 { 1 } else { width }),
            safe_width >= 1,
            target == cursor_at(comment@, row as int, column as int, width as int),
            is_cluster_boundary(gs, target),
            target == cursor_scan(
                gs.skip(i as int),
                row as int,
                column as int,
                safe_width as int,
                visual_row as int,
                visual_column as int,
                scalar_index as int,
                total as int,
            ),
            scalar_index == gs.take(i as int).flatten().len(),
            scalar_index <= total,
            forall|k: int| 0 <= k < clusters@.len() ==> (#[trigger] clusters@[k])@.len() > 0,
            visual_row + (if visual_column > 0 { 1int } else { 0int }) <= scalar_index,
        decreases clusters@.len() - i,
    {
        let ghost rest = gs.skip(i as int);
        let ghost g = gs[i as int];
        let grapheme = &clusters[i];
        let length = grapheme.as_str().unicode_len();
        proof {
            assert(rest[0] == g);
            assert(rest.drop_first() =~= gs.skip(i + 1));
            lemma_take_last(gs, i as int);
            lemma_flatten_take_prefix(gs, (i + 1) as int);
            assert(gs.take(i + 1) =~= gs.take(i as int).push(g));
            assert(gs.take(i + 1).flatten() =~= gs.take(i as int).flatten() + g) by {
                broadcast use Seq::lemma_flatten_push;
            }
        }
        assert(scalar_index + length <= total);
        let end = scalar_index + length;
        let cells = string_width(grapheme.as_str());
        let newline = length == 1 && grapheme.as_str().get_char(0) == '\n';
        assert(newline == is_newline(g)) by {
            if length == 1 {
                assert(g.len() == 1);
                if g[0] == '\n' {
                    assert(g =~= seq!['\n']);
                }
            }
        }
        if newline {
            if visual_row == row {
                return scalar_index;
            }
            visual_row = visual_row + 1;
            visual_column = 0;
            scalar_index = end;
            i = i + 1;
            continue;
        }
        let wrap = visual_column > 0 && (visual_column > safe_width || cells > safe_width
            - visual_column);
        assert(wrap == crosses_edge(visual_column as int, cells as int, safe_width as int));
        if wrap {
            if visual_row == row {
                return scalar_index;
            }
            visual_row = visual_row + 1;
            visual_column = 0;
        }
        if visual_row == row {
            if column < visual_column {
                return scalar_index;
            }
            if cells > 0 && column - visual_column < cells {
                return if column == visual_column {
                    scalar_index
                } else {
                    end
                };
            }
        }
        visual_column = visual_column + cells;
        scalar_index = end;
        i = i + 1;
    }
    assert(gs.skip(i as int) =~= Seq::<Seq<char>>::empty());
    total
}

/// The first visible row of an editor viewport of `visible_rows` rows over `line_count` lines
/// that keeps `cursor_row` in view, moving as little as possible from `current_start`.
pub open spec fn viewport_start(
    current_start: int,
    cursor_row: int,
    line_count: int,
    visible_rows: int,
) -> int {
    let rows = if visible_rows < 1 { 1 } else { visible_rows };
    let max_start = if line_count > rows { line_count - rows } else { 0 };
    let start = if current_start < max_start { current_start } else { max_start };
    if cursor_row < start {
        cursor_row
    } else if cursor_row >= start + rows {
        let back = if cursor_row > rows - 1 { cursor_row - (rows - 1) } else { 0 };
        if back < max_start { back } else { max_start }
    } else {
        start
    }
}

/// The first visible row of the comment editor after the cursor moved, scrolling as little as
/// possible.
pub fn editor_viewport_start(
    current_start: usize,
    cursor_row: usize,
    line_count: usize,
    visible_rows: usize,
) -> (start: usize)
    ensures
        start == viewport_start(
            current_start as int,
            cursor_row as int,
            line_count as int,
            visible_rows as int,
        ),
        // The cursor row, when it is one of the lines, is on screen.
        cursor_row < line_count ==> start <= cursor_row < start + (if visible_rows < 1 {
            1
        } else {
            visible_rows
        }),
        // The viewport never starts past the last full screen.
        cursor_row < line_count ==> start + (if visible_rows < 1 {
            1
        } else {
            visible_rows
        }) <= line_count || start == 0,
{
    let rows = if visible_rows < 1 { 1 } else { visible_rows };
    let max_start = line_count.saturating_sub(rows);
    let start = if current_start < max_start { current_start } else { max_start };
    if cursor_row < start {
        cursor_row
    } else if cursor_row - start >= rows {
        let back = cursor_row.saturating_sub(rows - 1);
        if back < max_start { back } else { max_start }
    } else {
        start
    }
}

/// Scrolling keeps the cursor row on screen and moves the viewport as little as possible: the
/// new first row shows the cursor row, fits within the lines, and is no farther from the
/// current first row (brought within the lines) than any other first row that does both. So a
/// cursor below the viewport ends on its bottom row, one above it on its top row, and a cursor
/// already on screen leaves the viewport where it was.
pub proof fn lemma_viewport_moves_least(
    current_start: int,
    cursor_row: int,
    line_count: int,
    visible_rows: int,
    other: int,
)
    requires
        0 <= current_start,
        0 <= cursor_row < line_count,
        0 <= other <= (if line_count > (if visible_rows < 1 { 1 } else { visible_rows }) {
            line_count - (if visible_rows < 1 { 1 } else { visible_rows })
        } else {
            0
        }),
        other <= cursor_row < other + (if visible_rows < 1 { 1 } else { visible_rows }),
    ensures
        ({
            let rows = if visible_rows < 1 { 1 } else { visible_rows };
            let max_start = if line_count > rows { line_count - rows } else { 0 };
            let start = if current_start < max_start { current_start } else { max_start };
            let chosen = viewport_start(current_start, cursor_row, line_count, visible_rows);
            &&& 0 <= chosen <= max_start
            &&& chosen <= cursor_row < chosen + rows
            &&& (if chosen >= start { chosen - start } else { start - chosen }) <= (if other >= start {
                other - start
            } else {
                start - other
            })
        }),
{
}

} // verus!
