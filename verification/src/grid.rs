//! The CSS grid that the frontend draws a workspace with.
//!
//! The smallest container of a workspace sets the size of one grid cell; the monitor
//! is divided into as many rows and columns of that size as fit, and every container
//! spans the cells that its rectangle covers.
use vstd::prelude::*;
use vstd::string::StringExecFns;

use crate::structs::Rect;
use crate::text::{decimal, push_decimal};

verus! {

/// The height of a rectangle.
pub open spec fn height(r: Rect) -> int {
    r.right_bottom.1 - r.left_top.1
}

/// The width of a rectangle.
pub open spec fn width(r: Rect) -> int {
    r.right_bottom.0 - r.left_top.0
}

/// The least height of the rectangles (the height of one grid row).
pub open spec fn min_height(layout: Seq<Rect>) -> int
    decreases layout.len(),
{
    if layout.len() <= 1 {
        height(layout[0])
    } else {
        let m = min_height(layout.drop_last());
        if height(layout.last()) < m {
            height(layout.last())
        } else {
            m
        }
    }
}

/// The least width of the rectangles (the width of one grid column).
pub open spec fn min_width(layout: Seq<Rect>) -> int
    decreases layout.len(),
{
    if layout.len() <= 1 {
        width(layout[0])
    } else {
        let m = min_width(layout.drop_last());
        if width(layout.last()) < m {
            width(layout.last())
        } else {
            m
        }
    }
}

/// `n` grid tracks of one fraction each: `1fr 1fr ... 1fr`.
pub open spec fn fr_tracks(n: nat) -> Seq<char>
    decreases n,
{
    if n == 0 {
        Seq::empty()
    } else if n == 1 {
        "1fr"@
    } else {
        fr_tracks((n - 1) as nat) + " 1fr"@
    }
}

/// The inputs on which the grid of a workspace can be computed: there is a rectangle,
/// no rectangle is upside down or left-right inverted, the least width and the least
/// height are not zero, and the monitor is not inverted.
pub open spec fn grid_parent_defined(layout: Seq<Rect>, size: Rect) -> bool {
    &&& layout.len() > 0
    &&& forall|i: int| 0 <= i < layout.len() ==> height(#[trigger] layout[i]) >= 0
    &&& forall|i: int| 0 <= i < layout.len() ==> width(#[trigger] layout[i]) >= 0
    &&& min_width(layout) > 0
    &&& min_height(layout) > 0
    &&& height(size) >= 0
    &&& width(size) >= 0
}

/// The number of grid rows: how many rows of the least height fit in the monitor.
pub open spec fn grid_rows(layout: Seq<Rect>, size: Rect) -> nat {
    (height(size) / min_height(layout)) as nat
}

/// The number of grid columns: how many columns of the least width fit in the monitor.
pub open spec fn grid_columns(layout: Seq<Rect>, size: Rect) -> nat {
    (width(size) / min_width(layout)) as nat
}

/// The style of the grid element of a workspace.
pub open spec fn grid_parent_style(layout: Seq<Rect>, size: Rect) -> Seq<char> {
    "grid-template-rows: "@ + fr_tracks(grid_rows(layout, size)) + ";grid-template-columns: "@
        + fr_tracks(grid_columns(layout, size)) + ";"@
}

/// The least width and the least height of the rectangles.
fn least_sizes(layout: &Vec<Rect>) -> (r: (u16, u16))
    requires
        layout.len() > 0,
        forall|i: int| 0 <= i < layout.len() ==> height(#[trigger] layout@[i]) >= 0,
        forall|i: int| 0 <= i < layout.len() ==> width(#[trigger] layout@[i]) >= 0,
    ensures
        r.0 == min_width(layout@),
        r.1 == min_height(layout@),
{
    let mut min_h: u16 = layout[0].right_bottom.0 - layout[0].left_top.0;
    let mut min_v: u16 = layout[0].right_bottom.1 - layout[0].left_top.1;
    let mut i: usize = 1;
    assert(layout@.take(1) =~= seq![layout@[0]]);
    while i < layout.len()
        invariant
            layout.len() > 0,
            forall|i: int| 0 <= i < layout.len() ==> height(#[trigger] layout@[i]) >= 0,
            forall|i: int| 0 <= i < layout.len() ==> width(#[trigger] layout@[i]) >= 0,
            1 <= i <= layout.len(),
            min_h == min_width(layout@.take(i as int)),
            min_v == min_height(layout@.take(i as int)),
        decreases layout.len() - i,
    {
        assert(layout@.take(i + 1).drop_last() =~= layout@.take(i as int));
        let w: u16 = layout[i].right_bottom.0 - layout[i].left_top.0;
        let h: u16 = layout[i].right_bottom.1 - layout[i].left_top.1;
        if w < min_h {
            min_h = w;
        }
        if h < min_v {
            min_v = h;
        }
        i += 1;
    }
    assert(layout@.take(i as int) =~= layout@);
    (min_h, min_v)
}

/// Whether the grid of a workspace can be computed (see `calc_grid_parent`).
pub fn grid_parent_is_defined(layout: &Vec<Rect>, size: &Rect) -> (b: bool)
    ensures
        b == grid_parent_defined(layout@, *size),
{
    if layout.len() == 0 {
        return false;
    }
    let mut i: usize = 0;
    while i < layout.len()
        invariant
            i <= layout.len(),
            forall|j: int| 0 <= j < i ==> height(#[trigger] layout@[j]) >= 0,
        decreases layout.len() - i,
    {
        if layout[i].right_bottom.1 < layout[i].left_top.1 {
            assert(height(layout@[i as int]) < 0);
            return false;
        }
        i += 1;
    }
    let mut j: usize = 0;
    while j < layout.len()
        invariant
            j <= layout.len(),
            forall|i: int| 0 <= i < layout.len() ==> height(#[trigger] layout@[i]) >= 0,
            forall|k: int| 0 <= k < j ==> width(#[trigger] layout@[k]) >= 0,
        decreases layout.len() - j,
    {
        if layout[j].right_bottom.0 < layout[j].left_top.0 {
            assert(width(layout@[j as int]) < 0);
            return false;
        }
        j += 1;
    }
    let (min_h, min_v) = least_sizes(layout);
    min_h > 0 && min_v > 0 && size.right_bottom.1 >= size.left_top.1 && size.right_bottom.0
        >= size.left_top.0
}

/// Whether the place of a window in the grid can be computed (see `calc_grid_child`).
pub fn grid_child_is_defined(min: &(u16, u16), win: &Rect) -> (b: bool)
    ensures
        b == grid_child_defined(*min, *win),
{
    if min.0 == 0 || min.1 == 0 || win.right_bottom.1 < win.left_top.1
        || win.right_bottom.0 < win.left_top.0 {
        return false;
    }
    let column_end: u32 = (win.left_top.0 / min.0) as u32 + 1 + ((win.right_bottom.0
        - win.left_top.0) / min.0) as u32;
    let row_end: u32 = (win.left_top.1 / min.1) as u32 + 1 + ((win.right_bottom.1 - win.left_top.1)
        / min.1) as u32;
    column_end <= 65535 && row_end <= 65535
}

/// Computes the grid of a workspace from the rectangles of its containers and the
/// rectangle of the monitor: the least height of the rectangles is the height of a row
/// and their least width the width of a column, and the monitor is divided into as many
/// rows and columns as fit. Returns the style of the grid element, the least width and
/// the least height.
pub fn calc_grid_parent(layout: &Vec<Rect>, size: &Rect) -> (r: (String, u16, u16))
    requires
        grid_parent_defined(layout@, *size),
    ensures
        r.0@ == grid_parent_style(layout@, *size),
        r.1 == min_width(layout@),
        r.2 == min_height(layout@),
{
    let (min_h, min_v) = least_sizes(layout);
    let rows: u16 = (size.right_bottom.1 - size.left_top.1) / min_v;
    let colums: u16 = (size.right_bottom.0 - size.left_top.0) / min_h;
    let mut style = String::new();
    style.append("grid-template-rows: ");
    push_fr_tracks(&mut style, rows);
    style.append(";grid-template-columns: ");
    push_fr_tracks(&mut style, colums);
    style.append(";");
    assert(style@ =~= grid_parent_style(layout@, *size));
    (style, min_h, min_v)
}

/// Appends `n` grid tracks of one fraction each, separated by spaces.
fn push_fr_tracks(s: &mut String, n: u16)
    ensures
        final(s)@ == old(s)@ + fr_tracks(n as nat),
{
    let mut i: u16 = 0;
    while i < n
        invariant
            i <= n,
            s@ == old(s)@ + fr_tracks(i as nat),
        decreases n - i,
    {
        if i == 0 {
            s.append("1fr");
        } else {
            s.append(" 1fr");
        }
        assert(s@ =~= old(s)@ + fr_tracks((i + 1) as nat));
        i += 1;
    }
}

/// The first grid line of a span that starts at `start` with cells of size `cell`.
pub open spec fn span_start(start: u16, cell: u16) -> int {
    start / cell + 1
}

/// The last grid line of a span from `start` to `end` with cells of size `cell`.
pub open spec fn span_end(start: u16, end: u16, cell: u16) -> int {
    span_start(start, cell) + (end - start) / (cell as int) - 1
}

/// The inputs on which the place of a window in the grid can be computed: the cells are
/// not empty, the window is not inverted, and the grid lines fit in a `u16`.
pub open spec fn grid_child_defined(min: (u16, u16), win: Rect) -> bool {
    &&& min.0 > 0
    &&& min.1 > 0
    &&& height(win) >= 0
    &&& width(win) >= 0
    &&& span_start(win.left_top.0, min.0) + width(win) / (min.0 as int) <= u16::MAX
    &&& span_start(win.left_top.1, min.1) + height(win) / (min.1 as int) <= u16::MAX
}

/// The style that places a window in the grid.
pub open spec fn grid_child_style(min: (u16, u16), win: Rect) -> Seq<char> {
    let row_start = span_start(win.left_top.1, min.1);
    let row_end = span_end(win.left_top.1, win.right_bottom.1, min.1);
    let column_start = span_start(win.left_top.0, min.0);
    let column_end = span_end(win.left_top.0, win.right_bottom.0, min.0);
    "grid-row: "@ + decimal(row_start as nat) + " / "@ + decimal(row_end as nat)
        + ";grid-column: "@ + decimal(column_start as nat) + " / "@ + decimal(column_end as nat)
}

/// Places a window in the grid whose cells are `min.0` wide and `min.1` high.
///
/// Grid lines count from 1 while coordinates count from 0, so a window that starts at
/// coordinate `x` starts at line `x / cell + 1`; a window as large as one cell starts
/// and ends on the same line.
pub fn calc_grid_child(min: &(u16, u16), win: &Rect) -> (s: String)
    requires
        grid_child_defined(*min, *win),
    ensures
        s@ == grid_child_style(*min, *win),
{
    let column_start: u16 = win.left_top.0 / min.0 + 1;
    let row_start: u16 = win.left_top.1 / min.1 + 1;
    let row_end: u16 = row_start + ((win.right_bottom.1 - win.left_top.1) / min.1) - 1;
    let column_end: u16 = column_start + ((win.right_bottom.0 - win.left_top.0) / min.0) - 1;
    let mut s = String::new();
    s.append("grid-row: ");
    push_decimal(&mut s, row_start as u64);
    s.append(" / ");
    push_decimal(&mut s, row_end as u64);
    s.append(";grid-column: ");
    push_decimal(&mut s, column_start as u64);
    s.append(" / ");
    push_decimal(&mut s, column_end as u64);
    assert(s@ =~= grid_child_style(*min, *win));
    s
}

/// A window exactly one cell wide and one cell high starts and ends on the same grid
/// line in each direction, wherever it stands.
pub proof fn lemma_one_cell_window(min: (u16, u16), win: Rect)
    requires
        min.0 > 0,
        min.1 > 0,
        width(win) == min.0,
        height(win) == min.1,
    ensures
        span_end(win.left_top.0, win.right_bottom.0, min.0) == span_start(win.left_top.0, min.0),
        span_end(win.left_top.1, win.right_bottom.1, min.1) == span_start(win.left_top.1, min.1),
{
}

/// The grid fits in the monitor: its rows of cell height and its columns of cell width
/// cover no more than the monitor, and one more row or column would not fit.
pub proof fn lemma_grid_fits(layout: Seq<Rect>, size: Rect)
    requires
        grid_parent_defined(layout, size),
    ensures
        grid_rows(layout, size) * min_height(layout) <= height(size) < (grid_rows(
            layout,
            size,
        ) + 1) * min_height(layout),
        grid_columns(layout, size) * min_width(layout) <= width(size) < (grid_columns(
            layout,
            size,
        ) + 1) * min_width(layout),
{
    let h = min_height(layout);
    let w = min_width(layout);
    let hs = height(size);
    let ws = width(size);
    assert((hs / h) * h <= hs < (hs / h + 1) * h) by (nonlinear_arith)
        requires
            h > 0,
            hs >= 0,
    ;
    assert((ws / w) * w <= ws < (ws / w + 1) * w) by (nonlinear_arith)
        requires
            w > 0,
            ws >= 0,
    ;
}

/// The least width and the least height are those of rectangles of the layout, and
/// no rectangle is narrower or lower: they depend on the rectangles only, not on their
/// order.
pub proof fn lemma_least_sizes(layout: Seq<Rect>)
    requires
        layout.len() > 0,
    ensures
        forall|i: int| 0 <= i < layout.len() ==> min_width(layout) <= width(#[trigger] layout[i]),
        forall|i: int| 0 <= i < layout.len() ==> min_height(layout) <= height(#[trigger] layout[i]),
        exists|i: int| 0 <= i < layout.len() && min_width(layout) == width(#[trigger] layout[i]),
        exists|i: int| 0 <= i < layout.len() && min_height(layout) == height(#[trigger] layout[i]),
    decreases layout.len(),
{
    if layout.len() > 1 {
        let init = layout.drop_last();
        lemma_least_sizes(init);
        assert forall|i: int| 0 <= i < init.len() implies #[trigger] layout[i] == init[i] by {}
        let last = layout.len() - 1;
        if width(layout.last()) < min_width(init) {
            assert(min_width(layout) == width(layout[last]));
        } else {
            let j = choose|j: int| 0 <= j < init.len() && min_width(init) == width(#[trigger] init[j]);
            assert(min_width(layout) == width(layout[j]));
        }
        if height(layout.last()) < min_height(init) {
            assert(min_height(layout) == height(layout[last]));
        } else {
            let j = choose|j: int| 0 <= j < init.len() && min_height(init) == height(#[trigger] init[j]);
            assert(min_height(layout) == height(layout[j]));
        }
    } else {
        assert(min_width(layout) == width(layout[0]));
        assert(min_height(layout) == height(layout[0]));
    }
}

/// Two layouts with the same rectangles, in whatever order, have the same grid.
pub proof fn lemma_grid_ignores_order(a: Seq<Rect>, b: Seq<Rect>, size: Rect)
    requires
        a.len() > 0,
        a.to_multiset() == b.to_multiset(),
    ensures
        min_width(a) == min_width(b),
        min_height(a) == min_height(b),
        grid_parent_style(a, size) == grid_parent_style(b, size),
{
    assert forall|r: Rect| a.contains(r) <==> b.contains(r) by {
        a.to_multiset_ensures();
        b.to_multiset_ensures();
        assert(a.contains(r) == (a.to_multiset().count(r) > 0));
        assert(b.contains(r) == (b.to_multiset().count(r) > 0));
    }
    assert(b.len() > 0) by {
        a.to_multiset_ensures();
        b.to_multiset_ensures();
        assert(a.contains(a[0]));
    }
    lemma_least_sizes(a);
    lemma_least_sizes(b);
    let ia = choose|i: int| 0 <= i < a.len() && min_width(a) == width(#[trigger] a[i]);
    let ib = choose|i: int| 0 <= i < b.len() && min_width(b) == width(#[trigger] b[i]);
    assert(a.contains(a[ia]));
    assert(b.contains(b[ib]));
    let ja = choose|i: int| 0 <= i < b.len() && b[i] == a[ia];
    let jb = choose|i: int| 0 <= i < a.len() && a[i] == b[ib];
    assert(width(b[ja]) >= min_width(b));
    assert(width(a[jb]) >= min_width(a));
    let ha = choose|i: int| 0 <= i < a.len() && min_height(a) == height(#[trigger] a[i]);
    let hb = choose|i: int| 0 <= i < b.len() && min_height(b) == height(#[trigger] b[i]);
    assert(a.contains(a[ha]));
    assert(b.contains(b[hb]));
    let ka = choose|i: int| 0 <= i < b.len() && b[i] == a[ha];
    let kb = choose|i: int| 0 <= i < a.len() && a[i] == b[hb];
    assert(height(b[ka]) >= min_height(b));
    assert(height(a[kb]) >= min_height(a));
}

/// `n` tracks are `n` times `1fr`, one space between two of them: `4 * n - 1` characters
/// where every fourth one from the start begins a `1fr` and every fourth one from the
/// fourth is a space.
pub proof fn lemma_fr_tracks_shape(n: nat)
    ensures
        n == 0 ==> fr_tracks(n).len() == 0,
        n > 0 ==> fr_tracks(n).len() == 4 * n - 1,
        forall|k: int|
            0 <= k < n ==> {
                &&& #[trigger] fr_tracks(n)[4 * k] == '1'
                &&& fr_tracks(n)[4 * k + 1] == 'f'
                &&& fr_tracks(n)[4 * k + 2] == 'r'
            },
        forall|k: int| 1 <= k < n ==> #[trigger] fr_tracks(n)[4 * k - 1] == ' ',
    decreases n,
{
    reveal_strlit("1fr");
    reveal_strlit(" 1fr");
    if n > 1 {
        lemma_fr_tracks_shape((n - 1) as nat);
        let prev = fr_tracks((n - 1) as nat);
        let s = fr_tracks(n);
        assert(s == prev + " 1fr"@);
        assert forall|k: int| 0 <= k < n implies {
            &&& #[trigger] s[4 * k] == '1'
            &&& s[4 * k + 1] == 'f'
            &&& s[4 * k + 2] == 'r'
        } by {
            if k < n - 1 {
                assert(s[4 * k] == prev[4 * k]);
                assert(s[4 * k + 1] == prev[4 * k + 1]);
                assert(s[4 * k + 2] == prev[4 * k + 2]);
            } else {
                assert(s[4 * k] == " 1fr"@[1]);
                assert(s[4 * k + 1] == " 1fr"@[2]);
                assert(s[4 * k + 2] == " 1fr"@[3]);
            }
        }
        assert forall|k: int| 1 <= k < n implies #[trigger] s[4 * k - 1] == ' ' by {
            if k < n - 1 {
                assert(s[4 * k - 1] == prev[4 * k - 1]);
            } else {
                assert(s[4 * k - 1] == " 1fr"@[0]);
            }
        }
    }
}

/// The grid of a workspace has one row track per row and one column track per column
/// that fits: reading the style, the row part holds `height(size) / min_height` times
/// `1fr` and the column part `width(size) / min_width` times.
pub proof fn lemma_grid_style_counts_tracks(layout: Seq<Rect>, size: Rect)
    requires
        grid_parent_defined(layout, size),
    ensures
        grid_parent_style(layout, size) == "grid-template-rows: "@ + fr_tracks(
            (height(size) / min_height(layout)) as nat,
        ) + ";grid-template-columns: "@ + fr_tracks((width(size) / min_width(layout)) as nat)
            + ";"@,
        (height(size) / min_height(layout)) > 0 ==> fr_tracks(
            (height(size) / min_height(layout)) as nat,
        ).len() == 4 * (height(size) / min_height(layout)) - 1,
        (width(size) / min_width(layout)) > 0 ==> fr_tracks(
            (width(size) / min_width(layout)) as nat,
        ).len() == 4 * (width(size) / min_width(layout)) - 1,
{
    lemma_fr_tracks_shape((height(size) / min_height(layout)) as nat);
    lemma_fr_tracks_shape((width(size) / min_width(layout)) as nat);
}

/// A window's span starts on the line of the cell that holds its left (or top) edge,
/// and covers as many cells as fit in the window: it ends `(end - start) / cell - 1`
/// lines later.
pub proof fn lemma_span_covers_window(start: u16, end: u16, cell: u16)
    requires
        cell > 0,
        start <= end,
    ensures
        (span_start(start, cell) - 1) * cell <= start < span_start(start, cell) * cell,
        span_end(start, end, cell) - span_start(start, cell) + 1 == (end - start) / (cell as int),
        (span_end(start, end, cell) - span_start(start, cell) + 1) * cell <= end - start,
        end - start < (span_end(start, end, cell) - span_start(start, cell) + 2) * cell,
{
    let c = cell as int;
    let st = start as int;
    let d = (end - start) as int;
    assert((st / c) * c <= st < (st / c + 1) * c) by (nonlinear_arith)
        requires
            c > 0,
            st >= 0,
    ;
    assert((d / c) * c <= d < (d / c + 1) * c) by (nonlinear_arith)
        requires
            c > 0,
            d >= 0,
    ;
}

} // verus!
