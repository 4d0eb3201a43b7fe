//! Text renderings of numbers and number grids.
use crate::text::{decimal, string_push, usize_to_decimal};
use vstd::prelude::*;

verus! {

/// `n` spaces.
pub open spec fn spaces(n: nat) -> Seq<char> {
    Seq::new(n, |i: int| ' ')
}

/// `s` right-aligned in a field of `w` characters (never truncated).
pub open spec fn pad_left(s: Seq<char>, w: nat) -> Seq<char> {
    if s.len() < w {
        spaces((w - s.len()) as nat) + s
    } else {
        s
    }
}

/// The length of the longest decimal rendering among `grid`, or 0 for an empty grid.
pub open spec fn max_decimal_len(grid: Seq<u16>) -> nat
    decreases grid.len(),
{
    if grid.len() == 0 {
        0
    } else {
        let m = max_decimal_len(grid.drop_last());
        let l = decimal(grid.last() as nat).len();
        if l > m { l } else { m }
    }
}

/// The longest rendering among a grid is as long as every value's rendering, and is the
/// rendering of some value of a non-empty grid.
pub proof fn lemma_max_decimal_len(grid: Seq<u16>)
    ensures
        forall|i: int| 0 <= i < grid.len() ==> decimal(#[trigger] grid[i] as nat).len() <= max_decimal_len(grid),
        grid.len() > 0 ==> exists|i: int| 0 <= i < grid.len() && decimal(#[trigger] grid[i] as nat).len() == max_decimal_len(grid),
    decreases grid.len(),
{
    if grid.len() > 0 {
        let rest = grid.drop_last();
        lemma_max_decimal_len(rest);
        assert forall|i: int| 0 <= i < grid.len() implies decimal(#[trigger] grid[i] as nat).len() <= max_decimal_len(grid) by {
            if i < rest.len() {
                assert(grid[i] == rest[i]);
            }
        }
        if decimal(grid.last() as nat).len() > max_decimal_len(rest) || rest.len() == 0 {
            assert(grid[grid.len() - 1] == grid.last());
        } else {
            let i = choose|i: int| 0 <= i < rest.len() && decimal(#[trigger] rest[i] as nat).len() == max_decimal_len(rest);
            assert(grid[i] == rest[i]);
        }
    }
}

/// A smaller number has no longer a rendering.
proof fn lemma_decimal_len_mono(a: nat, b: nat)
    requires
        a <= b,
    ensures
        decimal(a).len() <= decimal(b).len(),
    decreases b,
{
    if a >= 10 {
        lemma_decimal_len_mono(a / 10, b / 10);
    }
    if b >= 10 {
        assert(decimal(b).len() == decimal(b / 10).len() + 1);
    }
}

/// Cells that fit their width take `w` characters each, one space between them: cell `x`
/// stands at `x * (w + 1)`.
proof fn lemma_joined_cells(vals: Seq<nat>, w: nat)
    requires
        forall|i: int| 0 <= i < vals.len() ==> decimal(#[trigger] vals[i]).len() <= w,
    ensures
        vals.len() > 0 ==> joined_cells(vals, w).len() == vals.len() * (w + 1) - 1,
        vals.len() == 0 ==> joined_cells(vals, w).len() == 0,
        forall|x: int| 0 <= x < vals.len() ==> joined_cells(vals, w).subrange(x * (w + 1), x * (w + 1) + w)
            == #[trigger] pad_left(decimal(vals[x]), w),
        forall|x: int| 0 <= x < vals.len() - 1 ==> #[trigger] joined_cells(vals, w)[x * (w + 1) + w] == ' ',
    decreases vals.len(),
{
    if vals.len() > 0 {
        let rest = vals.drop_last();
        let j = joined_cells(vals, w);
        let last = pad_left(decimal(vals.last()), w);
        assert(decimal(vals[vals.len() - 1]).len() <= w);
        assert(last.len() == w);
        if vals.len() == 1 {
            assert forall|x: int| 0 <= x < vals.len() implies j.subrange(x * (w + 1), x * (w + 1) + w)
                == #[trigger] pad_left(decimal(vals[x]), w) by {
                assert(j =~= j.subrange(0, w as int));
            }
        } else {
            lemma_joined_cells(rest, w);
            let jr = joined_cells(rest, w);
            assert(j == jr + seq![' '] + last);
            assert((vals.len() - 1) * (w + 1) - 1 + 1 + w == vals.len() * (w + 1) - 1) by (nonlinear_arith);
            assert forall|x: int| 0 <= x < vals.len() implies j.subrange(x * (w + 1), x * (w + 1) + w)
                == #[trigger] pad_left(decimal(vals[x]), w) by {
                if x < rest.len() {
                    assert(rest[x] == vals[x]);
                    assert(x * (w + 1) + w <= rest.len() * (w + 1) - 1) by (nonlinear_arith)
                        requires x < rest.len(), x >= 0;
                    assert(j.subrange(x * (w + 1), x * (w + 1) + w) =~= jr.subrange(x * (w + 1), x * (w + 1) + w));
                } else {
                    assert(x * (w + 1) == rest.len() * (w + 1));
                    assert(j.subrange(x * (w + 1), x * (w + 1) + w) =~= last);
                }
            }
            assert forall|x: int| 0 <= x < vals.len() - 1 implies #[trigger] j[x * (w + 1) + w] == ' ' by {
                if x < rest.len() - 1 {
                    assert(x * (w + 1) + w < rest.len() * (w + 1) - 1) by (nonlinear_arith)
                        requires x < rest.len() - 1, x >= 0;
                    assert(j[x * (w + 1) + w] == jr[x * (w + 1) + w]);
                } else {
                    assert(x * (w + 1) + w == rest.len() * (w + 1) - 1) by (nonlinear_arith)
                        requires x == rest.len() - 1;
                }
            }
        }
    }
}

/// The width of a grid column: the longest rendering, or 1 for an empty grid.
pub open spec fn grid_col_width(grid: Seq<u16>) -> nat {
    if grid.len() == 0 { 1 } else { max_decimal_len(grid) }
}

/// The numbers `vals`, each right-aligned to `w`, separated by single spaces.
pub open spec fn joined_cells(vals: Seq<nat>, w: nat) -> Seq<char>
    decreases vals.len(),
{
    if vals.len() == 0 {
        Seq::empty()
    } else if vals.len() == 1 {
        pad_left(decimal(vals[0]), w)
    } else {
        joined_cells(vals.drop_last(), w) + seq![' '] + pad_left(decimal(vals.last()), w)
    }
}

/// The values of grid row `y` (the last row may be shorter).
pub open spec fn grid_chunk(grid: Seq<u16>, width: nat, y: nat) -> Seq<nat> {
    let start: int = (y * width) as int;
    let end: int = if (y + 1) * width < grid.len() { ((y + 1) * width) as int } else { grid.len() as int };
    grid.subrange(start, end).map_values(|v: u16| v as nat)
}

/// Line `y` of the grid: its label, right-aligned to `lw`, then its cells.
pub open spec fn grid_line(grid: Seq<u16>, width: nat, lw: nat, cw: nat, y: nat) -> Seq<char> {
    pad_left(decimal(y), lw) + seq![' '] + joined_cells(grid_chunk(grid, width, y), cw)
}

/// The first `k` lines of the grid, separated by newlines.
pub open spec fn grid_lines(grid: Seq<u16>, width: nat, lw: nat, cw: nat, k: nat) -> Seq<char>
    decreases k,
{
    if k == 0 {
        Seq::empty()
    } else if k == 1 {
        grid_line(grid, width, lw, cw, 0)
    } else {
        grid_lines(grid, width, lw, cw, (k - 1) as nat) + seq!['\n'] + grid_line(grid, width, lw, cw, (k - 1) as nat)
    }
}

/// The column numbers `0..n`.
pub open spec fn column_numbers(n: nat) -> Seq<nat> {
    Seq::new(n, |j: int| j as nat)
}

/// The rendering of `grid` laid out `width` values per line: a header of column numbers,
/// then one labelled line per row.
pub open spec fn spec_format_grid(grid: Seq<u16>, width: nat) -> Seq<char> {
    let height = grid.len() / width;
    let lw = decimal(height).len();
    let cw = grid_col_width(grid);
    let nrows = ((grid.len() + width - 1) as int / (width as int)) as nat;
    spaces(lw) + seq![' '] + joined_cells(column_numbers(width), cw) + seq!['\n']
        + grid_lines(grid, width, lw, cw, nrows)
}

/// A line of the grid: its label, right-aligned to `lw`, a space, then its cells, each taking
/// `cw` characters with a space between them; a full row takes `lw + width * (cw + 1)`
/// characters.
proof fn lemma_grid_line_shape(grid: Seq<u16>, width: nat, lw: nat, cw: nat, y: nat)
    requires
        width > 0,
        y * width < grid.len(),
        decimal(y).len() <= lw,
        forall|i: int| 0 <= i < grid.len() ==> decimal(#[trigger] grid[i] as nat).len() <= cw,
    ensures
        ({
            let line = grid_line(grid, width, lw, cw, y);
            let n = grid_chunk(grid, width, y).len();
            &&& n > 0
            &&& n <= width
            &&& (y + 1) * width <= grid.len() ==> n == width
            &&& line.len() == lw + n * (cw + 1)
            &&& line.subrange(0, lw as int) == pad_left(decimal(y), lw)
            &&& line[lw as int] == ' '
            &&& forall|x: int| 0 <= x < n ==> #[trigger] line.subrange(lw + 1 + x * (cw + 1), lw + 1 + x * (cw + 1) + cw)
                == pad_left(decimal(grid[y * width + x] as nat), cw)
        }),
{
    let chunk = grid_chunk(grid, width, y);
    let start: int = (y * width) as int;
    let end: int = if (y + 1) * width < grid.len() { ((y + 1) * width) as int } else { grid.len() as int };
    assert((y + 1) * width == y * width + width) by (nonlinear_arith);
    assert(chunk.len() == end - start);
    assert forall|i: int| 0 <= i < chunk.len() implies decimal(#[trigger] chunk[i]).len() <= cw by {
        assert(chunk[i] == grid[start + i] as nat);
    }
    lemma_joined_cells(chunk, cw);
    let label = pad_left(decimal(y), lw);
    let cells = joined_cells(chunk, cw);
    let line = grid_line(grid, width, lw, cw, y);
    assert(label.len() == lw);
    assert(line == label + seq![' '] + cells);
    assert(chunk.len() * (cw + 1) - 1 + 1 + lw == lw + chunk.len() * (cw + 1));
    assert(line.subrange(0, lw as int) =~= label);
    assert forall|x: int| 0 <= x < chunk.len() implies #[trigger] line.subrange(lw + 1 + x * (cw + 1), lw + 1 + x * (cw + 1) + cw)
        == pad_left(decimal(grid[y * width + x] as nat), cw) by {
        assert(x * (cw + 1) + cw <= chunk.len() * (cw + 1) - 1) by (nonlinear_arith)
            requires x < chunk.len(), x >= 0;
        assert(line.subrange(lw + 1 + x * (cw + 1), lw + 1 + x * (cw + 1) + cw) =~= cells.subrange(x * (cw + 1), x * (cw + 1) + cw));
        assert(chunk[x] == grid[start + x] as nat);
    }
}

/// The first `k` lines of the grid, each full row taking `L = lw + width * (cw + 1)`
/// characters and a line break: line `y` stands at `y * (L + 1)`.
proof fn lemma_grid_lines_layout(grid: Seq<u16>, width: nat, lw: nat, cw: nat, k: nat)
    requires
        width > 0,
        k >= 1,
        (k - 1) * width < grid.len(),
        forall|y: nat| y < k ==> decimal(y).len() <= lw,
        forall|i: int| 0 <= i < grid.len() ==> decimal(#[trigger] grid[i] as nat).len() <= cw,
    ensures
        grid_lines(grid, width, lw, cw, k).len() == (k - 1) * (lw + width * (cw + 1) + 1)
            + grid_line(grid, width, lw, cw, (k - 1) as nat).len(),
        forall|y: nat| y < k ==> grid_lines(grid, width, lw, cw, k).subrange(
            (y * (lw + width * (cw + 1) + 1)) as int, (y * (lw + width * (cw + 1) + 1) + grid_line(grid, width, lw, cw, y).len()) as int)
            == #[trigger] grid_line(grid, width, lw, cw, y),
        forall|y: nat| y < k ==> y * (lw + width * (cw + 1) + 1) + (#[trigger] grid_line(grid, width, lw, cw, y)).len()
            <= grid_lines(grid, width, lw, cw, k).len(),
    decreases k,
{
    let l1: int = (lw + width * (cw + 1) + 1) as int;
    let g = grid_lines(grid, width, lw, cw, k);
    if k == 1 {
        assert forall|y: nat| y < k implies g.subrange(y * l1, y * l1 + grid_line(grid, width, lw, cw, y).len())
            == #[trigger] grid_line(grid, width, lw, cw, y) by {
            assert(y == 0);
            assert(g.subrange(0, g.len() as int) =~= g);
        }
    } else {
        let km = (k - 1) as nat;
        assert((km - 1) * width < (k - 1) * width) by (nonlinear_arith)
            requires km == k - 1, width > 0, k >= 2;
        lemma_grid_lines_layout(grid, width, lw, cw, km);
        let prev = grid_lines(grid, width, lw, cw, km);
        let last = grid_line(grid, width, lw, cw, km);
        assert(g == prev + seq!['\n'] + last);
        let ym = (km - 1) as nat;
        assert(ym * width < grid.len() && (ym + 1) * width <= grid.len()) by (nonlinear_arith)
            requires ym + 1 == km, km * width < grid.len(), width > 0;
        lemma_grid_line_shape(grid, width, lw, cw, ym);
        assert(prev.len() + 1 == km * l1) by (nonlinear_arith)
            requires prev.len() == (km - 1) * l1 + (lw + width * (cw + 1)), l1 == lw + width * (cw + 1) + 1, km >= 1;
        assert forall|y: nat| y < k implies g.subrange(y * l1, y * l1 + grid_line(grid, width, lw, cw, y).len())
            == #[trigger] grid_line(grid, width, lw, cw, y) by {
            if y < km {
                let ln = grid_line(grid, width, lw, cw, y);
                assert(prev.subrange(y * l1, y * l1 + ln.len()) == ln);
                assert(y * l1 + ln.len() <= prev.len()) by {
                    if y < ym {
                        assert((y + 1) * width <= grid.len()) by (nonlinear_arith)
                            requires y < ym, (ym + 1) * width <= grid.len(), width > 0;
                        assert(y * width < grid.len()) by (nonlinear_arith)
                            requires (y + 1) * width <= grid.len(), width > 0;
                        lemma_grid_line_shape(grid, width, lw, cw, y);
                        assert(ln.len() == l1 - 1);
                        assert(y * l1 + l1 <= km * l1) by (nonlinear_arith)
                            requires y + 1 <= km, l1 >= 0;
                    } else {
                        assert(y == ym);
                        assert(prev.len() == ym * l1 + ln.len());
                    }
                }
                assert(g.subrange(y * l1, y * l1 + ln.len()) =~= prev.subrange(y * l1, y * l1 + ln.len()));
            } else {
                assert(g.subrange(y * l1, y * l1 + last.len()) =~= last);
            }
        }
        assert forall|y: nat| y < k implies y * l1 + (#[trigger] grid_line(grid, width, lw, cw, y)).len() <= g.len() by {
            if y < km {
                assert(g.subrange(y * l1, y * l1 + grid_line(grid, width, lw, cw, y).len()) == grid_line(grid, width, lw, cw, y));
            }
        }
    }
}

/// The rendering of a grid, `width` values per line: after a header line (spaces as wide as
/// the row labels, a space, the column numbers right-aligned to the column width and
/// separated by spaces, a line break), row `y` takes one line of `L = lw + width * (cw + 1)`
/// characters and a line break: its number right-aligned to `lw` (the length of the number
/// of full rows in decimal), a space, then its values, value `x` right-aligned to `cw` (the
/// length of the longest value in decimal) at `lw + 1 + x * (cw + 1)`.
pub proof fn lemma_format_grid_cells(grid: Seq<u16>, width: nat, y: nat, x: nat)
    requires
        width > 0,
        x < width,
        y * width + x < grid.len(),
    ensures
        ({
            let text = spec_format_grid(grid, width);
            let lw = decimal(grid.len() / width).len();
            let cw = grid_col_width(grid);
            let header = spaces(lw) + seq![' '] + joined_cells(column_numbers(width), cw) + seq!['\n'];
            let row: int = (header.len() + y * (lw + width * (cw + 1) + 1)) as int;
            let cell: int = row + lw + 1 + x * (cw + 1);
            &&& forall|i: int| 0 <= i < grid.len() ==> decimal(#[trigger] grid[i] as nat).len() <= cw
            &&& text.subrange(0, header.len() as int) == header
            &&& text.subrange(row, row + lw) == pad_left(decimal(y), lw)
            &&& text[row + lw] == ' '
            &&& text.subrange(cell, cell + cw) == pad_left(decimal(grid[(y * width + x) as int] as nat), cw)
        }),
{
    let n = grid.len();
    let height = n / width;
    let lw = decimal(height).len();
    let cw = grid_col_width(grid);
    let nrows = ((n + width - 1) as int / (width as int)) as nat;
    let header = spaces(lw) + seq![' '] + joined_cells(column_numbers(width), cw) + seq!['\n'];
    let body = grid_lines(grid, width, lw, cw, nrows);
    let text = spec_format_grid(grid, width);
    assert(text == header + body);
    lemma_max_decimal_len(grid);
    assert(y * width < n && y < nrows && nrows >= 1 && (nrows - 1) * width < n) by (nonlinear_arith)
        requires y * width + x < n, width > 0, nrows as int == ((n + width - 1) as int) / (width as int), x >= 0;
    assert forall|yy: nat| yy < nrows implies decimal(yy).len() <= lw by {
        assert(yy <= height) by (nonlinear_arith)
            requires yy < nrows, nrows as int == ((n + width - 1) as int) / (width as int), height as int == (n as int) / (width as int), width > 0;
        lemma_decimal_len_mono(yy, height);
    }
    lemma_grid_lines_layout(grid, width, lw, cw, nrows);
    lemma_grid_line_shape(grid, width, lw, cw, y);
    let l1: int = (lw + width * (cw + 1) + 1) as int;
    let line = grid_line(grid, width, lw, cw, y);
    assert(body.subrange(y * l1, y * l1 + line.len()) == line);
    assert(text.subrange(0, header.len() as int) =~= header);
    let row: int = header.len() + y * l1;
    assert(text.subrange(row, row + line.len()) =~= line);
    assert(text.subrange(row, row + lw) =~= line.subrange(0, lw as int));
    assert(text[row + lw] == line[lw as int]);
    let c: int = (lw + 1 + x * (cw + 1)) as int;
    assert(x < grid_chunk(grid, width, y).len()) by {
        assert(x * 1 < width);
    }
    assert(c + cw <= line.len()) by (nonlinear_arith)
        requires c == lw + 1 + x * (cw + 1), line.len() == lw + grid_chunk(grid, width, y).len() * (cw + 1),
            x < grid_chunk(grid, width, y).len();
    assert(text.subrange(row + c, row + c + cw) =~= line.subrange(c, c + cw));
}

/// Appends `n` spaces.
fn push_spaces(out: &mut String, n: usize)
    ensures
        final(out)@ == old(out)@ + spaces(n as nat),
{
    let mut k: usize = 0;
    let ghost start = out@;
    while k < n
        invariant
            k <= n,
            out@ == start + spaces(k as nat),
        decreases n - k,
    {
        string_push(out, ' ');
        k = k + 1;
        proof {
            assert(out@ =~= start + spaces(k as nat));
        }
    }
}

/// Appends the decimal rendering of `v`, right-aligned to `w`.
fn push_padded(out: &mut String, v: usize, w: usize)
    ensures
        final(out)@ == old(out)@ + pad_left(decimal(v as nat), w as nat),
{
    let d = usize_to_decimal(v);
    let l = d.as_str().unicode_len();
    let ghost start = out@;
    if l < w {
        push_spaces(out, w - l);
    }
    out.append(d.as_str());
    proof {
        assert(out@ =~= start + pad_left(decimal(v as nat), w as nat));
    }
}

/// The number of characters in the decimal rendering of `v`.
fn decimal_len(v: usize) -> (r: usize)
    ensures
        r == decimal(v as nat).len(),
{
    let d = usize_to_decimal(v);
    d.as_str().unicode_len()
}

/// Appends the values `grid[start..end]`, each right-aligned to `w`, separated by spaces.
fn push_cells(out: &mut String, grid: &[u16], start: usize, end: usize, w: usize)
    requires
        start <= end <= grid@.len(),
    ensures
        final(out)@ == old(out)@ + joined_cells(grid@.subrange(start as int, end as int).map_values(|v: u16| v as nat), w as nat),
{
    let ghost before = out@;
    let mut i: usize = start;
    while i < end
        invariant
            start <= i <= end,
            end <= grid@.len(),
            out@ == before + joined_cells(grid@.subrange(start as int, i as int).map_values(|v: u16| v as nat), w as nat),
        decreases end - i,
    {
        let ghost prev = grid@.subrange(start as int, i as int).map_values(|v: u16| v as nat);
        let ghost next = grid@.subrange(start as int, i + 1).map_values(|v: u16| v as nat);
        assert(next.drop_last() =~= prev);
        if i > start {
            string_push(out, ' ');
        }
        push_padded(out, grid[i] as usize, w);
        i = i + 1;
        proof {
            if i - 1 > start {
                assert(out@ =~= before + joined_cells(next, w as nat));
            } else {
                assert(prev =~= Seq::<nat>::empty());
                assert(out@ =~= before + joined_cells(next, w as nat));
            }
        }
    }
}

/// Renders `grid` laid out `width` values per line, with row and column numbers.
pub fn format_grid(grid: &[u16], width: usize) -> (r: String)
    requires
        width > 0,
    ensures
        r@ == spec_format_grid(grid@, width as nat),
{
    let n = grid.len();
    let height = n / width;
    let mut col_width: usize = 0;
    let mut i: usize = 0;
    while i < n
        invariant
            i <= n,
            n == grid@.len(),
            col_width == max_decimal_len(grid@.subrange(0, i as int)),
        decreases n - i,
    {
        let l = decimal_len(grid[i] as usize);
        assert(grid@.subrange(0, i + 1).drop_last() =~= grid@.subrange(0, i as int));
        if l > col_width {
            col_width = l;
        }
        i = i + 1;
    }
    assert(grid@.subrange(0, n as int) =~= grid@);
    if n == 0 {
        col_width = 1;
    }
    let row_label_width = decimal_len(height);

    let mut out = String::new();
    push_spaces(&mut out, row_label_width);
    string_push(&mut out, ' ');
    let ghost hstart = out@;
    let mut x: usize = 0;
    while x < width
        invariant
            x <= width,
            out@ == hstart + joined_cells(column_numbers(x as nat), col_width as nat),
        decreases width - x,
    {
        let ghost next = column_numbers((x + 1) as nat);
        assert(next.drop_last() =~= column_numbers(x as nat));
        if x > 0 {
            string_push(&mut out, ' ');
        }
        push_padded(&mut out, x, col_width);
        x = x + 1;
        proof {
            assert(out@ =~= hstart + joined_cells(next, col_width as nat));
        }
    }
    string_push(&mut out, '\n');
    let ghost body_start = out@;
    let nrows: usize = if n == 0 { 0 } else { (n - 1) / width + 1 };
    proof {
        assert(nrows == (n + width - 1) as int / (width as int)) by (nonlinear_arith)
            requires nrows == (if n == 0 { 0 } else { (n as int - 1) / (width as int) + 1 }), width > 0, n >= 0;
    }
    let mut y: usize = 0;
    let mut pos: usize = 0;
    while y < nrows
        invariant
            y <= nrows,
            n == grid@.len(),
            width > 0,
            nrows == (n + width - 1) as int / (width as int),
            y < nrows ==> pos == y * width && pos < n,
            out@ == body_start + grid_lines(grid@, width as nat, row_label_width as nat, col_width as nat, y as nat),
        decreases nrows - y,
    {
        let end = if n - pos > width { pos + width } else { n };
        proof {
            assert((y + 1) * width == pos + width) by (nonlinear_arith) requires pos == y * width;
        }
        let ghost line_start = out@;
        if y > 0 {
            string_push(&mut out, '\n');
        }
        push_padded(&mut out, y, row_label_width);
        string_push(&mut out, ' ');
        push_cells(&mut out, grid, pos, end, col_width);
        proof {
            let line = grid_line(grid@, width as nat, row_label_width as nat, col_width as nat, y as nat);
            if y > 0 {
                assert(out@ =~= line_start + seq!['\n'] + line);
            } else {
                assert(out@ =~= line_start + line);
            }
            assert(out@ =~= body_start + grid_lines(grid@, width as nat, row_label_width as nat, col_width as nat, (y + 1) as nat));
        }
        proof {
            if y + 1 < nrows {
                assert((y + 1) * width < n) by (nonlinear_arith)
                    requires y + 1 < nrows, nrows == (n + width - 1) as int / (width as int), width > 0;
            }
        }
        y = y + 1;
        pos = end;
    }
    out
}

} // verus!
