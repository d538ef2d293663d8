//! Lays a list of labels out as a near-square grid: several labels per line,
//! with the wider lines in the middle.

use vstd::prelude::*;
use vstd::slice::slice_subrange;
use crate::text::{
    join,
    joined,
    lemma_joined_holds_items,
    lemma_occurs_in_transitive,
    occurs_in,
};

verus! {

/// `r` is the integer square root of `n`, rounded down.
pub open spec fn is_floor_sqrt(n: nat, r: nat) -> bool {
    r * r <= n < (r + 1) * (r + 1)
}

/// The integer square root of `n`, rounded down.
pub open spec fn floor_sqrt(n: nat) -> nat {
    choose|r: nat| is_floor_sqrt(n, r)
}

/// Columns of a narrow row of a grid of `n` labels.
pub open spec fn base_width(n: nat) -> nat {
    floor_sqrt(n)
}

/// Number of rows of a grid of `n` labels.
pub open spec fn grid_height(n: nat) -> nat {
    if n > (base_width(n) + 1) * base_width(n) {
        base_width(n) + 1
    } else {
        base_width(n)
    }
}

/// Number of rows that hold one label more than the narrow rows.
pub open spec fn grid_extra(n: nat) -> int {
    n - base_width(n) * grid_height(n)
}

/// Index of the first wide row.
pub open spec fn extra_start(n: nat) -> int {
    (grid_height(n) - grid_extra(n)) / 2
}

/// Index just past the last wide row.
pub open spec fn extra_end(n: nat) -> int {
    extra_start(n) + grid_extra(n)
}

/// Number of labels in row `r` of a grid of `n` labels.
pub open spec fn row_width(n: nat, r: int) -> int {
    if extra_start(n) <= r < extra_end(n) {
        base_width(n) as int + 1
    } else {
        base_width(n) as int
    }
}

/// Index of the first label of row `r`: the widths of all rows above it.
pub open spec fn row_start(n: nat, r: int) -> int
    decreases r,
{
    if r <= 0 {
        0
    } else {
        row_start(n, r - 1) + row_width(n, r - 1)
    }
}

/// The labels of row `r`.
pub open spec fn grid_row(labels: Seq<Seq<char>>, r: int) -> Seq<Seq<char>> {
    labels.subrange(row_start(labels.len(), r), row_start(labels.len(), r + 1))
}

/// The rows of the grid, top to bottom.
pub open spec fn grid_rows(labels: Seq<Seq<char>>) -> Seq<Seq<Seq<char>>> {
    Seq::new(grid_height(labels.len()), |r: int| grid_row(labels, r))
}

/// Each row rendered as one line, its labels separated by a comma and a space.
pub open spec fn grid_lines(labels: Seq<Seq<char>>) -> Seq<Seq<char>> {
    Seq::new(grid_height(labels.len()), |r: int| joined(grid_row(labels, r), ", "@))
}

/// The whole grid as text: the lines separated by a line break.
pub open spec fn label_grid(labels: Seq<Seq<char>>) -> Seq<char> {
    joined(grid_lines(labels), "\n"@)
}

/// The rounded-down square root is unique, so any `r` that fits is it.
pub proof fn lemma_floor_sqrt_unique(n: nat, r: nat)
    requires
        is_floor_sqrt(n, r),
    ensures
        floor_sqrt(n) == r,
{
    let s = floor_sqrt(n);
    assert(is_floor_sqrt(n, s));
    assert(s == r) by (nonlinear_arith)
        requires
            s * s <= n < (s + 1) * (s + 1),
            r * r <= n < (r + 1) * (r + 1),
    {
        if s < r {
            assert((s + 1) * (s + 1) <= r * r);
        } else if r < s {
            assert((r + 1) * (r + 1) <= s * s);
        }
    }
}

/// Every `n` has a rounded-down square root.
pub proof fn lemma_floor_sqrt_exists(n: nat)
    ensures
        is_floor_sqrt(n, floor_sqrt(n)),
    decreases n,
{
    if n == 0 {
        assert(0nat * 0nat <= 0 < (0nat + 1) * (0nat + 1)) by (nonlinear_arith);
        assert(is_floor_sqrt(0, 0));
    } else {
        lemma_floor_sqrt_exists((n - 1) as nat);
        let p = floor_sqrt((n - 1) as nat);
        if (p + 1) * (p + 1) <= n {
            let q = p + 1;
            assert(q * q <= n < (q + 1) * (q + 1)) by (nonlinear_arith)
                requires
                    p * p <= n - 1 < (p + 1) * (p + 1),
                    (p + 1) * (p + 1) <= n,
                    q == p + 1,
            {
            }
            assert(is_floor_sqrt(n, q));
        } else {
            assert(is_floor_sqrt(n, p));
        }
    }
}

/// The number of wide rows lies between zero and the number of rows, and the
/// grid has a row as soon as there is a label.
pub proof fn lemma_grid_extra_bounds(n: nat)
    ensures
        0 <= grid_extra(n) <= grid_height(n),
        0 <= extra_start(n) <= extra_end(n) <= grid_height(n),
        n >= 1 ==> grid_height(n) >= 1,
        base_width(n) <= grid_height(n) <= base_width(n) + 1,
{
    lemma_floor_sqrt_exists(n);
    let b = base_width(n);
    let h = grid_height(n);
    assert(0 <= n - b * h <= h && (n >= 1 ==> h >= 1)) by (nonlinear_arith)
        requires
            b * b <= n < (b + 1) * (b + 1),
            h == if n > (b + 1) * b { b + 1 } else { b },
    {
    }
}

/// The first `r` rows hold `r` narrow rows' worth of labels plus one for each
/// wide row among them.
pub proof fn lemma_row_start(n: nat, r: int)
    requires
        0 <= r,
    ensures
        row_start(n, r) == r * base_width(n) + if r <= extra_start(n) {
            0
        } else if r <= extra_end(n) {
            r - extra_start(n)
        } else {
            grid_extra(n)
        },
    decreases r,
{
    lemma_grid_extra_bounds(n);
    if r > 0 {
        lemma_row_start(n, r - 1);
        let b = base_width(n) as int;
        assert(r * b == (r - 1) * b + b) by (nonlinear_arith);
    } else {
        assert(r * base_width(n) == 0) by (nonlinear_arith)
            requires
                r == 0,
        {
        }
    }
}

/// The shape of the grid, for any number of labels: every row holds
/// `base_width` or `base_width + 1` labels, the rows with one more are
/// exactly those from `extra_start` up to `extra_end`, which lie inside
/// the grid and are as many as `grid_extra` says, each row starts where
/// the one above it ends, and all rows together hold exactly the `n` labels.
pub proof fn lemma_grid_shape(n: nat)
    ensures
        forall|r: int|
            0 <= r < grid_height(n) ==> #[trigger] row_width(n, r) == base_width(n) || row_width(
                n,
                r,
            ) == base_width(n) + 1,
        forall|r: int|
            0 <= r < grid_height(n) ==> (#[trigger] row_width(n, r) == base_width(n) + 1 <==> (
            extra_start(n) <= r < extra_end(n))),
        0 <= extra_start(n) <= extra_end(n) <= grid_height(n),
        extra_end(n) - extra_start(n) == grid_extra(n),
        forall|r: int|
            0 <= r < grid_height(n) ==> #[trigger] row_start(n, r + 1) == row_start(n, r)
                + row_width(n, r),
        row_start(n, 0) == 0,
        row_start(n, grid_height(n) as int) == n,
{
    lemma_grid_extra_bounds(n);
    lemma_row_start(n, grid_height(n) as int);
    let b = base_width(n);
    let h = grid_height(n);
    assert(h * b == b * h) by (nonlinear_arith);
}

/// The wide rows sit in the middle: the narrow rows above them and below
/// them differ in number by at most one.
pub proof fn lemma_grid_centered(n: nat)
    ensures
        extra_start(n) <= grid_height(n) - extra_end(n) <= extra_start(n) + 1,
{
    lemma_grid_extra_bounds(n);
}

/// The rows of a grid hold the labels in their order: row `r` has
/// `row_width` labels, and its label in column `c` is the label at
/// `row_start + c`.
pub proof fn lemma_grid_rows(labels: Seq<Seq<char>>, r: int)
    requires
        0 <= r < grid_height(labels.len()),
    ensures
        grid_rows(labels).len() == grid_height(labels.len()),
        grid_rows(labels)[r].len() == row_width(labels.len(), r),
        forall|c: int|
            0 <= c < row_width(labels.len(), r) ==> #[trigger] grid_rows(labels)[r][c]
                == labels[row_start(labels.len(), r) + c],
        grid_lines(labels)[r] == joined(grid_rows(labels)[r], ", "@),
{
    let n = labels.len();
    lemma_grid_shape(n);
    lemma_grid_extra_bounds(n);
    lemma_row_start_monotonic(n, 0, r);
    lemma_row_start_monotonic(n, r + 1, grid_height(n) as int);
    assert(row_start(n, r + 1) == row_start(n, r) + row_width(n, r));
}

/// Every label has its row: below the top `upto` rows' end, a label index
/// lies in one of those rows.
proof fn lemma_row_below(n: nat, k: int, upto: int) -> (r: int)
    requires
        0 <= k < row_start(n, upto),
        0 <= upto,
    ensures
        0 <= r < upto,
        row_start(n, r) <= k < row_start(n, r + 1),
    decreases upto,
{
    if row_start(n, upto - 1) <= k {
        upto - 1
    } else {
        lemma_row_below(n, k, upto - 1)
    }
}

/// Every label stands in the text of the grid.
pub proof fn lemma_grid_holds_labels(labels: Seq<Seq<char>>, k: int)
    requires
        0 <= k < labels.len(),
    ensures
        occurs_in(labels[k], label_grid(labels)),
{
    let n = labels.len();
    lemma_grid_shape(n);
    let r = lemma_row_below(n, k, grid_height(n) as int);
    lemma_grid_rows(labels, r);
    let c = k - row_start(n, r);
    let row = grid_row(labels, r);
    assert(row == grid_rows(labels)[r]);
    assert(row[c] == labels[k]);
    lemma_joined_holds_items(row, ", "@, c);
    lemma_joined_holds_items(grid_lines(labels), "\n"@, r);
    lemma_occurs_in_transitive(labels[k], grid_lines(labels)[r], label_grid(labels));
}

/// Computes the rounded-down square root of `n`.
pub fn floor_sqrt_of(n: usize) -> (r: usize)
    ensures
        r == floor_sqrt(n as nat),
{
    let mut r: usize = 0;
    loop
        invariant
            r * r <= n,
        ensures
            r * r <= n < (r + 1) * (r + 1),
        decreases n - r * r,
    {
        assert(r < 0x1_0000_0000) by (nonlinear_arith)
            requires
                r * r <= n,
                n <= 0xffff_ffff_ffff_ffff,
        {
        }
        let next: u128 = r as u128 + 1;
        assert(next * next <= 0x1_0000_0000_0000_0000) by (nonlinear_arith)
            requires
                next <= 0x1_0000_0000,
        {
        }
        if next * next > n as u128 {
            break ;
        }
        assert((r + 1) * (r + 1) > r * r) by (nonlinear_arith);
        assert(r + 1 <= n) by (nonlinear_arith)
            requires
                (r + 1) * (r + 1) <= n,
        {
        }
        r = r + 1;
    }
    proof {
        lemma_floor_sqrt_unique(n as nat, r as nat);
    }
    r
}

/// Arranges `labels` into a near-square grid and returns it as text.
///
/// Labels keep their order and fill the rows from the top; a row's labels
/// are separated by `", "`, the rows by a line break. No labels give the
/// empty text.
pub fn format_label_grid(labels: &Vec<String>) -> (text: String)
    ensures
        text@ == label_grid(labels.deep_view()),
{
    let n = labels.len();
    let base = floor_sqrt_of(n);
    proof {
        lemma_floor_sqrt_exists(n as nat);
        lemma_grid_extra_bounds(n as nat);
        lemma_grid_shape(n as nat);
    }
    let ghost views = labels.deep_view();
    assert(base * base <= n);
    let tall = base < n && n - base > base * base;
    assert(tall == (n > (base + 1) * base)) by (nonlinear_arith)
        requires
            tall == (base < n && n - base > base * base),
            base * base <= n,
    {
    }
    let height: usize = if tall {
        base + 1
    } else {
        base
    };
    assert(height == grid_height(n as nat));
    assert(base * height <= n) by {
        assert(base_width(n as nat) * grid_height(n as nat) == base * height);
    }
    let extra: usize = n - base * height;
    let start: usize = (height - extra) / 2;
    let end: usize = start + extra;
    assert(base < usize::MAX) by (nonlinear_arith)
        requires
            base * base <= n,
            n <= usize::MAX,
            usize::MAX >= 0xffff_ffff,
    {
    }
    assert(start == extra_start(n as nat));
    assert(end == extra_end(n as nat));
    let mut lines: Vec<String> = Vec::new();
    let mut pos: usize = 0;
    let mut row: usize = 0;
    while row < height
        invariant
            views == labels.deep_view(),
            views.len() == n,
            n == labels.len(),
            base == base_width(n as nat),
            height == grid_height(n as nat),
            start == extra_start(n as nat),
            end == extra_end(n as nat),
            0 <= row <= height,
            base < usize::MAX,
            pos == row_start(n as nat, row as int),
            row_start(n as nat, height as int) == n,
            forall|r: int|
                0 <= r < grid_height(n as nat) ==> #[trigger] row_start(n as nat, r + 1)
                    == row_start(n as nat, r) + row_width(n as nat, r),
            forall|r: int|
                0 <= r < grid_height(n as nat) ==> #[trigger] row_width(n as nat, r) >= 0,
            lines.deep_view() =~= Seq::new(
                row as nat,
                |r: int| joined(grid_row(views, r), ", "@),
            ),
        decreases height - row,
    {
        let width: usize = if start <= row && row < end {
            base + 1
        } else {
            base
        };
        proof {
            assert(width == row_width(n as nat, row as int));
            assert(row_start(n as nat, row + 1) == pos + width);
            lemma_row_start_monotonic(n as nat, row + 1, height as int);
        }
        let cells = slice_subrange(labels.as_slice(), pos, pos + width);
        let line = join(cells, ", ");
        let ghost above = lines.deep_view();
        lines.push(line);
        proof {
            assert(cells.deep_view() =~= grid_row(views, row as int));
            assert(lines.deep_view() =~= above.push(line@));
        }
        pos = pos + width;
        row = row + 1;
    }
    assert(lines.deep_view() =~= grid_lines(views));
    join(lines.as_slice(), "\n")
}

/// Rows further down start no earlier.
pub proof fn lemma_row_start_monotonic(n: nat, r: int, s: int)
    requires
        0 <= r <= s,
    ensures
        row_start(n, r) <= row_start(n, s),
    decreases s - r,
{
    lemma_grid_extra_bounds(n);
    if r < s {
        lemma_row_start_monotonic(n, r, s - 1);
    }
}

} // verus!
