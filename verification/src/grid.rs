//! The program grid: a fixed 256 x 256 row-major array of byte cells, built
//! once from source text. Each source line becomes one row, padded with zero
//! cells on the right; unused rows are all zero. Because rows and columns both
//! number exactly 256 and coordinates are bytes, every byte pair addresses a
//! cell in range.

use vstd::prelude::*;
use crate::errors::LoadError;

verus! {

/// The deep view of an executable grid: one byte sequence per row.
pub open spec fn grid_view(g: Seq<Vec<u8>>) -> Seq<Seq<u8>> {
    g.map_values(|row: Vec<u8>| row@)
}

/// A well-formed grid has exactly 256 rows of exactly 256 cells each.
pub open spec fn grid_wf(g: Seq<Seq<u8>>) -> bool {
    &&& g.len() == 256
    &&& forall|i: int| 0 <= i < 256 ==> (#[trigger] g[i]).len() == 256
}

/// The cell stored at row `line`, column `col`. Byte coordinates are always
/// in range of a well-formed grid.
pub open spec fn cell(g: Seq<Seq<u8>>, line: u8, col: u8) -> u8 {
    g[line as int][col as int]
}

/// The grid with `v` stored at row `line`, column `col`.
pub open spec fn grid_write(g: Seq<Seq<u8>>, line: u8, col: u8, v: u8) -> Seq<Seq<u8>> {
    g.update(line as int, g[line as int].update(col as int, v))
}

/// True of every byte in the 0..=127 range.
pub open spec fn all_ascii(s: Seq<u8>) -> bool {
    forall|i: int| 0 <= i < s.len() ==> s[i] < 128
}

/// The number of leading bytes of `s` before the first newline; the length of
/// `s` when it holds no newline.
pub open spec fn first_line_len(s: Seq<u8>) -> int
    decreases s.len(),
{
    if s.len() == 0 {
        0
    } else if s[0] == 10 {
        0
    } else {
        1 + first_line_len(s.drop_first())
    }
}

/// The lines of `s`, split on newline bytes. The newline is a separator: a
/// source of n newlines has n + 1 lines, and the empty source has one empty
/// line.
pub open spec fn split_lines(s: Seq<u8>) -> Seq<Seq<u8>>
    decreases s.len(),
    via split_lines_decreases
{
    let n = first_line_len(s);
    if n == s.len() {
        seq![s]
    } else {
        seq![s.take(n)] + split_lines(s.skip(n + 1))
    }
}

#[via_fn]
proof fn split_lines_decreases(s: Seq<u8>) {
    lemma_first_line_len(s);
}

/// A source the loader accepts: ASCII only, at most 256 lines, none wider
/// than 256 characters.
pub open spec fn loadable(s: Seq<u8>) -> bool {
    &&& all_ascii(s)
    &&& split_lines(s).len() <= 256
    &&& forall|i: int|
        0 <= i < split_lines(s).len() ==> (#[trigger] split_lines(s)[i]).len() <= 256
}

/// One source line extended with zero cells to a full 256-cell row.
pub open spec fn padded_row(line: Seq<u8>) -> Seq<u8> {
    Seq::new(256, |j: int| if j < line.len() { line[j] } else { 0u8 })
}

/// The grid a loadable source builds: its lines as the leading rows, all
/// remaining rows zero.
pub open spec fn grid_of(s: Seq<u8>) -> Seq<Seq<u8>> {
    Seq::new(
        256,
        |i: int|
            if i < split_lines(s).len() {
                padded_row(split_lines(s)[i])
            } else {
                padded_row(Seq::empty())
            },
    )
}

/// First line length of `s` is the position of the first newline: no newline
/// precedes it, and it is a newline unless it is the end of `s`.
pub proof fn lemma_first_line_len(s: Seq<u8>)
    ensures
        0 <= first_line_len(s) <= s.len(),
        forall|k: int| 0 <= k < first_line_len(s) ==> s[k] != 10,
        first_line_len(s) < s.len() ==> s[first_line_len(s)] == 10,
    decreases s.len(),
{
    if s.len() == 0 {
    } else if s[0] == 10 {
    } else {
        lemma_first_line_len(s.drop_first());
        assert forall|k: int| 0 <= k < first_line_len(s) implies s[k] != 10 by {
            if k > 0 {
                assert(s.drop_first()[k - 1] != 10);
            }
        }
    }
}

/// Splitting the tail of `s` that starts at `pos` peels off one line: the
/// newline-free segment from `pos` to `end`.
proof fn lemma_split_step(s: Seq<u8>, pos: int, end: int)
    requires
        0 <= pos <= end <= s.len(),
        forall|k: int| pos <= k < end ==> s[k] != 10,
        end < s.len() ==> s[end] == 10,
    ensures
        end == s.len() ==> split_lines(s.skip(pos)) == seq![s.subrange(pos, end)],
        end < s.len() ==> split_lines(s.skip(pos)) == seq![s.subrange(pos, end)]
            + split_lines(s.skip(end + 1)),
{
    let t = s.skip(pos);
    assert forall|k: int| 0 <= k < end - pos implies t[k] != 10 by {
        assert(t[k] == s[k + pos]);
    }
    if end < s.len() {
        assert(t[end - pos] == s[end]);
    }
    lemma_first_line_len_is(t, end - pos);
    if end == s.len() {
        assert(t =~= s.subrange(pos, end));
        assert(split_lines(t) == seq![t]);
    } else {
        assert(t.take(end - pos) =~= s.subrange(pos, end));
        assert(t.skip(end - pos + 1) =~= s.skip(end + 1));
    }
}

/// A segment with no newline, ending at a newline or at the end of `s`, is
/// exactly the first line.
pub proof fn lemma_first_line_len_is(s: Seq<u8>, n: int)
    requires
        0 <= n <= s.len(),
        forall|k: int| 0 <= k < n ==> s[k] != 10,
        n < s.len() ==> s[n] == 10,
    ensures
        first_line_len(s) == n,
    decreases s.len(),
{
    if s.len() == 0 {
    } else if s[0] == 10 {
        assert(n == 0);
    } else {
        assert(n > 0);
        let t = s.drop_first();
        assert(forall|k: int| 0 <= k < n - 1 ==> #[trigger] t[k] == s[k + 1]);
        lemma_first_line_len_is(t, n - 1);
    }
}

/// `row` without its trailing zero cells.
pub open spec fn trim_zeros(row: Seq<u8>) -> Seq<u8>
    decreases row.len(),
{
    if row.len() > 0 && row.last() == 0 {
        trim_zeros(row.drop_last())
    } else {
        row
    }
}

/// The number of leading rows of `g` up to and including the last row that
/// is not all zero.
pub open spec fn row_count(g: Seq<Seq<u8>>) -> int
    decreases g.len(),
{
    if g.len() == 0 {
        0
    } else if trim_zeros(g.last()).len() > 0 {
        g.len() as int
    } else {
        row_count(g.drop_last())
    }
}

/// The given lines joined with newline separators.
pub open spec fn join_lines(ls: Seq<Seq<u8>>) -> Seq<u8>
    decreases ls.len(),
{
    if ls.len() == 0 {
        Seq::empty()
    } else if ls.len() == 1 {
        ls[0]
    } else {
        ls[0] + seq![10u8] + join_lines(ls.drop_first())
    }
}

/// The first `m` rows of `g`, each without its trailing zero cells.
pub open spec fn trimmed_rows(g: Seq<Seq<u8>>, m: int) -> Seq<Seq<u8>> {
    Seq::new(m as nat, |i: int| trim_zeros(g[i]))
}

/// The source text a grid prints as: every row up to the last one holding a
/// nonzero cell, each with its trailing zero padding dropped, joined with
/// newlines.
pub open spec fn serialized(g: Seq<Seq<u8>>) -> Seq<u8> {
    join_lines(trimmed_rows(g, row_count(g)))
}

/// Appending one more line to a join appends a newline separator and the
/// line, except onto an empty join.
proof fn lemma_join_push(ls: Seq<Seq<u8>>, x: Seq<u8>)
    ensures
        join_lines(ls.push(x)) == if ls.len() == 0 {
            x
        } else {
            join_lines(ls) + seq![10u8] + x
        },
    decreases ls.len(),
{
    if ls.len() == 0 {
        assert(ls.push(x)[0] == x);
    } else if ls.len() == 1 {
        assert(ls.push(x)[0] == ls[0]);
        assert(ls.push(x).drop_first() =~= seq![x]);
        assert(join_lines(seq![x]) == x);
    } else {
        assert(ls.push(x)[0] == ls[0]);
        assert(ls.push(x).drop_first() =~= ls.drop_first().push(x));
        lemma_join_push(ls.drop_first(), x);
        assert((ls[0] + seq![10u8] + (join_lines(ls.drop_first()) + seq![10u8] + x)) =~= ((ls[0]
            + seq![10u8] + join_lines(ls.drop_first())) + seq![10u8] + x));
    }
}

/// Joining the lines of a split reproduces the text: splitting loses
/// nothing.
pub proof fn lemma_join_split(s: Seq<u8>)
    ensures
        join_lines(split_lines(s)) == s,
    decreases s.len(),
{
    lemma_first_line_len(s);
    let nl = first_line_len(s);
    if nl == s.len() {
    } else {
        lemma_join_split(s.skip(nl + 1));
        let rest = split_lines(s.skip(nl + 1));
        let ls = seq![s.take(nl)] + rest;
        assert(ls[0] == s.take(nl));
        assert(ls.drop_first() =~= rest);
        assert(s.take(nl) + seq![10u8] + s.skip(nl + 1) =~= s);
    }
}

/// Trimming a row that is a line padded with zeros recovers the line, as
/// long as the line itself does not end in a zero cell.
proof fn lemma_trim_padded_aux(line: Seq<u8>, j: int)
    requires
        line.len() <= j <= 256,
    ensures
        trim_zeros(padded_row(line).take(j)) == trim_zeros(line),
    decreases j - line.len(),
{
    if j == line.len() {
        assert(padded_row(line).take(j) =~= line);
    } else {
        assert(padded_row(line).take(j).last() == 0);
        assert(padded_row(line).take(j).drop_last() =~= padded_row(line).take(j - 1));
        lemma_trim_padded_aux(line, j - 1);
    }
}

/// A padded row trims back to its line when the line does not end in zero.
proof fn lemma_trim_padded(line: Seq<u8>)
    requires
        line.len() <= 256,
        line.len() > 0 ==> line.last() != 0,
    ensures
        trim_zeros(padded_row(line)) == line,
{
    lemma_trim_padded_aux(line, 256);
    assert(padded_row(line).take(256) =~= padded_row(line));
}

/// The row count of a grid whose rows from `m` on are all zero, and whose
/// row `m - 1` (if any) is not, is exactly `m`.
proof fn lemma_row_count_is(g: Seq<Seq<u8>>, m: int)
    requires
        0 <= m <= g.len(),
        forall|i: int| m <= i < g.len() ==> trim_zeros(#[trigger] g[i]).len() == 0,
        m > 0 ==> trim_zeros(g[m - 1]).len() > 0,
    ensures
        row_count(g) == m,
    decreases g.len(),
{
    if g.len() == 0 {
    } else if trim_zeros(g.last()).len() > 0 {
        assert(m == g.len());
    } else {
        assert(m < g.len());
        let t = g.drop_last();
        assert forall|i: int| m <= i < t.len() implies trim_zeros(#[trigger] t[i]).len() == 0 by {
            assert(t[i] == g[i]);
        }
        if m > 0 {
            assert(t[m - 1] == g[m - 1]);
        }
        lemma_row_count_is(t, m);
    }
}

/// The length of a row's content before its trailing zero cells.
fn trimmed_row_len(row: &Vec<u8>) -> (l: usize)
    ensures
        trim_zeros(row@) == row@.take(l as int),
        l <= row@.len(),
{
    let mut l = row.len();
    proof {
        assert(row@.take(l as int) =~= row@);
    }
    while l > 0 && row[l - 1] == 0
        invariant
            l <= row@.len(),
            trim_zeros(row@) == trim_zeros(row@.take(l as int)),
        decreases l,
    {
        proof {
            assert(row@.take(l as int).drop_last() =~= row@.take(l - 1 as int));
        }
        l -= 1;
    }
    proof {
        assert(trim_zeros(row@.take(l as int)) == row@.take(l as int));
    }
    l
}

/// Prints a grid back as source text: rows up to the last one holding a
/// nonzero cell, each with its trailing zero padding dropped, joined with
/// newlines.
pub fn serialize_program(g: &Vec<Vec<u8>>) -> (r: Vec<u8>)
    requires
        grid_wf(grid_view(g@)),
    ensures
        r@ == serialized(grid_view(g@)),
{
    let ghost gv = grid_view(g@);
    let mut k = g.len();
    proof {
        assert(gv.take(k as int) =~= gv);
    }
    while k > 0 && trimmed_row_len(&g[k - 1]) == 0
        invariant
            k <= g@.len(),
            gv == grid_view(g@),
            grid_wf(gv),
            row_count(gv) == row_count(gv.take(k as int)),
        decreases k,
    {
        proof {
            assert(gv.take(k as int).last() == gv[k - 1]);
            assert(gv.take(k as int).drop_last() =~= gv.take(k - 1 as int));
        }
        k -= 1;
    }
    proof {
        if k > 0 {
            assert(gv.take(k as int).last() == gv[k - 1]);
        }
        assert(row_count(gv) == k);
    }

    let ghost ls = trimmed_rows(gv, k as int);
    let mut text: Vec<u8> = Vec::new();
    let mut i: usize = 0;
    while i < k
        invariant
            i <= k <= g@.len(),
            gv == grid_view(g@),
            grid_wf(gv),
            ls == trimmed_rows(gv, k as int),
            text@ == join_lines(ls.take(i as int)),
        decreases k - i,
    {
        if i > 0 {
            text.push(10);
        }
        let ghost prev = text@;
        let row = &g[i];
        let tl = trimmed_row_len(row);
        let mut j: usize = 0;
        while j < tl
            invariant
                j <= tl <= row@.len(),
                text@ == prev + row@.take(j as int),
            decreases tl - j,
        {
            let b: u8 = row[j];
            text.push(b);
            proof {
                assert(prev + row@.take(j + 1 as int) =~= (prev + row@.take(j as int)).push(
                    row@[j as int],
                ));
            }
            j += 1;
        }
        proof {
            assert(text@ == prev + trim_zeros(gv[i as int]));
            assert(ls.take(i + 1 as int) =~= ls.take(i as int).push(ls[i as int]));
            lemma_join_push(ls.take(i as int), ls[i as int]);
            if i == 0 {
                assert(prev =~= join_lines(ls.take(0)));
                assert(prev + trim_zeros(gv[0]) =~= trim_zeros(gv[0]));
            } else {
                assert(prev =~= join_lines(ls.take(i as int)) + seq![10u8]);
                assert(prev + trim_zeros(gv[i as int]) =~= join_lines(ls.take(i as int))
                    + seq![10u8] + trim_zeros(gv[i as int]));
            }
        }
        i += 1;
    }
    proof {
        assert(ls.take(k as int) =~= ls);
    }
    text
}

/// Loading a source and printing the grid back reproduces the source. This
/// holds of every loadable source that the printed form can express: none of
/// its lines ends in a zero character, and its last line is nonempty (a
/// trailing newline or trailing zero characters are dropped by the trimming
/// and cannot be reproduced).
pub proof fn lemma_load_serialize_roundtrip(s: Seq<u8>)
    requires
        loadable(s),
        forall|i: int|
            0 <= i < split_lines(s).len() ==> ((#[trigger] split_lines(s)[i]).len() > 0
                ==> split_lines(s)[i].last() != 0),
        s.len() == 0 || split_lines(s).last().len() > 0,
    ensures
        serialized(grid_of(s)) == s,
{
    let ls = split_lines(s);
    let g = grid_of(s);
    let m = ls.len() as int;
    if s.len() == 0 {
        assert(first_line_len(s) == 0);
        assert(ls == seq![s]);
        assert forall|i: int| 0 <= i < g.len() implies trim_zeros(#[trigger] g[i]).len() == 0 by {
            if i < ls.len() {
                lemma_trim_padded(ls[i]);
            } else {
                lemma_trim_padded(Seq::empty());
            }
        }
        lemma_row_count_is(g, 0);
        assert(trimmed_rows(g, 0) =~= Seq::<Seq<u8>>::empty());
        assert(serialized(g) =~= s);
    } else {
        assert forall|i: int| 0 <= i < m implies trim_zeros(#[trigger] g[i]) == ls[i] by {
            lemma_trim_padded(ls[i]);
        }
        assert forall|i: int| m <= i < g.len() implies trim_zeros(#[trigger] g[i]).len() == 0 by {
            lemma_trim_padded(Seq::empty());
        }
        assert(trim_zeros(g[m - 1]).len() > 0);
        lemma_row_count_is(g, m);
        assert(trimmed_rows(g, m) =~= ls);
        lemma_join_split(s);
    }
}

/// Builds the program grid from source text. Lines map to rows in order,
/// padded on the right with zero cells; rows past the last line are all
/// zero. Rejects non-ASCII bytes, more than 256 lines, and lines wider than
/// 256 characters, in that order of checks, before anything executes.
pub fn parse_program(source: &[u8]) -> (r: Result<Vec<Vec<u8>>, LoadError>)
    ensures
        match r {
            Ok(g) => {
                &&& loadable(source@)
                &&& grid_view(g@) == grid_of(source@)
                &&& grid_wf(grid_view(g@))
            },
            Err(e) => match e {
                LoadError::SourceNotAscii => !all_ascii(source@),
                LoadError::SourceTooTall => all_ascii(source@) && split_lines(source@).len() > 256,
                LoadError::SourceTooWide(w) => {
                    &&& all_ascii(source@)
                    &&& split_lines(source@).len() <= 256
                    &&& 0 <= w < split_lines(source@).len()
                    &&& split_lines(source@)[w as int].len() > 256
                    &&& forall|j: int|
                        0 <= j < w ==> (#[trigger] split_lines(source@)[j]).len() <= 256
                },
            },
        },
{
    let n = source.len();

    let mut i: usize = 0;
    while i < n
        invariant
            0 <= i <= n,
            n == source@.len(),
            forall|k: int| 0 <= k < i ==> source@[k] < 128,
        decreases n - i,
    {
        if source[i] >= 128 {
            return Err(LoadError::SourceNotAscii);
        }
        i += 1;
    }

    let mut lines: Vec<Vec<u8>> = Vec::new();
    let mut pos: usize = 0;
    proof {
        assert(source@.skip(0) =~= source@);
        assert(grid_view(lines@) + split_lines(source@) =~= split_lines(source@));
    }
    loop
        invariant_except_break
            0 <= pos <= n,
            n == source@.len(),
            all_ascii(source@),
            grid_view(lines@) + split_lines(source@.skip(pos as int)) == split_lines(source@),
        ensures
            all_ascii(source@),
            n == source@.len(),
            grid_view(lines@) == split_lines(source@),
        decreases n - pos,
    {
        let mut end = pos;
        while end < n && source[end] != 10
            invariant
                pos <= end <= n,
                n == source@.len(),
                forall|k: int| pos <= k < end ==> source@[k] != 10,
            decreases n - end,
        {
            end += 1;
        }

        let mut row: Vec<u8> = Vec::new();
        let mut j = pos;
        while j < end
            invariant
                pos <= j <= end <= n,
                n == source@.len(),
                row@ == source@.subrange(pos as int, j as int),
            decreases end - j,
        {
            let b = source[j];
            row.push(b);
            proof {
                assert(source@.subrange(pos as int, j + 1 as int) =~= source@.subrange(
                    pos as int,
                    j as int,
                ).push(source@[j as int]));
            }
            j += 1;
        }

        proof {
            lemma_split_step(source@, pos as int, end as int);
        }
        let done = end == n;
        let ghost old_lines = lines@;
        lines.push(row);
        proof {
            assert(grid_view(lines@) =~= grid_view(old_lines).push(row@));
            if done {
                assert(grid_view(lines@) =~= grid_view(old_lines) + split_lines(
                    source@.skip(pos as int),
                ));
            } else {
                assert(grid_view(lines@) + split_lines(source@.skip(end + 1 as int))
                    =~= grid_view(old_lines) + split_lines(source@.skip(pos as int)));
            }
        }
        if done {
            break;
        }
        pos = end + 1;
    }

    if lines.len() > 256 {
        return Err(LoadError::SourceTooTall);
    }

    let line_count = lines.len();
    let mut w: usize = 0;
    while w < line_count
        invariant
            0 <= w <= line_count,
            line_count == lines@.len(),
            all_ascii(source@),
            grid_view(lines@) == split_lines(source@),
            line_count <= 256,
            forall|j: int| 0 <= j < w ==> (#[trigger] split_lines(source@)[j]).len() <= 256,
        decreases line_count - w,
    {
        if lines[w].len() > 256 {
            return Err(LoadError::SourceTooWide(w));
        }
        proof {
            assert(split_lines(source@)[w as int] == grid_view(lines@)[w as int]);
        }
        w += 1;
    }

    let mut grid: Vec<Vec<u8>> = Vec::new();
    let mut t: usize = 0;
    while t < 256
        invariant
            0 <= t <= 256,
            grid@.len() == t,
            line_count == lines@.len(),
            line_count <= 256,
            all_ascii(source@),
            grid_view(lines@) == split_lines(source@),
            forall|j: int| 0 <= j < line_count ==> (#[trigger] split_lines(source@)[j]).len() <= 256,
            forall|j: int| 0 <= j < t ==> #[trigger] grid_view(grid@)[j] == grid_of(source@)[j],
        decreases 256 - t,
    {
        let ghost target: Seq<u8> = if t < line_count {
            split_lines(source@)[t as int]
        } else {
            Seq::empty()
        };
        let mut row: Vec<u8> = Vec::new();
        if t < line_count {
            let src_row = &lines[t];
            let len = src_row.len();
            let mut j: usize = 0;
            while j < len
                invariant
                    0 <= j <= len,
                    len == src_row@.len(),
                    row@ == src_row@.take(j as int),
                decreases len - j,
            {
                let b = src_row[j];
                row.push(b);
                proof {
                    assert(src_row@.take(j + 1 as int) =~= src_row@.take(j as int).push(
                        src_row@[j as int],
                    ));
                }
                j += 1;
            }
            proof {
                assert(row@ =~= target);
            }
        }
        proof {
            assert(target.len() <= 256);
            assert(row@ =~= padded_row(target).take(row@.len() as int));
        }
        while row.len() < 256
            invariant
                target.len() <= row@.len() <= 256,
                row@ == padded_row(target).take(row@.len() as int),
            decreases 256 - row@.len(),
        {
            row.push(0);
            proof {
                assert(row@ =~= padded_row(target).take(row@.len() as int));
            }
        }
        proof {
            assert(row@ =~= padded_row(target));
        }
        let ghost old_grid = grid@;
        grid.push(row);
        proof {
            assert(grid_view(grid@) =~= grid_view(old_grid).push(row@));
            assert(grid_of(source@)[t as int] == padded_row(target));
        }
        t += 1;
    }

    proof {
        assert(grid_view(grid@) =~= grid_of(source@));
    }
    Ok(grid)
}

} // verus!
