//! Shaping a partial maze description into the full canonical grid text.
use vstd::prelude::*;

verus! {

/// Side length of the maze, in cells.
pub const N: usize = 32;

/// Number of text rows of a full grid: a wall row above every cell row, and
/// one closing wall row.
pub const GRID_ROWS: usize = 65;

/// The text cut after each newline: every piece but the last ends with its
/// newline, and no piece is empty.
pub open spec fn pieces(s: Seq<char>) -> Seq<Seq<char>>
    decreases s.len(),
{
    if s.len() == 0 {
        Seq::empty()
    } else {
        let p = pieces(s.drop_last());
        if p.len() > 0 && p.last().last() != '\n' {
            p.update(p.len() - 1, p.last().push(s.last()))
        } else {
            p.push(seq![s.last()])
        }
    }
}

/// A piece without its line ending: a newline, or a carriage return
/// followed by a newline.
pub open spec fn without_ending(l: Seq<char>) -> Seq<char> {
    if l.len() > 0 && l.last() == '\n' {
        let l = l.drop_last();
        if l.len() > 0 && l.last() == '\r' {
            l.drop_last()
        } else {
            l
        }
    } else {
        l
    }
}

/// The lines of a text, as `str::lines` splits it.
pub open spec fn lines_of(s: Seq<char>) -> Seq<Seq<char>> {
    pieces(s).map_values(|l: Seq<char>| without_ending(l))
}

/// `s` written `n` times in a row.
pub open spec fn repeat(s: Seq<char>, n: int) -> Seq<char>
    decreases n,
{
    if n <= 0 {
        Seq::empty()
    } else {
        repeat(s, n - 1) + s
    }
}

pub open spec fn newline() -> Seq<char> {
    seq!['\n']
}

/// A wall row with every wall present: `+---+---...+`.
pub open spec fn default_wall_row() -> Seq<char> {
    repeat(seq!['+', '-', '-', '-'], N as int) + seq!['+'] + newline()
}

/// A cell row with every wall present: `|   |   ...|`.
pub open spec fn default_cell_row() -> Seq<char> {
    repeat(seq!['|', ' ', ' ', ' '], N as int) + seq!['|'] + newline()
}

/// What pads a given line on the right: wall pieces on a wall row (even row
/// of the grid), cell pieces on a cell row (odd row).
pub open spec fn padding_unit(row: int) -> Seq<char> {
    if row % 2 == 0 {
        seq!['-', '-', '-', '+']
    } else {
        seq![' ', ' ', ' ', '|']
    }
}

/// A line of a description of `count` lines that lands on grid row `row`,
/// padded to the full width.
pub open spec fn padded_line(line: Seq<char>, row: int, count: int) -> Seq<char> {
    line + repeat(padding_unit(row), N - count / 2) + newline()
}

/// Row `i` of the full grid built from the given lines: the lines fill the
/// last rows, and the rows above them are all-walls rows.
pub open spec fn shaped_row(lines: Seq<Seq<char>>, i: int) -> Seq<char> {
    let first = GRID_ROWS - lines.len();
    if i >= first {
        padded_line(lines[i - first], i, lines.len() as int)
    } else if i % 2 == 0 {
        default_wall_row()
    } else {
        default_cell_row()
    }
}

/// The rows of the full grid built from the given lines.
pub open spec fn shaped_rows(lines: Seq<Seq<char>>) -> Seq<Seq<char>> {
    Seq::new(GRID_ROWS as nat, |i: int| shaped_row(lines, i))
}

/// Rows written one after the other.
pub open spec fn joined(rows: Seq<Seq<char>>) -> Seq<char>
    decreases rows.len(),
{
    if rows.len() == 0 {
        Seq::empty()
    } else {
        joined(rows.drop_last()) + rows.last()
    }
}

/// The full grid text built from the given lines.
pub open spec fn shaped(lines: Seq<Seq<char>>) -> Seq<char> {
    joined(shaped_rows(lines))
}

/// The length of `s` written `n` times.
pub proof fn lemma_repeat_len(s: Seq<char>, n: int)
    requires
        n >= 0,
    ensures
        repeat(s, n).len() == n * s.len(),
    decreases n,
{
    if n > 0 {
        lemma_repeat_len(s, n - 1);
        assert(n * s.len() == (n - 1) * s.len() + s.len()) by (nonlinear_arith);
    } else {
        assert(n * s.len() == 0) by (nonlinear_arith)
            requires
                n == 0,
        ;
    }
}

/// Shaping a description of at most a full grid of lines gives exactly the
/// full number of rows, each ending its line; the last rows are the given
/// lines, verbatim, each padded on the right; and when every given line has
/// the width of the cells it covers, every row has the full width.
pub proof fn lemma_shape_layout(lines: Seq<Seq<char>>)
    requires
        lines.len() <= GRID_ROWS,
    ensures
        shaped_rows(lines).len() == GRID_ROWS,
        forall|i: int| 0 <= i < GRID_ROWS ==> (#[trigger] shaped_rows(lines)[i]).last() == '\n',
        forall|j: int|
            0 <= j < lines.len() ==> (#[trigger] shaped_rows(lines)[GRID_ROWS - lines.len() + j])
                == lines[j] + repeat(padding_unit(GRID_ROWS - lines.len() + j), N - lines.len() / 2)
                + newline(),
        forall|j: int|
            0 <= j < lines.len() ==> (#[trigger] shaped_rows(lines)[GRID_ROWS - lines.len() + j])
                .subrange(0, lines[j].len() as int) == lines[j],
        (forall|j: int| 0 <= j < lines.len() ==> (#[trigger] lines[j]).len() == 4 * (lines.len() / 2) + 1)
            ==> forall|i: int|
            0 <= i < GRID_ROWS ==> (#[trigger] shaped_rows(lines)[i]).len() == 4 * N + 2,
{
    let count = lines.len() as int;
    lemma_repeat_len(seq!['+', '-', '-', '-'], N as int);
    lemma_repeat_len(seq!['|', ' ', ' ', ' '], N as int);
    lemma_repeat_len(padding_unit(0), N - count / 2);
    lemma_repeat_len(padding_unit(1), N - count / 2);
    assert forall|j: int|
        0 <= j < lines.len() implies (#[trigger] shaped_rows(lines)[GRID_ROWS - lines.len() + j])
        .subrange(0, lines[j].len() as int) == lines[j] by {
        let row = shaped_rows(lines)[GRID_ROWS - lines.len() + j];
        assert(row.subrange(0, lines[j].len() as int) =~= lines[j]);
    }
    if forall|j: int| 0 <= j < lines.len() ==> (#[trigger] lines[j]).len() == 4 * (lines.len() / 2) + 1 {
        assert forall|i: int| 0 <= i < GRID_ROWS implies (#[trigger] shaped_rows(lines)[i]).len()
            == 4 * N + 2 by {
            let first = GRID_ROWS - count;
            if i >= first {
                let j = i - first;
                assert(lines[j].len() == 4 * (count / 2) + 1);
                assert(padding_unit(i) == padding_unit(0) || padding_unit(i) == padding_unit(1));
                assert(4 * (count / 2) + 1 + (N - count / 2) * 4 + 1 == 4 * N + 2) by (nonlinear_arith);
            }
        }
    }
}

/// Relies on `str::lines`: the text is split after each newline, with no
/// empty line after a final newline, and each line loses its newline and a
/// carriage return just before it.
#[verifier::external_body]
fn split_lines(s: &str) -> (r: Vec<String>)
    ensures
        r@.map_values(|l: String| l@) == lines_of(s@),
{
    s.lines().map(|l| l.to_string()).collect()
}

/// Appends `unit` to `res` `n` times.
fn push_repeated(res: &mut String, unit: &str, n: usize)
    ensures
        final(res)@ == old(res)@ + repeat(unit@, n as int),
{
    let mut k: usize = 0;
    while k < n
        invariant
            k <= n,
            res@ == old(res)@ + repeat(unit@, k as int),
        decreases n - k,
    {
        res.append(unit);
        k = k + 1;
        proof {
            assert(repeat(unit@, k as int) == repeat(unit@, k - 1) + unit@);
        }
        assert(res@ =~= old(res)@ + repeat(unit@, k as int));
    }
}

/// Shapes the lines of a partial maze description into the full grid: the
/// given lines fill the last rows, each padded on the right to the full width
/// with pieces that match its grid row, and the rows above
/// the given lines are filled with all-walls rows.
pub fn shape_lines(lines: &Vec<String>) -> (r: String)
    requires
        lines@.len() <= GRID_ROWS,
    ensures
        r@ == shaped(lines@.map_values(|l: String| l@)),
{
    let ghost ls = lines@.map_values(|l: String| l@);
    let count = lines.len();
    let first = GRID_ROWS - count;
    let pad_count = N - count / 2;
    let mut res = String::new();
    let mut i: usize = 0;
    while i < GRID_ROWS
        invariant
            i <= GRID_ROWS,
            count == lines@.len(),
            count <= GRID_ROWS,
            first == GRID_ROWS - count,
            pad_count == N - count / 2,
            ls == lines@.map_values(|l: String| l@),
            res@ == joined(shaped_rows(ls).take(i as int)),
        decreases GRID_ROWS - i,
    {
        let ghost before = res@;
        proof {
            reveal_strlit("+---");
            reveal_strlit("|   ");
            reveal_strlit("---+");
            reveal_strlit("   |");
            reveal_strlit("+\n");
            reveal_strlit("|\n");
            reveal_strlit("\n");
            assert("+---"@ =~= seq!['+', '-', '-', '-']);
            assert("|   "@ =~= seq!['|', ' ', ' ', ' ']);
            assert("---+"@ =~= padding_unit(0));
            assert("   |"@ =~= padding_unit(1));
            assert("+\n"@ =~= seq!['+'] + newline());
            assert("|\n"@ =~= seq!['|'] + newline());
        }
        if i >= first {
            let j = i - first;
            res.append(lines[j].as_str());
            if i % 2 == 0 {
                push_repeated(&mut res, "---+", pad_count);
                assert(padding_unit(i as int) == padding_unit(0));
            } else {
                push_repeated(&mut res, "   |", pad_count);
                assert(padding_unit(i as int) == padding_unit(1));
            }
            res.append("\n");
            assert(ls[j as int] == lines@[j as int]@);
            assert(res@ =~= before + padded_line(ls[j as int], i as int, count as int));
        } else if i % 2 == 0 {
            push_repeated(&mut res, "+---", N);
            res.append("+\n");
            assert(res@ =~= before + default_wall_row());
        } else {
            push_repeated(&mut res, "|   ", N);
            res.append("|\n");
            assert(res@ =~= before + default_cell_row());
        }
        proof {
            assert(ls.len() == count);
            assert(res@ =~= before + shaped_row(ls, i as int));
            let rows = shaped_rows(ls);
            assert(rows.take(i + 1).drop_last() =~= rows.take(i as int));
        }
        i = i + 1;
    }
    proof {
        assert(shaped_rows(ls).take(GRID_ROWS as int) =~= shaped_rows(ls));
    }
    res
}

/// Shapes a partial maze description into the full canonical grid text, or
/// gives `None` when the description has more lines than the full grid.
pub fn shape_maze_string(input: &str) -> (r: Option<String>)
    ensures
        match r {
            Some(s) => lines_of(input@).len() <= GRID_ROWS && s@ == shaped(lines_of(input@)),
            None => lines_of(input@).len() > GRID_ROWS,
        },
{
    let lines = split_lines(input);
    if lines.len() <= GRID_ROWS {
        Some(shape_lines(&lines))
    } else {
        None
    }
}

} // verus!
