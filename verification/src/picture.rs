//! Text pictures of grids: how a run of bytes is cut into rows, and which
//! grid the rows stand for.

use vstd::prelude::*;
use crate::cell::State;
use crate::grid::Grid;

verus! {

/// The byte that marks a live cell: `*`.
pub const LIVE: u8 = 0x2a;

/// Three bytes in a row part one row from the next: a backslash, `s`, `+`.
/// This is the backslash.
pub const SEPARATOR_FIRST: u8 = 0x5c;

/// The second byte of the row separator: `s`.
pub const SEPARATOR_SECOND: u8 = 0x73;

/// The third byte of the row separator: `+`.
pub const SEPARATOR_THIRD: u8 = 0x2b;

/// Whether the row separator stands at index `i` of `s`.
pub open spec fn separator_at(s: Seq<u8>, i: int) -> bool {
    &&& 0 <= i
    &&& i + 3 <= s.len()
    &&& s[i] == SEPARATOR_FIRST
    &&& s[i + 1] == SEPARATOR_SECOND
    &&& s[i + 2] == SEPARATOR_THIRD
}

/// Where the row that starts at `from` ends: at the first separator at or
/// after `from`, or at the end of `s` when there is none.
pub open spec fn row_end(s: Seq<u8>, from: int) -> int
    decreases s.len() - from,
{
    if from >= s.len() {
        s.len() as int
    } else if separator_at(s, from) {
        from
    } else {
        row_end(s, from + 1)
    }
}

/// The rows of `s` from index `from` on. A separator belongs to no row, and
/// the text after the last separator is a row even when it is empty.
pub open spec fn rows_from(s: Seq<u8>, from: int) -> Seq<Seq<u8>>
    recommends
        0 <= from <= s.len(),
    decreases s.len() - from,
{
    let end = row_end(s, from);
    if from <= end && separator_at(s, end) {
        seq![s.subrange(from, end)] + rows_from(s, end + 3)
    } else {
        seq![s.subrange(from, s.len() as int)]
    }
}

/// The rows of a picture. There is always at least one.
pub open spec fn rows_of(s: Seq<u8>) -> Seq<Seq<u8>> {
    rows_from(s, 0)
}

/// The length of the longest row.
pub open spec fn longest_row(rows: Seq<Seq<u8>>) -> nat
    decreases rows.len(),
{
    if rows.len() == 0 {
        0
    } else if rows.last().len() >= longest_row(rows.drop_last()) {
        rows.last().len()
    } else {
        longest_row(rows.drop_last())
    }
}

/// The side of the grid that a picture fills: the larger of the number of
/// rows and the length of the longest row.
pub open spec fn side(rows: Seq<Seq<u8>>) -> nat {
    if longest_row(rows) >= rows.len() {
        longest_row(rows)
    } else {
        rows.len()
    }
}

/// The state of every cell in row `y` of the grid: alive when the picture
/// has a row `y` whose byte at index `y` is `LIVE`, else dead.
pub open spec fn row_state(rows: Seq<Seq<u8>>, y: int) -> State {
    if 0 <= y < rows.len() && y < rows[y].len() && rows[y][y] == LIVE {
        State::Alive
    } else {
        State::Dead
    }
}

/// The grid that a picture stands for.
pub open spec fn picture(s: Seq<u8>) -> Grid {
    let rows = rows_of(s);
    let size = side(rows);
    Grid { size, cells: Seq::new(size * size, |i: int| row_state(rows, i / (size as int))) }
}

/// A row never ends before it starts, and never beyond the end of the text.
pub proof fn lemma_row_end_bounds(s: Seq<u8>, from: int)
    requires
        0 <= from <= s.len(),
    ensures
        from <= row_end(s, from) <= s.len(),
        row_end(s, from) < s.len() ==> separator_at(s, row_end(s, from)),
    decreases s.len() - from,
{
    if from < s.len() && !separator_at(s, from) {
        lemma_row_end_bounds(s, from + 1);
    }
}

/// No row from `from` on is longer than the text that is left, and there
/// is at most one row more than there are bytes left.
pub proof fn lemma_rows_bounds(s: Seq<u8>, from: int)
    requires
        0 <= from <= s.len(),
    ensures
        1 <= rows_from(s, from).len() <= s.len() - from + 1,
        longest_row(rows_from(s, from)) <= s.len() - from,
    decreases s.len() - from,
{
    lemma_row_end_bounds(s, from);
    let end = row_end(s, from);
    if separator_at(s, end) {
        let first = seq![s.subrange(from, end)];
        let rest = rows_from(s, end + 3);
        lemma_rows_bounds(s, end + 3);
        lemma_longest_row_concat(first, rest);
        assert(first =~= Seq::<Seq<u8>>::empty().push(s.subrange(from, end)));
        lemma_longest_row_push(Seq::<Seq<u8>>::empty(), s.subrange(from, end));
    } else {
        let last = s.subrange(from, s.len() as int);
        assert(seq![last] =~= Seq::<Seq<u8>>::empty().push(last));
        lemma_longest_row_push(Seq::<Seq<u8>>::empty(), last);
    }
}

/// A picture of `n` bytes fills a grid of side `n + 1` at most.
pub proof fn lemma_side_bound(s: Seq<u8>)
    ensures
        1 <= side(rows_of(s)) <= s.len() + 1,
{
    lemma_rows_bounds(s, 0);
}

/// The longest row of two lists of rows put together is the longer of
/// their longest rows.
pub proof fn lemma_longest_row_concat(front: Seq<Seq<u8>>, back: Seq<Seq<u8>>)
    ensures
        longest_row(front + back) == if longest_row(back) >= longest_row(front) {
            longest_row(back)
        } else {
            longest_row(front)
        },
    decreases back.len(),
{
    if back.len() == 0 {
        assert(front + back =~= front);
    } else {
        assert((front + back).drop_last() =~= front + back.drop_last());
        lemma_longest_row_concat(front, back.drop_last());
    }
}

/// Appending a row to a list of rows: the longest row is the longer of the
/// old longest and the new one.
pub proof fn lemma_longest_row_push(rows: Seq<Seq<u8>>, row: Seq<u8>)
    ensures
        longest_row(rows.push(row)) == if row.len() >= longest_row(rows) {
            row.len()
        } else {
            longest_row(rows)
        },
{
    assert(rows.push(row).drop_last() =~= rows);
}

/// Whether the pair of a start and an end index marks out `row` in `s`.
pub open spec fn spans_row(s: Seq<u8>, span: (usize, usize), row: Seq<u8>) -> bool {
    span.0 <= span.1 <= s.len() && s.subrange(span.0 as int, span.1 as int) == row
}

/// Whether the row separator stands at index `i` of `bytes`.
pub fn is_separator_at(bytes: &[u8], i: usize) -> (found: bool)
    ensures
        found == separator_at(bytes@, i as int),
{
    i < bytes.len() && bytes.len() - i >= 3 && bytes[i] == SEPARATOR_FIRST && bytes[i + 1]
        == SEPARATOR_SECOND && bytes[i + 2] == SEPARATOR_THIRD
}

/// The end of the row that starts at `from`.
pub fn find_row_end(bytes: &[u8], from: usize) -> (end: usize)
    requires
        from <= bytes.len(),
    ensures
        end == row_end(bytes@, from as int),
        from <= end <= bytes.len(),
{
    let mut end: usize = from;
    while end < bytes.len() && !is_separator_at(bytes, end)
        invariant
            from <= end <= bytes.len(),
            row_end(bytes@, from as int) == row_end(bytes@, end as int),
        decreases bytes.len() - end,
    {
        end += 1;
    }
    end
}

/// Cuts a picture into its rows. Each row is returned as the pair of the
/// index where it starts and the index where it ends.
pub fn split_rows(bytes: &[u8]) -> (spans: Vec<(usize, usize)>)
    ensures
        spans.len() == rows_of(bytes@).len(),
        forall|k: int|
            0 <= k < spans.len() ==> spans_row(bytes@, #[trigger] spans[k], rows_of(bytes@)[k]),
{
    let mut spans: Vec<(usize, usize)> = Vec::new();
    let mut from: usize = 0;
    let ghost mut done: Seq<Seq<u8>> = Seq::empty();
    loop
        invariant_except_break
            rows_of(bytes@) == done + rows_from(bytes@, from as int),
        invariant
            from <= bytes.len(),
            spans.len() == done.len(),
            forall|k: int| 0 <= k < spans.len() ==> spans_row(bytes@, #[trigger] spans[k], done[k]),
        ensures
            rows_of(bytes@) == done,
        decreases bytes.len() - from,
    {
        let end: usize = find_row_end(bytes, from);
        proof {
            lemma_row_end_bounds(bytes@, from as int);
        }
        spans.push((from, end));
        if end >= bytes.len() {
            proof {
                let last = bytes@.subrange(from as int, bytes@.len() as int);
                assert(rows_from(bytes@, from as int) == seq![last]);
                assert(done + seq![last] =~= done.push(last));
                done = done.push(last);
            }
            break ;
        }
        proof {
            let row = bytes@.subrange(from as int, end as int);
            assert(rows_from(bytes@, from as int) == seq![row] + rows_from(bytes@, end + 3));
            assert(done + (seq![row] + rows_from(bytes@, end + 3)) =~= done.push(row) + rows_from(
                bytes@,
                end + 3,
            ));
            done = done.push(row);
        }
        from = end + 3;
    }
    spans
}

/// The side of the grid that the picture fills, from its rows.
pub fn side_of(bytes: &[u8], spans: &Vec<(usize, usize)>) -> (size: usize)
    requires
        spans.len() == rows_of(bytes@).len(),
        forall|k: int|
            0 <= k < spans.len() ==> spans_row(bytes@, #[trigger] spans[k], rows_of(bytes@)[k]),
    ensures
        size == side(rows_of(bytes@)),
{
    let ghost rows = rows_of(bytes@);
    let mut longest: usize = 0;
    let mut k: usize = 0;
    while k < spans.len()
        invariant
            k <= spans.len(),
            spans.len() == rows.len(),
            forall|j: int| 0 <= j < spans.len() ==> spans_row(bytes@, #[trigger] spans[j], rows[j]),
            longest == longest_row(rows.take(k as int)),
        decreases spans.len() - k,
    {
        let (start, end) = spans[k];
        proof {
            assert(rows.take(k + 1) =~= rows.take(k as int).push(rows[k as int]));
            lemma_longest_row_push(rows.take(k as int), rows[k as int]);
        }
        if end - start >= longest {
            longest = end - start;
        }
        k += 1;
    }
    assert(rows.take(k as int) =~= rows);
    if longest >= spans.len() {
        longest
    } else {
        spans.len()
    }
}

/// The state of every cell in row `y` of the grid that the picture fills.
pub fn row_state_of(bytes: &[u8], spans: &Vec<(usize, usize)>, y: usize) -> (state: State)
    requires
        spans.len() == rows_of(bytes@).len(),
        forall|k: int|
            0 <= k < spans.len() ==> spans_row(bytes@, #[trigger] spans[k], rows_of(bytes@)[k]),
    ensures
        state == row_state(rows_of(bytes@), y as int),
{
    if y < spans.len() {
        let (start, end) = spans[y];
        if y < end - start && bytes[start + y] == LIVE {
            State::Alive
        } else {
            State::Dead
        }
    } else {
        State::Dead
    }
}

} // verus!
