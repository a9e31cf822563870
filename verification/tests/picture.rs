use game_of_life::cell::State;
use game_of_life::cell_buffer::CellBuffer;
use game_of_life::picture::{find_row_end, is_separator_at, row_state_of, side_of, split_rows};

fn states(grid: &CellBuffer) -> Vec<State> {
    grid.iter().into_iter().map(|cell| cell.state).collect()
}

#[test]
fn separator_is_found_only_where_all_three_bytes_stand() {
    let bytes = b"ab\\s+c\\s";
    assert!(is_separator_at(bytes, 2));
    assert!(!is_separator_at(bytes, 0));
    assert!(!is_separator_at(bytes, 3));
    assert!(!is_separator_at(bytes, 6));
    assert!(!is_separator_at(bytes, 7));
    assert!(!is_separator_at(bytes, 8));
    assert!(!is_separator_at(bytes, usize::MAX));
}

#[test]
fn row_ends_at_the_next_separator_or_at_the_end() {
    let bytes = b"ab\\s+cd";
    assert_eq!(find_row_end(bytes, 0), 2);
    assert_eq!(find_row_end(bytes, 2), 2);
    assert_eq!(find_row_end(bytes, 3), 7);
    assert_eq!(find_row_end(bytes, 5), 7);
    assert_eq!(find_row_end(bytes, 7), 7);
}

#[test]
fn split_rows_cuts_at_every_separator() {
    assert_eq!(split_rows(b"ab\\s+cde"), vec![(0, 2), (5, 8)]);
    assert_eq!(split_rows(b"abc"), vec![(0, 3)]);
    assert_eq!(split_rows(b""), vec![(0, 0)]);
    assert_eq!(split_rows(b"\\s+"), vec![(0, 0), (3, 3)]);
    assert_eq!(split_rows(b"a\\s+\\s+b\\s+"), vec![(0, 1), (4, 4), (7, 8), (11, 11)]);
}

#[test]
fn white_space_does_not_part_rows() {
    assert_eq!(split_rows(b"ab cd\nef"), vec![(0, 8)]);
}

#[test]
fn side_is_the_larger_of_rows_and_longest_row() {
    let wide = b"*****\\s+**";
    assert_eq!(side_of(wide, &split_rows(wide)), 5);
    let tall = b"*\\s+*\\s+*";
    assert_eq!(side_of(tall, &split_rows(tall)), 3);
    let empty = b"";
    assert_eq!(side_of(empty, &split_rows(empty)), 1);
}

#[test]
fn row_state_reads_the_byte_on_the_diagonal() {
    let bytes = b"*.\\s+.*\\s+**.";
    let spans = split_rows(bytes);
    assert_eq!(row_state_of(bytes, &spans, 0), State::Alive);
    assert_eq!(row_state_of(bytes, &spans, 1), State::Alive);
    assert_eq!(row_state_of(bytes, &spans, 2), State::Dead);
    assert_eq!(row_state_of(bytes, &spans, 3), State::Dead);
}

#[test]
fn from_string_single_row() {
    let grid = CellBuffer::from_string("***");
    assert_eq!(grid.size(), 3);
    assert_eq!(
        states(&grid),
        vec![
            State::Alive,
            State::Alive,
            State::Alive,
            State::Dead,
            State::Dead,
            State::Dead,
            State::Dead,
            State::Dead,
            State::Dead,
        ]
    );
}

#[test]
fn from_string_rows_are_uniform() {
    let grid = CellBuffer::from_string("*.");
    assert_eq!(states(&grid), vec![State::Alive, State::Alive, State::Dead, State::Dead]);
    let grid = CellBuffer::from_string(".*");
    assert_eq!(states(&grid), vec![State::Dead; 4]);
}

#[test]
fn from_string_several_rows() {
    let grid = CellBuffer::from_string(".*\\s+.*");
    assert_eq!(grid.size(), 2);
    assert_eq!(states(&grid), vec![State::Dead, State::Dead, State::Alive, State::Alive]);
    let grid = CellBuffer::from_string("*\\s+.\\s+..*");
    assert_eq!(grid.size(), 3);
    assert_eq!(
        states(&grid),
        vec![
            State::Alive,
            State::Alive,
            State::Alive,
            State::Dead,
            State::Dead,
            State::Dead,
            State::Alive,
            State::Alive,
            State::Alive,
        ]
    );
}

#[test]
fn from_string_reads_bytes_not_characters() {
    // The two-byte letter makes the row three bytes long.
    let grid = CellBuffer::from_string("\u{e9}*");
    assert_eq!(grid.size(), 3);
    assert_eq!(grid.get(0, 0), State::Dead);
    assert_eq!(states(&grid), vec![State::Dead; 9]);
}

#[test]
fn from_bytes_agrees_with_from_string() {
    let text = "**.\\s+.*";
    assert_eq!(CellBuffer::from_bytes(text.as_bytes()).iter(), CellBuffer::from_string(text).iter());
}
