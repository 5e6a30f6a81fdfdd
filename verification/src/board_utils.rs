use vstd::prelude::*;
use crate::text::push_char;

verus! {

// Squares are numbered 0..64 with square 0 at h1, square 7 at a1 and square 63 at a8:
// the rank of a square is `index / 8` and its file (a = 0 .. h = 7) is `7 - index % 8`.

/// The rank (0 for the first rank) of a square.
pub open spec fn rank_of(index: int) -> int {
    index / 8
}

/// The file (0 for the a-file) of a square.
pub open spec fn file_of(index: int) -> int {
    7 - index % 8
}

/// The character that names a file, `'_'` for a number that names no file.
pub open spec fn file_char_spec(file: int) -> char {
    if file == 0 {
        'a'
    } else if file == 1 {
        'b'
    } else if file == 2 {
        'c'
    } else if file == 3 {
        'd'
    } else if file == 4 {
        'e'
    } else if file == 5 {
        'f'
    } else if file == 6 {
        'g'
    } else if file == 7 {
        'h'
    } else {
        '_'
    }
}

/// The file that a character names, `u8::MAX` for any other character.
pub open spec fn file_from_char_spec(c: char) -> u8 {
    if c == 'a' {
        0
    } else if c == 'b' {
        1
    } else if c == 'c' {
        2
    } else if c == 'd' {
        3
    } else if c == 'e' {
        4
    } else if c == 'f' {
        5
    } else if c == 'g' {
        6
    } else if c == 'h' {
        7
    } else {
        u8::MAX
    }
}

/// The coordinates ("e4") of a square as characters.
pub open spec fn coords_spec(index: int) -> Seq<char> {
    seq![file_char_spec(file_of(index)), ((rank_of(index) + 1) + '0' as int) as char]
}

/// The square of a (file, rank) pair, file 0 being the a-file.
pub fn get_index_from_file_and_rank(file: u8, rank: u8) -> (r: u8)
    requires
        file < 8,
        rank < 8,
    ensures
        r == rank * 8 + (7 - file),
        r < 64,
        rank_of(r as int) == rank,
        file_of(r as int) == file,
{
    (rank * 8) + (7 - file)
}

/// The rank of a square (0 for the first rank).
pub fn get_rank(index: u8) -> (r: u8)
    ensures
        r == index / 8,
        r as int == rank_of(index as int),
{
    index / 8u8
}

/// The file of a square (0 for the a-file).
pub fn get_file(index: u8) -> (r: u8)
    ensures
        r == 7 - index % 8,
        r as int == file_of(index as int),
        r < 8,
{
    7 - (index % 8)
}

/// The file of a square given as a non-negative `i8`.
pub fn get_file_i8(index: i8) -> (r: u8)
    requires
        index >= 0,
    ensures
        r == 7 - index % 8,
        r < 8,
{
    7 - (index % 8) as u8
}

/// The file that a character names: 0 for 'a' up to 7 for 'h', `u8::MAX` otherwise.
pub fn file_from_char(c: char) -> (r: u8)
    ensures
        r == file_from_char_spec(c),
{
    match c {
        'a' => 0,
        'b' => 1,
        'c' => 2,
        'd' => 3,
        'e' => 4,
        'f' => 5,
        'g' => 6,
        'h' => 7,
        _ => u8::MAX,
    }
}

/// The character of a file: 'a' for 0 up to 'h' for 7, '_' otherwise.
pub fn char_from_file(file: u8) -> (r: char)
    ensures
        r == file_char_spec(file as int),
{
    match file {
        0 => 'a',
        1 => 'b',
        2 => 'c',
        3 => 'd',
        4 => 'e',
        5 => 'f',
        6 => 'g',
        7 => 'h',
        _ => '_',
    }
}

/// The square named by coordinates such as "e4".
pub fn index_from_coords(coords: &str) -> (r: u8)
    requires
        coords@.len() >= 2,
        file_from_char_spec(coords@[0]) < 8,
        '1' <= coords@[1] <= '8',
    ensures
        r < 64,
        file_of(r as int) == file_from_char_spec(coords@[0]),
        rank_of(r as int) == coords@[1] as int - '1' as int,
{
    let file_char = coords.get_char(0);
    let file = file_from_char(file_char);
    let rank_char = coords.get_char(1);
    let rank = (rank_char as u32 - '1' as u32) as u8;
    get_index_from_file_and_rank(file, rank)
}

/// The coordinates of a square, such as "e4".
pub fn get_coords_from_index(index: u8) -> (r: String)
    requires
        index < 64,
    ensures
        r@ == coords_spec(index as int),
{
    let rank = get_rank(index) + 1;
    let file = get_file(index);
    let mut s = String::new();
    push_char(&mut s, char_from_file(file));
    let rank_char = ('0' as u8 + rank) as char;
    push_char(&mut s, rank_char);
    assert(s@ =~= coords_spec(index as int));
    s
}

/// The larger of the rank distance and the file distance between two squares.
pub open spec fn chebyshev_spec(a: int, b: int) -> int {
    let dr = if rank_of(a) >= rank_of(b) { rank_of(a) - rank_of(b) } else { rank_of(b) - rank_of(a) };
    let df = if file_of(a) >= file_of(b) { file_of(a) - file_of(b) } else { file_of(b) - file_of(a) };
    if dr >= df { dr } else { df }
}

/// The number of king steps between two squares.
pub fn chebyshev_distance(a: i8, b: i8) -> (r: i8)
    requires
        0 <= a < 64,
        0 <= b < 64,
    ensures
        r == chebyshev_spec(a as int, b as int),
        0 <= r < 8,
{
    let ra = a / 8;
    let rb = b / 8;
    let fa = 7 - a % 8;
    let fb = 7 - b % 8;
    let dr = if ra >= rb { ra - rb } else { rb - ra };
    let df = if fa >= fb { fa - fb } else { fb - fa };
    if dr >= df { dr } else { df }
}

/// The square of a (file, rank) pair, file 0 being the a-file.
pub fn get_position_from_coords(file: u8, rank: u8) -> (r: u8)
    requires
        file < 8,
        rank < 8,
    ensures
        r == rank * 8 + (7 - file),
{
    ((rank) * 8) + (7 - file)
}

/// The square named by coordinates such as "e4".
pub fn position_from_coords(coords: &str) -> (r: u8)
    requires
        coords@.len() >= 2,
        file_from_char_spec(coords@[0]) < 8,
        '1' <= coords@[1] <= '7',
    ensures
        r < 64,
        file_of(r as int) == file_from_char_spec(coords@[0]),
        rank_of(r as int) == coords@[1] as int - '1' as int,
{
    index_from_coords(coords)
}

} // verus!
