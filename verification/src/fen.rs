//! Reading a position from its serialized form: five fields separated by
//! single spaces, which give the board row by row, the side to move, the
//! castling rights, the en-passant target and the half-move clock.

use vstd::pervasive::unreached;
use vstd::prelude::*;
use vstd::string::StrSliceExecFns;
use crate::game::Game;
use crate::piece::{
    Piece, PieceView, BISHOP, BLACK, EMPTY, HAS_MOVED, KING, KNIGHT, PAWN, QUEEN, ROOK, WHITE,
};
use crate::position::{Position, NO_EP};

verus! {

/// The pieces of a text between its separators: one more than there are
/// separators, some of them possibly empty.
pub open spec fn split(text: Seq<char>, sep: char) -> Seq<Seq<char>>
    decreases text.len(),
{
    if text.len() == 0 {
        seq![Seq::empty()]
    } else {
        let before = split(text.drop_last(), sep);
        if text.last() == sep {
            before.push(Seq::empty())
        } else {
            before.update(before.len() - 1, before.last().push(text.last()))
        }
    }
}

/// The pieces of a text put together again, with the separator between them.
pub open spec fn join(parts: Seq<Seq<char>>, sep: char) -> Seq<char>
    decreases parts.len(),
{
    if parts.len() == 0 {
        seq![]
    } else if parts.len() == 1 {
        parts[0]
    } else {
        join(parts.drop_last(), sep).push(sep) + parts.last()
    }
}

/// Splitting loses nothing and cuts at every separator: there is at least
/// one piece, no piece holds the separator, and the pieces joined by the
/// separator are the text.
pub proof fn lemma_split_joins(text: Seq<char>, sep: char)
    ensures
        split(text, sep).len() >= 1,
        forall|i: int| 0 <= i < split(text, sep).len() ==> !(#[trigger] split(text, sep)[i]).contains(sep),
        join(split(text, sep), sep) == text,
    decreases text.len(),
{
    let parts = split(text, sep);
    if text.len() == 0 {
        assert(join(parts, sep) =~= text);
    } else {
        let before = split(text.drop_last(), sep);
        let c = text.last();
        lemma_split_joins(text.drop_last(), sep);
        assert(text =~= text.drop_last().push(c));
        if c == sep {
            assert(parts.drop_last() =~= before);
            assert(join(parts, sep) =~= text);
        } else {
            let grown = before.last().push(c);
            assert(!grown.contains(sep)) by {
                if grown.contains(sep) {
                    let j = choose|j: int| 0 <= j < grown.len() && grown[j] == sep;
                    assert(before.last()[j] == sep);
                    assert(before.last().contains(sep));
                }
            }
            if before.len() > 1 {
                assert(parts.drop_last() =~= before.drop_last());
                assert(join(parts, sep) =~= join(before, sep).push(c));
            }
            assert(join(parts, sep) =~= text);
        }
    }
}

/// The piece that a letter of the board field stands for: upper case is
/// white, lower case black.
pub open spec fn piece_of_letter(c: char) -> Option<PieceView> {
    if c == 'r' {
        Some(PieceView { kind: ROOK as int, color: BLACK as int, flags: 0 })
    } else if c == 'R' {
        Some(PieceView { kind: ROOK as int, color: WHITE as int, flags: 0 })
    } else if c == 'b' {
        Some(PieceView { kind: BISHOP as int, color: BLACK as int, flags: 0 })
    } else if c == 'B' {
        Some(PieceView { kind: BISHOP as int, color: WHITE as int, flags: 0 })
    } else if c == 'k' {
        Some(PieceView { kind: KING as int, color: BLACK as int, flags: 0 })
    } else if c == 'K' {
        Some(PieceView { kind: KING as int, color: WHITE as int, flags: 0 })
    } else if c == 'q' {
        Some(PieceView { kind: QUEEN as int, color: BLACK as int, flags: 0 })
    } else if c == 'Q' {
        Some(PieceView { kind: QUEEN as int, color: WHITE as int, flags: 0 })
    } else if c == 'n' {
        Some(PieceView { kind: KNIGHT as int, color: BLACK as int, flags: 0 })
    } else if c == 'N' {
        Some(PieceView { kind: KNIGHT as int, color: WHITE as int, flags: 0 })
    } else if c == 'p' {
        Some(PieceView { kind: PAWN as int, color: BLACK as int, flags: 0 })
    } else if c == 'P' {
        Some(PieceView { kind: PAWN as int, color: WHITE as int, flags: 0 })
    } else {
        None
    }
}

/// The value of a decimal digit.
pub open spec fn digit_value(c: char) -> Option<int> {
    if '0' <= c <= '9' {
        Some(c as int - '0' as int)
    } else {
        None
    }
}

/// The board after one row of the board field has been read from
/// character `cur` on, with `column` columns of the row filled. A letter
/// places a piece and a digit skips that many columns, until eight columns
/// are filled; what follows in the row is not read. `None` if the row ends
/// before that or holds any other character.
pub open spec fn place_row(board: Seq<PieceView>, row: int, text: Seq<char>, column: int, cur: int) -> Option<
    Seq<PieceView>,
>
    decreases text.len() - cur,
{
    if column >= 8 {
        Some(board)
    } else if cur < 0 || cur >= text.len() {
        None
    } else if let Some(piece) = piece_of_letter(text[cur]) {
        place_row(board.update(row * 8 + column, piece), row, text, column + 1, cur + 1)
    } else if let Some(skip) = digit_value(text[cur]) {
        place_row(board, row, text, column + skip, cur + 1)
    } else {
        None
    }
}

/// The board after the first `n` rows of the board field have been read.
pub open spec fn place_rows(rows: Seq<Seq<char>>, n: nat) -> Option<Seq<PieceView>>
    decreases n,
{
    if n == 0 {
        Some(Seq::new(64, |sq: int| PieceView { kind: EMPTY as int, color: 0, flags: 0 }))
    } else if let Some(board) = place_rows(rows, (n - 1) as nat) {
        place_row(board, n - 1, rows[n - 1], 0, 0)
    } else {
        None
    }
}

/// The last of the squares below `n` that holds a king of `color`; square 0
/// if there is none.
pub open spec fn last_king(board: Seq<PieceView>, color: int, n: nat) -> int
    decreases n,
{
    if n == 0 {
        0
    } else if board[n - 1].kind == KING && board[n - 1].color == color {
        n - 1
    } else {
        last_king(board, color, (n - 1) as nat)
    }
}

/// The board with the piece on `corner` marked as moved unless the
/// castling field holds `right`.
pub open spec fn with_right(board: Seq<PieceView>, rights: Seq<char>, right: char, corner: int) -> Seq<
    PieceView,
> {
    if rights.contains(right) {
        board
    } else {
        board.update(corner, board[corner].with_flags(HAS_MOVED as int))
    }
}

/// The board with all four castling rights applied.
pub open spec fn with_rights(board: Seq<PieceView>, rights: Seq<char>) -> Seq<PieceView> {
    with_right(with_right(with_right(with_right(board, rights, 'K', 63), rights, 'Q', 56), rights, 'k', 7),
        rights, 'q', 0)
}

/// The column that a file letter names; column 0 for any other character.
pub open spec fn file_column(c: char) -> int {
    if 'a' <= c <= 'h' {
        c as int - 'a' as int
    } else {
        0
    }
}

/// The row that a rank digit names: rank 8 is row 0. Row 0 for any other
/// character.
pub open spec fn rank_row(c: char) -> int {
    if '1' <= c <= '8' {
        '8' as int - c as int
    } else {
        0
    }
}

/// The square that a text in algebraic notation names, such as "e3".
pub open spec fn algebraic_square(text: Seq<char>) -> int {
    file_column(text[0]) + 8 * rank_row(text[1])
}

/// The first character that takes more than one byte in UTF-8.
pub const FIRST_WIDE_CHAR: char = '\u{80}';

/// The first character that takes more than two bytes in UTF-8.
pub const FIRST_THREE_BYTE_CHAR: char = '\u{800}';

/// The bytes that a character takes in UTF-8, for characters of one or two
/// bytes; 3 stands for three and more.
pub open spec fn utf8_width(c: char) -> int {
    if c < FIRST_WIDE_CHAR {
        1
    } else if c < FIRST_THREE_BYTE_CHAR {
        2
    } else {
        3
    }
}

/// The en-passant field is read as a square if it is two bytes long.
pub open spec fn names_square(field: Seq<char>) -> bool {
    field.len() == 2 && utf8_width(field[0]) == 1 && utf8_width(field[1]) == 1
}

/// A field of two bytes that are one character names no square and is not
/// passed over either.
pub open spec fn is_one_wide_char(field: Seq<char>) -> bool {
    field.len() == 1 && utf8_width(field[0]) == 2
}

/// The en-passant marker that the field gives: the square of the pawn that
/// has made the double push, one row beyond the target square that the
/// field names; `NO_EP` if the field names no square.
pub open spec fn ep_marker(field: Seq<char>) -> int {
    if names_square(field) {
        let target = algebraic_square(field);
        if target > 32 {
            target - 8
        } else {
            target + 8
        }
    } else {
        NO_EP as int
    }
}

/// The number that a text of decimal digits writes. `None` if the text is
/// empty or holds anything but digits.
pub open spec fn digits_value(text: Seq<char>) -> Option<nat>
    decreases text.len(),
{
    if text.len() == 0 {
        None
    } else if let Some(last) = digit_value(text.last()) {
        if text.len() == 1 {
            Some(last as nat)
        } else if let Some(before) = digits_value(text.drop_last()) {
            Some(before * 10 + last as nat)
        } else {
            None
        }
    } else {
        None
    }
}

/// The number that the clock field writes: decimal digits, with or without
/// a plus sign before them.
pub open spec fn clock_value(field: Seq<char>) -> Option<nat> {
    if field.len() > 0 && field[0] == '+' {
        digits_value(field.drop_first())
    } else {
        digits_value(field)
    }
}

/// The text describes a position: it has five fields or more, the first
/// has eight rows or more, each of the first eight rows fills its eight
/// columns, the en-passant field is not a single two-byte character, and
/// the clock is a number that fits the machine's word.
pub open spec fn fen_parses(text: Seq<char>) -> bool {
    let fields = split(text, ' ');
    &&& fields.len() >= 5
    &&& split(fields[0], '/').len() >= 8
    &&& place_rows(split(fields[0], '/'), 8) is Some
    &&& !is_one_wide_char(fields[3])
    &&& clock_value(fields[4]) is Some
    &&& clock_value(fields[4])->0 <= usize::MAX
}

/// The position that a text describes. Black is to move if the second
/// field is "b", white otherwise.
pub open spec fn fen_position(text: Seq<char>) -> Position {
    let fields = split(text, ' ');
    let placed = place_rows(split(fields[0], '/'), 8)->0;
    Position {
        board: with_rights(placed, fields[2]),
        turn: if fields[1] == seq!['b'] {
            BLACK as int
        } else {
            WHITE as int
        },
        ep: ep_marker(fields[3]),
        king_square: seq![last_king(placed, WHITE as int, 64), last_king(placed, BLACK as int, 64)],
        clock: clock_value(fields[4])->0 as int,
    }
}

/// The views of a list of texts.
pub open spec fn text_views(texts: Seq<Vec<char>>) -> Seq<Seq<char>> {
    texts.map_values(|t: Vec<char>| t@)
}

/// The characters of a string.
fn chars_of(text: &str) -> (chars: Vec<char>)
    ensures
        chars@ == text@,
{
    let n: usize = text.unicode_len();
    let mut chars: Vec<char> = Vec::new();
    let mut i: usize = 0;
    while i < n
        invariant
            n == text@.len(),
            0 <= i <= n,
            chars@ == text@.take(i as int),
        decreases n - i,
    {
        chars.push(text.get_char(i));
        assert(text@.take(i + 1) =~= text@.take(i as int).push(text@[i as int]));
        i += 1;
    }
    assert(text@.take(n as int) =~= text@);
    chars
}

/// Splits a text at each occurrence of `sep`.
fn split_at(text: &Vec<char>, sep: char) -> (parts: Vec<Vec<char>>)
    ensures
        text_views(parts@) == split(text@, sep),
{
    let mut parts: Vec<Vec<char>> = Vec::new();
    let mut current: Vec<char> = Vec::new();
    let mut i: usize = 0;
    assert(text@.take(0) =~= Seq::<char>::empty());
    assert(text_views(parts@).push(current@) =~= split(text@.take(0), sep));
    while i < text.len()
        invariant
            0 <= i <= text.len(),
            text_views(parts@).push(current@) == split(text@.take(i as int), sep),
        decreases text.len() - i,
    {
        let c: char = text[i];
        let ghost before = split(text@.take(i as int), sep);
        proof {
            assert(text@.take(i + 1).drop_last() =~= text@.take(i as int));
            assert(text@.take(i + 1).last() == c);
        }
        if c == sep {
            let ghost done = text_views(parts@);
            parts.push(current);
            current = Vec::new();
            assert(text_views(parts@) =~= before);
            assert(text_views(parts@).push(current@) =~= before.push(Seq::empty()));
        } else {
            current.push(c);
            assert(text_views(parts@).push(current@) =~= before.update(
                before.len() - 1,
                before.last().push(c),
            ));
        }
        i += 1;
    }
    assert(text@.take(text.len() as int) =~= text@);
    let ghost done = text_views(parts@);
    parts.push(current);
    assert(text_views(parts@) =~= done.push(current@));
    parts
}

/// The piece that a letter of the board field stands for.
fn piece_for(c: char) -> (piece: Option<Piece>)
    ensures
        match piece_of_letter(c) {
            Some(view) => piece is Some && piece->0@ == view,
            None => piece is None,
        },
{
    match c {
        'r' => Some(Piece::new(ROOK, BLACK, EMPTY)),
        'R' => Some(Piece::new(ROOK, WHITE, EMPTY)),
        'b' => Some(Piece::new(BISHOP, BLACK, EMPTY)),
        'B' => Some(Piece::new(BISHOP, WHITE, EMPTY)),
        'k' => Some(Piece::new(KING, BLACK, EMPTY)),
        'K' => Some(Piece::new(KING, WHITE, EMPTY)),
        'q' => Some(Piece::new(QUEEN, BLACK, EMPTY)),
        'Q' => Some(Piece::new(QUEEN, WHITE, EMPTY)),
        'n' => Some(Piece::new(KNIGHT, BLACK, EMPTY)),
        'N' => Some(Piece::new(KNIGHT, WHITE, EMPTY)),
        'p' => Some(Piece::new(PAWN, BLACK, EMPTY)),
        'P' => Some(Piece::new(PAWN, WHITE, EMPTY)),
        _ => None,
    }
}

/// The value of a decimal digit.
fn digit_for(c: char) -> (digit: Option<usize>)
    ensures
        match digit_value(c) {
            Some(value) => digit == Some(value as usize),
            None => digit is None,
        },
        digit is Some ==> digit->0 <= 9,
{
    if '0' <= c && c <= '9' {
        Some((c as u32 - '0' as u32) as usize)
    } else {
        None
    }
}

/// The board of a game as plain values.
pub open spec fn board_view(board: [Piece; 64]) -> Seq<PieceView> {
    Seq::new(64, |sq: int| board[sq]@)
}

/// Reads one row of the board field into the board, and says whether the
/// row could be read. A row that cannot be read leaves the board half
/// filled.
fn read_row(board: &mut [Piece; 64], row: usize, text: &Vec<char>) -> (ok: bool)
    requires
        row < 8,
    ensures
        ok == place_row(board_view(*old(board)), row as int, text@, 0, 0) is Some,
        ok ==> Some(board_view(*final(board))) == place_row(
            board_view(*old(board)),
            row as int,
            text@,
            0,
            0,
        ),
{
    let ghost goal = place_row(board_view(*board), row as int, text@, 0, 0);
    let mut column: usize = 0;
    let mut cur: usize = 0;
    while column < 8
        invariant
            row < 8,
            0 <= column <= 17,
            0 <= cur <= text.len(),
            goal == place_row(board_view(*old(board)), row as int, text@, 0, 0),
            place_row(board_view(*board), row as int, text@, column as int, cur as int) == goal,
        decreases text.len() - cur,
    {
        if cur >= text.len() {
            return false;
        }
        let c: char = text[cur];
        match piece_for(c) {
            Some(piece) => {
                let ghost before = board_view(*board);
                board[row * 8 + column] = piece;
                assert(board_view(*board) =~= before.update(row * 8 + column, piece@));
                column += 1;
            },
            None => {
                match digit_for(c) {
                    Some(skip) => {
                        column += skip;
                    },
                    None => {
                        return false;
                    },
                }
            },
        }
        cur += 1;
    }
    true
}

/// The last square that holds a king of `color`; square 0 if none does.
fn find_king(board: &[Piece; 64], color: usize) -> (square: usize)
    ensures
        square == last_king(board_view(*board), color as int, 64),
        square < 64,
{
    let mut square: usize = 0;
    let mut i: usize = 0;
    while i < 64
        invariant
            0 <= i <= 64,
            square < 64,
            square == last_king(board_view(*board), color as int, i as nat),
        decreases 64 - i,
    {
        if board[i].get_type() == KING && board[i].get_color() == color {
            square = i;
        }
        i += 1;
    }
    square
}

/// Whether a text holds a character.
fn holds(text: &Vec<char>, c: char) -> (found: bool)
    ensures
        found == text@.contains(c),
{
    let mut i: usize = 0;
    while i < text.len()
        invariant
            0 <= i <= text.len(),
            forall|j: int| 0 <= j < i ==> text@[j] != c,
        decreases text.len() - i,
    {
        if text[i] == c {
            return true;
        }
        i += 1;
    }
    false
}

/// Marks the piece on `corner` as moved unless the castling field holds
/// `right`.
fn apply_right(board: &mut [Piece; 64], rights: &Vec<char>, right: char, corner: usize)
    requires
        corner < 64,
    ensures
        board_view(*final(board)) == with_right(board_view(*old(board)), rights@, right, corner as int),
{
    if !holds(rights, right) {
        let ghost before = board_view(*board);
        board[corner].set_flags(HAS_MOVED);
        assert(board_view(*board) =~= before.update(
            corner as int,
            before[corner as int].with_flags(HAS_MOVED as int),
        ));
    }
}

/// The column that a file letter names.
fn column_for(c: char) -> (column: usize)
    ensures
        column == file_column(c),
        column < 8,
{
    match c {
        'a' => 0,
        'b' => 1,
        'c' => 2,
        'd' => 3,
        'e' => 4,
        'f' => 5,
        'g' => 6,
        'h' => 7,
        _ => 0,
    }
}

/// The row that a rank digit names.
fn row_for(c: char) -> (row: usize)
    ensures
        row == rank_row(c),
        row < 8,
{
    match c {
        '1' => 7,
        '2' => 6,
        '3' => 5,
        '4' => 4,
        '5' => 3,
        '6' => 2,
        '7' => 1,
        '8' => 0,
        _ => 0,
    }
}

/// Converts a square in algebraic notation, such as "e3", to its number
/// between 0 and 63. A file other than a to h counts as a, a rank other
/// than 1 to 8 as 8; what follows the second character is not read.
pub fn convert_algebraic_notation_to_number(alg_not: &str) -> (square: usize)
    requires
        alg_not@.len() >= 2,
    ensures
        square == algebraic_square(alg_not@),
        square < 64,
{
    let mut square: usize = 0;
    square += column_for(alg_not.get_char(0));
    square += 8 * row_for(alg_not.get_char(1));
    square
}

/// The en-passant marker that a field gives; none for a field that is one
/// character of two bytes.
fn read_ep(field: &Vec<char>) -> (marker: Option<usize>)
    ensures
        marker is Some <==> !is_one_wide_char(field@),
        marker is Some ==> marker->0 == ep_marker(field@),
{
    if field.len() == 1 && field[0] >= FIRST_WIDE_CHAR && field[0] < FIRST_THREE_BYTE_CHAR {
        None
    } else if field.len() == 2 && field[0] < FIRST_WIDE_CHAR && field[1] < FIRST_WIDE_CHAR {
        let target: usize = column_for(field[0]) + 8 * row_for(field[1]);
        if target > 32 {
            Some(target - 8)
        } else {
            Some(target + 8)
        }
    } else {
        Some(NO_EP)
    }
}

/// A number is no smaller than the number that a shorter beginning of its
/// digits writes.
proof fn lemma_digits_prefix(text: Seq<char>, n: int)
    requires
        digits_value(text) is Some,
        1 <= n <= text.len(),
    ensures
        digits_value(text.take(n)) is Some,
        digits_value(text.take(n))->0 <= digits_value(text)->0,
    decreases text.len(),
{
    if n == text.len() {
        assert(text.take(n) =~= text);
    } else {
        assert(text.drop_last().take(n) =~= text.take(n));
        lemma_digits_prefix(text.drop_last(), n);
    }
}

/// A text that writes a number holds digits only.
proof fn lemma_digits_only(text: Seq<char>, i: int)
    requires
        digits_value(text) is Some,
        0 <= i < text.len(),
    ensures
        digit_value(text[i]) is Some,
    decreases text.len(),
{
    if i < text.len() - 1 {
        lemma_digits_only(text.drop_last(), i);
    }
}

/// The number that the digits from `start` on write, if they write one
/// that fits the machine's word.
fn read_digits(text: &Vec<char>, start: usize) -> (value: Option<usize>)
    requires
        start <= text.len(),
    ensures
        match value {
            Some(v) => digits_value(text@.skip(start as int)) == Some(v as nat),
            None => !(digits_value(text@.skip(start as int)) is Some && digits_value(
                text@.skip(start as int),
            )->0 <= usize::MAX),
        },
{
    let ghost digits = text@.skip(start as int);
    if start == text.len() {
        return None;
    }
    let mut value: usize = 0;
    let mut i: usize = start;
    while i < text.len()
        invariant
            start <= i <= text.len(),
            start < text.len(),
            digits == text@.skip(start as int),
            i > start ==> digits_value(digits.take(i - start)) == Some(value as nat),
            i == start ==> value == 0,
        decreases text.len() - i,
    {
        let c: char = text[i];
        let ghost longer = digits.take(i + 1 - start);
        proof {
            assert(longer.drop_last() =~= digits.take(i - start));
            assert(longer.last() == c);
            assert(digits[i - start] == c);
        }
        match digit_for(c) {
            Some(d) => {
                if value > (usize::MAX - d) / 10 {
                    proof {
                        assert(digits_value(longer) == Some((value * 10 + d) as nat));
                        if digits_value(digits) is Some {
                            lemma_digits_prefix(digits, i + 1 - start);
                        }
                    }
                    return None;
                }
                value = value * 10 + d;
            },
            None => {
                proof {
                    if digits_value(digits) is Some {
                        lemma_digits_only(digits, i - start);
                    }
                }
                return None;
            },
        }
        i += 1;
    }
    assert(digits.take(text.len() - start) =~= digits);
    Some(value)
}

/// The number that the clock field writes, if it writes one that fits the
/// machine's word.
fn read_clock(field: &Vec<char>) -> (value: Option<usize>)
    ensures
        match value {
            Some(v) => clock_value(field@) == Some(v as nat),
            None => !(clock_value(field@) is Some && clock_value(field@)->0 <= usize::MAX),
        },
{
    if field.len() > 0 && field[0] == '+' {
        assert(field@.skip(1) =~= field@.drop_first());
        read_digits(field, 1)
    } else {
        assert(field@.skip(0) =~= field@);
        read_digits(field, 0)
    }
}

/// Builds the game that a serialized position describes, if the text
/// describes one.
pub fn parse_fen(fen: &str) -> (parsed: Option<Game>)
    ensures
        match parsed {
            Some(game) => fen_parses(fen@) && game@ == fen_position(fen@),
            None => !fen_parses(fen@),
        },
{
    let text = chars_of(fen);
    let fen_parts = split_at(&text, ' ');
    let ghost fields = split(fen@, ' ');
    assert(fields == text_views(fen_parts@));
    if fen_parts.len() < 5 {
        return None;
    }
    let board_rows = split_at(&fen_parts[0], '/');
    let ghost rows = split(fields[0], '/');
    proof {
        assert(fields[0] == fen_parts@[0]@);
        assert(fields[1] == fen_parts@[1]@);
        assert(fields[2] == fen_parts@[2]@);
        assert(fields[3] == fen_parts@[3]@);
        assert(fields[4] == fen_parts@[4]@);
        assert(rows == text_views(board_rows@));
    }
    if board_rows.len() < 8 {
        return None;
    }
    let mut board: [Piece; 64] = [Piece::empty(); 64];
    assert(Some(board_view(board)) =~= place_rows(rows, 0));
    let mut row: usize = 0;
    while row < 8
        invariant
            0 <= row <= 8,
            rows == text_views(board_rows@),
            rows == split(split(fen@, ' ')[0], '/'),
            rows.len() >= 8,
            Some(board_view(board)) == place_rows(rows, row as nat),
        decreases 8 - row,
    {
        assert(rows[row as int] == board_rows@[row as int]@);
        if !read_row(&mut board, row, &board_rows[row]) {
            proof {
                assert(place_rows(rows, (row + 1) as nat) is None);
                if place_rows(rows, 8) is Some {
                    lemma_rows_placed(rows, (row + 1) as nat);
                }
            }
            return None;
        }
        row += 1;
    }
    let ghost placed = board_view(board);

    let white_king: usize = find_king(&board, WHITE);
    let black_king: usize = find_king(&board, BLACK);
    let king_square: [usize; 2] = [white_king, black_king];

    let turn: usize = if is_text(&fen_parts[1], 'b') { BLACK } else { WHITE };

    let castle_rights = &fen_parts[2];
    apply_right(&mut board, castle_rights, 'K', 63);
    apply_right(&mut board, castle_rights, 'Q', 56);
    apply_right(&mut board, castle_rights, 'k', 7);
    apply_right(&mut board, castle_rights, 'q', 0);

    let possible_ep_capture: usize = match read_ep(&fen_parts[3]) {
        Some(marker) => marker,
        None => {
            return None;
        },
    };
    let half_move_clock: usize = match read_clock(&fen_parts[4]) {
        Some(value) => value,
        None => {
            return None;
        },
    };

    let game = Game { board, turn, possible_ep_capture, king_square, half_move_clock };
    proof {
        assert(game@.board =~= with_rights(placed, fields[2]));
        assert(game@.king_square =~= fen_position(fen@).king_square);
    }
    Some(game)
}

/// Builds the game that a serialized position describes.
pub fn convert_fen_to_game(fen: &str) -> (game: Game)
    requires
        fen_parses(fen@),
    ensures
        game@ == fen_position(fen@),
{
    match parse_fen(fen) {
        Some(game) => game,
        None => unreached(),
    }
}

/// Whether a text is the one character `c`.
fn is_text(text: &Vec<char>, c: char) -> (same: bool)
    ensures
        same == (text@ == seq![c]),
{
    if text.len() == 1 && text[0] == c {
        assert(text@ =~= seq![c]);
        true
    } else {
        false
    }
}

/// Where all of the first eight rows can be read, so can the first `n`.
proof fn lemma_rows_placed(rows: Seq<Seq<char>>, n: nat)
    requires
        n <= 8,
        place_rows(rows, 8) is Some,
    ensures
        place_rows(rows, n) is Some,
    decreases 8 - n,
{
    if n < 8 {
        lemma_rows_placed(rows, n + 1);
    }
}

} // verus!
