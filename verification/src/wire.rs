//! The wire format. Every message starts with a one-byte tag. A length and a
//! coordinate are four bytes, least significant first. A blob, a string (as
//! UTF-8) and a grid each follow their length; a grid's length counts cells,
//! and a cell is its two coordinates and the ordinal of its fruit.

use vstd::prelude::*;
use vstd::slice::*;
use vstd::string::*;
use vstd::utf8::encode_utf8;
use crate::board::{cells_unique, cell_keys, put_cell, BoardState, BoardView, Cell, FruitType};
use crate::game::{
    ClientMessageView, ClientToServerMessage, ServerMessageView, ServerToClientMessage,
};

verus! {

/// Tag of `ClientToServerMessage::Drop`.
pub const TAG_DROP: u8 = 0;

/// Tag of `ServerToClientMessage::PlayerJoined`.
pub const TAG_PLAYER_JOINED: u8 = 0;

/// Tag of `ServerToClientMessage::PlayerLeft`.
pub const TAG_PLAYER_LEFT: u8 = 1;

/// Tag of `ServerToClientMessage::GameStart`.
pub const TAG_GAME_START: u8 = 2;

/// Tag of `ServerToClientMessage::BoardUpdate`.
pub const TAG_BOARD_UPDATE: u8 = 3;

/// Tag of `ServerToClientMessage::GameEnd`.
pub const TAG_GAME_END: u8 = 4;

/// Bytes of an encoded cell.
pub const CELL_SIZE: usize = 9;

/// The largest length that the format can express.
pub const MAX_LENGTH: usize = 0xffff_ffff;

/// The four bytes of `x`, least significant first.
pub open spec fn u32_bytes(x: u32) -> Seq<u8> {
    seq![
        (x % 256) as u8,
        ((x / 256) % 256) as u8,
        ((x / 65536) % 256) as u8,
        (x / 16777216) as u8,
    ]
}

/// The number whose four bytes, least significant first, start `bytes`.
pub open spec fn u32_value(bytes: Seq<u8>) -> u32
    recommends
        bytes.len() >= 4,
{
    (bytes[0] + 256 * bytes[1] + 65536 * bytes[2] + 16777216 * bytes[3]) as u32
}

/// Four bytes stand for the number they were made from.
pub proof fn lemma_u32_round_trip(x: u32)
    ensures
        u32_bytes(x).len() == 4,
        u32_value(u32_bytes(x)) == x,
{
}

/// A blob on the wire: its length, then its bytes.
pub open spec fn blob_bytes(blob: Seq<u8>) -> Seq<u8> {
    u32_bytes(blob.len() as u32) + blob
}

/// A string on the wire: its UTF-8 form as a blob.
pub open spec fn string_bytes(text: Seq<char>) -> Seq<u8> {
    blob_bytes(encode_utf8(text))
}

/// A cell on the wire: `x`, `y` and the ordinal of the fruit.
pub open spec fn cell_bytes(cell: Cell) -> Seq<u8> {
    u32_bytes(cell.x) + u32_bytes(cell.y) + seq![cell.fruit.ordinal()]
}

/// The cells one after another.
pub open spec fn cells_bytes(cells: Seq<Cell>) -> Seq<u8>
    decreases cells.len(),
{
    if cells.len() == 0 {
        Seq::empty()
    } else {
        cells_bytes(cells.drop_last()) + cell_bytes(cells.last())
    }
}

/// A board on the wire: the blob, the number of cells, the cells.
pub open spec fn board_bytes(board: BoardView) -> Seq<u8> {
    blob_bytes(board.blob) + u32_bytes(board.cells.len() as u32) + cells_bytes(board.cells)
}

/// Both lengths of a board can be expressed.
pub open spec fn board_fits(board: BoardView) -> bool {
    board.blob.len() <= MAX_LENGTH && board.cells.len() <= MAX_LENGTH
}

/// The length of a string's UTF-8 form can be expressed.
pub open spec fn string_fits(text: Seq<char>) -> bool {
    encode_utf8(text).len() <= MAX_LENGTH
}

/// A message of a player on the wire: its tag, then its fields.
pub open spec fn client_message_bytes(message: ClientMessageView) -> Seq<u8> {
    match message {
        ClientMessageView::Drop { board } => seq![TAG_DROP] + board_bytes(board),
    }
}

/// A message for a player on the wire: its tag, then its fields in the
/// order in which they are declared.
pub open spec fn server_message_bytes(message: ServerMessageView) -> Seq<u8> {
    match message {
        ServerMessageView::PlayerJoined { name } => seq![TAG_PLAYER_JOINED] + string_bytes(name),
        ServerMessageView::PlayerLeft { name } => seq![TAG_PLAYER_LEFT] + string_bytes(name),
        ServerMessageView::GameStart => seq![TAG_GAME_START],
        ServerMessageView::BoardUpdate { player, board } => seq![TAG_BOARD_UPDATE] + string_bytes(
            player,
        ) + board_bytes(board),
        ServerMessageView::GameEnd => seq![TAG_GAME_END],
    }
}

/// Every length in the message can be expressed.
pub open spec fn server_message_fits(message: ServerMessageView) -> bool {
    match message {
        ServerMessageView::PlayerJoined { name } => string_fits(name),
        ServerMessageView::PlayerLeft { name } => string_fits(name),
        ServerMessageView::GameStart => true,
        ServerMessageView::BoardUpdate { player, board } => string_fits(player) && board_fits(
            board,
        ),
        ServerMessageView::GameEnd => true,
    }
}

/// Appends the four bytes of `x`.
fn put_u32(out: &mut Vec<u8>, x: u32)
    ensures
        final(out)@ == old(out)@ + u32_bytes(x),
{
    let ghost before = out@;
    out.push((x % 256) as u8);
    out.push(((x / 256) % 256) as u8);
    out.push(((x / 65536) % 256) as u8);
    out.push((x / 16777216) as u8);
    assert(out@ =~= before + u32_bytes(x));
}

/// Appends `bytes` after their length, if the length can be expressed.
fn put_blob(out: &mut Vec<u8>, bytes: &[u8]) -> (done: bool)
    ensures
        done == (bytes@.len() <= MAX_LENGTH),
        done ==> final(out)@ == old(out)@ + blob_bytes(bytes@),
        !done ==> final(out)@ == old(out)@,
{
    if bytes.len() > MAX_LENGTH {
        return false;
    }
    let ghost before = out@;
    put_u32(out, bytes.len() as u32);
    out.extend_from_slice(bytes);
    assert(out@ =~= before + blob_bytes(bytes@));
    true
}

/// Appends a board, if its lengths can be expressed.
fn put_board(out: &mut Vec<u8>, board: &BoardState) -> (done: bool)
    ensures
        done == board_fits(board@),
        done ==> final(out)@ == old(out)@ + board_bytes(board@),
{
    let cells = board.fruit_data();
    if cells.len() > MAX_LENGTH {
        return false;
    }
    let ghost before = out@;
    if !put_blob(out, board.rapier_state().as_slice()) {
        return false;
    }
    put_u32(out, cells.len() as u32);
    let ghost head = out@;
    let mut i: usize = 0;
    while i < cells.len()
        invariant
            i <= cells.len(),
            out@ == head + cells_bytes(cells@.take(i as int)),
        decreases cells.len() - i,
    {
        let ghost so_far = out@;
        let cell = cells[i];
        put_u32(out, cell.x);
        put_u32(out, cell.y);
        out.push(cell.fruit.to_byte());
        proof {
            let longer = cells@.take(i + 1);
            assert(longer.drop_last() =~= cells@.take(i as int));
            assert(longer.last() == cell);
            assert(out@ =~= so_far + cell_bytes(cell));
            assert(out@ =~= head + cells_bytes(longer));
        }
        i += 1;
    }
    proof {
        assert(cells@.take(i as int) =~= cells@);
        assert(out@ =~= before + board_bytes(board@));
    }
    true
}

/// Appends a string as UTF-8, if its length can be expressed.
fn put_string(out: &mut Vec<u8>, text: &String) -> (done: bool)
    ensures
        done == string_fits(text@),
        done ==> final(out)@ == old(out)@ + string_bytes(text@),
{
    put_blob(out, text.as_str().as_bytes())
}

/// The bytes of a board, if its lengths can be expressed.
pub fn encode_board(board: &BoardState) -> (bytes: Option<Vec<u8>>)
    ensures
        bytes is Some <==> board_fits(board@),
        bytes matches Some(b) ==> b@ == board_bytes(board@),
{
    let mut out: Vec<u8> = Vec::new();
    if put_board(&mut out, board) {
        assert(out@ =~= board_bytes(board@));
        Some(out)
    } else {
        None
    }
}

/// The bytes of a message for a player, if every length in it can be
/// expressed.
pub fn encode_server_message(message: &ServerToClientMessage) -> (bytes: Option<Vec<u8>>)
    ensures
        bytes is Some <==> server_message_fits(message@),
        bytes matches Some(b) ==> b@ == server_message_bytes(message@),
{
    let mut out: Vec<u8> = Vec::new();
    let done = match message {
        ServerToClientMessage::PlayerJoined { name } => {
            out.push(TAG_PLAYER_JOINED);
            put_string(&mut out, name)
        },
        ServerToClientMessage::PlayerLeft { name } => {
            out.push(TAG_PLAYER_LEFT);
            put_string(&mut out, name)
        },
        ServerToClientMessage::GameStart => {
            out.push(TAG_GAME_START);
            true
        },
        ServerToClientMessage::BoardUpdate { player, board } => {
            out.push(TAG_BOARD_UPDATE);
            put_string(&mut out, player) && put_board(&mut out, board)
        },
        ServerToClientMessage::GameEnd => {
            out.push(TAG_GAME_END);
            true
        },
    };
    if done {
        assert(out@ =~= server_message_bytes(message@));
        Some(out)
    } else {
        None
    }
}

/// Why bytes are not a message.
#[derive(Clone, Copy, Debug, PartialEq, Eq, Structural)]
pub enum DecodeError {
    /// The bytes end inside the message.
    UnexpectedEnd,
    /// The first byte is no tag of the vocabulary.
    UnknownTag,
    /// A cell's last byte is no ordinal of a fruit.
    UnknownFruit,
}

/// The number at `at`, if four bytes are there.
pub open spec fn parse_u32(bytes: Seq<u8>, at: int) -> Option<u32> {
    if 0 <= at && at + 4 <= bytes.len() {
        Some(u32_value(bytes.subrange(at, at + 4)))
    } else {
        None
    }
}

/// The blob at `at` and the position behind it.
pub open spec fn parse_blob(bytes: Seq<u8>, at: int) -> Result<(Seq<u8>, int), DecodeError> {
    match parse_u32(bytes, at) {
        Some(length) => if at + 4 + length <= bytes.len() {
            Ok((bytes.subrange(at + 4, at + 4 + length), at + 4 + length))
        } else {
            Err(DecodeError::UnexpectedEnd)
        },
        None => Err(DecodeError::UnexpectedEnd),
    }
}

/// The cell at `at` and the position behind it.
pub open spec fn parse_cell(bytes: Seq<u8>, at: int) -> Result<(Cell, int), DecodeError> {
    if 0 <= at && at + CELL_SIZE <= bytes.len() {
        match FruitType::of_ordinal(bytes[at + 8]) {
            Some(fruit) => Ok(
                (
                    Cell {
                        x: u32_value(bytes.subrange(at, at + 4)),
                        y: u32_value(bytes.subrange(at + 4, at + 8)),
                        fruit,
                    },
                    at + CELL_SIZE,
                ),
            ),
            None => Err(DecodeError::UnknownFruit),
        }
    } else {
        Err(DecodeError::UnexpectedEnd)
    }
}

/// `grid` after the `count` cells at `at` have been put in, one after
/// another, and the position behind them. A coordinate that comes twice
/// keeps its place and takes the later fruit.
pub open spec fn parse_cells(bytes: Seq<u8>, at: int, count: nat, grid: Seq<Cell>) -> Result<
    (Seq<Cell>, int),
    DecodeError,
>
    decreases count,
{
    if count == 0 {
        Ok((grid, at))
    } else {
        match parse_cell(bytes, at) {
            Ok((cell, next)) => parse_cells(bytes, next, (count - 1) as nat, put_cell(grid, cell)),
            Err(error) => Err(error),
        }
    }
}

/// The board at `at` and the position behind it.
pub open spec fn parse_board(bytes: Seq<u8>, at: int) -> Result<(BoardView, int), DecodeError> {
    match parse_blob(bytes, at) {
        Ok((blob, grid_at)) => match parse_u32(bytes, grid_at) {
            Some(count) => match parse_cells(bytes, grid_at + 4, count as nat, Seq::empty()) {
                Ok((cells, next)) => Ok((BoardView { blob, cells }, next)),
                Err(error) => Err(error),
            },
            None => Err(DecodeError::UnexpectedEnd),
        },
        Err(error) => Err(error),
    }
}

/// The message of a player that `bytes` start with. Bytes behind the
/// message are not looked at.
pub open spec fn parse_client_message(bytes: Seq<u8>) -> Result<ClientMessageView, DecodeError> {
    if bytes.len() == 0 {
        Err(DecodeError::UnexpectedEnd)
    } else if bytes[0] != TAG_DROP {
        Err(DecodeError::UnknownTag)
    } else {
        match parse_board(bytes, 1) {
            Ok((board, _)) => Ok(ClientMessageView::Drop { board }),
            Err(error) => Err(error),
        }
    }
}

/// Reads the number at `at`.
fn take_u32(bytes: &[u8], at: usize) -> (value: Option<u32>)
    ensures
        value == parse_u32(bytes@, at as int),
        value is Some ==> at + 4 <= bytes@.len() <= usize::MAX,
{
    if bytes.len() < 4 || at > bytes.len() - 4 {
        return None;
    }
    let b0 = bytes[at] as u32;
    let b1 = bytes[at + 1] as u32;
    let b2 = bytes[at + 2] as u32;
    let b3 = bytes[at + 3] as u32;
    Some(b0 + 256 * b1 + 65536 * b2 + 16777216 * b3)
}

/// Reads the blob at `at`.
fn take_blob(bytes: &[u8], at: usize) -> (result: Result<(Vec<u8>, usize), DecodeError>)
    ensures
        match parse_blob(bytes@, at as int) {
            Ok((blob, next)) => result matches Ok((b, n)) && b@ == blob && n == next && n
                <= bytes@.len() <= usize::MAX,
            Err(error) => result == Err::<(Vec<u8>, usize), DecodeError>(error),
        },
{
    match take_u32(bytes, at) {
        Some(length) => {
            let start = at + 4;
            if length as usize > bytes.len() - start {
                return Err(DecodeError::UnexpectedEnd);
            }
            let end = start + length as usize;
            Ok((slice_to_vec(slice_subrange(bytes, start, end)), end))
        },
        None => Err(DecodeError::UnexpectedEnd),
    }
}

/// Reads the cell at `at`.
fn take_cell(bytes: &[u8], at: usize) -> (result: Result<(Cell, usize), DecodeError>)
    ensures
        match parse_cell(bytes@, at as int) {
            Ok((cell, next)) => result == Ok::<(Cell, usize), DecodeError>((cell, next as usize))
                && 0 <= next <= bytes@.len() <= usize::MAX,
            Err(error) => result == Err::<(Cell, usize), DecodeError>(error),
        },
{
    if bytes.len() < CELL_SIZE || at > bytes.len() - CELL_SIZE {
        return Err(DecodeError::UnexpectedEnd);
    }
    let x = take_u32(bytes, at);
    let y = take_u32(bytes, at + 4);
    match (x, y, FruitType::from_byte(bytes[at + 8])) {
        (Some(x), Some(y), Some(fruit)) => Ok((Cell { x, y, fruit }, at + CELL_SIZE)),
        _ => Err(DecodeError::UnknownFruit),
    }
}

/// Reads the board at `at`.
fn take_board(bytes: &[u8], at: usize) -> (result: Result<(BoardState, usize), DecodeError>)
    ensures
        match parse_board(bytes@, at as int) {
            Ok((board, next)) => result matches Ok((b, n)) && b@ == board && n == next && b.wf(),
            Err(error) => result == Err::<(BoardState, usize), DecodeError>(error),
        },
{
    let (blob, grid_at) = match take_blob(bytes, at) {
        Ok(pair) => pair,
        Err(error) => {
            return Err(error);
        },
    };
    let count = match take_u32(bytes, grid_at) {
        Some(count) => count,
        None => {
            return Err(DecodeError::UnexpectedEnd);
        },
    };
    let ghost blob_read = blob@;
    let mut board = BoardState::new();
    board.set_rapier_state(blob);
    let mut next: usize = grid_at + 4;
    let mut read: u32 = 0;
    let ghost whole = parse_cells(bytes@, grid_at + 4, count as nat, Seq::<Cell>::empty());
    while read < count
        invariant
            read <= count,
            next <= bytes@.len(),
            board@.blob == blob_read,
            board.wf(),
            parse_blob(bytes@, at as int) == Ok::<(Seq<u8>, int), DecodeError>(
                (blob_read, grid_at as int),
            ),
            parse_u32(bytes@, grid_at as int) == Some(count),
            whole == parse_cells(bytes@, grid_at + 4, count as nat, Seq::<Cell>::empty()),
            whole == parse_cells(bytes@, next as int, (count - read) as nat, board@.cells),
        decreases count - read,
    {
        let ghost grid = board@.cells;
        match take_cell(bytes, next) {
            Ok((cell, behind)) => {
                board.insert(cell.x, cell.y, cell.fruit);
                assert(board@.cells == put_cell(grid, cell));
                assert(parse_cell(bytes@, next as int) == Ok::<(Cell, int), DecodeError>(
                    (cell, behind as int),
                ));
                assert(whole == parse_cells(
                    bytes@,
                    behind as int,
                    (count - read - 1) as nat,
                    put_cell(grid, cell),
                ));
                next = behind;
            },
            Err(error) => {
                assert(whole == Err::<(Seq<Cell>, int), DecodeError>(error));
                return Err(error);
            },
        }
        read += 1;
    }
    Ok((board, next))
}

/// Reads the board that `bytes` start with, and says how many bytes it took.
pub fn decode_board(bytes: &[u8]) -> (result: Result<(BoardState, usize), DecodeError>)
    ensures
        match parse_board(bytes@, 0) {
            Ok((board, next)) => result matches Ok((b, n)) && b@ == board && n == next && b.wf(),
            Err(error) => result == Err::<(BoardState, usize), DecodeError>(error),
        },
{
    take_board(bytes, 0)
}

/// Reads the message of a player that `bytes` start with.
pub fn decode_client_message(bytes: &[u8]) -> (result: Result<ClientToServerMessage, DecodeError>)
    ensures
        match parse_client_message(bytes@) {
            Ok(message) => result matches Ok(m) && m@ == message,
            Err(error) => result == Err::<ClientToServerMessage, DecodeError>(error),
        },
{
    if bytes.len() == 0 {
        return Err(DecodeError::UnexpectedEnd);
    }
    if bytes[0] != TAG_DROP {
        return Err(DecodeError::UnknownTag);
    }
    match take_board(bytes, 1) {
        Ok((board, _)) => Ok(ClientToServerMessage::Drop { board }),
        Err(error) => Err(error),
    }
}

/// An encoded grid has `CELL_SIZE` bytes for each cell.
pub proof fn lemma_cells_bytes_len(cells: Seq<Cell>)
    ensures
        cells_bytes(cells).len() == CELL_SIZE * cells.len(),
    decreases cells.len(),
{
    if cells.len() > 0 {
        lemma_cells_bytes_len(cells.drop_last());
    }
}

/// In an encoded grid the bytes of cell `k` start at `CELL_SIZE * k`.
pub proof fn lemma_cells_bytes_at(cells: Seq<Cell>, k: int)
    requires
        0 <= k < cells.len(),
    ensures
        cells_bytes(cells).subrange(CELL_SIZE * k, CELL_SIZE * k + CELL_SIZE) == cell_bytes(
            cells[k],
        ),
    decreases cells.len(),
{
    let front = cells.drop_last();
    lemma_cells_bytes_len(front);
    lemma_cells_bytes_len(cells);
    if k < front.len() {
        lemma_cells_bytes_at(front, k);
        assert(cells_bytes(cells).subrange(CELL_SIZE * k, CELL_SIZE * k + CELL_SIZE)
            =~= cells_bytes(front).subrange(CELL_SIZE * k, CELL_SIZE * k + CELL_SIZE));
    } else {
        assert(cells_bytes(cells).subrange(CELL_SIZE * k, CELL_SIZE * k + CELL_SIZE)
            =~= cell_bytes(cells.last()));
    }
}

/// Where the bytes of a cell stand, that cell is read.
pub proof fn lemma_parse_cell(bytes: Seq<u8>, at: int, cell: Cell)
    requires
        0 <= at,
        at + CELL_SIZE <= bytes.len(),
        bytes.subrange(at, at + CELL_SIZE) == cell_bytes(cell),
    ensures
        parse_cell(bytes, at) == Ok::<(Cell, int), DecodeError>((cell, at + CELL_SIZE)),
{
    let piece = bytes.subrange(at, at + CELL_SIZE);
    lemma_u32_round_trip(cell.x);
    lemma_u32_round_trip(cell.y);
    crate::board::lemma_ordinal_round_trip(cell.fruit);
    assert(bytes.subrange(at, at + 4) =~= piece.subrange(0, 4));
    assert(piece.subrange(0, 4) =~= u32_bytes(cell.x));
    assert(bytes.subrange(at + 4, at + 8) =~= piece.subrange(4, 8));
    assert(piece.subrange(4, 8) =~= u32_bytes(cell.y));
    assert(bytes[at + 8] == piece[8]);
    assert(piece[8] == cell.fruit.ordinal());
}

/// Where the bytes of a grid without a double coordinate stand, its cells
/// from `k` on are read as they were written.
pub proof fn lemma_parse_cells(bytes: Seq<u8>, start: int, cells: Seq<Cell>, k: int)
    requires
        0 <= start,
        0 <= k <= cells.len(),
        start + CELL_SIZE * cells.len() <= bytes.len(),
        bytes.subrange(start, start + CELL_SIZE * cells.len()) == cells_bytes(cells),
        cells_unique(cells),
    ensures
        parse_cells(bytes, start + CELL_SIZE * k, (cells.len() - k) as nat, cells.take(k)) == Ok::<
            (Seq<Cell>, int),
            DecodeError,
        >((cells, start + CELL_SIZE * cells.len())),
    decreases cells.len() - k,
{
    if k == cells.len() {
        assert(cells.take(k) =~= cells);
    } else {
        let at = start + CELL_SIZE * k;
        let all = bytes.subrange(start, start + CELL_SIZE * cells.len());
        lemma_cells_bytes_at(cells, k);
        assert(bytes.subrange(at, at + CELL_SIZE) =~= all.subrange(
            CELL_SIZE * k,
            CELL_SIZE * k + CELL_SIZE,
        ));
        lemma_parse_cell(bytes, at, cells[k]);
        let grid = cells.take(k);
        let keys = cell_keys(grid);
        let key = (cells[k].x, cells[k].y);
        keys.index_of_first_ensures(key);
        if keys.contains(key) {
            let j = keys.index_of(key);
            assert(cell_keys(cells)[j] == key);
            assert(cell_keys(cells)[k] == key);
        }
        assert(put_cell(grid, cells[k]) =~= cells.take(k + 1));
        lemma_parse_cells(bytes, start, cells, k + 1);
    }
}

/// A board without a double coordinate is read as it was written, whatever
/// follows its bytes.
pub proof fn lemma_board_round_trip(board: BoardView, rest: Seq<u8>)
    requires
        board_fits(board),
        cells_unique(board.cells),
    ensures
        parse_board(board_bytes(board) + rest, 0) == Ok::<(BoardView, int), DecodeError>(
            (board, board_bytes(board).len() as int),
        ),
{
    lemma_board_at(board, Seq::empty(), rest);
    assert(Seq::<u8>::empty() + board_bytes(board) + rest =~= board_bytes(board) + rest);
}

/// A board without a double coordinate is read as it was written, whatever
/// stands before and behind its bytes.
pub proof fn lemma_board_at(board: BoardView, front: Seq<u8>, rest: Seq<u8>)
    requires
        board_fits(board),
        cells_unique(board.cells),
    ensures
        parse_board(front + board_bytes(board) + rest, front.len() as int) == Ok::<
            (BoardView, int),
            DecodeError,
        >((board, (front.len() + board_bytes(board).len()) as int)),
{
    let bytes = front + board_bytes(board) + rest;
    let at = front.len() as int;
    let blob_length = board.blob.len() as u32;
    let count = board.cells.len() as u32;
    let grid_at = at + 4 + board.blob.len();
    lemma_u32_round_trip(blob_length);
    lemma_u32_round_trip(count);
    lemma_cells_bytes_len(board.cells);
    assert(bytes.subrange(at, at + 4) =~= u32_bytes(blob_length));
    assert(bytes.subrange(at + 4, grid_at) =~= board.blob);
    assert(bytes.subrange(grid_at, grid_at + 4) =~= u32_bytes(count));
    assert(bytes.subrange(grid_at + 4, grid_at + 4 + CELL_SIZE * board.cells.len())
        =~= cells_bytes(board.cells));
    lemma_parse_cells(bytes, grid_at + 4, board.cells, 0);
    assert(board.cells.take(0) =~= Seq::<Cell>::empty());
}

/// A message of a player whose board has no double coordinate is read as it
/// was written, whatever follows its bytes.
pub proof fn lemma_client_message_round_trip(message: ClientMessageView, rest: Seq<u8>)
    requires
        board_fits(message->board),
        cells_unique(message->board.cells),
    ensures
        parse_client_message(client_message_bytes(message) + rest) == Ok::<
            ClientMessageView,
            DecodeError,
        >(message),
{
    let board = message->board;
    lemma_board_at(board, seq![TAG_DROP], rest);
    assert(seq![TAG_DROP] + board_bytes(board) + rest =~= client_message_bytes(message) + rest);
}

} // verus!
