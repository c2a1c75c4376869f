//! A player's board: an uninterpreted physics blob and a sparse grid of fruit.

use vstd::prelude::*;

verus! {

/// What a grid cell holds. The order of the variants is the order of their
/// ordinals, `0` for `Cherry` up to `10` for `Watermelon`.
#[derive(Clone, Copy, Debug, PartialEq, Eq, Structural)]
pub enum FruitType {
    Cherry,
    Strawberry,
    Grape,
    Orange,
    Persimmon,
    Apple,
    Yuzu,
    Peach,
    Pineapple,
    Honeydew,
    Watermelon,
}

impl FruitType {
    /// The ordinal of a fruit.
    pub open spec fn ordinal(self) -> u8 {
        match self {
            FruitType::Cherry => 0,
            FruitType::Strawberry => 1,
            FruitType::Grape => 2,
            FruitType::Orange => 3,
            FruitType::Persimmon => 4,
            FruitType::Apple => 5,
            FruitType::Yuzu => 6,
            FruitType::Peach => 7,
            FruitType::Pineapple => 8,
            FruitType::Honeydew => 9,
            FruitType::Watermelon => 10,
        }
    }

    /// The fruit with ordinal `byte`, if there is one.
    pub open spec fn of_ordinal(byte: u8) -> Option<FruitType> {
        if byte == 0 {
            Some(FruitType::Cherry)
        } else if byte == 1 {
            Some(FruitType::Strawberry)
        } else if byte == 2 {
            Some(FruitType::Grape)
        } else if byte == 3 {
            Some(FruitType::Orange)
        } else if byte == 4 {
            Some(FruitType::Persimmon)
        } else if byte == 5 {
            Some(FruitType::Apple)
        } else if byte == 6 {
            Some(FruitType::Yuzu)
        } else if byte == 7 {
            Some(FruitType::Peach)
        } else if byte == 8 {
            Some(FruitType::Pineapple)
        } else if byte == 9 {
            Some(FruitType::Honeydew)
        } else if byte == 10 {
            Some(FruitType::Watermelon)
        } else {
            None
        }
    }

    /// The ordinal of the fruit, as it goes over the wire.
    pub fn to_byte(self) -> (byte: u8)
        ensures
            byte == self.ordinal(),
    {
        match self {
            FruitType::Cherry => 0,
            FruitType::Strawberry => 1,
            FruitType::Grape => 2,
            FruitType::Orange => 3,
            FruitType::Persimmon => 4,
            FruitType::Apple => 5,
            FruitType::Yuzu => 6,
            FruitType::Peach => 7,
            FruitType::Pineapple => 8,
            FruitType::Honeydew => 9,
            FruitType::Watermelon => 10,
        }
    }

    /// The fruit with ordinal `byte`; `None` for a byte above 10.
    pub fn from_byte(byte: u8) -> (fruit: Option<FruitType>)
        ensures
            fruit == Self::of_ordinal(byte),
    {
        match byte {
            0 => Some(FruitType::Cherry),
            1 => Some(FruitType::Strawberry),
            2 => Some(FruitType::Grape),
            3 => Some(FruitType::Orange),
            4 => Some(FruitType::Persimmon),
            5 => Some(FruitType::Apple),
            6 => Some(FruitType::Yuzu),
            7 => Some(FruitType::Peach),
            8 => Some(FruitType::Pineapple),
            9 => Some(FruitType::Honeydew),
            10 => Some(FruitType::Watermelon),
            _ => None,
        }
    }
}

/// Ordinals run from 0 to 10, and a fruit is recovered from its ordinal.
pub proof fn lemma_ordinal_round_trip(fruit: FruitType)
    ensures
        fruit.ordinal() <= 10,
        FruitType::of_ordinal(fruit.ordinal()) == Some(fruit),
{
}

/// Exactly the bytes 0 to 10 are ordinals, each of the fruit it names.
pub proof fn lemma_of_ordinal(byte: u8)
    ensures
        FruitType::of_ordinal(byte) is Some <==> byte <= 10,
        FruitType::of_ordinal(byte) matches Some(fruit) ==> fruit.ordinal() == byte,
{
}

/// One occupied cell of the grid.
#[derive(Clone, Copy, Debug, PartialEq, Eq, Structural)]
pub struct Cell {
    pub x: u32,
    pub y: u32,
    pub fruit: FruitType,
}

/// The coordinates of each cell, in order.
pub open spec fn cell_keys(cells: Seq<Cell>) -> Seq<(u32, u32)> {
    cells.map_values(|c: Cell| (c.x, c.y))
}

/// No coordinate is occupied twice.
pub open spec fn cells_unique(cells: Seq<Cell>) -> bool {
    cell_keys(cells).no_duplicates()
}

/// The fruit at `(x, y)`, if that cell is occupied.
pub open spec fn cell_at(cells: Seq<Cell>, x: u32, y: u32) -> Option<FruitType> {
    match cell_keys(cells).index_of_first((x, y)) {
        Some(i) => Some(cells[i].fruit),
        None => None,
    }
}

/// The grid after `cell` is put in: in place where its coordinate was
/// occupied, at the end where it was not.
pub open spec fn put_cell(cells: Seq<Cell>, cell: Cell) -> Seq<Cell> {
    match cell_keys(cells).index_of_first((cell.x, cell.y)) {
        Some(i) => cells.update(i, cell),
        None => cells.push(cell),
    }
}

/// Putting a cell in keeps coordinates unique.
pub proof fn lemma_put_cell_unique(cells: Seq<Cell>, cell: Cell)
    requires
        cells_unique(cells),
    ensures
        cells_unique(put_cell(cells, cell)),
{
    let keys = cell_keys(cells);
    keys.index_of_first_ensures((cell.x, cell.y));
    let after = put_cell(cells, cell);
    let after_keys = cell_keys(after);
    match keys.index_of_first((cell.x, cell.y)) {
        Some(i) => {
            assert(after_keys =~= keys);
        },
        None => {
            assert(after_keys =~= keys.push((cell.x, cell.y)));
            assert forall|a: int, b: int|
                0 <= a < after_keys.len() && 0 <= b < after_keys.len() && a != b implies after_keys[a]
                != after_keys[b] by {
                if a < keys.len() {
                    assert(keys.contains(keys[a]));
                }
                if b < keys.len() {
                    assert(keys.contains(keys[b]));
                }
            }
        },
    }
}

/// After a cell is put in, its coordinate holds its fruit and every other
/// coordinate holds what it held before.
pub proof fn lemma_put_cell_lookup(cells: Seq<Cell>, cell: Cell, x: u32, y: u32)
    ensures
        cell_at(put_cell(cells, cell), x, y) == if x == cell.x && y == cell.y {
            Some(cell.fruit)
        } else {
            cell_at(cells, x, y)
        },
{
    let keys = cell_keys(cells);
    let after = put_cell(cells, cell);
    let after_keys = cell_keys(after);
    keys.index_of_first_ensures((cell.x, cell.y));
    keys.index_of_first_ensures((x, y));
    after_keys.index_of_first_ensures((x, y));
    match keys.index_of_first((cell.x, cell.y)) {
        Some(i) => {
            assert(after_keys =~= keys);
        },
        None => {
            assert(after_keys =~= keys.push((cell.x, cell.y)));
            if x == cell.x && y == cell.y {
                assert(after_keys[keys.len() as int] == (x, y));
                let k = after_keys.index_of_first((x, y)).unwrap();
                if k < keys.len() {
                    assert(keys.contains(keys[k]));
                }
            } else {
                match keys.index_of_first((x, y)) {
                    Some(j) => {
                        assert(after_keys[j] == (x, y));
                        let k = after_keys.index_of_first((x, y)).unwrap();
                        if k < j {
                            assert(keys[k] == (x, y));
                        }
                    },
                    None => {
                        if after_keys.contains((x, y)) {
                            let k = after_keys.index_of_first((x, y)).unwrap();
                            assert(keys[k] == (x, y));
                            assert(keys.contains((x, y)));
                        }
                    },
                }
            }
        },
    }
}

/// What a board is: its blob and its occupied cells in the order in which
/// their coordinates were first put in.
pub struct BoardView {
    pub blob: Seq<u8>,
    pub cells: Seq<Cell>,
}

/// A player's board.
#[derive(Debug, PartialEq, Eq)]
pub struct BoardState {
    rapier_state: Vec<u8>,
    fruit_data: Vec<Cell>,
}

impl View for BoardState {
    type V = BoardView;

    closed spec fn view(&self) -> BoardView {
        BoardView { blob: self.rapier_state@, cells: self.fruit_data@ }
    }
}

impl Clone for BoardState {
    fn clone(&self) -> (copy: Self)
        ensures
            copy@ == self@,
    {
        let copy = BoardState {
            rapier_state: self.rapier_state.clone(),
            fruit_data: self.fruit_data.clone(),
        };
        assert(copy.rapier_state@ =~= self.rapier_state@);
        assert(copy.fruit_data@ =~= self.fruit_data@);
        copy
    }
}

impl BoardState {
    /// No coordinate of the grid is occupied twice.
    pub open spec fn wf(&self) -> bool {
        cells_unique(self@.cells)
    }

    /// The empty board: no blob, no cell.
    pub fn new() -> (board: Self)
        ensures
            board@.blob == Seq::<u8>::empty(),
            board@.cells == Seq::<Cell>::empty(),
            board.wf(),
    {
        BoardState { rapier_state: Vec::new(), fruit_data: Vec::new() }
    }

    /// The physics blob, which nothing here looks into.
    pub fn rapier_state(&self) -> (blob: &Vec<u8>)
        ensures
            blob@ == self@.blob,
    {
        &self.rapier_state
    }

    /// Replaces the blob and leaves the grid as it is.
    pub fn set_rapier_state(&mut self, blob: Vec<u8>)
        ensures
            final(self)@.blob == blob@,
            final(self)@.cells == old(self)@.cells,
    {
        self.rapier_state = blob;
    }

    /// The occupied cells.
    pub fn fruit_data(&self) -> (cells: &Vec<Cell>)
        ensures
            cells@ == self@.cells,
    {
        &self.fruit_data
    }

    /// Index of the cell at `(x, y)`.
    fn position(&self, x: u32, y: u32) -> (found: Option<usize>)
        ensures
            match found {
                Some(i) => i < self@.cells.len() && cell_keys(self@.cells).index_of_first((x, y))
                    == Some(i as int),
                None => cell_keys(self@.cells).index_of_first((x, y)) is None,
            },
    {
        let ghost keys = cell_keys(self@.cells);
        let mut i: usize = 0;
        while i < self.fruit_data.len()
            invariant
                i <= self.fruit_data.len(),
                keys == cell_keys(self@.cells),
                self@.cells == self.fruit_data@,
                forall|j: int| 0 <= j < i ==> keys[j] != (x, y),
            decreases self.fruit_data.len() - i,
        {
            if self.fruit_data[i].x == x && self.fruit_data[i].y == y {
                proof {
                    assert(keys[i as int] == (x, y));
                    keys.index_of_first_ensures((x, y));
                }
                return Some(i);
            }
            i += 1;
        }
        proof {
            keys.index_of_first_ensures((x, y));
        }
        None
    }

    /// The fruit at `(x, y)`, if that cell is occupied.
    pub fn get(&self, x: u32, y: u32) -> (fruit: Option<FruitType>)
        ensures
            fruit == cell_at(self@.cells, x, y),
    {
        match self.position(x, y) {
            Some(i) => Some(self.fruit_data[i].fruit),
            None => None,
        }
    }

    /// Puts `fruit` at `(x, y)` and returns what the cell held before.
    pub fn insert(&mut self, x: u32, y: u32, fruit: FruitType) -> (previous: Option<FruitType>)
        ensures
            final(self)@.blob == old(self)@.blob,
            final(self)@.cells == put_cell(old(self)@.cells, Cell { x, y, fruit }),
            previous == cell_at(old(self)@.cells, x, y),
            old(self).wf() ==> final(self).wf(),
    {
        proof {
            if self.wf() {
                lemma_put_cell_unique(self@.cells, Cell { x, y, fruit });
            }
        }
        match self.position(x, y) {
            Some(i) => {
                let previous = self.fruit_data[i].fruit;
                self.fruit_data.set(i, Cell { x, y, fruit });
                Some(previous)
            },
            None => {
                self.fruit_data.push(Cell { x, y, fruit });
                None
            },
        }
    }
}

} // verus!
