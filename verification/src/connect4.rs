//! The Connect-4 arena: a board, two players that are virtual machines, and
//! the game that lets them move in turn.

use vstd::prelude::*;
use vstd::string::*;
use crate::text::{decimal, hex_word, push_decimal, push_hex_word};
use crate::vm::{counter_word, lemma_run_time, lemma_step_accounting, prefix_image, quiet, run, spec_step};
use crate::vm::{MachineState, Segment, StepResult, VirtualMachine};

verus! {

#[derive(Debug, PartialEq, Eq, Clone, Copy, Structural)]
pub enum Player {
    One,
    Two,
}

impl Player {
    pub open spec fn spec_other(self) -> Player {
        match self {
            Player::One => Player::Two,
            Player::Two => Player::One,
        }
    }

    #[must_use]
    pub fn other(&self) -> (other: Self)
        ensures
            other == self.spec_other(),
    {
        match self {
            Self::One => Self::Two,
            Self::Two => Self::One,
        }
    }

    #[must_use]
    pub fn numeric(&self) -> (number: u8)
        ensures
            number == (if *self == Player::One {
                1u8
            } else {
                2u8
            }),
    {
        match self {
            Self::One => 1,
            Self::Two => 2,
        }
    }
}

#[derive(Debug, PartialEq, Eq, Clone, Copy, Structural)]
pub enum SlotState {
    Token(Player),
    Empty,
}

#[derive(Debug, PartialEq, Eq, Clone, Copy, Structural)]
pub enum PlacementResult {
    Success,
    InvalidColumn,
    ColumnFull,
    Connect4,
}

pub const DEFAULT_WIDTH: usize = 7;

pub const DEFAULT_HEIGHT: usize = 6;

/// The board as a mathematical value. Slots are stored column by column:
/// slot `(x, y)` is at index `x * height + y`, and `y` counts from the bottom.
#[verifier::ext_equal]
pub struct BoardState {
    pub width: nat,
    pub height: nat,
    pub slots: Seq<SlotState>,
}

/// Number of slots of `slots` that hold a token.
pub open spec fn count_tokens(slots: Seq<SlotState>) -> nat
    decreases slots.len(),
{
    if slots.len() == 0 {
        0
    } else {
        count_tokens(slots.drop_last()) + (if slots.last() is Token {
            1nat
        } else {
            0nat
        })
    }
}

impl BoardState {
    /// An empty board.
    pub open spec fn empty(width: nat, height: nat) -> Self {
        BoardState { width, height, slots: Seq::new(width * height, |i: int| SlotState::Empty) }
    }

    pub open spec fn in_bounds(self, x: int, y: int) -> bool {
        0 <= x < self.width && 0 <= y < self.height
    }

    pub open spec fn slot(self, x: int, y: int) -> SlotState {
        self.slots[x * self.height + y]
    }

    /// The sizes are those of a Connect-4 board, every slot exists, and in
    /// each column the tokens lie on each other from the bottom up: above an
    /// empty slot every slot is empty.
    pub open spec fn well_formed(self) -> bool {
        &&& 3 < self.width < 0x100
        &&& 3 < self.height < 0x100
        &&& self.slots.len() == self.width * self.height
        &&& forall|x: int, y1: int, y2: int|
            0 <= x < self.width && 0 <= y1 <= y2 < self.height && (#[trigger] self.slot(x, y1))
                is Empty ==> (#[trigger] self.slot(x, y2)) is Empty
    }

    /// The lowest empty slot of column `x` at or above `from`; the height
    /// where there is none.
    pub open spec fn lowest_empty(self, x: int, from: int) -> int
        decreases self.height - from,
    {
        if from >= self.height {
            self.height as int
        } else if self.slot(x, from) is Empty {
            from
        } else {
            self.lowest_empty(x, from + 1)
        }
    }

    /// How many slots in a row hold `token`, going from `(x, y)` in steps of
    /// `(dx, dy)`, starting with the step number `i`, up to the first slot
    /// that holds something else or lies off the board.
    pub open spec fn streak(self, x: int, y: int, dx: int, dy: int, token: SlotState, i: int) -> nat
        decreases 0x200 - i,
    {
        if 1 <= i < 0x200 && self.in_bounds(x + i * dx, y + i * dy) && self.slot(
            x + i * dx,
            y + i * dy,
        ) == token {
            1 + self.streak(x, y, dx, dy, token, i + 1)
        } else {
            0
        }
    }

    /// Length of the line of equal tokens through `(x, y)` along `(dx, dy)`.
    pub open spec fn line(self, x: int, y: int, dx: int, dy: int) -> nat {
        self.streak(x, y, -dx, -dy, self.slot(x, y), 1) + 1 + self.streak(
            x,
            y,
            dx,
            dy,
            self.slot(x, y),
            1,
        )
    }

    /// Whether the token at `(x, y)` lies in a line of four or more equal
    /// tokens: along a row, a column or one of the two diagonals.
    pub open spec fn connects_four(self, x: int, y: int) -> bool {
        ||| self.line(x, y, 1, -1) >= 4
        ||| self.line(x, y, 1, 0) >= 4
        ||| self.line(x, y, 1, 1) >= 4
        ||| self.line(x, y, 0, 1) >= 4
    }

    /// The board is full when no slot of the top row is empty.
    pub open spec fn full(self) -> bool {
        forall|x: int| 0 <= x < self.width ==> (#[trigger] self.slot(x, self.height - 1)) is Token
    }

    /// Dropping a token of `player` into `column`.
    pub open spec fn place(self, column: u16, player: Player) -> (BoardState, PlacementResult) {
        let y = self.lowest_empty(column as int, 0);
        if column >= self.width {
            (self, PlacementResult::InvalidColumn)
        } else if y >= self.height {
            (self, PlacementResult::ColumnFull)
        } else {
            let next = BoardState {
                slots: self.slots.update(column * self.height + y, SlotState::Token(player)),
                ..self
            };
            (
                next,
                if next.connects_four(column as int, y) {
                    PlacementResult::Connect4
                } else {
                    PlacementResult::Success
                },
            )
        }
    }

    /// What a player sees in place of `state`: 0 for an empty slot, 1 for a
    /// token of its own, 2 for a token of the opponent.
    pub open spec fn encode_slot(state: SlotState, viewer: Player) -> u16 {
        match state {
            SlotState::Empty => 0,
            SlotState::Token(owner) => if owner == viewer {
                1
            } else {
                2
            },
        }
    }

    /// The data segment `data` after the board was written into it for
    /// `viewer`: slot number `i` goes to address `4 + i`.
    pub open spec fn encode(self, viewer: Player, data: Seq<u16>) -> Seq<u16> {
        Seq::new(
            data.len(),
            |a: int|
                if 4 <= a < 4 + self.slots.len() {
                    Self::encode_slot(self.slots[a - 4], viewer)
                } else {
                    data[a]
                },
        )
    }
}

/// A slot of a board lies inside the slots: `x * height + y` is an index.
pub proof fn lemma_index_in_range(width: int, height: int, x: int, y: int)
    by (nonlinear_arith)
    requires
        0 <= x < width,
        0 <= y < height,
    ensures
        0 <= x * height + y < width * height,
        0 <= x * height <= (width - 1) * height,
{
}

/// Two slots have the same index only where they are the same slot.
pub proof fn lemma_index_injective(height: int, x1: int, y1: int, x2: int, y2: int)
    by (nonlinear_arith)
    requires
        0 <= y1 < height,
        0 <= y2 < height,
        0 <= x1,
        0 <= x2,
        x1 * height + y1 == x2 * height + y2,
    ensures
        x1 == x2,
        y1 == y2,
{
}

/// A board of at most 255 by 255 slots has at most 65025 of them.
pub proof fn lemma_area(width: int, height: int)
    by (nonlinear_arith)
    requires
        0 <= width < 0x100,
        0 <= height < 0x100,
    ensures
        0 <= width * height <= 65025,
{
}


/// A Connect-4 board.
#[derive(Debug, PartialEq, Eq, Clone)]
pub struct Board {
    slots: Vec<SlotState>,
    width: usize,
    height: usize,
}

impl View for Board {
    type V = BoardState;

    closed spec fn view(&self) -> BoardState {
        BoardState { width: self.width as nat, height: self.height as nat, slots: self.slots@ }
    }
}

/// A token dropped on the lowest empty slot of a column leaves the board well
/// formed: the column still has its tokens at the bottom.
pub proof fn lemma_place_well_formed(board: BoardState, x: int, y: int, player: Player)
    requires
        board.well_formed(),
        board.in_bounds(x, y),
        board.slot(x, y) is Empty,
        forall|below: int| 0 <= below < y ==> (#[trigger] board.slot(x, below)) is Token,
    ensures
        (BoardState {
            slots: board.slots.update(x * board.height + y, SlotState::Token(player)),
            ..board
        }).well_formed(),
        count_tokens(board.slots.update(x * board.height + y, SlotState::Token(player)))
            == count_tokens(board.slots) + 1,
{
    let next = BoardState {
        slots: board.slots.update(x * board.height + y, SlotState::Token(player)),
        ..board
    };
    lemma_index_in_range(board.width as int, board.height as int, x, y);
    assert forall|x2: int, y2: int| board.in_bounds(x2, y2) implies #[trigger] next.slot(x2, y2)
        == (if x2 == x && y2 == y {
        SlotState::Token(player)
    } else {
        board.slot(x2, y2)
    }) by {
        lemma_index_in_range(board.width as int, board.height as int, x2, y2);
        if x2 * board.height + y2 == x * board.height + y {
            lemma_index_injective(board.height as int, x2, y2, x, y);
        }
    }
    assert forall|x2: int, y1: int, y2: int|
        0 <= x2 < next.width && 0 <= y1 <= y2 < next.height && (#[trigger] next.slot(x2, y1))
            is Empty implies (#[trigger] next.slot(x2, y2)) is Empty by {
        assert(board.in_bounds(x2, y1) && board.in_bounds(x2, y2));
        assert(board.slot(x2, y1) is Empty);
        assert(board.slot(x2, y2) is Empty);
        if x2 == x {
            assert(y1 >= y);
        }
    }
    lemma_count_update(board.slots, x * board.height + y, SlotState::Token(player));
}

/// Putting a token on an empty slot adds one to the number of tokens.
pub proof fn lemma_count_update(slots: Seq<SlotState>, index: int, token: SlotState)
    requires
        0 <= index < slots.len(),
        slots[index] is Empty,
        token is Token,
    ensures
        count_tokens(slots.update(index, token)) == count_tokens(slots) + 1,
    decreases slots.len(),
{
    let next = slots.update(index, token);
    if index == slots.len() - 1 {
        assert(next.drop_last() =~= slots.drop_last());
    } else {
        assert(next.drop_last() =~= slots.drop_last().update(index, token));
        lemma_count_update(slots.drop_last(), index, token);
    }
}

/// There are never more tokens than slots, and fewer where a slot is empty.
pub proof fn lemma_count_bound(slots: Seq<SlotState>)
    ensures
        count_tokens(slots) <= slots.len(),
        (exists|i: int| 0 <= i < slots.len() && slots[i] is Empty) ==> count_tokens(slots)
            < slots.len(),
    decreases slots.len(),
{
    if slots.len() > 0 {
        lemma_count_bound(slots.drop_last());
        if exists|i: int| 0 <= i < slots.len() && slots[i] is Empty {
            let i = choose|i: int| 0 <= i < slots.len() && slots[i] is Empty;
            if i < slots.len() - 1 {
                assert(slots.drop_last()[i] is Empty);
            }
        }
    }
}

/// `i` steps of `d`, for a direction `d` of -1, 0 or 1.
fn scaled(i: isize, d: isize) -> (offset: isize)
    requires
        -1 <= d <= 1,
        0 <= i <= 0x200,
    ensures
        offset == i * d,
        offset == (if d == 1 {
            i as int
        } else if d == -1 {
            -i
        } else {
            0
        }),
{
    assert(i * d == (if d == 1 {
        i as int
    } else if d == -1 {
        -i
    } else {
        0
    })) by (nonlinear_arith)
        requires
            -1 <= d <= 1,
    ;
    if d == 1 {
        i
    } else if d == -1 {
        -i
    } else {
        0
    }
}

impl Board {
    /// An empty board of the given size.
    #[must_use]
    pub fn new_custom(width: usize, height: usize) -> (board: Self)
        requires
            3 < width < 0x100,
            3 < height < 0x100,
        ensures
            board@ == BoardState::empty(width as nat, height as nat),
            board@.well_formed(),
    {
        proof {
            lemma_area(width as int, height as int);
        }
        let count = width * height;
        let mut slots: Vec<SlotState> = Vec::new();
        while slots.len() < count
            invariant
                slots@.len() <= count,
                forall|i: int| 0 <= i < slots@.len() ==> slots@[i] == SlotState::Empty,
            decreases count - slots@.len(),
        {
            slots.push(SlotState::Empty);
        }
        proof {
            let state = BoardState { width: width as nat, height: height as nat, slots: slots@ };
            assert(state =~= BoardState::empty(width as nat, height as nat));
            assert forall|x: int, y1: int, y2: int|
                0 <= x < state.width && 0 <= y1 <= y2 < state.height && (#[trigger] state.slot(
                    x,
                    y1,
                )) is Empty implies (#[trigger] state.slot(x, y2)) is Empty by {
                lemma_index_in_range(width as int, height as int, x, y2);
            }
        }
        Self { slots, width, height }
    }

    /// The place of slot `(x, y)` among the slots.
    pub fn index(&self, x: usize, y: usize) -> (index: usize)
        requires
            self@.well_formed(),
            x < self@.width,
            y < self@.height,
        ensures
            index == x * self@.height + y,
            index < self@.slots.len(),
    {
        proof {
            lemma_index_in_range(self.width as int, self.height as int, x as int, y as int);
            lemma_area(self.width as int, self.height as int);
        }
        x * self.height + y
    }

    #[must_use]
    pub fn get_width(&self) -> (width: usize)
        ensures
            width == self@.width,
    {
        self.width
    }

    #[must_use]
    pub fn get_height(&self) -> (height: usize)
        ensures
            height == self@.height,
    {
        self.height
    }

    #[must_use]
    pub fn get_slot(&self, x: usize, y: usize) -> (state: SlotState)
        requires
            self@.well_formed(),
            x < self@.width,
            y < self@.height,
        ensures
            state == self@.slot(x as int, y as int),
    {
        let index = self.index(x, y);
        self.slots[index]
    }

    /// Counts the tokens equal to the one at `(x, y)` that follow it in the
    /// direction `(dx, dy)` without a gap.
    fn count_towards(&self, x: usize, y: usize, dx: isize, dy: isize) -> (streak: usize)
        requires
            self@.well_formed(),
            x < self@.width,
            y < self@.height,
            -1 <= dx <= 1,
            -1 <= dy <= 1,
            dx != 0 || dy != 0,
        ensures
            streak == self@.streak(
                x as int,
                y as int,
                dx as int,
                dy as int,
                self@.slot(x as int, y as int),
                1,
            ),
            streak < 0x100,
    {
        let expect_slot = self.get_slot(x, y);
        let mut streak: usize = 0;
        let mut i: isize = 1;
        loop
            invariant
                self@.well_formed(),
                x < self@.width,
                y < self@.height,
                -1 <= dx <= 1,
                -1 <= dy <= 1,
                dx != 0 || dy != 0,
                1 <= i <= 0x100,
                streak == i - 1,
                expect_slot == self@.slot(x as int, y as int),
                streak + self@.streak(x as int, y as int, dx as int, dy as int, expect_slot, i as int)
                    == self@.streak(x as int, y as int, dx as int, dy as int, expect_slot, 1),
            ensures
                streak == self@.streak(x as int, y as int, dx as int, dy as int, expect_slot, 1),
                streak < 0x100,
            decreases 0x100 - i,
        {
            let new_x = x as isize + scaled(i, dx);
            let new_y = y as isize + scaled(i, dy);
            if new_x < 0 || new_y < 0 {
                break ;
            }
            if new_x as usize >= self.width || new_y as usize >= self.height {
                break ;
            }
            if self.get_slot(new_x as usize, new_y as usize) != expect_slot {
                break ;
            }
            streak = streak + 1;
            i = i + 1;
        }
        streak
    }

    /// Whether the token at `(x, y)` completes a line of four.
    fn have_connect4(&self, x: usize, y: usize) -> (connected: bool)
        requires
            self@.well_formed(),
            x < self@.width,
            y < self@.height,
        ensures
            connected == self@.connects_four(x as int, y as int),
    {
        if self.count_towards(x, y, -1, 1) + 1 + self.count_towards(x, y, 1, -1) >= 4 {
            return true;
        }
        if self.count_towards(x, y, -1, 0) + 1 + self.count_towards(x, y, 1, 0) >= 4 {
            return true;
        }
        if self.count_towards(x, y, -1, -1) + 1 + self.count_towards(x, y, 1, 1) >= 4 {
            return true;
        }
        if self.count_towards(x, y, 0, -1) + 1 + self.count_towards(x, y, 0, 1) >= 4 {
            return true;
        }
        false
    }

    /// Drops a token of `player` into the column with the given number: it
    /// comes to lie on the lowest empty slot. A number that names no column,
    /// or a column without an empty slot, leaves the board as it was.
    pub fn place_into_unsanitized_column(&mut self, column_index: u16, player: Player) -> (result:
        PlacementResult)
        requires
            old(self)@.well_formed(),
        ensures
            (final(self)@, result) == old(self)@.place(column_index, player),
            final(self)@.well_formed(),
    {
        if column_index as usize >= self.width {
            return PlacementResult::InvalidColumn;
        }
        let x = column_index as usize;
        let mut y: usize = 0;
        while y < self.height
            invariant
                self@ == old(self)@,
                self@.well_formed(),
                x == column_index,
                x < self@.width,
                y <= self@.height,
                self@.lowest_empty(x as int, 0) == self@.lowest_empty(x as int, y as int),
                forall|below: int| 0 <= below < y ==> (#[trigger] self@.slot(x as int, below))
                    is Token,
            decreases self@.height - y,
        {
            if self.get_slot(x, y) == SlotState::Empty {
                let slot_index = self.index(x, y);
                proof {
                    lemma_place_well_formed(self@, x as int, y as int, player);
                }
                self.slots.set(slot_index, SlotState::Token(player));
                assert(self@ =~= (BoardState {
                    slots: old(self)@.slots.update(
                        column_index * old(self)@.height + y,
                        SlotState::Token(player),
                    ),
                    ..old(self)@
                }));
                if self.have_connect4(x, y) {
                    return PlacementResult::Connect4;
                }
                return PlacementResult::Success;
            }
            y = y + 1;
        }
        PlacementResult::ColumnFull
    }

    /// Writes the board into `segment` as `current_player` sees it, from
    /// address 4 on. The other words of the segment stay.
    pub fn encode_onto(&self, current_player: Player, segment: &mut Segment)
        requires
            self@.well_formed(),
        ensures
            final(segment)@ == self@.encode(current_player, old(segment)@),
    {
        proof {
            lemma_area(self.width as int, self.height as int);
            segment.lemma_len();
        }
        let mut i: usize = 0;
        while i < self.slots.len()
            invariant
                i <= self@.slots.len() <= 65025,
                segment@.len() == 65536,
                old(segment)@.len() == 65536,
                forall|a: int|
                    0 <= a < 65536 ==> segment@[a] == (if 4 <= a < 4 + i {
                        BoardState::encode_slot(self@.slots[a - 4], current_player)
                    } else {
                        old(segment)@[a]
                    }),
            decreases self@.slots.len() - i,
        {
            let value: u16 = match self.slots[i] {
                SlotState::Empty => 0,
                SlotState::Token(token_player) => if token_player == current_player {
                    1
                } else {
                    2
                },
            };
            segment.set((i + 4) as u16, value);
            i = i + 1;
        }
        assert(segment@ =~= self@.encode(current_player, old(segment)@));
    }

    /// Whether every column is filled to the top.
    #[must_use]
    pub fn is_full(&self) -> (full: bool)
        requires
            self@.well_formed(),
        ensures
            full == self@.full(),
    {
        let mut x: usize = 0;
        while x < self.width
            invariant
                self@.well_formed(),
                x <= self@.width,
                forall|before: int|
                    0 <= before < x ==> (#[trigger] self@.slot(before, self@.height - 1)) is Token,
            decreases self@.width - x,
        {
            if self.get_slot(x, self.height - 1) == SlotState::Empty {
                return false;
            }
            x = x + 1;
        }
        true
    }
}

impl Default for Board {
    fn default() -> (board: Self)
        ensures
            board@ == BoardState::empty(DEFAULT_WIDTH as nat, DEFAULT_HEIGHT as nat),
            board@.well_formed(),
    {
        Self::new_custom(DEFAULT_WIDTH, DEFAULT_HEIGHT)
    }
}


/// In a column of a well-formed board, the lowest empty slot at or above
/// `from` is empty, and between `from` and it every slot holds a token.
pub proof fn lemma_lowest_empty(board: BoardState, x: int, from: int)
    requires
        0 <= from <= board.height,
    ensures
        from <= board.lowest_empty(x, from) <= board.height,
        board.lowest_empty(x, from) < board.height ==> board.slot(x, board.lowest_empty(x, from))
            is Empty,
        forall|y: int|
            from <= y < board.lowest_empty(x, from) ==> (#[trigger] board.slot(x, y)) is Token,
    decreases board.height - from,
{
    if from < board.height && !(board.slot(x, from) is Empty) {
        lemma_lowest_empty(board, x, from + 1);
    }
}

/// Dropping a token keeps the board well formed, whatever the column. The
/// number of tokens grows by one where the token found a slot, and stays
/// where it did not.
pub proof fn lemma_place(board: BoardState, column: u16, player: Player)
    requires
        board.well_formed(),
    ensures
        board.place(column, player).0.well_formed(),
        board.place(column, player).0.width == board.width,
        board.place(column, player).0.height == board.height,
        (board.place(column, player).1 is Success || board.place(column, player).1 is Connect4)
            ==> column < board.width && count_tokens(board.place(column, player).0.slots)
            == count_tokens(board.slots) + 1,
        (board.place(column, player).1 is InvalidColumn || board.place(column, player).1
            is ColumnFull) ==> board.place(column, player).0 == board,
{
    lemma_lowest_empty(board, column as int, 0);
    let y = board.lowest_empty(column as int, 0);
    if column < board.width && y < board.height {
        lemma_place_well_formed(board, column as int, y, player);
    }
}

/// The board after a sequence of tokens was dropped, each into its column.
pub open spec fn place_all(board: BoardState, moves: Seq<(u16, Player)>) -> BoardState
    decreases moves.len(),
{
    if moves.len() == 0 {
        board
    } else {
        place_all(board, moves.drop_last()).place(moves.last().0, moves.last().1).0
    }
}

/// After any sequence of placements every column holds its tokens in one run
/// from the bottom up, and there are never more tokens than slots.
pub proof fn lemma_columns_stay_anchored(board: BoardState, moves: Seq<(u16, Player)>)
    requires
        board.well_formed(),
    ensures
        place_all(board, moves).well_formed(),
        place_all(board, moves).width == board.width,
        place_all(board, moves).height == board.height,
        count_tokens(place_all(board, moves).slots) <= board.width * board.height,
    decreases moves.len(),
{
    if moves.len() > 0 {
        lemma_columns_stay_anchored(board, moves.drop_last());
        lemma_place(place_all(board, moves.drop_last()), moves.last().0, moves.last().1);
    }
    lemma_count_bound(place_all(board, moves).slots);
}

pub const GAME_VERSION_MAJOR: u16 = 0x0001;

pub const GAME_VERSION_MINOR: u16 = 0x0001;

/// What a player's program answered when it was asked for a move.
#[derive(Debug, PartialEq, Eq, Clone, Copy, Structural)]
pub enum AlgorithmResult {
    /// The column it yielded, and whether the machine has been deterministic.
    Column(u16, bool),
    IllegalInstruction(u16),
    Timeout,
}

/// A player: its machine and what the game records of it.
#[derive(Debug, Clone)]
pub struct PlayerData {
    vm: VirtualMachine,
    last_move: u16,
    total_moves: u16,
    total_insns: u64,
}

/// A player as a mathematical value.
#[verifier::ext_equal]
pub struct PlayerState {
    pub vm: MachineState,
    pub last_move: u16,
    pub total_moves: nat,
    pub total_insns: nat,
}

impl PlayerState {
    /// A player that has not moved yet. Its data segment holds the two
    /// version words at its highest addresses.
    pub open spec fn initial(instructions: Seq<u16>) -> Self {
        PlayerState {
            vm: MachineState::initial(
                instructions,
                prefix_image(Seq::empty()).update(0xFFFF, GAME_VERSION_MAJOR).update(
                    0xFFFE,
                    GAME_VERSION_MINOR,
                ),
            ),
            last_move: 0xFFFF,
            total_moves: 0,
            total_insns: 0,
        }
    }

    /// The player as it is asked for a move: the step budget stands in the
    /// data words 0 to 3, the board as the player sees it stands from word 4
    /// on, and the registers 0 to 3 hold the opponent's last move, the
    /// board's width, its height, and zero.
    pub open spec fn prepared(
        self,
        identity: Player,
        max_steps: u64,
        board: BoardState,
        opponent_last_move: u16,
    ) -> Self {
        PlayerState {
            vm: MachineState {
                data: board.encode(
                    identity,
                    self.vm.data.update(0, counter_word(max_steps as nat, 0)).update(
                        1,
                        counter_word(max_steps as nat, 1),
                    ).update(2, counter_word(max_steps as nat, 2)).update(
                        3,
                        counter_word(max_steps as nat, 3),
                    ),
                ),
                ..self.vm.write_low_registers(
                    opponent_last_move,
                    board.width as u16,
                    board.height as u16,
                    0,
                )
            },
            ..self
        }
    }
}

/// Whether a player that is asked for a move in the state `pre` can end in
/// the state `post` with the answer `result`. The machine first makes the
/// steps of `entropy`, which all are passed over; `last` is the entropy of
/// the step that yields or is illegal. A player that used up `max_steps`
/// steps without either has timed out. Every step that the machine made is
/// charged to the player: the steps that were passed over, and the yield;
/// an illegal instruction is no step and is not charged.
pub open spec fn answer_outcome(
    pre: PlayerState,
    max_steps: u64,
    entropy: Seq<u64>,
    last: u64,
    post: PlayerState,
    result: AlgorithmResult,
) -> bool {
    let reached = run(pre.vm, entropy);
    &&& entropy.len() <= max_steps
    &&& quiet(pre.vm, entropy)
    &&& match result {
        AlgorithmResult::Timeout => {
            &&& entropy.len() == max_steps
            &&& post == (PlayerState {
                vm: reached,
                total_insns: pre.total_insns + max_steps as nat,
                ..pre
            })
        },
        AlgorithmResult::IllegalInstruction(instruction) => {
            &&& entropy.len() < max_steps
            &&& spec_step(reached, last) == (reached, StepResult::IllegalInstruction(instruction))
            &&& post == (PlayerState {
                vm: reached,
                total_insns: pre.total_insns + entropy.len(),
                ..pre
            })
        },
        AlgorithmResult::Column(column, deterministic) => {
            &&& entropy.len() < max_steps
            &&& spec_step(reached, last).1 == StepResult::Yield(column)
            &&& deterministic == spec_step(reached, last).0.deterministic_so_far
            &&& post == (PlayerState {
                vm: spec_step(reached, last).0,
                last_move: column,
                total_moves: pre.total_moves + 1,
                total_insns: pre.total_insns + entropy.len() + 1,
            })
        },
    }
}

impl View for PlayerData {
    type V = PlayerState;

    closed spec fn view(&self) -> PlayerState {
        PlayerState {
            vm: self.vm@,
            last_move: self.last_move,
            total_moves: self.total_moves as nat,
            total_insns: self.total_insns as nat,
        }
    }
}

impl PlayerData {
    pub fn new(instructions: Segment) -> (player: Self)
        ensures
            player@ == PlayerState::initial(instructions@),
    {
        let mut data = Segment::new_zeroed();
        data.set(0xFFFF, GAME_VERSION_MAJOR);
        data.set(0xFFFE, GAME_VERSION_MINOR);
        let vm = VirtualMachine::new(instructions, data);
        Self { vm, last_move: 0xFFFF, total_moves: 0, total_insns: 0 }
    }

    pub fn get_total_moves(&self) -> (total_moves: u16)
        ensures
            total_moves == self@.total_moves,
    {
        self.total_moves
    }

    /// Overwrites the number of moves that the player has made.
    pub fn set_total_moves(&mut self, total_moves: u16)
        ensures
            final(self)@ == (PlayerState { total_moves: total_moves as nat, ..old(self)@ }),
    {
        self.total_moves = total_moves;
    }

    pub fn get_total_insns(&self) -> (total_insns: u64)
        ensures
            total_insns == self@.total_insns,
    {
        self.total_insns
    }

    /// The column that the player yielded last; `0xFFFF` before its first move.
    pub fn get_last_move(&self) -> (last_move: u16)
        ensures
            last_move == self@.last_move,
    {
        self.last_move
    }

    pub fn get_vm(&self) -> (vm: &VirtualMachine)
        ensures
            vm@ == self@.vm,
    {
        &self.vm
    }

    /// The player's machine, to be changed in place.
    pub fn get_vm_mut(&mut self) -> (vm: &mut VirtualMachine)
        ensures
            vm@ == old(self)@.vm,
            final(self)@ == (PlayerState { vm: final(vm)@, ..old(self)@ }),
    {
        &mut self.vm
    }

    /// Writes into the player's machine what it is told before each move.
    pub fn update_data(&mut self, own_identity: Player, max_steps: u64, board: &Board, other: &Self)
        requires
            board@.well_formed(),
        ensures
            final(self)@ == old(self)@.prepared(
                own_identity,
                max_steps,
                board@,
                other@.last_move,
            ),
    {
        self.vm.set_data_word(0x0000, ((max_steps / 0x1_0000_0000_0000) % 0x1_0000) as u16);
        self.vm.set_data_word(0x0001, ((max_steps / 0x1_0000_0000) % 0x1_0000) as u16);
        self.vm.set_data_word(0x0002, ((max_steps / 0x1_0000) % 0x1_0000) as u16);
        self.vm.set_data_word(0x0003, (max_steps % 0x1_0000) as u16);
        board.encode_onto(own_identity, self.vm.get_data_mut());
        self.vm.set_register(0, other.last_move);
        self.vm.set_register(1, board.get_width() as u16);
        self.vm.set_register(2, board.get_height() as u16);
        self.vm.set_register(3, 0x0000);
    }

    /// Lets the player's machine run until it yields a column, executes an
    /// illegal instruction, or has made `max_steps` steps.
    pub fn determine_answer(&mut self, max_steps: u64) -> (result: AlgorithmResult)
        requires
            old(self)@.vm.time + max_steps <= u64::MAX,
            old(self)@.total_insns + max_steps <= u64::MAX,
            old(self)@.total_moves < u16::MAX,
        ensures
            exists|entropy: Seq<u64>, last: u64|
                answer_outcome(old(self)@, max_steps, entropy, last, final(self)@, result),
    {
        let ghost start = self@;
        let ghost mut entropy: Seq<u64> = Seq::empty();
        let mut step: u64 = 0;
        while step < max_steps
            invariant
                start == old(self)@,
                step <= max_steps,
                entropy.len() == step,
                quiet(start.vm, entropy),
                self@ == (PlayerState { vm: run(start.vm, entropy), ..start }),
                start.vm.time + max_steps <= u64::MAX,
                start.total_insns + max_steps <= u64::MAX,
                start.total_moves < u16::MAX,
            decreases max_steps - step,
        {
            let ghost before = self@.vm;
            proof {
                lemma_run_time(start.vm, entropy);
            }
            let last_step_result = self.vm.step();
            let ghost drawn = choose|e: u64| spec_step(before, e) == (self@.vm, last_step_result);
            match last_step_result {
                StepResult::Continue | StepResult::DebugDump => {
                    proof {
                        let longer = entropy.push(drawn);
                        assert(longer.drop_last() =~= entropy);
                        entropy = longer;
                    }
                },
                StepResult::IllegalInstruction(insn) => {
                    proof {
                        lemma_step_accounting(before, drawn);
                    }
                    self.total_insns = self.total_insns + step;
                    assert(answer_outcome(
                        start,
                        max_steps,
                        entropy,
                        drawn,
                        self@,
                        AlgorithmResult::IllegalInstruction(insn),
                    ));
                    return AlgorithmResult::IllegalInstruction(insn);
                },
                StepResult::Yield(column_index) => {
                    let deterministic = self.vm.was_deterministic_so_far();
                    self.last_move = column_index;
                    self.total_moves = self.total_moves + 1;
                    self.total_insns = self.total_insns + step + 1;
                    assert(answer_outcome(
                        start,
                        max_steps,
                        entropy,
                        drawn,
                        self@,
                        AlgorithmResult::Column(column_index, deterministic),
                    ));
                    return AlgorithmResult::Column(column_index, deterministic);
                },
            }
            step = step + 1;
        }
        self.total_insns = self.total_insns + max_steps;
        assert(answer_outcome(start, max_steps, entropy, 0, self@, AlgorithmResult::Timeout));
        AlgorithmResult::Timeout
    }
}


/// Why a game was won.
#[derive(Debug, PartialEq, Eq, Clone, Copy, Structural)]
pub enum WinReason {
    Connect4,
    Timeout,
    IllegalInstruction(u16),
    IllegalColumn(u16),
    FullColumn(u16),
}

#[derive(Debug, PartialEq, Eq, Clone, Copy, Structural)]
pub enum GameResult {
    Won(Player, WinReason),
    Draw,
}

#[derive(Debug, PartialEq, Eq, Clone, Copy, Structural)]
pub enum GameState {
    RunningNextIs(Player),
    Ended(GameResult),
}

/// The most steps per move that a game accepts: with it the counters of a
/// whole game on the default board fit in 64 bits.
pub const MAX_STEPS_LIMIT: u64 = 0xFFFF_FFFF_FFFF_FFFF / 42;

/// A game of Connect-4 between two programs.
#[derive(Debug, Clone)]
pub struct Game {
    player_one: PlayerData,
    player_two: PlayerData,
    board: Board,
    state: GameState,
    max_steps: u64,
    deterministic_so_far: bool,
    move_order: Vec<u8>,
}

/// A game as a mathematical value.
#[verifier::ext_equal]
pub struct GameModel {
    pub player_one: PlayerState,
    pub player_two: PlayerState,
    pub board: BoardState,
    pub state: GameState,
    pub max_steps: u64,
    pub deterministic_so_far: bool,
    pub move_order: Seq<u8>,
}

impl GameModel {
    /// A game before its first move.
    pub open spec fn initial(one: Seq<u16>, two: Seq<u16>, max_steps: u64) -> Self {
        GameModel {
            player_one: PlayerState::initial(one),
            player_two: PlayerState::initial(two),
            board: BoardState::empty(DEFAULT_WIDTH as nat, DEFAULT_HEIGHT as nat),
            state: GameState::RunningNextIs(Player::One),
            max_steps,
            deterministic_so_far: true,
            move_order: Seq::empty(),
        }
    }

    pub open spec fn player(self, who: Player) -> PlayerState {
        match who {
            Player::One => self.player_one,
            Player::Two => self.player_two,
        }
    }

    pub open spec fn with_player(self, who: Player, state: PlayerState) -> Self {
        match who {
            Player::One => GameModel { player_one: state, ..self },
            Player::Two => GameModel { player_two: state, ..self },
        }
    }

    /// What a player may have counted while the game runs: each of its moves
    /// took at most the limit of steps.
    pub open spec fn within_budget(self, who: Player) -> bool {
        &&& self.player(who).vm.time <= self.player(who).total_moves * MAX_STEPS_LIMIT
        &&& self.player(who).total_insns <= self.player(who).total_moves * MAX_STEPS_LIMIT
    }

    /// The board is the default board and well formed; every token on it is
    /// one move of the move order; and while the game runs the board is not
    /// full, each player's moves are on the board, and the counters have
    /// room for the moves to come.
    pub open spec fn well_formed(self) -> bool {
        &&& self.board.well_formed()
        &&& self.board.width == DEFAULT_WIDTH
        &&& self.board.height == DEFAULT_HEIGHT
        &&& self.max_steps <= MAX_STEPS_LIMIT
        &&& self.move_order.len() == count_tokens(self.board.slots)
        &&& self.player_one.total_moves + self.player_two.total_moves <= self.move_order.len() + 1
        &&& self.state is RunningNextIs ==> {
            &&& !self.board.full()
            &&& self.player_one.total_moves + self.player_two.total_moves
                == self.move_order.len()
            &&& self.within_budget(Player::One)
            &&& self.within_budget(Player::Two)
        }
    }

    /// The moves that a running game can still take: one for each empty
    /// slot, and the one that ends it. An ended game takes none.
    pub open spec fn moves_left(self) -> nat {
        if self.state is Ended {
            0
        } else {
            (self.board.width * self.board.height - self.move_order.len() + 1) as nat
        }
    }

    /// The game after `mover` gave `answer`. A column is played; where that
    /// fills the board the game is drawn. Everything else ends the game: a
    /// line of four wins it for the mover, and a column that does not exist
    /// or is full, an illegal instruction or a timeout win it for the other
    /// player.
    pub open spec fn settle(self, mover: Player, answer: AlgorithmResult) -> Self {
        match answer {
            AlgorithmResult::Column(column, deterministic) => {
                let placed = self.board.place(column, mover);
                let flagged = GameModel {
                    deterministic_so_far: self.deterministic_so_far && deterministic,
                    ..self
                };
                match placed.1 {
                    PlacementResult::Success => GameModel {
                        board: placed.0,
                        move_order: self.move_order.push(column as u8),
                        state: if placed.0.full() {
                            GameState::Ended(GameResult::Draw)
                        } else {
                            GameState::RunningNextIs(mover.spec_other())
                        },
                        ..flagged
                    },
                    PlacementResult::Connect4 => GameModel {
                        board: placed.0,
                        move_order: self.move_order.push(column as u8),
                        state: GameState::Ended(GameResult::Won(mover, WinReason::Connect4)),
                        ..flagged
                    },
                    PlacementResult::InvalidColumn => GameModel {
                        state: GameState::Ended(
                            GameResult::Won(mover.spec_other(), WinReason::IllegalColumn(column)),
                        ),
                        ..flagged
                    },
                    PlacementResult::ColumnFull => GameModel {
                        state: GameState::Ended(
                            GameResult::Won(mover.spec_other(), WinReason::FullColumn(column)),
                        ),
                        ..flagged
                    },
                }
            },
            AlgorithmResult::IllegalInstruction(instruction) => GameModel {
                state: GameState::Ended(
                    GameResult::Won(mover.spec_other(), WinReason::IllegalInstruction(instruction)),
                ),
                ..self
            },
            AlgorithmResult::Timeout => GameModel {
                state: GameState::Ended(GameResult::Won(mover.spec_other(), WinReason::Timeout)),
                ..self
            },
        }
    }
}

/// Whether one move can take the game from `pre` to `post`. An ended game
/// stays as it is. In a running game the player whose turn it is gets its
/// data, answers as `answer_outcome` says, and the answer is settled.
pub open spec fn move_outcome(
    pre: GameModel,
    entropy: Seq<u64>,
    last: u64,
    answer: AlgorithmResult,
    post: GameModel,
) -> bool {
    match pre.state {
        GameState::Ended(_) => post == pre,
        GameState::RunningNextIs(mover) => {
            let asked = pre.player(mover).prepared(
                mover,
                pre.max_steps,
                pre.board,
                pre.player(mover.spec_other()).last_move,
            );
            exists|answered: PlayerState|
                #![trigger pre.with_player(mover, answered)]
                answer_outcome(asked, pre.max_steps, entropy, last, answered, answer) && post
                    == pre.with_player(mover, answered).settle(mover, answer)
        },
    }
}

/// Whether there is a move that takes the game from `pre` to `post`.
pub open spec fn can_move(pre: GameModel, post: GameModel) -> bool {
    exists|entropy: Seq<u64>, last: u64, answer: AlgorithmResult|
        move_outcome(pre, entropy, last, answer, post)
}

/// Whether `n` moves in a row can take the game from `pre` to `post`.
pub open spec fn reaches(pre: GameModel, post: GameModel, n: nat) -> bool
    decreases n,
{
    if n == 0 {
        pre == post
    } else {
        exists|middle: GameModel| reaches(pre, middle, (n - 1) as nat) && can_move(middle, post)
    }
}

impl View for Game {
    type V = GameModel;

    closed spec fn view(&self) -> GameModel {
        GameModel {
            player_one: self.player_one@,
            player_two: self.player_two@,
            board: self.board@,
            state: self.state,
            max_steps: self.max_steps,
            deterministic_so_far: self.deterministic_so_far,
            move_order: self.move_order@,
        }
    }
}


/// A sequence of empty slots holds no token.
pub proof fn lemma_count_empty(slots: Seq<SlotState>)
    requires
        forall|i: int| 0 <= i < slots.len() ==> slots[i] is Empty,
    ensures
        count_tokens(slots) == 0,
    decreases slots.len(),
{
    if slots.len() > 0 {
        lemma_count_empty(slots.drop_last());
    }
}

/// A well-formed board that is not full has fewer tokens than slots.
pub proof fn lemma_not_full(board: BoardState)
    requires
        board.well_formed(),
        !board.full(),
    ensures
        count_tokens(board.slots) < board.width * board.height,
{
    let x = choose|x: int| 0 <= x < board.width && !(#[trigger] board.slot(x, board.height - 1)
        is Token);
    lemma_index_in_range(board.width as int, board.height as int, x, board.height - 1);
    assert(board.slots[x * board.height + (board.height - 1)] is Empty);
    lemma_count_bound(board.slots);
}

/// A player that answers within `max_steps` steps has counted at most that
/// many more: its machine's time and its charged steps grow by no more.
pub proof fn lemma_answer_budget(
    pre: PlayerState,
    max_steps: u64,
    entropy: Seq<u64>,
    last: u64,
    post: PlayerState,
    result: AlgorithmResult,
)
    requires
        answer_outcome(pre, max_steps, entropy, last, post, result),
    ensures
        post.vm.time <= pre.vm.time + max_steps,
        post.total_insns <= pre.total_insns + max_steps,
        post.total_moves == pre.total_moves + (if result is Column {
            1nat
        } else {
            0nat
        }),
{
    lemma_run_time(pre.vm, entropy);
    lemma_step_accounting(run(pre.vm, entropy), last);
}

impl Game {
    /// A new game on the default board; player one moves first. Each move
    /// may take `max_steps` steps.
    #[must_use]
    pub fn new(
        instructions_player_one: Segment,
        instructions_player_two: Segment,
        max_steps: u64,
    ) -> (game: Self)
        requires
            max_steps <= MAX_STEPS_LIMIT,
        ensures
            game@ == GameModel::initial(
                instructions_player_one@,
                instructions_player_two@,
                max_steps,
            ),
            game@.well_formed(),
    {
        let game = Self {
            player_one: PlayerData::new(instructions_player_one),
            player_two: PlayerData::new(instructions_player_two),
            board: Board::default(),
            state: GameState::RunningNextIs(Player::One),
            max_steps,
            deterministic_so_far: true,
            move_order: Vec::with_capacity(DEFAULT_WIDTH * DEFAULT_HEIGHT),
        };
        proof {
            lemma_count_empty(game@.board.slots);
            lemma_index_in_range(7, 6, 0, 5);
            assert(game@.board.slot(0, 5) is Empty);
            assert(game@.move_order =~= Seq::empty());
        }
        game
    }

    /// Settles what `mover` answered: plays the column or ends the game.
    pub fn settle(&mut self, mover: Player, answer: AlgorithmResult)
        requires
            old(self)@.board.well_formed(),
        ensures
            final(self)@ == old(self)@.settle(mover, answer),
    {
        let column_index = match answer {
            AlgorithmResult::Column(column_index, deterministic_move) => {
                if !deterministic_move {
                    self.deterministic_so_far = false;
                }
                column_index
            },
            AlgorithmResult::IllegalInstruction(insn) => {
                self.state = GameState::Ended(
                    GameResult::Won(mover.other(), WinReason::IllegalInstruction(insn)),
                );
                return ;
            },
            AlgorithmResult::Timeout => {
                self.state = GameState::Ended(GameResult::Won(mover.other(), WinReason::Timeout));
                return ;
            },
        };
        proof {
            lemma_place(self@.board, column_index, mover);
        }
        let placement_result = self.board.place_into_unsanitized_column(column_index, mover);
        match placement_result {
            PlacementResult::Success => {
                self.move_order.push(column_index as u8);
            },
            PlacementResult::Connect4 => {
                self.move_order.push(column_index as u8);
                self.state = GameState::Ended(GameResult::Won(mover, WinReason::Connect4));
                return ;
            },
            PlacementResult::InvalidColumn => {
                self.state = GameState::Ended(
                    GameResult::Won(mover.other(), WinReason::IllegalColumn(column_index)),
                );
                return ;
            },
            PlacementResult::ColumnFull => {
                self.state = GameState::Ended(
                    GameResult::Won(mover.other(), WinReason::FullColumn(column_index)),
                );
                return ;
            },
        }
        if self.board.is_full() {
            self.state = GameState::Ended(GameResult::Draw);
        } else {
            self.state = GameState::RunningNextIs(mover.other());
        }
    }

    /// Lets the player whose turn it is make its move. An ended game stays
    /// as it is. A running game either ends or has one more token on the
    /// board, so that it has fewer moves left than before.
    pub fn do_move(&mut self)
        requires
            old(self)@.well_formed(),
        ensures
            final(self)@.well_formed(),
            can_move(old(self)@, final(self)@),
            old(self)@.state is Ended ==> final(self)@ == old(self)@,
            old(self)@.state is RunningNextIs ==> final(self)@.moves_left() < old(self)@.moves_left(),
            final(self)@.move_order.len() <= DEFAULT_WIDTH * DEFAULT_HEIGHT,
    {
        proof {
            lemma_count_bound(self@.board.slots);
        }
        let moving_player = match self.state {
            GameState::RunningNextIs(player) => player,
            GameState::Ended(_) => {
                assert(move_outcome(
                    self@,
                    Seq::empty(),
                    0,
                    AlgorithmResult::Timeout,
                    self@,
                ));
                return ;
            },
        };
        let max_steps = self.max_steps;
        proof {
            lemma_not_full(self@.board);
        }
        let ghost asked = self@.player(moving_player).prepared(
            moving_player,
            max_steps,
            self@.board,
            self@.player(moving_player.spec_other()).last_move,
        );
        let answer = match moving_player {
            Player::One => {
                self.player_one.update_data(
                    moving_player,
                    max_steps,
                    &self.board,
                    &self.player_two,
                );
                self.player_one.determine_answer(max_steps)
            },
            Player::Two => {
                self.player_two.update_data(
                    moving_player,
                    max_steps,
                    &self.board,
                    &self.player_one,
                );
                self.player_two.determine_answer(max_steps)
            },
        };
        let ghost answered = self@.player(moving_player);
        let ghost witness = choose|entropy: Seq<u64>, last: u64|
            answer_outcome(asked, max_steps, entropy, last, answered, answer);
        proof {
            lemma_answer_budget(asked, max_steps, witness.0, witness.1, answered, answer);
            assert(self@ =~= old(self)@.with_player(moving_player, answered));
            lemma_place(
                self@.board,
                match answer {
                    AlgorithmResult::Column(column, _) => column,
                    _ => 0,
                },
                moving_player,
            );
        }
        self.settle(moving_player, answer);
        proof {
            assert(move_outcome(old(self)@, witness.0, witness.1, answer, self@));
            lemma_count_bound(self@.board.slots);
        }
    }

    /// Lets the players move until the game has ended, and returns its
    /// result. A game on the default board takes at most 43 moves.
    pub fn conclude(&mut self) -> (result: GameResult)
        requires
            old(self)@.well_formed(),
        ensures
            final(self)@.well_formed(),
            final(self)@.state == GameState::Ended(result),
            exists|n: nat| n <= old(self)@.moves_left() && reaches(old(self)@, final(self)@, n),
    {
        let ghost mut n: nat = 0;
        loop
            invariant
                self@.well_formed(),
                reaches(old(self)@, self@, n),
                n + self@.moves_left() <= old(self)@.moves_left(),
            decreases self@.moves_left(),
        {
            if let GameState::Ended(result) = self.state {
                return result;
            }
            let ghost before = self@;
            self.do_move();
            proof {
                n = n + 1;
                assert(reaches(old(self)@, before, (n - 1) as nat) && can_move(before, self@));
            }
        }
    }

    #[must_use]
    pub fn get_state(&self) -> (state: GameState)
        ensures
            state == self@.state,
    {
        self.state
    }

    /// The number of moves that both players have made.
    #[must_use]
    pub fn get_total_moves(&self) -> (total_moves: u16)
        requires
            self@.well_formed(),
        ensures
            total_moves == self@.player_one.total_moves + self@.player_two.total_moves,
    {
        proof {
            lemma_count_bound(self@.board.slots);
        }
        self.player_one.get_total_moves() + self.player_two.get_total_moves()
    }

    #[must_use]
    pub fn get_player_one_total_insn(&self) -> (total_insns: u64)
        ensures
            total_insns == self@.player_one.total_insns,
    {
        self.player_one.get_total_insns()
    }

    #[must_use]
    pub fn get_player_two_total_insn(&self) -> (total_insns: u64)
        ensures
            total_insns == self@.player_two.total_insns,
    {
        self.player_two.get_total_insns()
    }

    #[must_use]
    pub fn get_player_one(&self) -> (player: &PlayerData)
        ensures
            player@ == self@.player_one,
    {
        &self.player_one
    }

    #[must_use]
    pub fn get_player_two(&self) -> (player: &PlayerData)
        ensures
            player@ == self@.player_two,
    {
        &self.player_two
    }

    #[must_use]
    pub fn get_board(&self) -> (board: &Board)
        ensures
            board@ == self@.board,
    {
        &self.board
    }

    #[must_use]
    pub fn was_deterministic_so_far(&self) -> (deterministic: bool)
        ensures
            deterministic == self@.deterministic_so_far,
    {
        self.deterministic_so_far
    }

    /// The columns of the tokens on the board, in the order they were played.
    #[must_use]
    pub fn get_move_order(&self) -> (move_order: &[u8])
        ensures
            move_order@ == self@.move_order,
    {
        self.move_order.as_slice()
    }
}


/// One move keeps a game well formed. It leaves an ended game as it is, and
/// it takes a running game closer to its end: the game ends, or one more
/// token lies on the board.
pub proof fn lemma_move(pre: GameModel, post: GameModel)
    requires
        pre.well_formed(),
        can_move(pre, post),
    ensures
        post.well_formed(),
        pre.state is Ended ==> post == pre,
        pre.state is RunningNextIs ==> post.moves_left() < pre.moves_left(),
        post.move_order.len() <= DEFAULT_WIDTH * DEFAULT_HEIGHT,
{
    let (entropy, last, answer) = choose|entropy: Seq<u64>, last: u64, answer: AlgorithmResult|
        move_outcome(pre, entropy, last, answer, post);
    lemma_count_bound(pre.board.slots);
    if let GameState::RunningNextIs(mover) = pre.state {
        let asked = pre.player(mover).prepared(
            mover,
            pre.max_steps,
            pre.board,
            pre.player(mover.spec_other()).last_move,
        );
        let answered = choose|answered: PlayerState|
            #![trigger pre.with_player(mover, answered)]
            answer_outcome(asked, pre.max_steps, entropy, last, answered, answer) && post
                == pre.with_player(mover, answered).settle(mover, answer);
        lemma_answer_budget(asked, pre.max_steps, entropy, last, answered, answer);
        lemma_not_full(pre.board);
        lemma_place(
            pre.board,
            match answer {
                AlgorithmResult::Column(column, _) => column,
                _ => 0,
            },
            mover,
        );
        lemma_count_bound(post.board.slots);
    }
}

/// A game that is still running after `n` moves had at least `n` more moves
/// left at the start than it has now. So a game on the default board, whose
/// 42 slots leave it 43 moves, has ended after 43 moves: 42 tokens at most
/// are played, and one more move at most ends it.
pub proof fn lemma_game_length(pre: GameModel, post: GameModel, n: nat)
    requires
        pre.well_formed(),
        reaches(pre, post, n),
    ensures
        post.well_formed(),
        post.move_order.len() <= DEFAULT_WIDTH * DEFAULT_HEIGHT,
        post.moves_left() <= pre.moves_left(),
        post.state is RunningNextIs ==> n + post.moves_left() <= pre.moves_left(),
        n >= pre.moves_left() ==> post.state is Ended,
    decreases n,
{
    lemma_count_bound(pre.board.slots);
    if n > 0 {
        let middle = choose|middle: GameModel|
            reaches(pre, middle, (n - 1) as nat) && can_move(middle, post);
        lemma_game_length(pre, middle, (n - 1) as nat);
        lemma_move(middle, post);
    }
}

/// The step budget of each move in the games that are run for a record.
pub const STEPS_PER_MOVE: u64 = 30_000;

/// How many games are run where the first one used random numbers: their
/// outcomes are sampled.
pub const SAMPLED_GAMES: usize = 1000;

/// The columns of the moves as decimal numbers, one after the other.
pub open spec fn moves_text(moves: Seq<u8>) -> Seq<char>
    decreases moves.len(),
{
    if moves.len() == 0 {
        Seq::empty()
    } else {
        moves_text(moves.drop_last()) + decimal(moves.last() as nat)
    }
}

/// Why the game was won, in words.
pub open spec fn reason_text(reason: WinReason) -> Seq<char> {
    match reason {
        WinReason::Connect4 => "connect4"@,
        WinReason::Timeout => "timeout of the opponent"@,
        WinReason::IllegalInstruction(instruction) => "illegal instruction (0x"@ + hex_word(
            instruction,
        ) + ") of the opponent"@,
        WinReason::IllegalColumn(column) => "opponent's attempt to move at non-existent column "@
            + decimal(column as nat),
        WinReason::FullColumn(column) => "opponent's attempt to move at full column "@ + decimal(
            column as nat,
        ),
    }
}

/// The members of the JSON object that tells the result of a game.
pub open spec fn result_text(result: GameResult) -> Seq<char> {
    match result {
        GameResult::Draw => "\"type\": \"draw\""@,
        GameResult::Won(player, reason) => "\"type\": \"win\", \"by\": "@ + decimal(
            if player == Player::One {
                1
            } else {
                2
            },
        ) + ", \"reason\": \""@ + reason_text(reason) + "\""@,
    }
}

/// The record of a game as one JSON object: its moves, its result, and the
/// steps that were charged to each player.
pub open spec fn record_text(moves: Seq<u8>, result: GameResult, one: nat, two: nat) -> Seq<char> {
    "{\"moves\": \""@ + moves_text(moves) + "\", \"res\": {"@ + result_text(result)
        + "}, \"times\": ["@ + decimal(one) + ", "@ + decimal(two) + "]}"@
}

/// Appends to `text` why the game was won.
fn push_reason(text: &mut String, reason: WinReason)
    ensures
        final(text)@ == old(text)@ + reason_text(reason),
{
    match reason {
        WinReason::Connect4 => {
            text.append("connect4");
        },
        WinReason::Timeout => {
            text.append("timeout of the opponent");
        },
        WinReason::IllegalInstruction(insn) => {
            text.append("illegal instruction (0x");
            push_hex_word(text, insn);
            text.append(") of the opponent");
        },
        WinReason::IllegalColumn(col) => {
            text.append("opponent's attempt to move at non-existent column ");
            push_decimal(text, col as u64);
        },
        WinReason::FullColumn(col) => {
            text.append("opponent's attempt to move at full column ");
            push_decimal(text, col as u64);
        },
    }
    assert(text@ =~= old(text)@ + reason_text(reason));
}

impl Game {
    /// The record of the game with the given result, as one JSON object.
    pub fn format_record(&self, result: GameResult) -> (text: String)
        ensures
            text@ == record_text(
                self@.move_order,
                result,
                self@.player_one.total_insns,
                self@.player_two.total_insns,
            ),
    {
        let mut text = String::from_str("{\"moves\": \"");
        let ghost head = text@;
        let mut i: usize = 0;
        assert(self@.move_order.take(0) =~= Seq::<u8>::empty());
        while i < self.move_order.len()
            invariant
                i <= self@.move_order.len(),
                text@ == head + moves_text(self@.move_order.take(i as int)),
            decreases self@.move_order.len() - i,
        {
            push_decimal(&mut text, self.move_order[i] as u64);
            i = i + 1;
            assert(self@.move_order.take(i as int).drop_last() =~= self@.move_order.take(i - 1));
            assert(text@ =~= head + moves_text(self@.move_order.take(i as int)));
        }
        assert(self@.move_order.take(i as int) =~= self@.move_order);
        text.append("\", \"res\": {");
        let ghost before = text@;
        match result {
            GameResult::Draw => {
                text.append("\"type\": \"draw\"");
            },
            GameResult::Won(player, reason) => {
                text.append("\"type\": \"win\", \"by\": ");
                push_decimal(&mut text, player.numeric() as u64);
                text.append(", \"reason\": \"");
                push_reason(&mut text, reason);
                text.append("\"");
            },
        }
        assert(text@ =~= before + result_text(result));
        text.append("}, \"times\": [");
        push_decimal(&mut text, self.get_player_one_total_insn());
        text.append(", ");
        push_decimal(&mut text, self.get_player_two_total_insn());
        text.append("]}");
        assert(text@ =~= record_text(
            self@.move_order,
            result,
            self@.player_one.total_insns,
            self@.player_two.total_insns,
        ));
        text
    }
}

/// The record of an ended game.
pub open spec fn game_record(game: GameModel) -> Seq<char>
    recommends
        game.state is Ended,
{
    record_text(
        game.move_order,
        game.state->Ended_0,
        game.player_one.total_insns,
        game.player_two.total_insns,
    )
}

/// Whether a game of the two programs, with 30000 steps for each move, can
/// end with the record `text`, having been deterministic or not.
pub open spec fn is_record(one: Seq<u16>, two: Seq<u16>, text: Seq<char>, deterministic: bool) -> bool {
    exists|game: GameModel, n: nat|
        {
            &&& #[trigger] reaches(GameModel::initial(one, two, STEPS_PER_MOVE), game, n)
            &&& game.state is Ended
            &&& text == game_record(game)
            &&& deterministic == game.deterministic_so_far
        }
}

/// Lets the two programs play one game with 30000 steps for each move.
/// Returns the record of the game and whether the game was deterministic.
pub fn run_game(instructions_one: &Segment, instructions_two: &Segment) -> (played: (String, bool))
    ensures
        is_record(instructions_one@, instructions_two@, played.0@, played.1),
{
    let mut game = Game::new(instructions_one.clone(), instructions_two.clone(), STEPS_PER_MOVE);
    let ghost start = game@;
    let result = game.conclude();
    let text = game.format_record(result);
    proof {
        let n = choose|n: nat| n <= start.moves_left() && reaches(start, game@, n);
        assert(reaches(
            GameModel::initial(instructions_one@, instructions_two@, STEPS_PER_MOVE),
            game@,
            n,
        ));
    }
    (text, game.was_deterministic_so_far())
}

/// Whether `records` can be the records of the games that are run for two
/// programs, where `deterministic` tells of each game whether it was
/// deterministic. One game is run where the first one was deterministic,
/// and 1000 where it was not; `consistent` tells whether none of the
/// further games was deterministic.
pub open spec fn sampled(
    one: Seq<u16>,
    two: Seq<u16>,
    records: Seq<String>,
    consistent: bool,
    deterministic: Seq<bool>,
) -> bool {
    &&& deterministic.len() == records.len()
    &&& forall|i: int|
        0 <= i < records.len() ==> is_record(one, two, (#[trigger] records[i])@, deterministic[i])
    &&& records.len() == (if deterministic[0] {
        1
    } else {
        SAMPLED_GAMES as int
    })
    &&& consistent == (forall|i: int| 1 <= i < deterministic.len() ==> !#[trigger] deterministic[i])
}

/// Runs the game once; where it used random numbers, runs it 999 times more
/// to sample its outcomes. Returns the records of all the games, and whether
/// each of the further games used random numbers too.
pub fn run_many_games(instructions_one: &Segment, instructions_two: &Segment) -> (played: (
    Vec<String>,
    bool,
))
    ensures
        exists|deterministic: Seq<bool>|
            sampled(instructions_one@, instructions_two@, played.0@, played.1, deterministic),
{
    let mut records: Vec<String> = Vec::new();
    let first = run_game(instructions_one, instructions_two);
    let ghost mut deterministic: Seq<bool> = seq![first.1];
    records.push(first.0);
    if first.1 {
        let played = (records, true);
        assert(sampled(instructions_one@, instructions_two@, played.0@, played.1, deterministic));
        return played;
    }
    let mut consistent = true;
    while records.len() < SAMPLED_GAMES
        invariant
            1 <= records@.len() <= SAMPLED_GAMES,
            deterministic.len() == records@.len(),
            !deterministic[0],
            forall|i: int|
                0 <= i < records@.len() ==> is_record(
                    instructions_one@,
                    instructions_two@,
                    (#[trigger] records@[i])@,
                    deterministic[i],
                ),
            consistent == (forall|i: int|
                1 <= i < deterministic.len() ==> !#[trigger] deterministic[i]),
        decreases SAMPLED_GAMES - records@.len(),
    {
        let next = run_game(instructions_one, instructions_two);
        let ghost before = deterministic;
        proof {
            deterministic = deterministic.push(next.1);
        }
        records.push(next.0);
        if next.1 {
            consistent = false;
            assert(deterministic[deterministic.len() - 1]);
        } else {
            assert forall|i: int| 1 <= i < deterministic.len() && (forall|j: int|
                1 <= j < before.len() ==> !#[trigger] before[j]) implies !#[trigger] deterministic[i] by {
                if i < before.len() {
                    assert(!before[i]);
                }
            }
            assert forall|j: int| 1 <= j < before.len() && (forall|i: int|
                1 <= i < deterministic.len() ==> !#[trigger] deterministic[i]) implies !#[trigger] before[j] by {
                assert(!deterministic[j]);
            }
        }
    }
    let played = (records, consistent);
    assert(sampled(instructions_one@, instructions_two@, played.0@, played.1, deterministic));
    played
}

} // verus!
