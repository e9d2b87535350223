//! The stack-machine language that runs on the tiling: the sparse cell map,
//! the program state, the stepping loop and the source parser.

pub mod error;
pub mod instructions;
pub mod io;
pub mod stack_item;

use vstd::prelude::*;

use crate::geometry::rhomb::{AbsoluteDirection, Tile};
use crate::geometry::tile_reference::{
    chars_all_tiles, go_spec, strip_trailing, tiles_from_chars, validate_from,
    CoordinateTraversalError, TileReference, WalkOutcome,
};
use crate::language::error::{ParseError, ParseErrorKind};
use crate::language::instructions::{
    eval_spec, push_value, Instruction, InstructionPointerBehavior, Mode, ModeV,
};
use crate::language::io::{code_of_char, InputBuffer};
use crate::language::stack_item::{
    lemma_vals_view, stack_view, val_view, vals_view, StackItem, ValV,
};

verus! {

/// What one cell of the program holds: its character, and the opcode the
/// character decodes to if it is executable.
pub type Cell = (char, Option<Instruction>);

/// A duplicate-free entry list, read as a mathematical map from address to
/// cell.
pub open spec fn map_entries(s: Seq<(TileReference, char, Option<Instruction>)>) -> Map<
    Seq<Tile>,
    Cell,
>
    decreases s.len(),
{
    if s.len() == 0 {
        Map::empty()
    } else {
        map_entries(s.drop_last()).insert(s.last().0@, (s.last().1, s.last().2))
    }
}

/// No two entries name the same address.
pub open spec fn entries_distinct(s: Seq<(TileReference, char, Option<Instruction>)>) -> bool {
    forall|i: int, j: int| 0 <= i < j < s.len() ==> s[i].0@ != s[j].0@
}

/// An address none of the entries name is not in the map.
proof fn lemma_map_entries_absent(s: Seq<(TileReference, char, Option<Instruction>)>, k: Seq<Tile>)
    requires
        forall|i: int| 0 <= i < s.len() ==> s[i].0@ != k,
    ensures
        !map_entries(s).contains_key(k),
    decreases s.len(),
{
    if s.len() > 0 {
        lemma_map_entries_absent(s.drop_last(), k);
    }
}

/// Each entry is in the map with its own pair.
proof fn lemma_map_entries_index(s: Seq<(TileReference, char, Option<Instruction>)>, i: int)
    requires
        entries_distinct(s),
        0 <= i < s.len(),
    ensures
        map_entries(s).contains_key(s[i].0@),
        map_entries(s)[s[i].0@] == (s[i].1, s[i].2),
    decreases s.len(),
{
    if i == s.len() - 1 {
    } else {
        lemma_map_entries_index(s.drop_last(), i);
    }
}

/// The map's domain counts the entries.
proof fn lemma_map_entries_len(s: Seq<(TileReference, char, Option<Instruction>)>)
    requires
        entries_distinct(s),
    ensures
        map_entries(s).dom().finite(),
        map_entries(s).dom().len() == s.len(),
    decreases s.len(),
{
    if s.len() > 0 {
        lemma_map_entries_len(s.drop_last());
        lemma_map_entries_absent(s.drop_last(), s.last().0@);
    }
}

/// The sparse program: a map from canonical tile addresses to cells, held
/// as a duplicate-free list of entries.
#[derive(Debug)]
pub struct CellMap {
    entries: Vec<(TileReference, char, Option<Instruction>)>,
}

impl View for CellMap {
    type V = Map<Seq<Tile>, Cell>;

    closed spec fn view(&self) -> Map<Seq<Tile>, Cell> {
        map_entries(self.entries@)
    }
}

impl CellMap {
    /// The entry list is duplicate-free, so it reads as a map.
    pub closed spec fn wf(&self) -> bool {
        entries_distinct(self.entries@)
    }

    /// An empty program.
    pub fn new() -> (r: CellMap)
        ensures
            r@ == Map::<Seq<Tile>, Cell>::empty(),
            r.wf(),
    {
        CellMap { entries: Vec::new() }
    }

    /// How many cells are written.
    pub fn len(&self) -> (r: usize)
        requires
            self.wf(),
        ensures
            r == self@.dom().len(),
            self@.dom().finite(),
    {
        proof {
            lemma_map_entries_len(self.entries@);
        }
        self.entries.len()
    }

    /// Whether a cell is written at `c`.
    #[verifier::loop_isolation(false)]
    pub fn contains(&self, c: &TileReference) -> (r: bool)
        requires
            self.wf(),
        ensures
            r == self@.contains_key(c@),
    {
        let mut i: usize = 0;
        while i < self.entries.len()
            invariant
                i <= self.entries@.len(),
                forall|j: int| 0 <= j < i ==> self.entries@[j].0@ != c@,
            decreases self.entries@.len() - i,
        {
            if self.entries[i].0.same_as(c) {
                proof {
                    lemma_map_entries_index(self.entries@, i as int);
                }
                return true;
            }
            i = i + 1;
        }
        proof {
            lemma_map_entries_absent(self.entries@, c@);
        }
        false
    }

    /// The cell written at `c`, if any.
    #[verifier::loop_isolation(false)]
    pub fn get(&self, c: &TileReference) -> (r: Option<Cell>)
        requires
            self.wf(),
        ensures
            self@.contains_key(c@) ==> r == Some(self@[c@]),
            !self@.contains_key(c@) ==> r is None,
    {
        let mut i: usize = 0;
        while i < self.entries.len()
            invariant
                i <= self.entries@.len(),
                forall|j: int| 0 <= j < i ==> self.entries@[j].0@ != c@,
            decreases self.entries@.len() - i,
        {
            if self.entries[i].0.same_as(c) {
                proof {
                    lemma_map_entries_index(self.entries@, i as int);
                }
                return Some((self.entries[i].1, self.entries[i].2));
            }
            i = i + 1;
        }
        proof {
            lemma_map_entries_absent(self.entries@, c@);
        }
        None
    }

    /// Writes the cell at `c`, which must not hold one yet.
    pub fn insert(&mut self, c: TileReference, ch: char, op: Option<Instruction>)
        requires
            old(self).wf(),
            !old(self)@.contains_key(c@),
        ensures
            final(self)@ == old(self)@.insert(c@, (ch, op)),
            final(self).wf(),
    {
        proof {
            assert forall|i: int| 0 <= i < self.entries@.len() implies self.entries@[i].0@
                != c@ by {
                lemma_map_entries_index(self.entries@, i);
            }
        }
        self.entries.push((c, ch, op));
        proof {
            assert(self.entries@.drop_last() =~= old(self).entries@);
        }
    }

    /// Every written cell as `(address, character, opcode)`: the data a
    /// renderer needs, entry for entry the map itself.
    pub fn cells(&self) -> (r: &Vec<(TileReference, char, Option<Instruction>)>)
        requires
            self.wf(),
        ensures
            r@.len() == self@.dom().len(),
            forall|i: int| 0 <= i < r@.len() ==> self@.contains_key(#[trigger] r@[i].0@)
                && self@[r@[i].0@] == (r@[i].1, r@[i].2),
    {
        proof {
            lemma_map_entries_len(self.entries@);
            assert forall|i: int| 0 <= i < self.entries@.len() implies self@.contains_key(
                #[trigger] self.entries@[i].0@,
            ) && self@[self.entries@[i].0@] == (self.entries@[i].1, self.entries@[i].2) by {
                lemma_map_entries_index(self.entries@, i);
            }
        }
        &self.entries
    }
}

/// The mathematical shape of a whole program state.
pub struct StateV {
    pub cells: Map<Seq<Tile>, Cell>,
    pub ip: Seq<Tile>,
    pub direction: AbsoluteDirection,
    pub stack: Seq<ValV>,
    pub mode: ModeV,
}

/// A loaded program under execution: the cell map, the instruction pointer
/// with its outgoing direction, the value stack and the literal mode.
#[derive(Debug)]
pub struct LanguageState {
    code: CellMap,
    instruction_pointer: TileReference,
    direction: AbsoluteDirection,
    stack: Vec<StackItem>,
    mode: Mode,
}

impl View for LanguageState {
    type V = StateV;

    closed spec fn view(&self) -> StateV {
        StateV {
            cells: self.code@,
            ip: self.instruction_pointer@,
            direction: self.direction,
            stack: stack_view(self.stack@),
            mode: self.mode@,
        }
    }
}

/// The direction the walker leaves through after an instruction's
/// behaviour is applied to the direction it faced.
pub open spec fn apply_behavior(
    b: InstructionPointerBehavior,
    d: AbsoluteDirection,
) -> AbsoluteDirection {
    match b {
        InstructionPointerBehavior::Straight => d,
        InstructionPointerBehavior::Left => d.turn_left_spec(),
        InstructionPointerBehavior::Right => d.turn_right_spec(),
        InstructionPointerBehavior::Back => d.opposite_spec(),
    }
}

/// The effect of one fetch under the mode table, before the pointer moves:
/// the new stack, the new mode, the appended output, the remaining input
/// and the pointer behaviour.
pub open spec fn mode_effect(s: StateV, input: Seq<char>) -> (
    Seq<ValV>,
    ModeV,
    Seq<char>,
    Seq<char>,
    InstructionPointerBehavior,
) {
    let cell = if s.cells.contains_key(s.ip) {
        Some(s.cells[s.ip])
    } else {
        None::<Cell>
    };
    let code = match cell {
        Some(c) => code_of_char(c.0),
        None => 0,
    };
    let straight = InstructionPointerBehavior::Straight;
    match s.mode {
        ModeV::Normal => match cell {
            Some(c) => match c.1 {
                Some(instr) => {
                    let eff = eval_spec(instr, s.stack, input);
                    (eff.stack, eff.mode, eff.out, eff.input, eff.behavior)
                },
                None => (s.stack, s.mode, Seq::empty(), input, straight),
            },
            None => (s.stack, s.mode, Seq::empty(), input, straight),
        },
        ModeV::Char => (
            s.stack.push(ValV::Int(code)),
            ModeV::Normal,
            Seq::empty(),
            input,
            straight,
        ),
        ModeV::ArrayString(buf) => if cell matches Some(c) && c.1 == Some(
            Instruction::StartArrayString,
        ) {
            (s.stack.push(ValV::Arr(buf)), ModeV::Normal, Seq::empty(), input, straight)
        } else {
            (
                s.stack,
                ModeV::ArrayString(buf.push(ValV::Int(code))),
                Seq::empty(),
                input,
                straight,
            )
        },
        ModeV::CharString(buf) => if cell matches Some(c) && c.1 == Some(
            Instruction::StartCharacterString,
        ) {
            (s.stack + buf, ModeV::Normal, Seq::empty(), input, straight)
        } else {
            (
                s.stack,
                ModeV::CharString(buf.push(ValV::Int(code))),
                Seq::empty(),
                input,
                straight,
            )
        },
        ModeV::Stopped => (s.stack, s.mode, Seq::empty(), input, straight),
    }
}

impl LanguageState {
    /// The cell map reads as a map.
    pub closed spec fn wf(&self) -> bool {
        self.code.wf()
    }

    /// Whether the program is still running: every mode but `Stopped`.
    pub fn is_running(&self) -> (r: bool)
        ensures
            r == !(self@.mode is Stopped),
    {
        match self.mode {
            Mode::Stopped => false,
            _ => true,
        }
    }

    /// The instruction pointer's address.
    pub fn ip(&self) -> (r: &TileReference)
        ensures
            r@ == self@.ip,
    {
        &self.instruction_pointer
    }

    /// The direction the instruction pointer faces out of its tile.
    pub fn direction(&self) -> (r: AbsoluteDirection)
        ensures
            r == self@.direction,
    {
        self.direction
    }

    /// The value stack, bottom first.
    pub fn stack(&self) -> (r: &Vec<StackItem>)
        ensures
            stack_view(r@) == self@.stack,
    {
        &self.stack
    }

    /// The program's cells.
    pub fn code(&self) -> (r: &CellMap)
        requires
            self.wf(),
        ensures
            r@ == self@.cells,
            r.wf(),
    {
        &self.code
    }

    /// Runs one fetch/execute/move cycle: looks the current cell up, runs
    /// the mode table (executing the cell's opcode in normal mode), then
    /// walks the instruction pointer across the edge the resulting
    /// behaviour picks. The walker then faces out of the tile it entered.
    /// An error is only possible where the edge-walk fails, which
    /// consistent tables never allow; the cells never change.
    #[verifier::rlimit(60)]
    pub fn step(&mut self, out: &mut Vec<char>, input: &mut InputBuffer) -> (r: Result<
        (),
        CoordinateTraversalError,
    >)
        requires
            old(self).wf(),
        ensures
            final(self).wf(),
            final(self)@.cells == old(self)@.cells,
            ({
                let (stk, md, o, inp, beh) = mode_effect(old(self)@, old(input)@);
                let nd = apply_behavior(beh, old(self)@.direction);
                &&& final(self)@.stack == stk
                &&& final(self)@.mode == md
                &&& final(out)@ == old(out)@ + o
                &&& final(input)@ == inp
                &&& match go_spec(old(self)@.ip, nd) {
                    WalkOutcome::Arrived(a, d) => r is Ok && final(self)@.ip == a
                        && final(self)@.direction == d.opposite_spec(),
                    _ => r is Err && final(self)@.ip == old(self)@.ip
                        && final(self)@.direction == old(self)@.direction,
                }
            }),
    {
        proof {
            assert(old(out)@ + Seq::<char>::empty() =~= old(out)@);
        }
        let cell = self.code.get(&self.instruction_pointer);
        let mut cur = Mode::NormalMode;
        core::mem::swap(&mut self.mode, &mut cur);
        let behavior = match cur {
            Mode::NormalMode => match cell {
                Some((_, Some(instr))) => instr.evaluate(
                    &mut self.mode,
                    &mut self.stack,
                    out,
                    input,
                ),
                _ => InstructionPointerBehavior::Straight,
            },
            Mode::CharMode => {
                let code: i64 = match cell {
                    Some((ch, _)) => ch as u32 as i64,
                    None => 0,
                };
                push_value(&mut self.stack, StackItem::Number(code));
                InstructionPointerBehavior::Straight
            },
            Mode::ArrayStringMode(mut buf) => {
                let closing = match cell {
                    Some((_, Some(Instruction::StartArrayString))) => true,
                    _ => false,
                };
                if closing {
                    push_value(&mut self.stack, StackItem::Array(buf));
                } else {
                    let code: i64 = match cell {
                        Some((ch, _)) => ch as u32 as i64,
                        None => 0,
                    };
                    buf.push(StackItem::Number(code));
                    proof {
                        assert(buf@.drop_last() =~= old(self).mode->ArrayStringMode_0@);
                        assert(buf@.last() == StackItem::Number(code));
                        assert(val_view(StackItem::Number(code)) == ValV::Int(code));
                        assert(buf@.len() > 0);
                        assert(vals_view(buf@) == vals_view(buf@.drop_last()).push(
                            val_view(buf@.last()),
                        ));
                        assert(vals_view(buf@) == vals_view(
                            old(self).mode->ArrayStringMode_0@,
                        ).push(ValV::Int(code)));
                    }
                    self.mode = Mode::ArrayStringMode(buf);
                }
                InstructionPointerBehavior::Straight
            },
            Mode::CharStringMode(mut buf) => {
                let closing = match cell {
                    Some((_, Some(Instruction::StartCharacterString))) => true,
                    _ => false,
                };
                if closing {
                    let ghost s0 = stack_view(self.stack@);
                    let ghost bufv = vals_view(buf@);
                    proof {
                        lemma_vals_view(buf@);
                    }
                    let mut j: usize = 0;
                    while j < buf.len()
                        invariant
                            j <= buf.len(),
                            self.code == old(self).code,
                            self.instruction_pointer == old(self).instruction_pointer,
                            self.direction == old(self).direction,
                            self.mode == Mode::NormalMode,
                            stack_view(self.stack@) == s0 + bufv.subrange(0, j as int),
                            bufv == vals_view(buf@),
                            bufv.len() == buf@.len(),
                            forall|q: int| 0 <= q < buf@.len() ==> bufv[q] == val_view(
                                #[trigger] buf@[q],
                            ),
                        decreases buf.len() - j,
                    {
                        let elem = buf[j].duplicate();
                        push_value(&mut self.stack, elem);
                        proof {
                            assert(s0 + bufv.subrange(0, j + 1) =~= (s0 + bufv.subrange(
                                0,
                                j as int,
                            )).push(bufv[j as int]));
                        }
                        j = j + 1;
                    }
                    proof {
                        assert(bufv.subrange(0, bufv.len() as int) =~= bufv);
                    }
                } else {
                    let code: i64 = match cell {
                        Some((ch, _)) => ch as u32 as i64,
                        None => 0,
                    };
                    buf.push(StackItem::Number(code));
                    proof {
                        assert(buf@.drop_last() =~= old(self).mode->CharStringMode_0@);
                        assert(buf@.last() == StackItem::Number(code));
                        assert(val_view(StackItem::Number(code)) == ValV::Int(code));
                        assert(buf@.len() > 0);
                        assert(vals_view(buf@) == vals_view(buf@.drop_last()).push(
                            val_view(buf@.last()),
                        ));
                        assert(vals_view(buf@) == vals_view(
                            old(self).mode->CharStringMode_0@,
                        ).push(ValV::Int(code)));
                    }
                    self.mode = Mode::CharStringMode(buf);
                }
                InstructionPointerBehavior::Straight
            },
            Mode::Stopped => {
                self.mode = Mode::Stopped;
                InstructionPointerBehavior::Straight
            },
        };
        let next_direction = match behavior {
            InstructionPointerBehavior::Straight => self.direction,
            InstructionPointerBehavior::Left => self.direction.turn_left(),
            InstructionPointerBehavior::Right => self.direction.turn_right(),
            InstructionPointerBehavior::Back => self.direction.opposite(),
        };
        match self.instruction_pointer.go(next_direction) {
            Ok((pos, d)) => {
                self.instruction_pointer = pos;
                self.direction = d.opposite();
                Ok(())
            },
            Err(e) => Err(e),
        }
    }
}

/// The leading run of characters before the first `stop`.
pub open spec fn take_until(s: Seq<char>, stop: char) -> Seq<char>
    decreases s.len(),
{
    if s.len() > 0 && s.first() != stop {
        seq![s.first()] + take_until(s.drop_first(), stop)
    } else {
        Seq::empty()
    }
}

/// The run before the first `stop` is exactly the prefix up to the first
/// occurrence.
proof fn lemma_take_until_prefix(s: Seq<char>, stop: char, k: int)
    requires
        0 <= k <= s.len(),
        forall|j: int| 0 <= j < k ==> s[j] != stop,
        k == s.len() || s[k] == stop,
    ensures
        take_until(s, stop) == s.subrange(0, k),
    decreases s.len(),
{
    if s.len() > 0 && s.first() != stop {
        assert(k >= 1);
        lemma_take_until_prefix(s.drop_first(), stop, k - 1);
        assert(s.drop_first().subrange(0, k - 1) =~= s.subrange(1, k));
        assert(seq![s.first()] + s.subrange(1, k) =~= s.subrange(0, k));
    } else {
        assert(k == 0);
        assert(s.subrange(0, 0) =~= Seq::<char>::empty());
    }
}

/// A line with its trailing carriage return removed.
pub open spec fn strip_cr(l: Seq<char>) -> Seq<char> {
    if l.len() > 0 && l.last() == '\r' {
        l.drop_last()
    } else {
        l
    }
}

/// The source text split at newlines, each line stripped of a trailing
/// carriage return; a trailing newline ends the last line.
pub open spec fn split_lines(s: Seq<char>) -> Seq<Seq<char>>
    decreases s.len(),
{
    if s.len() == 0 {
        Seq::empty()
    } else {
        let l = take_until(s, '\n');
        let rest = if l.len() < s.len() {
            s.skip(l.len() as int + 1)
        } else {
            Seq::empty()
        };
        seq![strip_cr(l)] + split_lines(rest)
    }
}

/// ASCII lowercasing of one character.
pub open spec fn lower_ascii(c: char) -> char {
    if 'A' <= c && c <= 'Z' {
        ((c as u32) + 32) as char
    } else {
        c
    }
}

/// ASCII lowercasing of a text.
pub open spec fn lower_all(s: Seq<char>) -> Seq<char> {
    s.map_values(|c: char| lower_ascii(c))
}

/// The position of the first character that names no tile species.
pub open spec fn first_non_tile(s: Seq<char>) -> int
    decreases s.len(),
{
    if s.len() == 0 {
        0
    } else if crate::geometry::rhomb::Tile::from_char_spec(s.first()) is None {
        0
    } else {
        1 + first_non_tile(s.drop_first())
    }
}

proof fn lemma_first_non_tile(s: Seq<char>)
    requires
        !chars_all_tiles(s),
    ensures
        0 <= first_non_tile(s) < s.len(),
        crate::geometry::rhomb::Tile::from_char_spec(s[first_non_tile(s)]) is None,
        forall|j: int| 0 <= j < first_non_tile(s)
            ==> #[trigger] crate::geometry::rhomb::Tile::from_char_spec(s[j]) is Some,
    decreases s.len(),
{
    if s.len() == 0 {
        assert(chars_all_tiles(s));
    } else if crate::geometry::rhomb::Tile::from_char_spec(s.first()) is None {
    } else {
        assert(!chars_all_tiles(s.drop_first())) by {
            if chars_all_tiles(s.drop_first()) {
                assert forall|i: int| 0 <= i < s.len() implies #[trigger] crate::geometry::rhomb::Tile::from_char_spec(
                    s[i],
                ) is Some by {
                    if i > 0 {
                        assert(s.drop_first()[i - 1] == s[i]);
                        assert(crate::geometry::rhomb::Tile::from_char_spec(
                            s.drop_first()[i - 1],
                        ) is Some);
                    }
                }
            }
        }
        lemma_first_non_tile(s.drop_first());
        assert forall|j: int| 0 <= j < first_non_tile(s) implies #[trigger] crate::geometry::rhomb::Tile::from_char_spec(
            s[j],
        ) is Some by {
            if j > 0 {
                assert(s.drop_first()[j - 1] == s[j]);
                assert(crate::geometry::rhomb::Tile::from_char_spec(
                    s.drop_first()[j - 1],
                ) is Some);
            }
        }
    }
}

/// Where the load walker ends after skipping occupied cells: the first free
/// cell it reaches, or nowhere when the walk fails or the budget runs out
/// (which only a cycle through occupied cells can cause).
pub enum PlaceOutcome {
    Found(Seq<Tile>, AbsoluteDirection),
    Lost,
}

pub open spec fn place_run(
    cells: Map<Seq<Tile>, Cell>,
    coord: Seq<Tile>,
    dir: AbsoluteDirection,
    fuel: nat,
) -> PlaceOutcome
    decreases fuel,
{
    if !cells.contains_key(coord) {
        PlaceOutcome::Found(coord, dir)
    } else if fuel == 0 {
        PlaceOutcome::Lost
    } else {
        match go_spec(coord, dir) {
            WalkOutcome::Arrived(a, d) => place_run(cells, a, d.opposite_spec(), (fuel - 1) as nat),
            _ => PlaceOutcome::Lost,
        }
    }
}

/// The walker budget while loading: enough to visit every occupied cell
/// from each of its four directions.
pub open spec fn place_fuel(cells: Map<Seq<Tile>, Cell>) -> nat {
    if 4 * cells.dom().len() + 8 <= usize::MAX {
        (4 * cells.dom().len() + 8) as nat
    } else {
        usize::MAX as nat
    }
}

/// Lays the characters of one code run into the cells: each character goes
/// to the first free cell the walker reaches, and the walker continues from
/// there. The column of the failing character is reported if the walker is
/// lost.
pub open spec fn place_chars(
    cells: Map<Seq<Tile>, Cell>,
    coord: Seq<Tile>,
    dir: AbsoluteDirection,
    cs: Seq<char>,
    line: usize,
    col: usize,
) -> Result<Map<Seq<Tile>, Cell>, ParseError>
    decreases cs.len(),
{
    if cs.len() == 0 {
        Ok(cells)
    } else {
        match place_run(cells, coord, dir, place_fuel(cells)) {
            PlaceOutcome::Found(c2, d2) => place_chars(
                cells.insert(c2, (cs.first(), Instruction::from_char_spec(cs.first()))),
                c2,
                d2,
                cs.drop_first(),
                line,
                ((col + 1) as usize),
            ),
            PlaceOutcome::Lost => Err(
                ParseError { line, column: col, kind: ParseErrorKind::BadCoordinateError },
            ),
        }
    }
}

/// Loads one source line: an optional `address[-direction]` prefix before
/// the `:`, then the code characters laid out by the walker.
pub open spec fn parse_line(cells: Map<Seq<Tile>, Cell>, l: Seq<char>, line: usize) -> Result<
    Map<Seq<Tile>, Cell>,
    ParseError,
> {
    let prefix = take_until(l, ':');
    if prefix.len() == l.len() {
        Err(ParseError { line, column: 0, kind: ParseErrorKind::InvalidPrefixError })
    } else {
        let code = l.skip(prefix.len() as int + 1);
        let ct = take_until(prefix, '-');
        let dir_opt = if ct.len() < prefix.len() {
            AbsoluteDirection::from_chars_spec(lower_all(prefix.skip(ct.len() as int + 1)))
        } else {
            Some(AbsoluteDirection::North)
        };
        match dir_opt {
            None => Err(
                ParseError {
                    line,
                    column: ct.len() as usize,
                    kind: ParseErrorKind::BadDirectionError,
                },
            ),
            Some(d) => if !chars_all_tiles(ct) {
                Err(
                    ParseError {
                        line,
                        column: first_non_tile(ct) as usize,
                        kind: ParseErrorKind::BadCoordinateError,
                    },
                )
            } else {
                let tiles = strip_trailing(tiles_from_chars(ct));
                if validate_from(tiles, 0) is Some {
                    Err(
                        ParseError {
                            line,
                            column: 0,
                            kind: ParseErrorKind::BadCoordinateError,
                        },
                    )
                } else {
                    place_chars(cells, tiles, d, code, line, 0)
                }
            },
        }
    }
}

/// Loads the lines in order.
pub open spec fn parse_lines(
    cells: Map<Seq<Tile>, Cell>,
    ls: Seq<Seq<char>>,
    line: usize,
) -> Result<Map<Seq<Tile>, Cell>, ParseError>
    decreases ls.len(),
{
    if ls.len() == 0 {
        Ok(cells)
    } else {
        match parse_line(cells, ls.first(), line) {
            Ok(m) => parse_lines(m, ls.drop_first(), ((line + 1) as usize)),
            Err(e) => Err(e),
        }
    }
}

/// Loads a whole source text into a cell map: what `new_from_string`
/// computes.
pub open spec fn parse_program(src: Seq<char>) -> Result<Map<Seq<Tile>, Cell>, ParseError> {
    parse_lines(Map::empty(), split_lines(src), 0)
}

/// Copies `v[a..b]`.
fn copy_range(v: &Vec<char>, a: usize, b: usize) -> (r: Vec<char>)
    requires
        a <= b <= v@.len(),
    ensures
        r@ == v@.subrange(a as int, b as int),
{
    let mut out: Vec<char> = Vec::new();
    let mut i: usize = a;
    while i < b
        invariant
            a <= i <= b <= v@.len(),
            out@ == v@.subrange(a as int, i as int),
        decreases b - i,
    {
        out.push(v[i]);
        proof {
            assert(out@ =~= v@.subrange(a as int, i + 1));
        }
        i = i + 1;
    }
    proof {
        assert(out@ =~= v@.subrange(a as int, b as int));
    }
    out
}

/// The first position at or after `from` holding `stop`, or the length.
fn find_char(v: &Vec<char>, from: usize, stop: char) -> (r: usize)
    requires
        from <= v@.len(),
    ensures
        from <= r <= v@.len(),
        forall|j: int| from <= j < r ==> v@[j] != stop,
        r < v@.len() ==> v@[r as int] == stop,
    decreases v@.len() - from,
{
    let mut i: usize = from;
    while i < v.len()
        invariant
            from <= i <= v@.len(),
            forall|j: int| from <= j < i ==> v@[j] != stop,
        decreases v@.len() - i,
    {
        if v[i] == stop {
            return i;
        }
        i = i + 1;
    }
    i
}

/// ASCII-lowercases one character; see [`lower_ascii`].
fn lower_char(c: char) -> (r: char)
    ensures
        r == lower_ascii(c),
{
    if 'A' <= c && c <= 'Z' {
        proof {
            assert('A' as u32 == 65 && 'Z' as u32 == 90);
            assert(crate::language::io::is_scalar_value(((c as u32) + 32) as u32));
        }
        match char::from_u32((c as u32) + 32) {
            Some(l) => {
                proof {
                    vstd::utf8::char_u32_cast(l, ((c as u32) + 32) as u32);
                }
                l
            },
            None => {
                proof {
                    assert(false);
                }
                c
            },
        }
    } else {
        c
    }
}

/// Parses a direction name, ASCII case-insensitive; agrees with
/// [`AbsoluteDirection::from_chars_spec`] on the lowercased text.
fn parse_direction(v: &Vec<char>) -> (r: Option<AbsoluteDirection>)
    ensures
        r == AbsoluteDirection::from_chars_spec(lower_all(v@)),
{
    let mut lv: Vec<char> = Vec::new();
    let mut i: usize = 0;
    while i < v.len()
        invariant
            i <= v@.len(),
            lv@ == lower_all(v@).subrange(0, i as int),
        decreases v@.len() - i,
    {
        lv.push(lower_char(v[i]));
        proof {
            assert(lv@ =~= lower_all(v@).subrange(0, i + 1));
        }
        i = i + 1;
    }
    proof {
        assert(lv@ =~= lower_all(v@));
    }
    let n = lv.len();
    let r: Option<AbsoluteDirection> = if n == 1 {
        if lv[0] == 'n' {
            Some(AbsoluteDirection::North)
        } else if lv[0] == 'e' {
            Some(AbsoluteDirection::East)
        } else if lv[0] == 's' {
            Some(AbsoluteDirection::South)
        } else if lv[0] == 'w' {
            Some(AbsoluteDirection::West)
        } else {
            None
        }
    } else if n == 5 && lv[0] == 'n' && lv[1] == 'o' && lv[2] == 'r' && lv[3] == 't' && lv[4]
        == 'h' {
        Some(AbsoluteDirection::North)
    } else if n == 4 && lv[0] == 'e' && lv[1] == 'a' && lv[2] == 's' && lv[3] == 't' {
        Some(AbsoluteDirection::East)
    } else if n == 5 && lv[0] == 's' && lv[1] == 'o' && lv[2] == 'u' && lv[3] == 't' && lv[4]
        == 'h' {
        Some(AbsoluteDirection::South)
    } else if n == 4 && lv[0] == 'w' && lv[1] == 'e' && lv[2] == 's' && lv[3] == 't' {
        Some(AbsoluteDirection::West)
    } else {
        None
    };
    proof {
        let lw = lower_all(v@);
        assert(lw == lv@);
        if lw.len() == 1 {
            assert(lw == seq!['n'] <==> lw[0] == 'n') by {
                if lw[0] == 'n' {
                    assert(lw =~= seq!['n']);
                }
            }
            assert(lw == seq!['e'] <==> lw[0] == 'e') by {
                if lw[0] == 'e' {
                    assert(lw =~= seq!['e']);
                }
            }
            assert(lw == seq!['s'] <==> lw[0] == 's') by {
                if lw[0] == 's' {
                    assert(lw =~= seq!['s']);
                }
            }
            assert(lw == seq!['w'] <==> lw[0] == 'w') by {
                if lw[0] == 'w' {
                    assert(lw =~= seq!['w']);
                }
            }
        }
        if lw.len() == 5 {
            assert(lw == seq!['n', 'o', 'r', 't', 'h'] <==> (lw[0] == 'n' && lw[1] == 'o'
                && lw[2] == 'r' && lw[3] == 't' && lw[4] == 'h')) by {
                if lw[0] == 'n' && lw[1] == 'o' && lw[2] == 'r' && lw[3] == 't' && lw[4]
                    == 'h' {
                    assert(lw =~= seq!['n', 'o', 'r', 't', 'h']);
                }
            }
            assert(lw == seq!['s', 'o', 'u', 't', 'h'] <==> (lw[0] == 's' && lw[1] == 'o'
                && lw[2] == 'u' && lw[3] == 't' && lw[4] == 'h')) by {
                if lw[0] == 's' && lw[1] == 'o' && lw[2] == 'u' && lw[3] == 't' && lw[4]
                    == 'h' {
                    assert(lw =~= seq!['s', 'o', 'u', 't', 'h']);
                }
            }
        }
        if lw.len() == 4 {
            assert(lw == seq!['e', 'a', 's', 't'] <==> (lw[0] == 'e' && lw[1] == 'a' && lw[2]
                == 's' && lw[3] == 't')) by {
                if lw[0] == 'e' && lw[1] == 'a' && lw[2] == 's' && lw[3] == 't' {
                    assert(lw =~= seq!['e', 'a', 's', 't']);
                }
            }
            assert(lw == seq!['w', 'e', 's', 't'] <==> (lw[0] == 'w' && lw[1] == 'e' && lw[2]
                == 's' && lw[3] == 't')) by {
                if lw[0] == 'w' && lw[1] == 'e' && lw[2] == 's' && lw[3] == 't' {
                    assert(lw =~= seq!['w', 'e', 's', 't']);
                }
            }
        }
    }
    r
}

impl LanguageState {
    /// Loads one source line into the cells; see [`parse_line`].
    #[verifier::loop_isolation(false)]
    #[verifier::rlimit(100)]
    fn load_line(cells: &mut CellMap, line: &Vec<char>, lineno: usize) -> (r: Result<
        (),
        ParseError,
    >)
        requires
            old(cells).wf(),
        ensures
            match parse_line(old(cells)@, line@, lineno) {
                Ok(m) => r is Ok && final(cells)@ == m && final(cells).wf(),
                Err(e) => r == Err::<(), ParseError>(e),
            },
    {
        let colon = find_char(line, 0, ':');
        if colon >= line.len() {
            proof {
                lemma_take_until_prefix(line@, ':', line@.len() as int);
                assert(take_until(line@, ':') =~= line@);
            }
            return Err(
                ParseError { line: lineno, column: 0, kind: ParseErrorKind::InvalidPrefixError },
            );
        }
        proof {
            lemma_take_until_prefix(line@, ':', colon as int);
        }
        let prefix = copy_range(line, 0, colon);
        let code = copy_range(line, colon + 1, line.len());
        proof {
            assert(prefix@ == take_until(line@, ':'));
            assert(code@ == line@.skip(prefix@.len() as int + 1));
        }
        let dash = find_char(&prefix, 0, '-');
        let ghost ct_spec = take_until(prefix@, '-');
        let direction: AbsoluteDirection;
        let ct_end: usize;
        if dash < prefix.len() {
            proof {
                lemma_take_until_prefix(prefix@, '-', dash as int);
            }
            let dir_text = copy_range(&prefix, dash + 1, prefix.len());
            match parse_direction(&dir_text) {
                Some(d) => {
                    direction = d;
                    ct_end = dash;
                },
                None => {
                    return Err(
                        ParseError {
                            line: lineno,
                            column: dash,
                            kind: ParseErrorKind::BadDirectionError,
                        },
                    );
                },
            }
        } else {
            proof {
                lemma_take_until_prefix(prefix@, '-', prefix@.len() as int);
                assert(ct_spec =~= prefix@);
            }
            direction = AbsoluteDirection::North;
            ct_end = prefix.len();
        }
        let ct = copy_range(&prefix, 0, ct_end);
        proof {
            assert(ct@ == ct_spec);
        }
        let coordinate = match TileReference::from_chars(&ct) {
            Ok(c) => c,
            Err(e) => {
                match e.kind {
                    crate::geometry::tile_reference::CoordinateParsingErrorKind::ParseError(
                        _,
                    ) => {
                        proof {
                            assert(!chars_all_tiles(ct@));
                            lemma_first_non_tile(ct@);
                            let f = first_non_tile(ct@);
                            if f < e.index {
                                assert(crate::geometry::rhomb::Tile::from_char_spec(
                                    ct@[f],
                                ) is Some);
                            }
                            if e.index < f {
                                assert(crate::geometry::rhomb::Tile::from_char_spec(
                                    ct@[e.index as int],
                                ) is Some);
                            }
                            assert(e.index as int == f);
                        }
                        return Err(
                            ParseError {
                                line: lineno,
                                column: e.index,
                                kind: ParseErrorKind::BadCoordinateError,
                            },
                        );
                    },
                    crate::geometry::tile_reference::CoordinateParsingErrorKind::TraversalError(
                        _,
                    ) => {
                        proof {
                            if !chars_all_tiles(ct@) {
                                assert(false);
                            }
                        }
                        return Err(
                            ParseError {
                                line: lineno,
                                column: 0,
                                kind: ParseErrorKind::BadCoordinateError,
                            },
                        );
                    },
                }
            },
        };
        proof {
            assert(chars_all_tiles(ct@));
            assert(coordinate@ == strip_trailing(tiles_from_chars(ct@)));
        }
        let mut coord = coordinate;
        let mut dir = direction;
        let mut index: usize = 0;
        proof {
            assert(code@.skip(0) =~= code@);
        }
        while index < code.len()
            invariant
                cells.wf(),
                index <= code@.len(),
                parse_line(old(cells)@, line@, lineno) == place_chars(
                    cells@,
                    coord@,
                    dir,
                    code@.skip(index as int),
                    lineno,
                    index,
                ),
            decreases code@.len() - index,
        {
            let ghost gcells = cells@;
            let ghost c0 = coord@;
            let ghost d0 = dir;
            let ghost suffix = code@.skip(index as int);
            proof {
                assert(suffix.first() == code@[index as int]);
            }
            let cl = cells.len();
            let mut fuel: usize = if cl <= (usize::MAX - 8) / 4 {
                4 * cl + 8
            } else {
                usize::MAX
            };
            proof {
                assert(fuel as nat == place_fuel(gcells));
            }
            loop
                invariant
                    cells@ == gcells,
                    cells.wf(),
                    place_run(gcells, coord@, dir, fuel as nat) == place_run(
                        gcells,
                        c0,
                        d0,
                        place_fuel(gcells),
                    ),
                decreases fuel,
            {
                if !cells.contains(&coord) {
                    break;
                }
                if fuel == 0 {
                    proof {
                        assert(place_run(gcells, c0, d0, place_fuel(gcells))
                            == PlaceOutcome::Lost);
                    }
                    return Err(
                        ParseError {
                            line: lineno,
                            column: index,
                            kind: ParseErrorKind::BadCoordinateError,
                        },
                    );
                }
                match coord.go(dir) {
                    Ok((c2, d2)) => {
                        coord = c2;
                        dir = d2.opposite();
                    },
                    Err(_) => {
                        proof {
                            assert(place_run(gcells, c0, d0, place_fuel(gcells))
                                == PlaceOutcome::Lost);
                        }
                        return Err(
                            ParseError {
                                line: lineno,
                                column: index,
                                kind: ParseErrorKind::BadCoordinateError,
                            },
                        );
                    },
                }
                fuel = fuel - 1;
            }
            proof {
                assert(place_run(gcells, c0, d0, place_fuel(gcells)) == PlaceOutcome::Found(
                    coord@,
                    dir,
                ));
            }
            let ch = code[index];
            let op = Instruction::from_char(ch);
            cells.insert(coord.duplicate(), ch, op);
            index = index + 1;
            proof {
                assert(suffix.drop_first() =~= code@.skip(index as int));
            }
        }
        proof {
            assert(code@.skip(code@.len() as int) =~= Seq::<char>::empty());
        }
        Ok(())
    }

    /// Loads a program from source text. Each line holds an optional
    /// `address[-direction]:` prefix and its code characters; see
    /// [`parse_program`]. The fresh program starts at the origin tile,
    /// facing north, with an empty stack, in normal mode.
    #[verifier::loop_isolation(false)]
    #[verifier::rlimit(100)]
    pub fn new_from_string(source_code: String) -> (r: Result<LanguageState, ParseError>)
        ensures
            match parse_program(source_code@) {
                Ok(m) => r matches Ok(st) && st.wf() && st@.cells == m && st@.ip == Seq::<
                    Tile,
                >::empty() && st@.direction == AbsoluteDirection::North && st@.stack == Seq::<
                    ValV,
                >::empty() && st@.mode is Normal,
                Err(e) => r == Err::<LanguageState, ParseError>(e),
            },
    {
        let chars = crate::geometry::tile_reference::str_to_chars(source_code.as_str());
        let mut cells = CellMap::new();
        let mut pos: usize = 0;
        let mut lineno: usize = 0;
        proof {
            assert(chars@.skip(0) =~= chars@);
        }
        while pos < chars.len()
            invariant
                cells.wf(),
                pos <= chars@.len(),
                lineno <= pos,
                parse_lines(cells@, split_lines(chars@.skip(pos as int)), lineno)
                    == parse_program(source_code@),
            decreases chars@.len() - pos,
        {
            let ghost rem = chars@.skip(pos as int);
            let e = find_char(&chars, pos, '\n');
            proof {
                assert forall|j: int| 0 <= j < e - pos implies rem[j] != '\n' by {
                    assert(rem[j] == chars@[pos + j]);
                }
                if (e as int) - (pos as int) < rem.len() {
                    assert(rem[e - pos] == chars@[e as int]);
                }
                lemma_take_until_prefix(rem, '\n', e - pos);
                assert(take_until(rem, '\n') =~= chars@.subrange(pos as int, e as int));
            }
            let line_end = if e > pos && chars[e - 1] == '\r' {
                e - 1
            } else {
                e
            };
            let line = copy_range(&chars, pos, line_end);
            proof {
                let l = take_until(rem, '\n');
                if l.len() > 0 && l.last() == '\r' {
                    assert(line@ =~= strip_cr(l));
                } else {
                    assert(line@ =~= strip_cr(l));
                }
            }
            let next_pos = if e < chars.len() {
                e + 1
            } else {
                e
            };
            proof {
                let l = take_until(rem, '\n');
                let rest = if l.len() < rem.len() {
                    rem.skip(l.len() as int + 1)
                } else {
                    Seq::<char>::empty()
                };
                assert(rest =~= chars@.skip(next_pos as int));
                assert(split_lines(rem) == seq![strip_cr(l)] + split_lines(rest));
                assert(split_lines(rem).first() == line@);
                assert(split_lines(rem).drop_first() =~= split_lines(
                    chars@.skip(next_pos as int),
                ));
            }
            match Self::load_line(&mut cells, &line, lineno) {
                Ok(()) => {},
                Err(e) => {
                    return Err(e);
                },
            }
            pos = next_pos;
            lineno = lineno + 1;
        }
        proof {
            assert(chars@.skip(chars@.len() as int) =~= Seq::<char>::empty());
        }
        let ip = match TileReference::new(Vec::new()) {
            Ok(c) => c,
            Err(_) => {
                proof {
                    assert(strip_trailing(Seq::<Tile>::empty()) == Seq::<Tile>::empty());
                    assert(false);
                }
                return Err(
                    ParseError { line: 0, column: 0, kind: ParseErrorKind::InvalidPrefixError },
                );
            },
        };
        let st = LanguageState {
            code: cells,
            instruction_pointer: ip,
            direction: AbsoluteDirection::North,
            stack: Vec::new(),
            mode: Mode::NormalMode,
        };
        proof {
            assert(st@.stack =~= Seq::<ValV>::empty());
            assert(st@.ip =~= Seq::<Tile>::empty());
        }
        Ok(st)
    }
}

} // verus!
