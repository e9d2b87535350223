//! The instruction set: character decoding, per-opcode semantics over the
//! value stack, mode changes and the resulting instruction-pointer
//! behaviour.

use vstd::prelude::*;

use crate::language::io::{
    char_of_code, code_of_char, dec_chars, parse_number, skip_ws, take_line, take_word,
    InputBuffer,
};
use crate::language::stack_item::{
    broadcast_op, cmp_spec, lemma_vals_view, neg_val, stack_view, truthy, val_view, vals_view,
    BinOp, StackItem, ValV, ValueOrder,
};

verus! {

/// An executable opcode of the language.
#[derive(Copy, Clone, PartialEq, Eq, Debug, Structural)]
pub enum Instruction {
    // Control flow
    TurnLeft,
    TurnRight,
    TurnLeftIf,
    TurnRightIf,
    TurnAround,
    Less,
    Greater,
    Equal,
    // Stack
    Duplicate,
    DuplicateTwo,
    PopTop,
    Swap,
    RotateLeft,
    RotateRight,
    DuplicateN,
    CopyNth,
    UnwrapArray,
    WrapArray,
    // String modes
    StartCharacterString,
    StartArrayString,
    StartCharacter,
    // Constants
    Const(u8),
    // Math
    Add,
    Subtract,
    Multiply,
    Divide,
    Negate,
    // Input
    InputCharacter,
    InputLine,
    InputWord,
    InputNumber,
    // Output
    OutputCharacter,
    OutputN,
    OutputNumber,
    // Arrays
    GetArrayN,
    PutArrayN,
    // Exit
    Quit,
}

/// What the instruction pointer does after one instruction.
#[derive(Copy, Clone, PartialEq, Eq, Debug, Structural)]
pub enum InstructionPointerBehavior {
    Straight,
    Left,
    Right,
    Back,
}

/// The interpreter's lexing state for literals.
#[derive(Debug, PartialEq)]
pub enum Mode {
    NormalMode,
    CharStringMode(Vec<StackItem>),
    ArrayStringMode(Vec<StackItem>),
    CharMode,
    Stopped,
}

/// The mathematical shape of a mode.
pub enum ModeV {
    Normal,
    CharString(Seq<ValV>),
    ArrayString(Seq<ValV>),
    Char,
    Stopped,
}

/// The deep view of a mode.
pub open spec fn mode_view(m: Mode) -> ModeV {
    match m {
        Mode::NormalMode => ModeV::Normal,
        Mode::CharStringMode(b) => ModeV::CharString(vals_view(b@)),
        Mode::ArrayStringMode(b) => ModeV::ArrayString(vals_view(b@)),
        Mode::CharMode => ModeV::Char,
        Mode::Stopped => ModeV::Stopped,
    }
}

impl View for Mode {
    type V = ModeV;

    open spec fn view(&self) -> ModeV {
        mode_view(*self)
    }
}

impl Instruction {
    /// The opcode assigned to a character, if any; unmapped characters are
    /// data, not instructions.
    pub open spec fn from_char_spec(item: char) -> Option<Instruction> {
        match item {
            '<' => Some(Instruction::TurnLeft),
            '>' => Some(Instruction::TurnRight),
            '^' => Some(Instruction::TurnLeftIf),
            'v' => Some(Instruction::TurnRightIf),
            '|' => Some(Instruction::TurnAround),
            '(' => Some(Instruction::Less),
            ')' => Some(Instruction::Greater),
            '=' => Some(Instruction::Equal),
            ':' => Some(Instruction::Duplicate),
            '#' => Some(Instruction::DuplicateTwo),
            '~' => Some(Instruction::PopTop),
            's' => Some(Instruction::Swap),
            '{' => Some(Instruction::RotateLeft),
            '}' => Some(Instruction::RotateRight),
            'd' => Some(Instruction::DuplicateN),
            'c' => Some(Instruction::CopyNth),
            'u' => Some(Instruction::UnwrapArray),
            'a' => Some(Instruction::WrapArray),
            '\'' => Some(Instruction::StartCharacterString),
            '"' => Some(Instruction::StartArrayString),
            '`' => Some(Instruction::StartCharacter),
            '0' => Some(Instruction::Const(0)),
            '1' => Some(Instruction::Const(1)),
            '2' => Some(Instruction::Const(2)),
            '3' => Some(Instruction::Const(3)),
            '4' => Some(Instruction::Const(4)),
            '5' => Some(Instruction::Const(5)),
            '6' => Some(Instruction::Const(6)),
            '7' => Some(Instruction::Const(7)),
            '8' => Some(Instruction::Const(8)),
            '9' => Some(Instruction::Const(9)),
            '+' => Some(Instruction::Add),
            '-' => Some(Instruction::Subtract),
            '*' => Some(Instruction::Multiply),
            '/' => Some(Instruction::Divide),
            '_' => Some(Instruction::Negate),
            'i' => Some(Instruction::InputCharacter),
            'w' => Some(Instruction::InputLine),
            'l' => Some(Instruction::InputWord),
            'n' => Some(Instruction::InputNumber),
            'I' => Some(Instruction::OutputCharacter),
            'W' => Some(Instruction::OutputN),
            'N' => Some(Instruction::OutputNumber),
            '[' => Some(Instruction::GetArrayN),
            ']' => Some(Instruction::PutArrayN),
            ';' => Some(Instruction::Quit),
            _ => None,
        }
    }

    /// Decodes a source character; see [`Instruction::from_char_spec`].
    pub fn from_char(item: char) -> (r: Option<Instruction>)
        ensures
            r == Instruction::from_char_spec(item),
    {
        match item {
            '<' => Some(Instruction::TurnLeft),
            '>' => Some(Instruction::TurnRight),
            '^' => Some(Instruction::TurnLeftIf),
            'v' => Some(Instruction::TurnRightIf),
            '|' => Some(Instruction::TurnAround),
            '(' => Some(Instruction::Less),
            ')' => Some(Instruction::Greater),
            '=' => Some(Instruction::Equal),
            ':' => Some(Instruction::Duplicate),
            '#' => Some(Instruction::DuplicateTwo),
            '~' => Some(Instruction::PopTop),
            's' => Some(Instruction::Swap),
            '{' => Some(Instruction::RotateLeft),
            '}' => Some(Instruction::RotateRight),
            'd' => Some(Instruction::DuplicateN),
            'c' => Some(Instruction::CopyNth),
            'u' => Some(Instruction::UnwrapArray),
            'a' => Some(Instruction::WrapArray),
            '\'' => Some(Instruction::StartCharacterString),
            '"' => Some(Instruction::StartArrayString),
            '`' => Some(Instruction::StartCharacter),
            '0' => Some(Instruction::Const(0)),
            '1' => Some(Instruction::Const(1)),
            '2' => Some(Instruction::Const(2)),
            '3' => Some(Instruction::Const(3)),
            '4' => Some(Instruction::Const(4)),
            '5' => Some(Instruction::Const(5)),
            '6' => Some(Instruction::Const(6)),
            '7' => Some(Instruction::Const(7)),
            '8' => Some(Instruction::Const(8)),
            '9' => Some(Instruction::Const(9)),
            '+' => Some(Instruction::Add),
            '-' => Some(Instruction::Subtract),
            '*' => Some(Instruction::Multiply),
            '/' => Some(Instruction::Divide),
            '_' => Some(Instruction::Negate),
            'i' => Some(Instruction::InputCharacter),
            'w' => Some(Instruction::InputLine),
            'l' => Some(Instruction::InputWord),
            'n' => Some(Instruction::InputNumber),
            'I' => Some(Instruction::OutputCharacter),
            'W' => Some(Instruction::OutputN),
            'N' => Some(Instruction::OutputNumber),
            '[' => Some(Instruction::GetArrayN),
            ']' => Some(Instruction::PutArrayN),
            ';' => Some(Instruction::Quit),
            _ => None,
        }
    }

    /// True of the three turns that happen regardless of the stack.
    pub open spec fn is_nonconditional_movement_instruction_spec(self) -> bool {
        match self {
            Instruction::TurnLeft | Instruction::TurnRight | Instruction::TurnAround => true,
            _ => false,
        }
    }

    #[verifier::when_used_as_spec(is_nonconditional_movement_instruction_spec)]
    pub fn is_nonconditional_movement_instruction(self) -> (r: bool)
        ensures
            r == self.is_nonconditional_movement_instruction_spec(),
    {
        match self {
            Instruction::TurnLeft | Instruction::TurnRight | Instruction::TurnAround => true,
            _ => false,
        }
    }
}

/// Popping one value: an empty stack yields a zero and stays empty.
pub open spec fn pop1(s: Seq<ValV>) -> (Seq<ValV>, ValV) {
    if s.len() > 0 {
        (s.drop_last(), s.last())
    } else {
        (s, ValV::Int(0))
    }
}

/// Popping two values; the first result value is the old top.
pub open spec fn pop2(s: Seq<ValV>) -> (Seq<ValV>, ValV, ValV) {
    let (s1, a) = pop1(s);
    let (s2, b) = pop1(s1);
    (s2, a, b)
}

/// Removes and returns the top of the stack, or a zero when it is empty.
pub fn top_of_stack_or_default(stack: &mut Vec<StackItem>) -> (r: StackItem)
    ensures
        (stack_view(final(stack)@), r@) == pop1(stack_view(old(stack)@)),
{
    match stack.pop() {
        Some(v) => {
            proof {
                assert(stack_view(stack@) =~= stack_view(old(stack)@).drop_last());
            }
            v
        },
        None => {
            proof {
                assert(stack_view(stack@) =~= stack_view(old(stack)@));
            }
            StackItem::Number(0)
        },
    }
}

/// Removes and returns the two topmost values, topmost first.
pub fn top_two_of_stack_or_default(stack: &mut Vec<StackItem>) -> (r: (StackItem, StackItem))
    ensures
        (stack_view(final(stack)@), r.0@, r.1@) == pop2(stack_view(old(stack)@)),
{
    let a = top_of_stack_or_default(stack);
    let b = top_of_stack_or_default(stack);
    (a, b)
}

/// Pushes a value.
pub fn push_value(stack: &mut Vec<StackItem>, v: StackItem)
    ensures
        stack_view(final(stack)@) == stack_view(old(stack)@).push(v@),
{
    stack.push(v);
    proof {
        assert(stack_view(stack@) =~= stack_view(old(stack)@).push(stack@.last()@));
    }
}

/// A numeric count or index as a machine size: negative clamps to zero,
/// past the machine maximum clamps to it.
pub open spec fn clamp_index(k: i64) -> nat {
    if k < 0 {
        0nat
    } else if k > usize::MAX {
        usize::MAX as nat
    } else {
        k as nat
    }
}

/// Clamps a numeric count to a machine size; see [`clamp_index`].
pub fn clamp_index_exec(k: i64) -> (r: usize)
    ensures
        r == clamp_index(k),
{
    if k < 0 {
        0
    } else if k as u64 > usize::MAX as u64 {
        usize::MAX
    } else {
        k as usize
    }
}

/// The element `k` positions below the top, a zero when out of range.
pub open spec fn copy_nth_spec(stack: Seq<ValV>, n: ValV) -> ValV
    decreases n,
{
    match n {
        ValV::Int(k) => {
            let idx = clamp_index(k);
            if idx < stack.len() {
                stack[stack.len() - 1 - idx]
            } else {
                ValV::Int(0)
            }
        },
        ValV::Arr(ks) => ValV::Arr(copy_nth_seq(stack, ks)),
    }
}

pub open spec fn copy_nth_seq(stack: Seq<ValV>, ks: Seq<ValV>) -> Seq<ValV>
    decreases ks,
{
    if ks.len() == 0 {
        Seq::empty()
    } else {
        copy_nth_seq(stack, ks.drop_last()).push(copy_nth_spec(stack, ks.last()))
    }
}

pub proof fn lemma_copy_nth_seq(stack: Seq<ValV>, ks: Seq<ValV>)
    ensures
        copy_nth_seq(stack, ks).len() == ks.len(),
        forall|i: int| 0 <= i < ks.len() ==> copy_nth_seq(stack, ks)[i] == copy_nth_spec(
            stack,
            ks[i],
        ),
    decreases ks,
{
    if ks.len() > 0 {
        lemma_copy_nth_seq(stack, ks.drop_last());
    }
}

/// Reads the value `n` positions below the top of the stack (zero when out
/// of range), element-wise when `n` is an array; see [`copy_nth_spec`].
#[verifier::loop_isolation(false)]
pub fn copy_nth(stack: &Vec<StackItem>, n: &StackItem) -> (r: StackItem)
    ensures
        r@ == copy_nth_spec(stack_view(stack@), n@),
    decreases n,
{
    match n {
        StackItem::Number(k) => {
            let idx = clamp_index_exec(*k);
            if idx < stack.len() {
                stack[stack.len() - 1 - idx].duplicate()
            } else {
                StackItem::Number(0)
            }
        },
        StackItem::Array(ks) => {
            let mut out: Vec<StackItem> = Vec::new();
            let mut i: usize = 0;
            proof {
                lemma_copy_nth_seq(stack_view(stack@), vals_view(ks@));
                lemma_vals_view(ks@);
            }
            while i < ks.len()
                invariant
                    i <= ks.len(),
                    out@.len() == i,
                    forall|j: int| 0 <= j < i ==> val_view(#[trigger] out@[j]) == copy_nth_spec(
                        stack_view(stack@),
                        val_view(ks@[j]),
                    ),
                decreases ks.len() - i,
            {
                proof {
                    assert(decreases_to!(*n => *ks));
                    assert(decreases_to!(*ks => ks[i as int]));
                }
                let elem = copy_nth(stack, &ks[i]);
                out.push(elem);
                i = i + 1;
            }
            let r = StackItem::Array(out);
            proof {
                lemma_vals_view(r->Array_0@);
                assert(vals_view(r->Array_0@) =~= copy_nth_seq(stack_view(stack@), vals_view(ks@)));
            }
            r
        },
    }
}

/// A run of zeros.
pub open spec fn zeros(n: nat) -> Seq<ValV> {
    Seq::new(n, |i: int| ValV::Int(0))
}

/// Taking `count` values off the top: the remaining stack and the taken
/// values in bottom-to-top order, zeros standing in for values the stack
/// did not have.
pub open spec fn take_n(stack: Seq<ValV>, count: nat) -> (Seq<ValV>, Seq<ValV>) {
    if count <= stack.len() {
        (
            stack.subrange(0, stack.len() - count),
            stack.subrange(stack.len() - count, stack.len() as int),
        )
    } else {
        (Seq::empty(), zeros((count - stack.len()) as nat) + stack)
    }
}

/// Removes `count` values from the top (zeros when the stack runs dry) and
/// returns them in bottom-to-top order; see [`take_n`].
#[verifier::loop_isolation(false)]
pub fn take_n_exec(stack: &mut Vec<StackItem>, count: usize) -> (r: Vec<StackItem>)
    ensures
        (stack_view(final(stack)@), vals_view(r@)) == take_n(stack_view(old(stack)@), count as nat),
{
    if count <= stack.len() {
        let at = stack.len() - count;
        let r = stack.split_off(at);
        proof {
            lemma_vals_view(r@);
            assert(stack_view(stack@) =~= take_n(stack_view(old(stack)@), count as nat).0);
            assert(vals_view(r@) =~= take_n(stack_view(old(stack)@), count as nat).1);
        }
        r
    } else {
        let mut r: Vec<StackItem> = Vec::new();
        let missing = count - stack.len();
        let mut i: usize = 0;
        while i < missing
            invariant
                i <= missing,
                r@.len() == i,
                forall|j: int| 0 <= j < i ==> val_view(#[trigger] r@[j]) == ValV::Int(0),
                stack@ == old(stack)@,
            decreases missing - i,
        {
            r.push(StackItem::Number(0));
            i = i + 1;
        }
        let mut rest = stack.split_off(0);
        let mut k: usize = 0;
        while k < rest.len()
            invariant
                k <= rest.len(),
                rest@ == old(stack)@,
                r@.len() == missing + k,
                forall|j: int| 0 <= j < missing ==> val_view(#[trigger] r@[j]) == ValV::Int(0),
                forall|j: int| missing <= j < r@.len() ==> val_view(#[trigger] r@[j]) == val_view(
                    rest@[j - missing],
                ),
                stack@.len() == 0,
            decreases rest.len() - k,
        {
            let elem = rest[k].duplicate();
            r.push(elem);
            k = k + 1;
        }
        proof {
            lemma_vals_view(r@);
            lemma_vals_view(old(stack)@);
            assert(stack_view(stack@) =~= Seq::<ValV>::empty());
            assert(vals_view(r@) =~= zeros((count - stack_view(old(stack)@).len()) as nat)
                + stack_view(old(stack)@));
        }
        r
    }
}

/// Wrapping values into an array: a numeric `n` pops that many values into
/// one array in bottom-to-top order; an array `n` recurses element-wise,
/// threading the stack left to right.
pub open spec fn array_wrap_spec(stack: Seq<ValV>, n: ValV) -> (Seq<ValV>, ValV)
    decreases n,
{
    match n {
        ValV::Int(k) => {
            let (s2, taken) = take_n(stack, clamp_index(k));
            (s2, ValV::Arr(taken))
        },
        ValV::Arr(ks) => {
            let (s2, vs) = array_wrap_seq(stack, ks);
            (s2, ValV::Arr(vs))
        },
    }
}

pub open spec fn array_wrap_seq(stack: Seq<ValV>, ks: Seq<ValV>) -> (Seq<ValV>, Seq<ValV>)
    decreases ks,
{
    if ks.len() == 0 {
        (stack, Seq::empty())
    } else {
        let (s1, v) = array_wrap_spec(stack, ks.first());
        let (s2, rest) = array_wrap_seq(s1, ks.drop_first());
        (s2, seq![v] + rest)
    }
}

/// Pops values into an array under the shape of `n`; see
/// [`array_wrap_spec`].
#[verifier::loop_isolation(false)]
pub fn array_wrap(stack: &mut Vec<StackItem>, n: &StackItem) -> (r: StackItem)
    ensures
        (stack_view(final(stack)@), r@) == array_wrap_spec(stack_view(old(stack)@), n@),
    decreases n,
{
    match n {
        StackItem::Number(k) => {
            let count = clamp_index_exec(*k);
            let taken = take_n_exec(stack, count);
            StackItem::Array(taken)
        },
        StackItem::Array(ks) => {
            let mut out: Vec<StackItem> = Vec::new();
            let mut i: usize = 0;
            proof {
                lemma_vals_view(ks@);
            }
            while i < ks.len()
                invariant
                    i <= ks.len(),
                    out@.len() == i,
                    (stack_view(stack@), vals_view(out@)) == array_wrap_seq(
                        stack_view(old(stack)@),
                        vals_view(ks@).subrange(0, i as int),
                    ),
                decreases ks.len() - i,
            {
                let ghost pre = vals_view(ks@).subrange(0, i as int);
                proof {
                    assert(decreases_to!(*n => *ks));
                    assert(decreases_to!(*ks => ks[i as int]));
                }
                let v = array_wrap(stack, &ks[i]);
                let ghost vv = v@;
                let ghost out_pre = out@;
                out.push(v);
                i = i + 1;
                proof {
                    let post = vals_view(ks@).subrange(0, i as int);
                    lemma_array_wrap_seq_snoc(stack_view(old(stack)@), pre, val_view(ks@[i - 1]));
                    assert(post =~= pre.push(val_view(ks@[i - 1])));
                    assert(out@.drop_last() =~= out_pre);
                    assert(vals_view(out@) == vals_view(out_pre).push(vv));
                    assert(vals_view(out@) =~= array_wrap_seq(
                        stack_view(old(stack)@),
                        post,
                    ).1);
                }
            }
            let r = StackItem::Array(out);
            proof {
                assert(vals_view(ks@).subrange(0, ks@.len() as int) =~= vals_view(ks@));
            }
            r
        },
    }
}

/// Wrapping one more index after a run.
proof fn lemma_array_wrap_seq_snoc(stack: Seq<ValV>, ks: Seq<ValV>, k: ValV)
    ensures
        ({
            let (s1, vs) = array_wrap_seq(stack, ks);
            let (s2, v) = array_wrap_spec(s1, k);
            array_wrap_seq(stack, ks.push(k)) == (s2, vs.push(v))
        }),
    decreases ks,
{
    let e = ks.push(k);
    assert(e.len() == ks.len() + 1);
    if ks.len() == 0 {
        assert(e.first() == k);
        assert(e.drop_first() =~= Seq::<ValV>::empty());
        let v = array_wrap_spec(stack, k).1;
        let s2 = array_wrap_spec(stack, k).0;
        assert(array_wrap_seq(s2, e.drop_first()) == (s2, Seq::<ValV>::empty()));
        assert(array_wrap_seq(stack, e) == (s2, seq![v] + Seq::<ValV>::empty()));
        assert(seq![v] + Seq::<ValV>::empty() =~= seq![v]);
        assert(array_wrap_seq(stack, ks) == (stack, Seq::<ValV>::empty()));
        assert(Seq::<ValV>::empty().push(v) =~= seq![v]);
    } else {
        assert(e.first() == ks.first());
        assert(e.drop_first() =~= ks.drop_first().push(k));
        let s1 = array_wrap_spec(stack, ks.first()).0;
        let v1 = array_wrap_spec(stack, ks.first()).1;
        lemma_array_wrap_seq_snoc(s1, ks.drop_first(), k);
        let sa = array_wrap_seq(s1, ks.drop_first()).0;
        let va = array_wrap_seq(s1, ks.drop_first()).1;
        let sb = array_wrap_spec(sa, k).0;
        let vb = array_wrap_spec(sa, k).1;
        assert(array_wrap_seq(s1, e.drop_first()) == (sb, va.push(vb)));
        assert(array_wrap_seq(stack, e) == (sb, seq![v1] + va.push(vb)));
        assert(array_wrap_seq(stack, ks) == (sa, seq![v1] + va));
        assert(seq![v1] + va.push(vb) =~= (seq![v1] + va).push(vb));
    }
}

/// The numeric leaves of a value, in reading order.
pub open spec fn leaves(v: ValV) -> Seq<i64>
    decreases v,
{
    match v {
        ValV::Int(n) => seq![n],
        ValV::Arr(a) => leaves_seq(a),
    }
}

pub open spec fn leaves_seq(a: Seq<ValV>) -> Seq<i64>
    decreases a,
{
    if a.len() == 0 {
        Seq::empty()
    } else {
        leaves_seq(a.drop_last()) + leaves(a.last())
    }
}

/// Collects the numeric leaves of a value; see [`leaves`].
#[verifier::loop_isolation(false)]
pub fn collect_leaves(v: &StackItem) -> (r: Vec<i64>)
    ensures
        r@ == leaves(v@),
    decreases v,
{
    match v {
        StackItem::Number(n) => {
            let mut out: Vec<i64> = Vec::new();
            out.push(*n);
            proof {
                assert(out@ =~= leaves(v@));
            }
            out
        },
        StackItem::Array(a) => {
            let mut out: Vec<i64> = Vec::new();
            let mut i: usize = 0;
            proof {
                lemma_vals_view(a@);
                assert(vals_view(a@).subrange(0, 0) =~= Seq::<ValV>::empty());
            }
            while i < a.len()
                invariant
                    i <= a.len(),
                    out@ == leaves_seq(vals_view(a@).subrange(0, i as int)),
                decreases a.len() - i,
            {
                proof {
                    assert(decreases_to!(*v => *a));
                    assert(decreases_to!(*a => a[i as int]));
                }
                let mut part = collect_leaves(&a[i]);
                let ghost pre = vals_view(a@).subrange(0, i as int);
                let mut j: usize = 0;
                let ghost outpre = out@;
                while j < part.len()
                    invariant
                        j <= part.len(),
                        out@ == outpre + part@.subrange(0, j as int),
                    decreases part.len() - j,
                {
                    out.push(part[j]);
                    proof {
                        assert(out@ =~= outpre + part@.subrange(0, j + 1));
                    }
                    j = j + 1;
                }
                i = i + 1;
                proof {
                    let post = vals_view(a@).subrange(0, i as int);
                    assert(post.drop_last() =~= pre);
                    assert(post.last() == val_view(a@[i - 1]));
                    assert(part@.subrange(0, part@.len() as int) =~= part@);
                    assert(out@ =~= leaves_seq(post));
                }
            }
            proof {
                assert(vals_view(a@).subrange(0, a@.len() as int) =~= vals_view(a@));
            }
            out
        },
    }
}

/// `1` for true, `0` for false.
pub open spec fn bool_val(b: bool) -> ValV {
    if b {
        ValV::Int(1)
    } else {
        ValV::Int(0)
    }
}

/// A left rotation: the bottom value moves to the top.
pub open spec fn rotate_left_spec(s: Seq<ValV>) -> Seq<ValV> {
    if s.len() > 0 {
        s.drop_first().push(s.first())
    } else {
        s
    }
}

/// A right rotation: the top value moves to the bottom.
pub open spec fn rotate_right_spec(s: Seq<ValV>) -> Seq<ValV> {
    if s.len() > 0 {
        seq![s.last()] + s.drop_last()
    } else {
        s
    }
}

/// Each leaf as the character it prints as.
pub open spec fn chars_of_leaves(ls: Seq<i64>) -> Seq<char> {
    Seq::new(ls.len(), |i: int| char_of_code(ls[i]))
}

/// Each leaf in decimal, followed by one space.
pub open spec fn numchars_of_leaves(ls: Seq<i64>) -> Seq<char>
    decreases ls,
{
    if ls.len() == 0 {
        Seq::empty()
    } else {
        numchars_of_leaves(ls.drop_last()) + dec_chars(ls.last()) + seq![' ']
    }
}

/// Each leaf as a character followed by a newline.
pub open spec fn linechars_of_leaves(ls: Seq<i64>) -> Seq<char>
    decreases ls,
{
    if ls.len() == 0 {
        Seq::empty()
    } else {
        linechars_of_leaves(ls.drop_last()) + seq![char_of_code(ls.last()), '\n']
    }
}

/// Pops and prints `times` values, each value's leaves on lines of their
/// own.
pub open spec fn pop_print(stack: Seq<ValV>, times: nat) -> (Seq<ValV>, Seq<char>)
    decreases times,
{
    if times == 0 {
        (stack, Seq::empty())
    } else {
        let (s1, v) = pop1(stack);
        let (s2, o2) = pop_print(s1, (times - 1) as nat);
        (s2, linechars_of_leaves(leaves(v)) + o2)
    }
}

/// Runs [`pop_print`] once for every leaf count in order.
pub open spec fn output_n_fold(stack: Seq<ValV>, counts: Seq<i64>) -> (Seq<ValV>, Seq<char>)
    decreases counts,
{
    if counts.len() == 0 {
        (stack, Seq::empty())
    } else {
        let (s1, o1) = pop_print(stack, clamp_index(counts.first()));
        let (s2, o2) = output_n_fold(s1, counts.drop_first());
        (s2, o1 + o2)
    }
}

/// The element of `a` at leaf index `k`, a zero when out of range;
/// element-wise for an array of indexes.
pub open spec fn get_nth(a: Seq<ValV>, n: ValV) -> ValV
    decreases n,
{
    match n {
        ValV::Int(k) => if 0 <= k < a.len() {
            a[k as int]
        } else {
            ValV::Int(0)
        },
        ValV::Arr(ks) => ValV::Arr(get_nth_seq(a, ks)),
    }
}

pub open spec fn get_nth_seq(a: Seq<ValV>, ks: Seq<ValV>) -> Seq<ValV>
    decreases ks,
{
    if ks.len() == 0 {
        Seq::empty()
    } else {
        get_nth_seq(a, ks.drop_last()).push(get_nth(a, ks.last()))
    }
}

pub proof fn lemma_get_nth_seq(a: Seq<ValV>, ks: Seq<ValV>)
    ensures
        get_nth_seq(a, ks).len() == ks.len(),
        forall|i: int| 0 <= i < ks.len() ==> get_nth_seq(a, ks)[i] == get_nth(a, ks[i]),
    decreases ks,
{
    if ks.len() > 0 {
        lemma_get_nth_seq(a, ks.drop_last());
    }
}

/// Writes `v` at index `k` of `a`, ignoring an out-of-range index.
pub open spec fn put_at(a: Seq<ValV>, k: i64, v: ValV) -> Seq<ValV> {
    if 0 <= k < a.len() {
        a.update(k as int, v)
    } else {
        a
    }
}

/// Writes `v` at every index of `ks` in order.
pub open spec fn put_all(a: Seq<ValV>, ks: Seq<i64>, v: ValV) -> Seq<ValV>
    decreases ks,
{
    if ks.len() == 0 {
        a
    } else {
        put_all(put_at(a, ks.first(), v), ks.drop_first(), v)
    }
}

/// Reads elements of `a` under the shape of `n`; see [`get_nth`].
#[verifier::loop_isolation(false)]
pub fn get_nth_exec(a: &Vec<StackItem>, n: &StackItem) -> (r: StackItem)
    ensures
        r@ == get_nth(vals_view(a@), n@),
    decreases n,
{
    match n {
        StackItem::Number(k) => {
            proof {
                lemma_vals_view(a@);
            }
            if 0 <= *k && (*k as u64) < u64::MAX && (*k as usize as u64 == *k as u64) && (
            *k as usize) < a.len() {
                a[*k as usize].duplicate()
            } else {
                proof {
                    if 0 <= (*k as int) && (*k as int) < vals_view(a@).len() {
                        assert((*k as usize) < a.len());
                    }
                }
                StackItem::Number(0)
            }
        },
        StackItem::Array(ks) => {
            let mut out: Vec<StackItem> = Vec::new();
            let mut i: usize = 0;
            proof {
                lemma_get_nth_seq(vals_view(a@), vals_view(ks@));
                lemma_vals_view(ks@);
            }
            while i < ks.len()
                invariant
                    i <= ks.len(),
                    out@.len() == i,
                    forall|j: int| 0 <= j < i ==> val_view(#[trigger] out@[j]) == get_nth(
                        vals_view(a@),
                        val_view(ks@[j]),
                    ),
                decreases ks.len() - i,
            {
                proof {
                    assert(decreases_to!(*n => *ks));
                    assert(decreases_to!(*ks => ks[i as int]));
                }
                let elem = get_nth_exec(a, &ks[i]);
                out.push(elem);
                i = i + 1;
            }
            let r = StackItem::Array(out);
            proof {
                lemma_vals_view(r->Array_0@);
                assert(vals_view(r->Array_0@) =~= get_nth_seq(vals_view(a@), vals_view(ks@)));
            }
            r
        },
    }
}

/// Writes `v` at every index in `ks`; see [`put_all`].
#[verifier::loop_isolation(false)]
pub fn put_all_exec(a: &mut Vec<StackItem>, ks: &Vec<i64>, v: &StackItem)
    ensures
        vals_view(final(a)@) == put_all(vals_view(old(a)@), ks@, v@),
{
    let mut i: usize = 0;
    proof {
        assert(ks@.skip(0) =~= ks@);
    }
    while i < ks.len()
        invariant
            i <= ks.len(),
            put_all(vals_view(a@), ks@.skip(i as int), v@) == put_all(
                vals_view(old(a)@),
                ks@,
                v@,
            ),
        decreases ks.len() - i,
    {
        let ghost suffix = ks@.skip(i as int);
        let k = ks[i];
        proof {
            lemma_vals_view(a@);
            assert(suffix.first() == k);
        }
        if 0 <= k && (k as u64) < u64::MAX && (k as usize as u64 == k as u64) && (k as usize)
            < a.len() {
            let ghost apre = a@;
            let elem = v.duplicate();
            a.set(k as usize, elem);
            proof {
                lemma_vals_view(a@);
                lemma_vals_view(apre);
                assert(vals_view(a@) =~= put_at(vals_view(apre), k, v@));
            }
        } else {
            proof {
                if 0 <= (k as int) && (k as int) < vals_view(a@).len() {
                    assert((k as usize) < a.len());
                }
                assert(vals_view(a@) == put_at(vals_view(a@), k, v@));
            }
        }
        i = i + 1;
        proof {
            assert(suffix.drop_first() =~= ks@.skip(i as int));
        }
    }
    proof {
        assert(ks@.skip(ks@.len() as int) =~= Seq::<i64>::empty());
    }
}

/// Appends every leaf as the character it prints as.
pub fn print_leaves_chars(out: &mut Vec<char>, ls: &Vec<i64>)
    ensures
        final(out)@ == old(out)@ + chars_of_leaves(ls@),
{
    let mut i: usize = 0;
    while i < ls.len()
        invariant
            i <= ls.len(),
            out@ == old(out)@ + chars_of_leaves(ls@).subrange(0, i as int),
        decreases ls.len() - i,
    {
        let c = crate::language::io::char_of_code_exec(ls[i]);
        out.push(c);
        proof {
            assert(out@ =~= old(out)@ + chars_of_leaves(ls@).subrange(0, i + 1));
        }
        i = i + 1;
    }
    proof {
        assert(chars_of_leaves(ls@).subrange(0, ls@.len() as int) =~= chars_of_leaves(ls@));
        assert(out@ =~= old(out)@ + chars_of_leaves(ls@));
    }
}

/// Appends every leaf in decimal with a trailing space.
pub fn print_leaves_numbers(out: &mut Vec<char>, ls: &Vec<i64>)
    ensures
        final(out)@ == old(out)@ + numchars_of_leaves(ls@),
{
    let mut i: usize = 0;
    proof {
        assert(ls@.subrange(0, 0) =~= Seq::<i64>::empty());
        assert(out@ =~= old(out)@ + numchars_of_leaves(ls@.subrange(0, 0)));
    }
    while i < ls.len()
        invariant
            i <= ls.len(),
            out@ == old(out)@ + numchars_of_leaves(ls@.subrange(0, i as int)),
        decreases ls.len() - i,
    {
        let ghost pre = ls@.subrange(0, i as int);
        crate::language::io::push_decimal(out, ls[i]);
        out.push(' ');
        i = i + 1;
        proof {
            let post = ls@.subrange(0, i as int);
            assert(post.drop_last() =~= pre);
            assert(post.last() == ls@[i - 1]);
            assert(out@ =~= old(out)@ + numchars_of_leaves(post));
        }
    }
    proof {
        assert(ls@.subrange(0, ls@.len() as int) =~= ls@);
    }
}

/// Appends every leaf as a character followed by a newline.
pub fn print_leaves_lines(out: &mut Vec<char>, ls: &Vec<i64>)
    ensures
        final(out)@ == old(out)@ + linechars_of_leaves(ls@),
{
    let mut i: usize = 0;
    proof {
        assert(ls@.subrange(0, 0) =~= Seq::<i64>::empty());
        assert(out@ =~= old(out)@ + linechars_of_leaves(ls@.subrange(0, 0)));
    }
    while i < ls.len()
        invariant
            i <= ls.len(),
            out@ == old(out)@ + linechars_of_leaves(ls@.subrange(0, i as int)),
        decreases ls.len() - i,
    {
        let ghost pre = ls@.subrange(0, i as int);
        let c = crate::language::io::char_of_code_exec(ls[i]);
        out.push(c);
        out.push('\n');
        i = i + 1;
        proof {
            let post = ls@.subrange(0, i as int);
            assert(post.drop_last() =~= pre);
            assert(post.last() == ls@[i - 1]);
            assert(out@ =~= old(out)@ + linechars_of_leaves(post));
        }
    }
    proof {
        assert(ls@.subrange(0, ls@.len() as int) =~= ls@);
    }
}

/// Each character as a numeric stack value.
pub open spec fn codes_of(cs: Seq<char>) -> Seq<ValV> {
    Seq::new(cs.len(), |i: int| ValV::Int(code_of_char(cs[i])))
}

/// Turns read characters into an array value of their code points.
pub fn codes_to_array(cs: &Vec<char>) -> (r: StackItem)
    ensures
        r@ == ValV::Arr(codes_of(cs@)),
{
    let mut out: Vec<StackItem> = Vec::new();
    let mut i: usize = 0;
    while i < cs.len()
        invariant
            i <= cs.len(),
            out@.len() == i,
            forall|j: int| 0 <= j < i ==> val_view(#[trigger] out@[j]) == ValV::Int(
                code_of_char(cs@[j]),
            ),
        decreases cs.len() - i,
    {
        out.push(StackItem::Number(cs[i] as u32 as i64));
        i = i + 1;
    }
    let r = StackItem::Array(out);
    proof {
        lemma_vals_view(r->Array_0@);
        assert(vals_view(r->Array_0@) =~= codes_of(cs@));
    }
    r
}

/// The full effect of one instruction executed in normal mode.
pub struct EvalEffect {
    /// The stack afterwards.
    pub stack: Seq<ValV>,
    /// The mode afterwards.
    pub mode: ModeV,
    /// What was appended to the output.
    pub out: Seq<char>,
    /// What is left of the input.
    pub input: Seq<char>,
    /// How the instruction pointer moves on.
    pub behavior: InstructionPointerBehavior,
}

/// The semantics of every opcode, executed in normal mode over a stack and
/// the remaining input.
pub open spec fn eval_spec(i: Instruction, stack: Seq<ValV>, input: Seq<char>) -> EvalEffect {
    let keep = EvalEffect {
        stack,
        mode: ModeV::Normal,
        out: Seq::empty(),
        input,
        behavior: InstructionPointerBehavior::Straight,
    };
    match i {
        Instruction::TurnLeft => EvalEffect {
            behavior: InstructionPointerBehavior::Left,
            ..keep
        },
        Instruction::TurnRight => EvalEffect {
            behavior: InstructionPointerBehavior::Right,
            ..keep
        },
        Instruction::TurnAround => EvalEffect {
            behavior: InstructionPointerBehavior::Back,
            ..keep
        },
        Instruction::TurnLeftIf => if stack.len() > 0 {
            EvalEffect {
                stack: stack.drop_last(),
                behavior: if truthy(stack.last()) {
                    InstructionPointerBehavior::Left
                } else {
                    InstructionPointerBehavior::Straight
                },
                ..keep
            }
        } else {
            keep
        },
        Instruction::TurnRightIf => if stack.len() > 0 {
            EvalEffect {
                stack: stack.drop_last(),
                behavior: if truthy(stack.last()) {
                    InstructionPointerBehavior::Right
                } else {
                    InstructionPointerBehavior::Straight
                },
                ..keep
            }
        } else {
            keep
        },
        Instruction::Less => {
            let (s2, a, b) = pop2(stack);
            EvalEffect {
                stack: s2.push(bool_val(cmp_spec(a, b) == Some(ValueOrder::Greater))),
                ..keep
            }
        },
        Instruction::Greater => {
            let (s2, a, b) = pop2(stack);
            EvalEffect {
                stack: s2.push(bool_val(cmp_spec(a, b) == Some(ValueOrder::Less))),
                ..keep
            }
        },
        Instruction::Equal => {
            let (s2, a, b) = pop2(stack);
            EvalEffect { stack: s2.push(bool_val(a == b)), ..keep }
        },
        Instruction::Duplicate => {
            let (s1, a) = pop1(stack);
            EvalEffect { stack: s1.push(a).push(a), ..keep }
        },
        Instruction::DuplicateTwo => {
            let (s2, a, b) = pop2(stack);
            EvalEffect { stack: s2.push(b).push(a).push(b).push(a), ..keep }
        },
        Instruction::PopTop => EvalEffect { stack: pop1(stack).0, ..keep },
        Instruction::Swap => {
            let (s2, a, b) = pop2(stack);
            EvalEffect { stack: s2.push(a).push(b), ..keep }
        },
        Instruction::RotateLeft => EvalEffect { stack: rotate_left_spec(stack), ..keep },
        Instruction::RotateRight => EvalEffect { stack: rotate_right_spec(stack), ..keep },
        Instruction::DuplicateN => {
            let (s1, n) = pop1(stack);
            match n {
                ValV::Arr(_) => EvalEffect { stack: s1, ..keep },
                ValV::Int(k) => {
                    let (s2, taken) = take_n(s1, clamp_index(k));
                    EvalEffect { stack: s2 + taken + taken, ..keep }
                },
            }
        },
        Instruction::CopyNth => {
            let (s1, n) = pop1(stack);
            EvalEffect { stack: s1.push(copy_nth_spec(s1, n)), ..keep }
        },
        Instruction::UnwrapArray => {
            let (s1, v) = pop1(stack);
            match v {
                ValV::Int(_) => EvalEffect { stack: s1.push(v), ..keep },
                ValV::Arr(a) => EvalEffect { stack: s1 + a, ..keep },
            }
        },
        Instruction::WrapArray => {
            let (s1, n) = pop1(stack);
            let (s2, w) = array_wrap_spec(s1, n);
            EvalEffect { stack: s2.push(w), ..keep }
        },
        Instruction::StartCharacterString => EvalEffect {
            mode: ModeV::CharString(Seq::empty()),
            ..keep
        },
        Instruction::StartArrayString => EvalEffect {
            mode: ModeV::ArrayString(Seq::empty()),
            ..keep
        },
        Instruction::StartCharacter => EvalEffect { mode: ModeV::Char, ..keep },
        Instruction::Const(k) => EvalEffect { stack: stack.push(ValV::Int(k as i64)), ..keep },
        Instruction::Add => {
            let (s2, a, b) = pop2(stack);
            EvalEffect { stack: s2.push(broadcast_op(BinOp::Add, a, b)), ..keep }
        },
        Instruction::Subtract => {
            let (s2, a, b) = pop2(stack);
            EvalEffect { stack: s2.push(broadcast_op(BinOp::Subtract, a, b)), ..keep }
        },
        Instruction::Multiply => {
            let (s2, a, b) = pop2(stack);
            EvalEffect { stack: s2.push(broadcast_op(BinOp::Multiply, a, b)), ..keep }
        },
        Instruction::Divide => {
            let (s2, a, b) = pop2(stack);
            EvalEffect { stack: s2.push(broadcast_op(BinOp::Divide, a, b)), ..keep }
        },
        Instruction::Negate => {
            let (s1, a) = pop1(stack);
            EvalEffect { stack: s1.push(neg_val(a)), ..keep }
        },
        Instruction::InputCharacter => if input.len() > 0 {
            EvalEffect {
                stack: stack.push(ValV::Int(code_of_char(input.first()))),
                input: input.drop_first(),
                ..keep
            }
        } else {
            EvalEffect { stack: stack.push(ValV::Int(0)), ..keep }
        },
        Instruction::InputLine => {
            let l = take_line(input);
            EvalEffect {
                stack: stack.push(ValV::Arr(codes_of(l))),
                input: if l.len() < input.len() {
                    input.skip(l.len() as int + 1)
                } else {
                    Seq::empty()
                },
                ..keep
            }
        },
        Instruction::InputWord => {
            let after = skip_ws(input);
            let w = take_word(after);
            EvalEffect {
                stack: stack.push(ValV::Arr(codes_of(w))),
                input: after.skip(w.len() as int),
                ..keep
            }
        },
        Instruction::InputNumber => {
            let (v, rest) = parse_number(input);
            EvalEffect { stack: stack.push(ValV::Int(v)), input: rest, ..keep }
        },
        Instruction::OutputCharacter => {
            let (s1, v) = pop1(stack);
            EvalEffect { stack: s1, out: chars_of_leaves(leaves(v)), ..keep }
        },
        Instruction::OutputNumber => {
            let (s1, v) = pop1(stack);
            EvalEffect { stack: s1, out: numchars_of_leaves(leaves(v)), ..keep }
        },
        Instruction::OutputN => {
            let (s1, n) = pop1(stack);
            let (s2, o) = output_n_fold(s1, leaves(n));
            EvalEffect { stack: s2, out: o, ..keep }
        },
        Instruction::GetArrayN => {
            let (s1, n) = pop1(stack);
            let (s2, arr) = pop1(s1);
            match arr {
                ValV::Int(_) => EvalEffect { stack: s2, ..keep },
                ValV::Arr(a) => EvalEffect { stack: s2.push(get_nth(a, n)), ..keep },
            }
        },
        Instruction::PutArrayN => {
            let (s1, v) = pop1(stack);
            let (s2, n) = pop1(s1);
            let (s3, arr) = pop1(s2);
            match arr {
                ValV::Int(_) => EvalEffect { stack: s3, ..keep },
                ValV::Arr(a) => EvalEffect {
                    stack: s3.push(ValV::Arr(put_all(a, leaves(n), v))),
                    ..keep
                },
            }
        },
        Instruction::Quit => EvalEffect { mode: ModeV::Stopped, ..keep },
    }
}

impl Instruction {
    /// Executes this opcode in normal mode: transforms the stack, may
    /// switch the mode, appends any output and consumes any input, and
    /// reports how the instruction pointer moves on. The whole effect is
    /// exactly [`eval_spec`].
    #[verifier::loop_isolation(false)]
    #[verifier::rlimit(60)]
    pub fn evaluate(
        self,
        mode: &mut Mode,
        stack: &mut Vec<StackItem>,
        out: &mut Vec<char>,
        input: &mut InputBuffer,
    ) -> (behavior: InstructionPointerBehavior)
        requires
            old(mode)@ is Normal,
        ensures
            ({
                let eff = eval_spec(self, stack_view(old(stack)@), old(input)@);
                &&& stack_view(final(stack)@) == eff.stack
                &&& final(mode)@ == eff.mode
                &&& final(out)@ == old(out)@ + eff.out
                &&& final(input)@ == eff.input
                &&& behavior == eff.behavior
            }),
    {
        let ghost eff = eval_spec(self, stack_view(old(stack)@), old(input)@);
        proof {
            assert(old(out)@ + Seq::<char>::empty() =~= old(out)@);
        }
        match self {
            Instruction::TurnLeft => InstructionPointerBehavior::Left,
            Instruction::TurnRight => InstructionPointerBehavior::Right,
            Instruction::TurnAround => InstructionPointerBehavior::Back,
            Instruction::TurnLeftIf => {
                match stack.pop() {
                    Some(v) => {
                        proof {
                            assert(stack_view(stack@) =~= stack_view(old(stack)@).drop_last());
                        }
                        if v.is_truthy() {
                            InstructionPointerBehavior::Left
                        } else {
                            InstructionPointerBehavior::Straight
                        }
                    },
                    None => {
                        proof {
                            assert(stack_view(stack@) =~= stack_view(old(stack)@));
                        }
                        InstructionPointerBehavior::Straight
                    },
                }
            },
            Instruction::TurnRightIf => {
                match stack.pop() {
                    Some(v) => {
                        proof {
                            assert(stack_view(stack@) =~= stack_view(old(stack)@).drop_last());
                        }
                        if v.is_truthy() {
                            InstructionPointerBehavior::Right
                        } else {
                            InstructionPointerBehavior::Straight
                        }
                    },
                    None => {
                        proof {
                            assert(stack_view(stack@) =~= stack_view(old(stack)@));
                        }
                        InstructionPointerBehavior::Straight
                    },
                }
            },
            Instruction::Less => {
                let (a, b) = top_two_of_stack_or_default(stack);
                let gt = match a.compare(&b) {
                    Some(ValueOrder::Greater) => true,
                    _ => false,
                };
                push_value(stack, StackItem::Number(if gt { 1 } else { 0 }));
                InstructionPointerBehavior::Straight
            },
            Instruction::Greater => {
                let (a, b) = top_two_of_stack_or_default(stack);
                let lt = match a.compare(&b) {
                    Some(ValueOrder::Less) => true,
                    _ => false,
                };
                push_value(stack, StackItem::Number(if lt { 1 } else { 0 }));
                InstructionPointerBehavior::Straight
            },
            Instruction::Equal => {
                let (a, b) = top_two_of_stack_or_default(stack);
                let eq = a.same_as(&b);
                push_value(stack, StackItem::Number(if eq { 1 } else { 0 }));
                InstructionPointerBehavior::Straight
            },
            Instruction::Duplicate => {
                let a = top_of_stack_or_default(stack);
                let c = a.duplicate();
                push_value(stack, c);
                push_value(stack, a);
                InstructionPointerBehavior::Straight
            },
            Instruction::DuplicateTwo => {
                let (a, b) = top_two_of_stack_or_default(stack);
                let b2 = b.duplicate();
                let a2 = a.duplicate();
                push_value(stack, b2);
                push_value(stack, a2);
                push_value(stack, b);
                push_value(stack, a);
                InstructionPointerBehavior::Straight
            },
            Instruction::PopTop => {
                let _ = top_of_stack_or_default(stack);
                InstructionPointerBehavior::Straight
            },
            Instruction::Swap => {
                let (a, b) = top_two_of_stack_or_default(stack);
                push_value(stack, a);
                push_value(stack, b);
                InstructionPointerBehavior::Straight
            },
            Instruction::RotateLeft => {
                if stack.len() > 0 {
                    let x = stack.remove(0);
                    stack.push(x);
                    proof {
                        assert(stack_view(stack@) =~= rotate_left_spec(
                            stack_view(old(stack)@),
                        ));
                    }
                } else {
                    proof {
                        assert(stack_view(stack@) =~= rotate_left_spec(
                            stack_view(old(stack)@),
                        ));
                    }
                }
                InstructionPointerBehavior::Straight
            },
            Instruction::RotateRight => {
                if stack.len() > 0 {
                    match stack.pop() {
                        Some(x) => {
                            stack.insert(0, x);
                            proof {
                                assert(stack_view(stack@) =~= rotate_right_spec(
                                    stack_view(old(stack)@),
                                ));
                            }
                        },
                        None => {},
                    }
                } else {
                    proof {
                        assert(stack_view(stack@) =~= rotate_right_spec(
                            stack_view(old(stack)@),
                        ));
                    }
                }
                InstructionPointerBehavior::Straight
            },
            Instruction::DuplicateN => {
                let n = top_of_stack_or_default(stack);
                match n {
                    StackItem::Array(_) => {},
                    StackItem::Number(k) => {
                        let count = clamp_index_exec(k);
                        let ghost s1 = stack_view(stack@);
                        let taken = take_n_exec(stack, count);
                        let ghost t = vals_view(taken@);
                        let ghost s2 = stack_view(stack@);
                        proof {
                            lemma_vals_view(taken@);
                        }
                        let mut round: usize = 0;
                        while round < 2
                            invariant
                                round <= 2,
                                round == 0 ==> stack_view(stack@) == s2,
                                round == 1 ==> stack_view(stack@) == s2 + t,
                                round == 2 ==> stack_view(stack@) == s2 + t + t,
                            decreases 2 - round,
                        {
                            let ghost svr = stack_view(stack@);
                            let mut j: usize = 0;
                            while j < taken.len()
                                invariant
                                    j <= taken.len(),
                                    stack_view(stack@) == svr + t.subrange(0, j as int),
                                decreases taken.len() - j,
                            {
                                let elem = taken[j].duplicate();
                                push_value(stack, elem);
                                proof {
                                    assert(svr + t.subrange(0, j + 1) =~= (svr + t.subrange(
                                        0,
                                        j as int,
                                    )).push(t[j as int]));
                                }
                                j = j + 1;
                            }
                            proof {
                                assert(t.subrange(0, t.len() as int) =~= t);
                            }
                            round = round + 1;
                        }
                    },
                }
                InstructionPointerBehavior::Straight
            },
            Instruction::CopyNth => {
                let n = top_of_stack_or_default(stack);
                let v = copy_nth(stack, &n);
                push_value(stack, v);
                InstructionPointerBehavior::Straight
            },
            Instruction::UnwrapArray => {
                let v = top_of_stack_or_default(stack);
                match v {
                    StackItem::Number(nv) => {
                        push_value(stack, StackItem::Number(nv));
                    },
                    StackItem::Array(arr) => {
                        let ghost s1 = stack_view(stack@);
                        let ghost a = vals_view(arr@);
                        proof {
                            lemma_vals_view(arr@);
                        }
                        let mut j: usize = 0;
                        while j < arr.len()
                            invariant
                                j <= arr.len(),
                                stack_view(stack@) == s1 + a.subrange(0, j as int),
                            decreases arr.len() - j,
                        {
                            let elem = arr[j].duplicate();
                            push_value(stack, elem);
                            proof {
                                assert(s1 + a.subrange(0, j + 1) =~= (s1 + a.subrange(
                                    0,
                                    j as int,
                                )).push(a[j as int]));
                            }
                            j = j + 1;
                        }
                        proof {
                            assert(a.subrange(0, a.len() as int) =~= a);
                        }
                    },
                }
                InstructionPointerBehavior::Straight
            },
            Instruction::WrapArray => {
                let n = top_of_stack_or_default(stack);
                let w = array_wrap(stack, &n);
                push_value(stack, w);
                InstructionPointerBehavior::Straight
            },
            Instruction::StartCharacterString => {
                *mode = Mode::CharStringMode(Vec::new());
                proof {
                    assert(mode@ matches ModeV::CharString(b) && b =~= Seq::<ValV>::empty());
                }
                InstructionPointerBehavior::Straight
            },
            Instruction::StartArrayString => {
                *mode = Mode::ArrayStringMode(Vec::new());
                proof {
                    assert(mode@ matches ModeV::ArrayString(b) && b =~= Seq::<ValV>::empty());
                }
                InstructionPointerBehavior::Straight
            },
            Instruction::StartCharacter => {
                *mode = Mode::CharMode;
                InstructionPointerBehavior::Straight
            },
            Instruction::Const(k) => {
                push_value(stack, StackItem::Number(k as i64));
                InstructionPointerBehavior::Straight
            },
            Instruction::Add => {
                let (a, b) = top_two_of_stack_or_default(stack);
                let v = a.apply_binary_operator(&b, BinOp::Add);
                push_value(stack, v);
                InstructionPointerBehavior::Straight
            },
            Instruction::Subtract => {
                let (a, b) = top_two_of_stack_or_default(stack);
                let v = a.apply_binary_operator(&b, BinOp::Subtract);
                push_value(stack, v);
                InstructionPointerBehavior::Straight
            },
            Instruction::Multiply => {
                let (a, b) = top_two_of_stack_or_default(stack);
                let v = a.apply_binary_operator(&b, BinOp::Multiply);
                push_value(stack, v);
                InstructionPointerBehavior::Straight
            },
            Instruction::Divide => {
                let (a, b) = top_two_of_stack_or_default(stack);
                let v = a.apply_binary_operator(&b, BinOp::Divide);
                push_value(stack, v);
                InstructionPointerBehavior::Straight
            },
            Instruction::Negate => {
                let a = top_of_stack_or_default(stack);
                let v = a.negate();
                push_value(stack, v);
                InstructionPointerBehavior::Straight
            },
            Instruction::InputCharacter => {
                match input.next_char() {
                    Some(c) => {
                        push_value(stack, StackItem::Number(c as u32 as i64));
                    },
                    None => {
                        push_value(stack, StackItem::Number(0));
                    },
                }
                InstructionPointerBehavior::Straight
            },
            Instruction::InputLine => {
                let cs = input.take_line_chars();
                let v = codes_to_array(&cs);
                push_value(stack, v);
                InstructionPointerBehavior::Straight
            },
            Instruction::InputWord => {
                input.skip_blanks();
                let cs = input.take_word_chars();
                let v = codes_to_array(&cs);
                push_value(stack, v);
                InstructionPointerBehavior::Straight
            },
            Instruction::InputNumber => {
                let v = input.take_number();
                push_value(stack, StackItem::Number(v));
                InstructionPointerBehavior::Straight
            },
            Instruction::OutputCharacter => {
                let v = top_of_stack_or_default(stack);
                let ls = collect_leaves(&v);
                print_leaves_chars(out, &ls);
                InstructionPointerBehavior::Straight
            },
            Instruction::OutputNumber => {
                let v = top_of_stack_or_default(stack);
                let ls = collect_leaves(&v);
                print_leaves_numbers(out, &ls);
                InstructionPointerBehavior::Straight
            },
            Instruction::OutputN => {
                let n = top_of_stack_or_default(stack);
                let counts = collect_leaves(&n);
                let ghost s1 = stack_view(stack@);
                let ghost total = output_n_fold(s1, counts@);
                let ghost base = out@;
                let ghost mut produced: Seq<char> = Seq::empty();
                let mut i: usize = 0;
                proof {
                    assert(counts@.skip(0) =~= counts@);
                    assert(out@ =~= base + produced);
                }
                while i < counts.len()
                    invariant
                        i <= counts.len(),
                        out@ == base + produced,
                        total == ({
                            let (cs, co) = output_n_fold(
                                stack_view(stack@),
                                counts@.skip(i as int),
                            );
                            (cs, produced + co)
                        }),
                    decreases counts.len() - i,
                {
                    let ghost suffix = counts@.skip(i as int);
                    let count = clamp_index_exec(counts[i]);
                    proof {
                        assert(suffix.first() == counts@[i as int]);
                    }
                    let ghost sv_entry = stack_view(stack@);
                    let ghost inner_total = pop_print(sv_entry, count as nat);
                    let mut t: usize = 0;
                    let ghost mut produced2: Seq<char> = Seq::empty();
                    proof {
                        assert(produced2 + inner_total.1 =~= inner_total.1);
                        assert(out@ =~= base + produced + produced2);
                    }
                    while t < count
                        invariant
                            t <= count,
                            out@ == base + produced + produced2,
                            inner_total == ({
                                let (cs, co) = pop_print(
                                    stack_view(stack@),
                                    (count - t) as nat,
                                );
                                (cs, produced2 + co)
                            }),
                        decreases count - t,
                    {
                        let ghost svc = stack_view(stack@);
                        let top = top_of_stack_or_default(stack);
                        let ghost tv = top@;
                        let ls = collect_leaves(&top);
                        print_leaves_lines(out, &ls);
                        proof {
                            let o1 = linechars_of_leaves(leaves(tv));
                            let rest = pop_print(stack_view(stack@), (count - t - 1) as nat);
                            assert(pop_print(svc, (count - t) as nat) == (
                                rest.0,
                                o1 + rest.1,
                            ));
                            assert(produced2 + (o1 + rest.1) =~= (produced2 + o1) + rest.1);
                            produced2 = produced2 + o1;
                            assert(out@ =~= base + produced + produced2);
                        }
                        t = t + 1;
                    }
                    proof {
                        assert(pop_print(stack_view(stack@), 0nat).1 =~= Seq::<char>::empty());
                        assert(produced2 + Seq::<char>::empty() =~= produced2);
                        assert(inner_total == (stack_view(stack@), produced2));
                        let after = output_n_fold(stack_view(stack@), suffix.drop_first());
                        assert(output_n_fold(sv_entry, suffix) == (
                            after.0,
                            produced2 + after.1,
                        ));
                        assert(produced + (produced2 + after.1) =~= (produced + produced2)
                            + after.1);
                        produced = produced + produced2;
                        assert(suffix.drop_first() =~= counts@.skip(i as int + 1));
                        assert(out@ =~= base + produced);
                    }
                    i = i + 1;
                }
                proof {
                    assert(counts@.skip(counts@.len() as int) =~= Seq::<i64>::empty());
                    assert(produced + Seq::<char>::empty() =~= produced);
                }
                InstructionPointerBehavior::Straight
            },
            Instruction::GetArrayN => {
                let n = top_of_stack_or_default(stack);
                let arr = top_of_stack_or_default(stack);
                match arr {
                    StackItem::Number(_) => {},
                    StackItem::Array(a) => {
                        let v = get_nth_exec(&a, &n);
                        push_value(stack, v);
                    },
                }
                InstructionPointerBehavior::Straight
            },
            Instruction::PutArrayN => {
                let value = top_of_stack_or_default(stack);
                let n = top_of_stack_or_default(stack);
                let arr = top_of_stack_or_default(stack);
                match arr {
                    StackItem::Number(_) => {},
                    StackItem::Array(mut a) => {
                        let ks = collect_leaves(&n);
                        put_all_exec(&mut a, &ks, &value);
                        push_value(stack, StackItem::Array(a));
                    },
                }
                InstructionPointerBehavior::Straight
            },
            Instruction::Quit => {
                *mode = Mode::Stopped;
                InstructionPointerBehavior::Straight
            },
        }
    }
}

/// The halt law: executing `;` moves the interpreter to the stopped mode
/// and changes nothing else; the pointer would continue straight.
pub proof fn lemma_quit_stops(stack: Seq<ValV>, input: Seq<char>)
    ensures
        eval_spec(Instruction::Quit, stack, input).mode is Stopped,
        eval_spec(Instruction::Quit, stack, input).stack == stack,
        eval_spec(Instruction::Quit, stack, input).out.len() == 0,
        eval_spec(Instruction::Quit, stack, input).input == input,
        eval_spec(Instruction::Quit, stack, input).behavior
            == InstructionPointerBehavior::Straight,
{
}

} // verus!
