//! The stack value model: recursive numeric/array values with element-wise
//! broadcasting arithmetic and lexicographic comparison.

use vstd::prelude::*;

verus! {

/// A runtime stack value: a number or an array of further values.
#[derive(Debug, PartialEq)]
pub enum StackItem {
    Number(i64),
    Array(Vec<StackItem>),
}

/// The mathematical shape of a stack value.
pub enum ValV {
    Int(i64),
    Arr(Seq<ValV>),
}

/// The deep views of a list of stack values.
pub open spec fn vals_view(a: Seq<StackItem>) -> Seq<ValV>
    decreases a,
{
    if a.len() == 0 {
        Seq::empty()
    } else {
        vals_view(a.drop_last()).push(val_view(a.last()))
    }
}

/// The deep view of a stack value.
pub open spec fn val_view(v: StackItem) -> ValV
    decreases v,
{
    match v {
        StackItem::Number(n) => ValV::Int(n),
        StackItem::Array(a) => ValV::Arr(vals_view(a@)),
    }
}

/// `vals_view` is the pointwise deep view.
pub proof fn lemma_vals_view(a: Seq<StackItem>)
    ensures
        vals_view(a).len() == a.len(),
        forall|i: int| 0 <= i < a.len() ==> vals_view(a)[i] == val_view(a[i]),
    decreases a,
{
    if a.len() > 0 {
        lemma_vals_view(a.drop_last());
    }
}

impl View for StackItem {
    type V = ValV;

    open spec fn view(&self) -> ValV {
        val_view(*self)
    }
}

/// The deep view of a whole stack, bottom first.
pub open spec fn stack_view(s: Seq<StackItem>) -> Seq<ValV> {
    s.map_values(|v: StackItem| val_view(v))
}

/// A value is truthy when it is a non-zero number or a non-empty array.
pub open spec fn truthy(v: ValV) -> bool {
    match v {
        ValV::Int(n) => n != 0,
        ValV::Arr(a) => a.len() != 0,
    }
}

impl StackItem {
    /// Truthiness: non-zero number or non-empty array.
    pub fn is_truthy(&self) -> (r: bool)
        ensures
            r == truthy(self@),
    {
        match self {
            StackItem::Number(k) => *k != 0,
            StackItem::Array(k) => k.len() != 0,
        }
    }

    /// A structural copy of the value.
    #[verifier::loop_isolation(false)]
    pub fn duplicate(&self) -> (r: StackItem)
        ensures
            r@ == self@,
        decreases self,
    {
        match self {
            StackItem::Number(n) => StackItem::Number(*n),
            StackItem::Array(a) => {
                let mut out: Vec<StackItem> = Vec::new();
                let mut i: usize = 0;
                while i < a.len()
                    invariant
                        i <= a.len(),
                        out@.len() == i,
                        forall|j: int| 0 <= j < i ==> val_view(#[trigger] out@[j]) == val_view(
                            a@[j],
                        ),
                    decreases a.len() - i,
                {
                    proof {
                        assert(decreases_to!(*self => *a));
                        assert(decreases_to!(*a => a[i as int]));
                    }
                    let copy = a[i].duplicate();
                    out.push(copy);
                    i = i + 1;
                }
                let r = StackItem::Array(out);
                proof {
                    lemma_vals_view(out@);
                    lemma_vals_view(a@);
                    assert(vals_view(out@) =~= vals_view(a@));
                }
                r
            },
        }
    }

    /// Deep structural equality of values.
    #[verifier::loop_isolation(false)]
    pub fn same_as(&self, other: &StackItem) -> (r: bool)
        ensures
            r <==> self@ == other@,
        decreases self, other,
    {
        match (self, other) {
            (StackItem::Number(a), StackItem::Number(b)) => a == b,
            (StackItem::Array(a), StackItem::Array(b)) => {
                if a.len() != b.len() {
                    proof {
                        lemma_vals_view(a@);
                        lemma_vals_view(b@);
                    }
                    return false;
                }
                let mut i: usize = 0;
                while i < a.len()
                    invariant
                        i <= a.len(),
                        a.len() == b.len(),
                        forall|j: int| 0 <= j < i ==> val_view(#[trigger] a@[j]) == val_view(
                            b@[j],
                        ),
                    decreases a.len() - i,
                {
                    proof {
                        assert(decreases_to!(*self => *a));
                        assert(decreases_to!(*a => a[i as int]));
                    }
                    if !a[i].same_as(&b[i]) {
                        proof {
                            lemma_vals_view(a@);
                            lemma_vals_view(b@);
                            assert(vals_view(a@)[i as int] != vals_view(b@)[i as int]);
                        }
                        return false;
                    }
                    i = i + 1;
                }
                proof {
                    lemma_vals_view(a@);
                    lemma_vals_view(b@);
                    assert(vals_view(a@) =~= vals_view(b@));
                }
                true
            },
            _ => {
                proof {
                    assert(self@ is Int <==> !(self@ is Arr));
                }
                false
            },
        }
    }
}

/// A binary arithmetic operator of the language.
#[derive(Copy, Clone, PartialEq, Eq, Debug, Structural)]
pub enum BinOp {
    Add,
    Subtract,
    Multiply,
    Divide,
}

/// The scalar meaning of an operator: wrapping two's-complement arithmetic;
/// division is truncating, total with quotient zero for a zero divisor, and
/// wraps on the one overflowing case.
pub open spec fn num_op(op: BinOp, a: i64, b: i64) -> i64 {
    match op {
        BinOp::Add => a.wrapping_add(b),
        BinOp::Subtract => a.wrapping_sub(b),
        BinOp::Multiply => a.wrapping_mul(b),
        BinOp::Divide => if b == 0 {
            0
        } else {
            match a.checked_div(b) {
                Some(q) => q,
                None => i64::MIN,
            }
        },
    }
}

/// Executable scalar arithmetic; agrees with [`num_op`].
pub fn num_op_exec(op: BinOp, a: i64, b: i64) -> (r: i64)
    ensures
        r == num_op(op, a, b),
{
    match op {
        BinOp::Add => a.wrapping_add(b),
        BinOp::Subtract => a.wrapping_sub(b),
        BinOp::Multiply => a.wrapping_mul(b),
        BinOp::Divide => if b == 0 {
            0
        } else {
            match a.checked_div(b) {
                Some(q) => q,
                None => i64::MIN,
            }
        },
    }
}

/// `v op y` at every numeric leaf of `v` (the scalar is on the right).
pub open spec fn scalar_r(op: BinOp, v: ValV, y: i64) -> ValV
    decreases v,
{
    match v {
        ValV::Int(x) => ValV::Int(num_op(op, x, y)),
        ValV::Arr(a) => ValV::Arr(scalar_r_seq(op, a, y)),
    }
}

pub open spec fn scalar_r_seq(op: BinOp, a: Seq<ValV>, y: i64) -> Seq<ValV>
    decreases a,
{
    if a.len() == 0 {
        Seq::empty()
    } else {
        scalar_r_seq(op, a.drop_last(), y).push(scalar_r(op, a.last(), y))
    }
}

/// `x op v` at every numeric leaf of `v` (the scalar is on the left).
pub open spec fn scalar_l(op: BinOp, x: i64, v: ValV) -> ValV
    decreases v,
{
    match v {
        ValV::Int(y) => ValV::Int(num_op(op, x, y)),
        ValV::Arr(a) => ValV::Arr(scalar_l_seq(op, x, a)),
    }
}

pub open spec fn scalar_l_seq(op: BinOp, x: i64, a: Seq<ValV>) -> Seq<ValV>
    decreases a,
{
    if a.len() == 0 {
        Seq::empty()
    } else {
        scalar_l_seq(op, x, a.drop_last()).push(scalar_l(op, x, a.last()))
    }
}

pub proof fn lemma_scalar_r_seq(op: BinOp, a: Seq<ValV>, y: i64)
    ensures
        scalar_r_seq(op, a, y).len() == a.len(),
        forall|i: int| 0 <= i < a.len() ==> scalar_r_seq(op, a, y)[i] == scalar_r(op, a[i], y),
    decreases a,
{
    if a.len() > 0 {
        lemma_scalar_r_seq(op, a.drop_last(), y);
    }
}

pub proof fn lemma_scalar_l_seq(op: BinOp, x: i64, a: Seq<ValV>)
    ensures
        scalar_l_seq(op, x, a).len() == a.len(),
        forall|i: int| 0 <= i < a.len() ==> scalar_l_seq(op, x, a)[i] == scalar_l(op, x, a[i]),
    decreases a,
{
    if a.len() > 0 {
        lemma_scalar_l_seq(op, x, a.drop_last());
    }
}

/// Element-wise combination of two arrays, zipped to the longer length;
/// the missing side is a zero.
pub open spec fn zip_op(op: BinOp, x: Seq<ValV>, y: Seq<ValV>) -> Seq<ValV>
    decreases x, y,
{
    if x.len() == 0 && y.len() == 0 {
        Seq::empty()
    } else if x.len() == 0 {
        seq![scalar_l(op, 0, y.first())] + zip_op(op, x, y.drop_first())
    } else if y.len() == 0 {
        seq![scalar_r(op, x.first(), 0)] + zip_op(op, x.drop_first(), y)
    } else {
        seq![broadcast_op(op, x.first(), y.first())] + zip_op(op, x.drop_first(), y.drop_first())
    }
}

/// Two-argument broadcasting: numbers combine by [`num_op`], a scalar
/// broadcasts over every element of an array, and two arrays zip to the
/// longer length with zeros filling the shorter side.
pub open spec fn broadcast_op(op: BinOp, a: ValV, b: ValV) -> ValV
    decreases a, b,
{
    match (a, b) {
        (ValV::Int(x), ValV::Int(y)) => ValV::Int(num_op(op, x, y)),
        (ValV::Arr(_), ValV::Int(y)) => scalar_r(op, a, y),
        (ValV::Int(x), ValV::Arr(_)) => scalar_l(op, x, b),
        (ValV::Arr(x), ValV::Arr(y)) => ValV::Arr(zip_op(op, x, y)),
    }
}

/// The pointwise reading of [`zip_op`].
pub proof fn lemma_zip_op(op: BinOp, x: Seq<ValV>, y: Seq<ValV>)
    ensures
        zip_op(op, x, y).len() == if x.len() >= y.len() { x.len() } else { y.len() },
        forall|i: int| 0 <= i < x.len() && 0 <= i < y.len()
            ==> zip_op(op, x, y)[i] == broadcast_op(op, x[i], y[i]),
        forall|i: int| y.len() <= i < x.len()
            ==> zip_op(op, x, y)[i] == scalar_r(op, x[i], 0),
        forall|i: int| x.len() <= i < y.len()
            ==> zip_op(op, x, y)[i] == scalar_l(op, 0, y[i]),
    decreases x, y,
{
    if x.len() == 0 && y.len() == 0 {
    } else if x.len() == 0 {
        lemma_zip_op(op, x, y.drop_first());
    } else if y.len() == 0 {
        lemma_zip_op(op, x.drop_first(), y);
    } else {
        lemma_zip_op(op, x.drop_first(), y.drop_first());
    }
}

/// Negation at every numeric leaf, wrapping on the minimum value.
pub open spec fn neg_val(v: ValV) -> ValV
    decreases v,
{
    match v {
        ValV::Int(n) => ValV::Int((0i64).wrapping_sub(n)),
        ValV::Arr(a) => ValV::Arr(neg_seq(a)),
    }
}

pub open spec fn neg_seq(a: Seq<ValV>) -> Seq<ValV>
    decreases a,
{
    if a.len() == 0 {
        Seq::empty()
    } else {
        neg_seq(a.drop_last()).push(neg_val(a.last()))
    }
}

pub proof fn lemma_neg_seq(a: Seq<ValV>)
    ensures
        neg_seq(a).len() == a.len(),
        forall|i: int| 0 <= i < a.len() ==> neg_seq(a)[i] == neg_val(a[i]),
    decreases a,
{
    if a.len() > 0 {
        lemma_neg_seq(a.drop_last());
    }
}

/// The outcome of comparing two values that are comparable.
#[derive(Copy, Clone, PartialEq, Eq, Debug, Structural)]
pub enum ValueOrder {
    Less,
    Equal,
    Greater,
}

/// Comparison: numbers by magnitude, arrays lexicographically (elementwise,
/// with the shorter array less when it is a prefix), and a number is never
/// comparable with an array.
pub open spec fn cmp_spec(a: ValV, b: ValV) -> Option<ValueOrder>
    decreases a, b,
{
    match (a, b) {
        (ValV::Int(x), ValV::Int(y)) => Some(
            if x < y {
                ValueOrder::Less
            } else if x == y {
                ValueOrder::Equal
            } else {
                ValueOrder::Greater
            },
        ),
        (ValV::Arr(x), ValV::Arr(y)) => cmp_seq(x, y),
        _ => None,
    }
}

pub open spec fn cmp_seq(x: Seq<ValV>, y: Seq<ValV>) -> Option<ValueOrder>
    decreases x, y,
{
    if x.len() == 0 && y.len() == 0 {
        Some(ValueOrder::Equal)
    } else if x.len() == 0 {
        Some(ValueOrder::Less)
    } else if y.len() == 0 {
        Some(ValueOrder::Greater)
    } else {
        match cmp_spec(x.first(), y.first()) {
            None => None,
            Some(ValueOrder::Equal) => cmp_seq(x.drop_first(), y.drop_first()),
            Some(o) => Some(o),
        }
    }
}

impl StackItem {
    /// Broadcasting combination with `other` under `op`; see
    /// [`broadcast_op`].
    #[verifier::loop_isolation(false)]
    pub fn apply_binary_operator(&self, other: &StackItem, op: BinOp) -> (r: StackItem)
        ensures
            r@ == broadcast_op(op, self@, other@),
        decreases self, other,
    {
        match (self, other) {
            (StackItem::Number(x), StackItem::Number(y)) => StackItem::Number(
                num_op_exec(op, *x, *y),
            ),
            (StackItem::Array(_), StackItem::Number(y)) => self.apply_scalar_r(*y, op),
            (StackItem::Number(x), StackItem::Array(_)) => other.apply_scalar_l(*x, op),
            (StackItem::Array(x), StackItem::Array(y)) => {
                let n = if x.len() >= y.len() {
                    x.len()
                } else {
                    y.len()
                };
                let mut out: Vec<StackItem> = Vec::new();
                let mut i: usize = 0;
                proof {
                    lemma_zip_op(op, vals_view(x@), vals_view(y@));
                    lemma_vals_view(x@);
                    lemma_vals_view(y@);
                }
                while i < n
                    invariant
                        i <= n,
                        out@.len() == i,
                        forall|j: int| 0 <= j < i ==> val_view(#[trigger] out@[j]) == zip_op(
                            op,
                            vals_view(x@),
                            vals_view(y@),
                        )[j],
                    decreases n - i,
                {
                    let zero = StackItem::Number(0);
                    let elem: StackItem = if i < x.len() && i < y.len() {
                        proof {
                            assert(decreases_to!(*self => *x));
                            assert(decreases_to!(*x => x[i as int]));
                        }
                        x[i].apply_binary_operator(&y[i], op)
                    } else if i < x.len() {
                        x[i].apply_scalar_r(0, op)
                    } else {
                        y[i].apply_scalar_l(0, op)
                    };
                    out.push(elem);
                    i = i + 1;
                }
                let r = StackItem::Array(out);
                proof {
                    lemma_vals_view(r->Array_0@);
                    assert(vals_view(r->Array_0@) =~= zip_op(op, vals_view(x@), vals_view(y@)));
                }
                r
            },
        }
    }

    /// `self op y` at every numeric leaf.
    #[verifier::loop_isolation(false)]
    pub fn apply_scalar_r(&self, y: i64, op: BinOp) -> (r: StackItem)
        ensures
            r@ == scalar_r(op, self@, y),
        decreases self,
    {
        match self {
            StackItem::Number(x) => StackItem::Number(num_op_exec(op, *x, y)),
            StackItem::Array(a) => {
                let mut out: Vec<StackItem> = Vec::new();
                let mut i: usize = 0;
                proof {
                    lemma_scalar_r_seq(op, vals_view(a@), y);
                    lemma_vals_view(a@);
                }
                while i < a.len()
                    invariant
                        i <= a.len(),
                        out@.len() == i,
                        forall|j: int| 0 <= j < i ==> val_view(#[trigger] out@[j]) == scalar_r(
                            op,
                            val_view(a@[j]),
                            y,
                        ),
                    decreases a.len() - i,
                {
                    proof {
                        assert(decreases_to!(*self => *a));
                        assert(decreases_to!(*a => a[i as int]));
                    }
                    let elem = a[i].apply_scalar_r(y, op);
                    out.push(elem);
                    i = i + 1;
                }
                let r = StackItem::Array(out);
                proof {
                    lemma_vals_view(r->Array_0@);
                    assert(vals_view(r->Array_0@) =~= scalar_r_seq(op, vals_view(a@), y));
                }
                r
            },
        }
    }

    /// `x op self` at every numeric leaf.
    #[verifier::loop_isolation(false)]
    pub fn apply_scalar_l(&self, x: i64, op: BinOp) -> (r: StackItem)
        ensures
            r@ == scalar_l(op, x, self@),
        decreases self,
    {
        match self {
            StackItem::Number(y) => StackItem::Number(num_op_exec(op, x, *y)),
            StackItem::Array(a) => {
                let mut out: Vec<StackItem> = Vec::new();
                let mut i: usize = 0;
                proof {
                    lemma_scalar_l_seq(op, x, vals_view(a@));
                    lemma_vals_view(a@);
                }
                while i < a.len()
                    invariant
                        i <= a.len(),
                        out@.len() == i,
                        forall|j: int| 0 <= j < i ==> val_view(#[trigger] out@[j]) == scalar_l(
                            op,
                            x,
                            val_view(a@[j]),
                        ),
                    decreases a.len() - i,
                {
                    proof {
                        assert(decreases_to!(*self => *a));
                        assert(decreases_to!(*a => a[i as int]));
                    }
                    let elem = a[i].apply_scalar_l(x, op);
                    out.push(elem);
                    i = i + 1;
                }
                let r = StackItem::Array(out);
                proof {
                    lemma_vals_view(r->Array_0@);
                    assert(vals_view(r->Array_0@) =~= scalar_l_seq(op, x, vals_view(a@)));
                }
                r
            },
        }
    }

    /// Negation at every numeric leaf.
    #[verifier::loop_isolation(false)]
    pub fn negate(&self) -> (r: StackItem)
        ensures
            r@ == neg_val(self@),
        decreases self,
    {
        match self {
            StackItem::Number(n) => StackItem::Number((0i64).wrapping_sub(*n)),
            StackItem::Array(a) => {
                let mut out: Vec<StackItem> = Vec::new();
                let mut i: usize = 0;
                proof {
                    lemma_neg_seq(vals_view(a@));
                    lemma_vals_view(a@);
                }
                while i < a.len()
                    invariant
                        i <= a.len(),
                        out@.len() == i,
                        forall|j: int| 0 <= j < i ==> val_view(#[trigger] out@[j]) == neg_val(
                            val_view(a@[j]),
                        ),
                    decreases a.len() - i,
                {
                    proof {
                        assert(decreases_to!(*self => *a));
                        assert(decreases_to!(*a => a[i as int]));
                    }
                    let elem = a[i].negate();
                    out.push(elem);
                    i = i + 1;
                }
                let r = StackItem::Array(out);
                proof {
                    lemma_vals_view(r->Array_0@);
                    assert(vals_view(r->Array_0@) =~= neg_seq(vals_view(a@)));
                }
                r
            },
        }
    }

    /// Comparison with `other`; see [`cmp_spec`].
    #[verifier::loop_isolation(false)]
    pub fn compare(&self, other: &StackItem) -> (r: Option<ValueOrder>)
        ensures
            r == cmp_spec(self@, other@),
        decreases self, other,
    {
        match (self, other) {
            (StackItem::Number(x), StackItem::Number(y)) => Some(
                if *x < *y {
                    ValueOrder::Less
                } else if *x == *y {
                    ValueOrder::Equal
                } else {
                    ValueOrder::Greater
                },
            ),
            (StackItem::Array(x), StackItem::Array(y)) => {
                let mut i: usize = 0;
                proof {
                    lemma_vals_view(x@);
                    lemma_vals_view(y@);
                    assert(vals_view(x@).skip(0) =~= vals_view(x@));
                    assert(vals_view(y@).skip(0) =~= vals_view(y@));
                }
                loop
                    invariant
                        i <= x.len(),
                        i <= y.len(),
                        cmp_seq(vals_view(x@), vals_view(y@)) == cmp_seq(
                            vals_view(x@).skip(i as int),
                            vals_view(y@).skip(i as int),
                        ),
                    decreases x.len() - i,
                {
                    let ghost xs = vals_view(x@).skip(i as int);
                    let ghost ys = vals_view(y@).skip(i as int);
                    if i >= x.len() || i >= y.len() {
                        let r: Option<ValueOrder> = if i >= x.len() && i >= y.len() {
                            Some(ValueOrder::Equal)
                        } else if i >= x.len() {
                            Some(ValueOrder::Less)
                        } else {
                            Some(ValueOrder::Greater)
                        };
                        proof {
                            assert(xs.len() == 0 ==> i >= x.len());
                            assert(ys.len() == 0 ==> i >= y.len());
                        }
                        return r;
                    }
                    proof {
                        assert(decreases_to!(*self => *x));
                        assert(decreases_to!(*x => x[i as int]));
                        assert(xs.first() == val_view(x@[i as int]));
                        assert(ys.first() == val_view(y@[i as int]));
                    }
                    match x[i].compare(&y[i]) {
                        None => {
                            return None;
                        },
                        Some(ValueOrder::Equal) => {
                            proof {
                                assert(xs.drop_first() =~= vals_view(x@).skip(i + 1));
                                assert(ys.drop_first() =~= vals_view(y@).skip(i + 1));
                            }
                            i = i + 1;
                        },
                        Some(o) => {
                            return Some(o);
                        },
                    }
                }
            },
            _ => None,
        }
    }
}

} // verus!
