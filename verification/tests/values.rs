//! The stack value model: broadcasting arithmetic, comparison, truthiness.

use painrose::language::io::{push_decimal, InputBuffer};
use painrose::language::stack_item::{BinOp, StackItem, ValueOrder};

fn num(n: i64) -> StackItem {
    StackItem::Number(n)
}

fn arr(items: Vec<StackItem>) -> StackItem {
    StackItem::Array(items)
}

/// The three broadcasting shapes: scalar over array, zip to the longer
/// length with zeros, and the empty array against a non-empty one.
#[test]
fn value_broadcasting() {
    let a = arr(vec![num(1), num(2)]).apply_binary_operator(&num(3), BinOp::Add);
    assert_eq!(a, arr(vec![num(4), num(5)]));

    let b = arr(vec![num(1), num(2)])
        .apply_binary_operator(&arr(vec![num(10), num(20), num(30)]), BinOp::Add);
    assert_eq!(b, arr(vec![num(11), num(22), num(30)]));

    let c = arr(vec![]).apply_binary_operator(&arr(vec![num(1)]), BinOp::Add);
    assert_eq!(c, arr(vec![num(1)]));
}

/// The scalar broadcasts from either side, and nesting recurses.
#[test]
fn broadcasting_nested_and_left() {
    let a = num(10).apply_binary_operator(&arr(vec![num(1), arr(vec![num(2)])]), BinOp::Add);
    assert_eq!(a, arr(vec![num(11), arr(vec![num(12)])]));

    let b = arr(vec![num(5)]).apply_binary_operator(&num(2), BinOp::Subtract);
    assert_eq!(b, arr(vec![num(3)]));
}

/// Division is total: a zero divisor yields zero.
#[test]
fn division_by_zero_is_zero() {
    assert_eq!(num(7).apply_binary_operator(&num(0), BinOp::Divide), num(0));
    assert_eq!(num(7).apply_binary_operator(&num(2), BinOp::Divide), num(3));
    assert_eq!(num(-7).apply_binary_operator(&num(2), BinOp::Divide), num(-3));
}

/// Numbers compare by magnitude, arrays lexicographically, and mixed kinds
/// are incomparable.
#[test]
fn comparison_rules() {
    assert_eq!(num(1).compare(&num(2)), Some(ValueOrder::Less));
    assert_eq!(num(2).compare(&num(2)), Some(ValueOrder::Equal));
    assert_eq!(num(3).compare(&num(2)), Some(ValueOrder::Greater));

    let a = arr(vec![num(1), num(2)]);
    let b = arr(vec![num(1), num(3)]);
    assert_eq!(a.compare(&b), Some(ValueOrder::Less));
    assert_eq!(b.compare(&a), Some(ValueOrder::Greater));
    assert_eq!(a.compare(&a), Some(ValueOrder::Equal));

    // A strict prefix is less.
    let p = arr(vec![num(1)]);
    assert_eq!(p.compare(&a), Some(ValueOrder::Less));

    // A number and an array are incomparable.
    assert_eq!(num(1).compare(&a), None);
    assert_eq!(a.compare(&num(1)), None);
}

/// Truthiness: non-zero numbers and non-empty arrays.
#[test]
fn truthiness() {
    assert!(!num(0).is_truthy());
    assert!(num(-1).is_truthy());
    assert!(!arr(vec![]).is_truthy());
    assert!(arr(vec![num(0)]).is_truthy());
}

/// Negation recurses through arrays.
#[test]
fn negation_recurses() {
    let v = arr(vec![num(1), arr(vec![num(-2)])]);
    assert_eq!(v.negate(), arr(vec![num(-1), arr(vec![num(2)])]));
}

/// Deep equality distinguishes kinds and contents.
#[test]
fn deep_equality() {
    assert!(num(3).same_as(&num(3)));
    assert!(!num(3).same_as(&num(4)));
    assert!(!num(3).same_as(&arr(vec![num(3)])));
    assert!(arr(vec![num(1), num(2)]).same_as(&arr(vec![num(1), num(2)])));
    assert!(!arr(vec![num(1)]).same_as(&arr(vec![num(1), num(2)])));
}

/// The input buffer consumes from the front.
#[test]
fn input_buffer_consumes() {
    let mut b = InputBuffer::new(vec!['a', 'b']);
    assert_eq!(b.remaining(), 2);
    assert_eq!(b.peek(), Some('a'));
    assert_eq!(b.next_char(), Some('a'));
    assert_eq!(b.next_char(), Some('b'));
    assert_eq!(b.next_char(), None);
    assert_eq!(b.remaining(), 0);
}

/// Decimal output, including zero and the wrapping minimum.
#[test]
fn decimal_output_edges() {
    let mut out: Vec<char> = Vec::new();
    push_decimal(&mut out, 0);
    push_decimal(&mut out, -45);
    push_decimal(&mut out, i64::MIN);
    let text: String = out.into_iter().collect();
    assert_eq!(text, "0-45-9223372036854775808");
}
