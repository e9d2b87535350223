//! End-to-end behaviour of the interpreter: literal modes, halting, the
//! stack opcodes, I/O and the scenario programs.

use painrose::geometry::rhomb::{AbsoluteDirection, Tile};
use painrose::geometry::tile_reference::TileReference;
use painrose::language::error::ParseErrorKind;
use painrose::language::io::InputBuffer;
use painrose::language::stack_item::StackItem;
use painrose::language::LanguageState;

/// Loads and runs a program to completion, returning its output.
fn run(source: &str, stdin: &str) -> String {
    let mut program = LanguageState::new_from_string(source.to_string()).unwrap();
    let mut input = InputBuffer::new(stdin.chars().collect());
    let mut out: Vec<char> = Vec::new();
    let mut steps = 0;
    while program.is_running() {
        program.step(&mut out, &mut input).unwrap();
        steps += 1;
        assert!(steps < 100000, "program did not halt");
    }
    out.into_iter().collect()
}

/// Loads a program and runs a fixed number of steps, returning the state.
fn run_steps(source: &str, stdin: &str, steps: usize) -> LanguageState {
    let mut program = LanguageState::new_from_string(source.to_string()).unwrap();
    let mut input = InputBuffer::new(stdin.chars().collect());
    let mut out: Vec<char> = Vec::new();
    for _ in 0..steps {
        program.step(&mut out, &mut input).unwrap();
    }
    program
}

#[test]
fn hello_world() {
    assert_eq!(run(":\"Hello World!\"I;", ""), "Hello World!");
}

#[test]
fn arithmetic_and_print() {
    assert_eq!(run(":23+N;", ""), "5 ");
}

/// A truthy top of stack makes `^` turn left; a zero leaves the pointer
/// straight: the two programs end on different cells.
#[test]
fn conditional_turn() {
    let taken = run_steps(":1^", "", 2);
    let skipped = run_steps(":0^", "", 2);
    assert_ne!(taken.ip(), skipped.ip());
}

/// Unwrapping pushes the array's elements in order, leaving the last
/// element on top; printing then pops that single element.
#[test]
fn array_unwrap_round_trip() {
    let state = run_steps(":\"ab\"u", "", 5);
    assert_eq!(
        state.stack(),
        &vec![StackItem::Number(97), StackItem::Number(98)]
    );
    assert_eq!(run(":\"ab\"u N;", ""), "98 ");
}

/// Printing an array prints every leaf in order.
#[test]
fn array_prints_all_leaves() {
    assert_eq!(run(":\"ab\"N;", ""), "97 98 ");
}

/// Two turn-around cells facing each other bounce the pointer: after any
/// even number of steps it is back at the origin, facing north again.
#[test]
fn involution_probe() {
    let origin = TileReference::new(vec![]).unwrap();
    let (south, _) = origin.go(AbsoluteDirection::South).unwrap();
    let mut addr_text = String::new();
    for i in 0..south.len() {
        addr_text.push(match south.get_at(i) {
            Tile::A => 'a',
            Tile::B => 'b',
            Tile::C => 'c',
            Tile::D => 'd',
            Tile::E => 'e',
        });
    }
    let source = format!(":|\n{}:|", addr_text);
    let state = run_steps(&source, "", 4);
    assert_eq!(state.ip(), &origin);
    assert_eq!(state.direction(), AbsoluteDirection::North);
}

#[test]
fn parse_error_bad_species() {
    let err = LanguageState::new_from_string("xyz:+".to_string()).unwrap_err();
    assert_eq!(err.line, 0);
    assert_eq!(err.column, 0);
    assert_eq!(err.kind, ParseErrorKind::BadCoordinateError);
}

#[test]
fn parse_error_missing_colon() {
    let err = LanguageState::new_from_string("abc".to_string()).unwrap_err();
    assert_eq!(err.line, 0);
    assert_eq!(err.column, 0);
    assert_eq!(err.kind, ParseErrorKind::InvalidPrefixError);
}

#[test]
fn parse_error_bad_direction() {
    let err = LanguageState::new_from_string("a-q:x".to_string()).unwrap_err();
    assert_eq!(err.line, 0);
    assert_eq!(err.column, 1);
    assert_eq!(err.kind, ParseErrorKind::BadDirectionError);
}

#[test]
fn parse_error_reports_line_number() {
    let err = LanguageState::new_from_string(":12\nnope".to_string()).unwrap_err();
    assert_eq!(err.line, 1);
    assert_eq!(err.kind, ParseErrorKind::InvalidPrefixError);
}

/// A `"` literal pushes one array; a `'` literal pushes the code points
/// one by one in reading order.
#[test]
fn mode_round_trip() {
    let array_mode = run_steps(":\"hi\"", "", 4);
    assert_eq!(
        array_mode.stack(),
        &vec![StackItem::Array(vec![
            StackItem::Number(104),
            StackItem::Number(105),
        ])]
    );

    let char_mode = run_steps(":'hi'", "", 4);
    assert_eq!(
        char_mode.stack(),
        &vec![StackItem::Number(104), StackItem::Number(105)]
    );
}

/// `;` stops the program: `is_running` goes false and the step loop exits.
#[test]
fn halt_stops_the_program() {
    let mut program = LanguageState::new_from_string(":;".to_string()).unwrap();
    let mut input = InputBuffer::new(vec![]);
    let mut out: Vec<char> = Vec::new();
    assert!(program.is_running());
    program.step(&mut out, &mut input).unwrap();
    assert!(!program.is_running());
    let mut steps = 0;
    while program.is_running() {
        steps += 1;
    }
    assert_eq!(steps, 0);
}

/// The backtick pushes the next cell's code point.
#[test]
fn char_mode_pushes_code_point() {
    assert_eq!(run(":`xN;", ""), "120 ");
}

/// Printing a code point above the ASCII range relies on the real
/// character conversion.
#[test]
fn output_character_beyond_ascii() {
    let expected: String = vec![char::from_u32(729).unwrap()].into_iter().collect();
    assert_eq!(run(":999**I;", ""), expected);
}

/// A negative leaf clamps to the zero code point.
#[test]
fn output_character_clamps_negative() {
    assert_eq!(run(":1_I;", ""), "\u{0}");
}

/// A leaf in the surrogate range is no scalar value and prints as a
/// question mark. The program computes 2048, then 4096 * 13, and adds
/// them: 55296, the first surrogate.
#[test]
fn output_character_invalid_code_point() {
    assert_eq!(run(":288*88**/88*88**49+*+I;", ""), "?");
}

#[test]
fn stack_opcodes() {
    // Duplicate.
    assert_eq!(run(":1:NN;", ""), "1 1 ");
    // DuplicateTwo.
    assert_eq!(run(":12#NNNN;", ""), "2 1 2 1 ");
    // PopTop.
    assert_eq!(run(":12~N;", ""), "1 ");
    // Swap leaves the old second value on top.
    assert_eq!(run(":12sN;", ""), "1 ");
    // RotateLeft moves the bottom to the top.
    assert_eq!(run(":123{N;", ""), "1 ");
    // RotateRight moves the top to the bottom.
    assert_eq!(run(":123}N;", ""), "2 ");
    // CopyNth.
    assert_eq!(run(":4561cN;", ""), "5 ");
    // DuplicateN.
    assert_eq!(run(":12 2dNNNN;", ""), "2 1 2 1 ");
}

#[test]
fn comparison_opcodes() {
    assert_eq!(run(":12(N;", ""), "1 ");
    assert_eq!(run(":12)N;", ""), "0 ");
    assert_eq!(run(":11=N;", ""), "1 ");
    assert_eq!(run(":12=N;", ""), "0 ");
}

#[test]
fn arithmetic_opcodes() {
    // Subtraction and division take the top value as the left operand.
    assert_eq!(run(":23-N;", ""), "1 ");
    assert_eq!(run(":29/N;", ""), "4 ");
    assert_eq!(run(":23*N;", ""), "6 ");
    assert_eq!(run(":5_N;", ""), "-5 ");
}

/// Popping an empty stack yields zeros.
#[test]
fn empty_stack_defaults() {
    assert_eq!(run(":+N;", ""), "0 ");
    assert_eq!(run(":N;", ""), "0 ");
}

#[test]
fn array_wrap_and_index() {
    // Wrap three values, print the array.
    assert_eq!(run(":1233aN;", ""), "1 2 3 ");
    // Indexing with `[`.
    assert_eq!(run(":1233a1[N;", ""), "2 ");
    // Writing with `]`.
    assert_eq!(run(":1233a09]N;", ""), "9 2 3 ");
}

#[test]
fn input_opcodes() {
    // A number, with blanks and a sign.
    assert_eq!(run(":nN;", " -17"), "-17 ");
    // A single character.
    assert_eq!(run(":iI;", "A"), "A");
    // A whitespace-delimited word as an array of code points.
    assert_eq!(run(":lN;", "hi x"), "104 105 ");
    // A line as an array of code points.
    assert_eq!(run(":wN;", "ab\ncd"), "97 98 ");
    // An exhausted source reads as zero.
    assert_eq!(run(":nN;", ""), "0 ");
}

/// A second line may place cells relative to a named address with a
/// direction.
#[test]
fn prefixed_line_parses() {
    let program = LanguageState::new_from_string(":1\na-e:2".to_string()).unwrap();
    assert!(program.is_running());
}

/// The renderer boundary: every written cell is handed out with its
/// character, and the current pointer address is exposed.
#[test]
fn renderer_boundary_data() {
    let program = LanguageState::new_from_string(":xy".to_string()).unwrap();
    let cells = program.code().cells();
    assert_eq!(cells.len(), 2);
    let origin = TileReference::new(vec![]).unwrap();
    let at_origin = cells.iter().find(|c| c.0 == origin).expect("origin cell");
    assert_eq!(at_origin.1, 'x');
    assert_eq!(at_origin.2, None);
    assert_eq!(program.ip(), &origin);
}
