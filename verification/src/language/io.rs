//! Plain-value I/O support: the buffered input source the interpreter reads
//! from, and the textual forms in which it writes characters and numbers.

use vstd::prelude::*;

verus! {

/// True of the code points a `char` can carry: the Unicode scalar values.
pub open spec fn is_scalar_value(u: u32) -> bool {
    u < 0xD800 || (0xE000 <= u && u <= 0x10FFFF)
}

/// Relies on `char::from_u32` of std: it returns `Some` exactly on Unicode
/// scalar values (all of `0..=0x10FFFF` except the surrogate range
/// `0xD800..=0xDFFF`), and the returned character carries the given code
/// point.
pub assume_specification[ char::from_u32 ](u: u32) -> (r: Option<char>)
    ensures
        r is Some <==> is_scalar_value(u),
        r matches Some(c) ==> c as u32 == u,
;

/// A number clamped into the `u32` code-point range.
pub open spec fn sat_u32(k: i64) -> u32 {
    if k < 0 {
        0u32
    } else if k > u32::MAX {
        u32::MAX
    } else {
        k as u32
    }
}

/// The character a numeric leaf prints as: its clamped code point where
/// that is a Unicode scalar value, a question mark otherwise.
pub open spec fn char_of_code(k: i64) -> char {
    if is_scalar_value(sat_u32(k)) {
        sat_u32(k) as char
    } else {
        '?'
    }
}

/// Converts a numeric leaf to the character it prints as; see
/// [`char_of_code`].
pub fn char_of_code_exec(k: i64) -> (r: char)
    ensures
        r == char_of_code(k),
{
    let u: u32 = if k < 0 {
        0
    } else if k > u32::MAX as i64 {
        u32::MAX
    } else {
        k as u32
    };
    match char::from_u32(u) {
        Some(c) => {
            proof {
                vstd::utf8::char_u32_cast(c, u);
            }
            c
        },
        None => '?',
    }
}

/// The code point of a character, as a stack number.
pub open spec fn code_of_char(c: char) -> i64 {
    c as u32 as i64
}

/// The digit character for `d`, which must be below ten.
pub open spec fn digit_char(d: int) -> char {
    if d == 0 {
        '0'
    } else if d == 1 {
        '1'
    } else if d == 2 {
        '2'
    } else if d == 3 {
        '3'
    } else if d == 4 {
        '4'
    } else if d == 5 {
        '5'
    } else if d == 6 {
        '6'
    } else if d == 7 {
        '7'
    } else if d == 8 {
        '8'
    } else {
        '9'
    }
}

/// The decimal digits of `n`, most significant first.
pub open spec fn dec_digits(n: nat) -> Seq<char>
    decreases n,
{
    if n < 10 {
        seq![digit_char(n as int)]
    } else {
        dec_digits(n / 10).push(digit_char((n % 10) as int))
    }
}

/// The decimal form of a number, with a leading minus sign when negative.
pub open spec fn dec_chars(v: i64) -> Seq<char> {
    if v < 0 {
        seq!['-'] + dec_digits((-(v as int)) as nat)
    } else {
        dec_digits(v as nat)
    }
}

/// Appends the decimal form of `v` to `out`; see [`dec_chars`].
pub fn push_decimal(out: &mut Vec<char>, v: i64)
    ensures
        final(out)@ == old(out)@ + dec_chars(v),
{
    let mut mag: u64 = if v < 0 {
        out.push('-');
        (-(v as i128)) as u64
    } else {
        v as u64
    };
    let ghost m0 = mag as nat;
    let ghost base = out@;
    proof {
        assert(base + dec_digits(m0) == old(out)@ + dec_chars(v));
    }
    let mut tmp: Vec<char> = Vec::new();
    loop
        invariant_except_break
            mag > 0 ==> dec_digits(m0) == dec_digits(mag as nat) + tmp@.reverse(),
            mag == 0 ==> tmp@.len() == 0 && m0 == 0,
        invariant
            out@ == base,
        ensures
            dec_digits(m0) == tmp@.reverse(),
            out@ == base,
        decreases mag, (if tmp@.len() == 0 { 1int } else { 0int }),
    {
        let d: u64 = mag % 10;
        let c = match d {
            0 => '0',
            1 => '1',
            2 => '2',
            3 => '3',
            4 => '4',
            5 => '5',
            6 => '6',
            7 => '7',
            8 => '8',
            _ => '9',
        };
        proof {
            assert(c == digit_char(d as int));
        }
        let ghost old_mag = mag as nat;
        let ghost old_tmp = tmp@;
        tmp.push(c);
        mag = mag / 10;
        proof {
            assert(tmp@.reverse() =~= seq![c] + old_tmp.reverse());
            if mag > 0 {
                assert(dec_digits(old_mag) == dec_digits(old_mag / 10).push(
                    digit_char((old_mag % 10) as int),
                ));
                assert(dec_digits(mag as nat) + tmp@.reverse() =~= (dec_digits(mag as nat).push(
                    c,
                )) + old_tmp.reverse());
            } else {
                assert(old_mag < 10);
                assert(dec_digits(old_mag) =~= seq![c]);
                assert(tmp@.reverse() =~= seq![c] + old_tmp.reverse());
                if old_tmp.len() == 0 {
                    assert(dec_digits(m0) =~= tmp@.reverse());
                } else {
                    assert(dec_digits(m0) =~= tmp@.reverse());
                }
            }
        }
        if mag == 0 {
            break;
        }
    }
    while tmp.len() > 0
        invariant
            out@ + tmp@.reverse() == base + dec_digits(m0),
        decreases tmp.len(),
    {
        let ghost before = tmp@;
        match tmp.pop() {
            Some(c) => {
                out.push(c);
                proof {
                    assert(out@ + tmp@.reverse() =~= (out@.drop_last() + before.reverse()));
                }
            },
            None => {},
        }
    }
    proof {
        assert(out@ =~= base + dec_digits(m0));
    }
}

/// True of the four blank characters that delimit words in input.
pub open spec fn is_ws(c: char) -> bool {
    c == ' ' || c == '\t' || c == '\n' || c == '\r'
}

/// The input with its leading blanks removed.
pub open spec fn skip_ws(s: Seq<char>) -> Seq<char>
    decreases s.len(),
{
    if s.len() > 0 && is_ws(s.first()) {
        skip_ws(s.drop_first())
    } else {
        s
    }
}

/// The leading run of non-blank characters.
pub open spec fn take_word(s: Seq<char>) -> Seq<char>
    decreases s.len(),
{
    if s.len() > 0 && !is_ws(s.first()) {
        seq![s.first()] + take_word(s.drop_first())
    } else {
        Seq::empty()
    }
}

/// The leading run of characters before a newline.
pub open spec fn take_line(s: Seq<char>) -> Seq<char>
    decreases s.len(),
{
    if s.len() > 0 && s.first() != '\n' {
        seq![s.first()] + take_line(s.drop_first())
    } else {
        Seq::empty()
    }
}

/// The leading run of decimal digits.
pub open spec fn take_digits(s: Seq<char>) -> Seq<char>
    decreases s.len(),
{
    if s.len() > 0 && '0' <= s.first() && s.first() <= '9' {
        seq![s.first()] + take_digits(s.drop_first())
    } else {
        Seq::empty()
    }
}

/// The numeric value of a digit character.
pub open spec fn digit_value(c: char) -> i64 {
    (c as u32 as int - '0' as u32 as int) as i64
}

/// The value of a digit run folded onto `acc`, wrapping as the interpreter's
/// numbers do.
pub open spec fn digits_value(ds: Seq<char>, acc: i64) -> i64
    decreases ds.len(),
{
    if ds.len() == 0 {
        acc
    } else {
        digits_value(ds.drop_first(), acc.wrapping_mul(10).wrapping_add(digit_value(ds.first())))
    }
}

/// What reading a number consumes and produces: leading blanks are skipped,
/// an optional minus sign and a digit run are read; with no digits at all
/// the value is zero and only the blanks are consumed.
pub open spec fn parse_number(s: Seq<char>) -> (i64, Seq<char>) {
    let t = skip_ws(s);
    let neg = t.len() > 0 && t.first() == '-';
    let u = if neg {
        t.drop_first()
    } else {
        t
    };
    let ds = take_digits(u);
    if ds.len() == 0 {
        (0, t)
    } else {
        let v = digits_value(ds, 0);
        (
            if neg {
                (0i64).wrapping_sub(v)
            } else {
                v
            },
            u.skip(ds.len() as int),
        )
    }
}

/// A pre-filled input source, consumed character by character from the
/// front. The view is the sequence of characters not yet consumed.
#[derive(Debug)]
pub struct InputBuffer {
    chars: Vec<char>,
    pos: usize,
}

impl View for InputBuffer {
    type V = Seq<char>;

    closed spec fn view(&self) -> Seq<char> {
        if self.pos <= self.chars@.len() {
            self.chars@.skip(self.pos as int)
        } else {
            Seq::empty()
        }
    }
}

impl InputBuffer {
    /// An input source holding exactly `chars`.
    pub fn new(chars: Vec<char>) -> (r: InputBuffer)
        ensures
            r@ == chars@,
    {
        let r = InputBuffer { chars, pos: 0 };
        proof {
            assert(r@ =~= r.chars@);
        }
        r
    }

    /// How many characters are left.
    pub fn remaining(&self) -> (r: usize)
        ensures
            r == self@.len(),
    {
        if self.pos <= self.chars.len() {
            self.chars.len() - self.pos
        } else {
            0
        }
    }

    /// The next character, without consuming it.
    pub fn peek(&self) -> (r: Option<char>)
        ensures
            self@.len() > 0 ==> r == Some(self@.first()),
            self@.len() == 0 ==> r is None,
    {
        if self.pos < self.chars.len() {
            Some(self.chars[self.pos])
        } else {
            None
        }
    }

    /// Consumes and returns the next character.
    pub fn next_char(&mut self) -> (r: Option<char>)
        ensures
            old(self)@.len() > 0 ==> r == Some(old(self)@.first()) && final(self)@ == old(
                self,
            )@.drop_first(),
            old(self)@.len() == 0 ==> r is None && final(self)@ == old(self)@,
    {
        if self.pos < self.chars.len() {
            let c = self.chars[self.pos];
            self.pos = self.pos + 1;
            proof {
                assert(self@ =~= old(self)@.drop_first());
            }
            Some(c)
        } else {
            None
        }
    }

    /// Consumes the leading blanks.
    pub fn skip_blanks(&mut self)
        ensures
            final(self)@ == skip_ws(old(self)@),
    {
        loop
            invariant
                skip_ws(self@) == skip_ws(old(self)@),
            ensures
                self@ == skip_ws(old(self)@),
            decreases self@.len(),
        {
            match self.peek() {
                Some(c) => {
                    if c == ' ' || c == '\t' || c == '\n' || c == '\r' {
                        let _ = self.next_char();
                    } else {
                        break;
                    }
                },
                None => {
                    break;
                },
            }
        }
    }

    /// Consumes and returns the leading non-blank run.
    pub fn take_word_chars(&mut self) -> (r: Vec<char>)
        ensures
            r@ == take_word(old(self)@),
            final(self)@ == old(self)@.skip(r@.len() as int),
    {
        let mut out: Vec<char> = Vec::new();
        loop
            invariant
                out@ + take_word(self@) == take_word(old(self)@),
                self@ == old(self)@.skip(out@.len() as int),
                out@.len() <= old(self)@.len(),
            ensures
                out@ == take_word(old(self)@),
                self@ == old(self)@.skip(out@.len() as int),
            decreases self@.len(),
        {
            match self.peek() {
                Some(c) => {
                    if c == ' ' || c == '\t' || c == '\n' || c == '\r' {
                        proof {
                            assert(out@ =~= out@ + take_word(self@));
                        }
                        break;
                    } else {
                        let _ = self.next_char();
                        out.push(c);
                        proof {
                            assert((out@.drop_last() + (seq![c] + take_word(self@))) =~= (out@
                                + take_word(self@)));
                        }
                    }
                },
                None => {
                    proof {
                        assert(out@ =~= out@ + take_word(self@));
                    }
                    break;
                },
            }
        }
        out
    }

    /// Consumes and returns the leading line, discarding the newline that
    /// ends it.
    pub fn take_line_chars(&mut self) -> (r: Vec<char>)
        ensures
            r@ == take_line(old(self)@),
            final(self)@ == if r@.len() < old(self)@.len() {
                old(self)@.skip(r@.len() as int + 1)
            } else {
                Seq::<char>::empty()
            },
    {
        let mut out: Vec<char> = Vec::new();
        loop
            invariant
                out@ + take_line(self@) == take_line(old(self)@),
                self@ == old(self)@.skip(out@.len() as int),
                out@.len() <= old(self)@.len(),
            ensures
                out@ == take_line(old(self)@),
                self@ == old(self)@.skip(out@.len() as int),
            decreases self@.len(),
        {
            match self.peek() {
                Some(c) => {
                    if c == '\n' {
                        proof {
                            assert(out@ =~= out@ + take_line(self@));
                        }
                        break;
                    } else {
                        let _ = self.next_char();
                        out.push(c);
                        proof {
                            assert((out@.drop_last() + (seq![c] + take_line(self@))) =~= (out@
                                + take_line(self@)));
                        }
                    }
                },
                None => {
                    proof {
                        assert(out@ =~= out@ + take_line(self@));
                    }
                    break;
                },
            }
        }
        if self.remaining() > 0 {
            let _ = self.next_char();
        }
        proof {
            if out@.len() < old(self)@.len() {
                assert(self@ =~= old(self)@.skip(out@.len() as int + 1));
            } else {
                assert(self@ =~= Seq::<char>::empty());
            }
        }
        out
    }

    /// Consumes and returns a number; see [`parse_number`].
    pub fn take_number(&mut self) -> (r: i64)
        ensures
            (r, final(self)@) == parse_number(old(self)@),
    {
        self.skip_blanks();
        let ghost t = self@;
        let first = self.peek();
        let neg = match first {
            Some(c) => c == '-',
            None => false,
        };
        let digit_ready = if neg {
            match self.peek_second() {
                Some(c) => '0' <= c && c <= '9',
                None => false,
            }
        } else {
            match first {
                Some(c) => '0' <= c && c <= '9',
                None => false,
            }
        };
        if !digit_ready {
            proof {
                let u = if neg {
                    t.drop_first()
                } else {
                    t
                };
                assert(take_digits(u).len() == 0);
            }
            return 0;
        }
        if neg {
            let _ = self.next_char();
        }
        let ghost u = self@;
        let mut acc: i64 = 0;
        let ghost mut count: int = 0;
        proof {
            assert(u.skip(0) =~= u);
            assert(u.subrange(0, 0) =~= Seq::<char>::empty());
        }
        loop
            invariant
                0 <= count <= u.len(),
                self@ == u.skip(count),
                take_digits(u) == u.subrange(0, count) + take_digits(self@),
                acc == digits_value(u.subrange(0, count), 0),
            ensures
                take_digits(u) == u.subrange(0, count),
                acc == digits_value(take_digits(u), 0),
                self@ == u.skip(count),
            decreases self@.len(),
        {
            let next = self.peek();
            match next {
                Some(c) => {
                    if '0' <= c && c <= '9' {
                        let _ = self.next_char();
                        let d: i64 = (c as u32 as i64) - ('0' as u32 as i64);
                        let ghost prefix = u.subrange(0, count);
                        acc = acc.wrapping_mul(10).wrapping_add(d);
                        proof {
                            count = count + 1;
                            let prefix2 = u.subrange(0, count);
                            assert(prefix2 =~= prefix.push(c));
                            lemma_digits_value_push(prefix, c, 0);
                            assert(take_digits(u) =~= prefix2 + take_digits(self@));
                        }
                    } else {
                        proof {
                            assert(take_digits(u) =~= u.subrange(0, count));
                        }
                        break;
                    }
                },
                None => {
                    proof {
                        assert(take_digits(u) =~= u.subrange(0, count));
                    }
                    break;
                },
            }
        }
        proof {
            assert(take_digits(u).len() > 0);
            assert(final(self)@ == u.skip(take_digits(u).len() as int));
        }
        if neg {
            (0i64).wrapping_sub(acc)
        } else {
            acc
        }
    }

    /// The character after the next one, without consuming anything.
    pub fn peek_second(&self) -> (r: Option<char>)
        ensures
            self@.len() > 1 ==> r == Some(self@[1]),
            self@.len() <= 1 ==> r is None,
    {
        if self.pos < self.chars.len() && self.pos + 1 < self.chars.len() {
            Some(self.chars[self.pos + 1])
        } else {
            None
        }
    }
}

/// Folding one more digit onto the end of a run.
proof fn lemma_digits_value_push(ds: Seq<char>, c: char, acc: i64)
    ensures
        digits_value(ds.push(c), acc) == digits_value(ds, acc).wrapping_mul(10).wrapping_add(
            digit_value(c),
        ),
    decreases ds.len(),
{
    let e = ds.push(c);
    assert(e.len() == ds.len() + 1);
    assert(e.first() == if ds.len() == 0 { c } else { ds.first() });
    assert(digits_value(e, acc) == digits_value(
        e.drop_first(),
        acc.wrapping_mul(10).wrapping_add(digit_value(e.first())),
    ));
    if ds.len() == 0 {
        assert(e.drop_first() =~= Seq::<char>::empty());
        assert(digits_value(e.drop_first(), acc.wrapping_mul(10).wrapping_add(digit_value(c)))
            == acc.wrapping_mul(10).wrapping_add(digit_value(c)));
    } else {
        assert(e.drop_first() =~= ds.drop_first().push(c));
        lemma_digits_value_push(
            ds.drop_first(),
            c,
            acc.wrapping_mul(10).wrapping_add(digit_value(ds.first())),
        );
    }
}

} // verus!
