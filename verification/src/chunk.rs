use vstd::prelude::*;
use crate::constants::CHUNK_SIZE;

verus! {

/// `String::push` of the standard library: the string afterwards is the
/// string before with the character appended.
pub assume_specification[ String::push ](text: &mut String, ch: char)
    ensures
        final(text)@ == old(text)@.push(ch),
;

/// The character of the decimal digit `d`.
pub open spec fn digit_char(d: int) -> char {
    ((48 + d) as u8) as char
}

/// The decimal digits of `n`, without leading zeros.
pub open spec fn digits(n: nat) -> Seq<char>
    decreases n,
{
    if n < 10 {
        seq![digit_char(n as int)]
    } else {
        digits(n / 10).push(digit_char((n % 10) as int))
    }
}

/// The way `n` is written in decimal, with a minus sign where it is
/// negative.
pub open spec fn decimal(n: int) -> Seq<char> {
    if n < 0 {
        seq!['-'] + digits((-n) as nat)
    } else {
        digits(n as nat)
    }
}

/// The label of the chunk at `(x, y)`: both coordinates in decimal, in
/// round brackets, with a comma and a space between them.
pub open spec fn label_text(x: int, y: int) -> Seq<char> {
    seq!['('] + decimal(x) + seq![',', ' '] + decimal(y) + seq![')']
}

/// Appends the decimal digits of `n` to `text`.
fn push_digits(text: &mut String, n: u32)
    ensures
        final(text)@ == old(text)@ + digits(n as nat),
    decreases n,
{
    if n >= 10 {
        push_digits(text, n / 10);
    }
    let d: u8 = (n % 10) as u8;
    text.push((48u8 + d) as char);
    proof {
        assert(final(text)@ =~= old(text)@ + digits(n as nat));
    }
}

/// Appends `n`, written in decimal, to `text`.
fn push_decimal(text: &mut String, n: i32)
    ensures
        final(text)@ == old(text)@ + decimal(n as int),
{
    if n < 0 {
        text.push('-');
        let magnitude: u32 = (0 - (n as i64)) as u32;
        push_digits(text, magnitude);
        proof {
            assert(final(text)@ =~= old(text)@ + decimal(n as int));
        }
    } else {
        push_digits(text, n as u32);
    }
}

/// The text that names the chunk at `(x, y)` on screen.
pub fn label(x: i32, y: i32) -> (text: String)
    ensures
        text@ == label_text(x as int, y as int),
{
    let mut text = String::new();
    text.push('(');
    push_decimal(&mut text, x);
    text.push(',');
    text.push(' ');
    push_decimal(&mut text, y);
    text.push(')');
    proof {
        assert(text@ =~= label_text(x as int, y as int));
    }
    text
}

/// One cell of the world grid: its coordinate and whatever the host needs to
/// present it.
#[derive(Debug)]
pub struct Chunk<P> {
    pub x: i32,
    pub y: i32,
    pub payload: P,
}

impl<P> Chunk<P> {
    /// True when the chunk carries the coordinate `(col, row)`.
    pub open spec fn sits_at(&self, col: i32, row: i32) -> bool {
        self.x == col && self.y == row
    }

    /// World position of the chunk's top-left corner.
    pub open spec fn origin(&self) -> (int, int) {
        (self.x * CHUNK_SIZE, self.y * CHUNK_SIZE)
    }

    pub fn new(x: i32, y: i32, payload: P) -> (chunk: Chunk<P>)
        ensures
            chunk == (Chunk { x, y, payload }),
    {
        Chunk { x, y, payload }
    }

    /// Column of the chunk.
    pub fn x(&self) -> (x: i32)
        ensures
            x == self.x,
    {
        self.x
    }

    /// Row of the chunk.
    pub fn y(&self) -> (y: i32)
        ensures
            y == self.y,
    {
        self.y
    }

    /// What the host stored with the chunk.
    pub fn payload(&self) -> (p: &P)
        ensures
            *p == self.payload,
    {
        &self.payload
    }

    /// Where the chunk is drawn: the world position of its top-left corner.
    pub fn position(&self) -> (at: (i64, i64))
        ensures
            at.0 == self.origin().0,
            at.1 == self.origin().1,
    {
        let size: i64 = CHUNK_SIZE as i64;
        let col: i64 = self.x as i64;
        let row: i64 = self.y as i64;
        (col * size, row * size)
    }
}

} // verus!
