//! Offset translator: maps a byte offset in the source text to a zero-based
//! (line, column) position counted in characters, not bytes.

use vstd::prelude::*;

verus! {

/// Whether a byte is a UTF-8 continuation byte: such a byte extends the
/// character begun by an earlier byte and does not advance the column.
pub open spec fn is_continuation(b: u8) -> bool {
    128 <= b && b < 192
}

/// The zero-based (line, column) position reached after scanning the first
/// `n` bytes of the text: a line feed opens a new line and resets the
/// column, and every other byte that begins a character advances the column
/// by one.
pub open spec fn linecol_spec(s: Seq<u8>, n: int) -> (int, int)
    decreases n,
{
    if n <= 0 {
        (0, 0)
    } else {
        let prev = linecol_spec(s, n - 1);
        let b = s[n - 1];
        if b == 10 {
            (prev.0 + 1, 0)
        } else if is_continuation(b) {
            prev
        } else {
            (prev.0, prev.1 + 1)
        }
    }
}

/// Translate a byte offset into the zero-based (line, column) of the
/// character at that offset; an offset at or beyond the end of the text
/// yields the position of the text's end.
pub fn offset_to_linecol(src: &[u8], offset: usize) -> (r: (usize, usize))
    ensures
        ({
            let n = if offset <= src@.len() {
                offset as int
            } else {
                src@.len() as int
            };
            r.0 == linecol_spec(src@, n).0 && r.1 == linecol_spec(src@, n).1
        }),
{
    let len = src.len();
    let stop = if offset < len {
        offset
    } else {
        len
    };
    let mut line: usize = 0;
    let mut col: usize = 0;
    let mut i: usize = 0;
    while i < stop
        invariant
            0 <= i <= stop <= len,
            len == src@.len(),
            line <= i,
            col <= i,
            line as int == linecol_spec(src@, i as int).0,
            col as int == linecol_spec(src@, i as int).1,
        decreases stop - i,
    {
        let b = src[i];
        if b == 10 {
            line = line + 1;
            col = 0;
        } else if b < 128 || b >= 192 {
            col = col + 1;
        }
        i = i + 1;
    }
    (line, col)
}

} // verus!
