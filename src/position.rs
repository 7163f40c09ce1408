//! Source coordinates used to localize errors and nodes.
use vstd::prelude::*;
use vstd::string::StringSliceAdditionalSpecFns;

verus! {

/// A point in a document: 1-based line and column, 0-based byte offset.
#[derive(Debug, Clone, Copy, PartialEq, Eq, Structural)]
pub struct SourcePosition {
    pub line: usize,
    pub column: usize,
    pub byte_offset: usize,
}

/// A range of a document; a span whose start equals its end is a point.
#[derive(Debug, Clone, Copy, PartialEq, Eq, Structural)]
pub struct SourceSpan {
    pub start: SourcePosition,
    pub end: SourcePosition,
}

/// A byte that continues a multi-byte UTF-8 sequence (it starts no character).
pub open spec fn is_continuation_byte(b: u8) -> bool {
    0x80 <= b && b < 0xC0
}

/// Line and column reached after reading the first `n` bytes of `bytes`.
pub open spec fn line_col_after(bytes: Seq<u8>, n: nat) -> (int, int)
    decreases n,
{
    if n == 0 || n > bytes.len() {
        (1, 1)
    } else {
        let prev = line_col_after(bytes, (n - 1) as nat);
        let b = bytes[n - 1];
        if b == 10u8 {
            (prev.0 + 1, 1)
        } else if is_continuation_byte(b) {
            prev
        } else {
            (prev.0, prev.1 + 1)
        }
    }
}

proof fn lemma_line_col_bounds(bytes: Seq<u8>, n: nat)
    requires
        n <= bytes.len(),
    ensures
        line_col_after(bytes, n).0 >= 1,
        line_col_after(bytes, n).1 >= 1,
        line_col_after(bytes, n).0 + line_col_after(bytes, n).1 <= n + 2,
    decreases n,
{
    if n > 0 {
        lemma_line_col_bounds(bytes, (n - 1) as nat);
    }
}

impl Default for SourcePosition {
    /// The start of a document: line 1, column 1, offset 0.
    fn default() -> (r: Self)
        ensures
            r.line == 1,
            r.column == 1,
            r.byte_offset == 0,
    {
        SourcePosition { line: 1, column: 1, byte_offset: 0 }
    }
}

impl SourcePosition {
    /// The position of byte `offset` in `content`, found by one forward scan.
    /// An offset past the end stops at the end. Columns count characters:
    /// continuation bytes of a multi-byte character do not advance them.
    pub fn from_byte_offset(content: &str, offset: usize) -> (r: SourcePosition)
        requires
            offset < usize::MAX,
        ensures
            r.byte_offset == if offset <= content.spec_bytes().len() {
                offset as int
            } else {
                content.spec_bytes().len() as int
            },
            r.line == line_col_after(content.spec_bytes(), r.byte_offset as nat).0,
            r.column == line_col_after(content.spec_bytes(), r.byte_offset as nat).1,
    {
        let bytes = content.as_bytes();
        let end: usize = if offset <= bytes.len() { offset } else { bytes.len() };
        let mut line: usize = 1;
        let mut column: usize = 1;
        let mut i: usize = 0;
        while i < end
            invariant
                bytes@ == content.spec_bytes(),
                end <= bytes@.len(),
                end <= offset,
                offset < usize::MAX,
                i <= end,
                line as int == line_col_after(bytes@, i as nat).0,
                column as int == line_col_after(bytes@, i as nat).1,
            decreases end - i,
        {
            proof {
                lemma_line_col_bounds(bytes@, i as nat);
            }
            let b = bytes[i];
            if b == 10u8 {
                line = line + 1;
                column = 1;
            } else if !(0x80u8 <= b && b < 0xC0u8) {
                column = column + 1;
            }
            i = i + 1;
        }
        SourcePosition { line, column, byte_offset: end }
    }
}

impl SourceSpan {
    /// The point span at `p`.
    pub fn single_position(p: SourcePosition) -> (r: SourceSpan)
        ensures
            r.start == p,
            r.end == p,
    {
        SourceSpan { start: p, end: p }
    }
}

} // verus!
