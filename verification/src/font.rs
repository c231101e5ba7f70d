//! Fonts, and where a character sits in a bitmap font's texture grid.
use vstd::prelude::*;

verus! {

/// The fonts a text can be written with.
pub enum Font {
    /// A texture laid out as a grid of characters.
    Bitmap {
        /// Path to the texture of this font.
        texture_path: String,
        /// The characters of the font, in the order of the grid.
        chars: String,
        /// Width of a character, in pixels: the bit pattern of an `f32`, which
        /// the renderer reads.
        width_bits: u32,
        /// Height of a character, in pixels, as `width_bits`.
        height_bits: u32,
        /// Number of columns of the grid.
        texture_columns: usize,
        /// Number of lines of the grid.
        texture_lines: usize,
    },
    /// A TrueType font, rendered into an atlas by the renderer.
    TrueType { font_path: String },
}

/// One character image of a text: the character at `index` of the text, found at
/// `line` and `column` of the grid of the font `font_ref`. The renderer places
/// and cuts the image from these.
#[derive(PartialEq, Eq, Structural, Clone, Copy, Debug)]
pub struct TextGlyph {
    pub font_ref: usize,
    pub index: usize,
    pub line: usize,
    pub column: usize,
}

/// Index of the first occurrence of `c` in `s`, if any.
pub open spec fn first_index_of(s: Seq<char>, c: char) -> int
    recommends
        s.contains(c),
{
    choose|i: int| 0 <= i < s.len() && s[i] == c && (forall|j: int| 0 <= j < i ==> s[j] != c)
}

/// The number of bytes of the UTF-8 encoding of `c`.
pub open spec fn utf8_width(c: char) -> nat {
    if (c as u32) < 0x80 {
        1
    } else if (c as u32) < 0x800 {
        2
    } else if (c as u32) < 0x10000 {
        3
    } else {
        4
    }
}

/// The number of bytes of the UTF-8 encoding of `s`.
pub open spec fn utf8_len(s: Seq<char>) -> nat
    decreases s.len(),
{
    if s.len() == 0 {
        0
    } else {
        utf8_len(s.drop_last()) + utf8_width(s.last())
    }
}

/// The position, in bytes, of the first occurrence of `c` in `s`, as `str::find` gives it.
pub open spec fn byte_index_of(s: Seq<char>, c: char) -> nat {
    utf8_len(s.take(first_index_of(s, c)))
}

/// The UTF-8 encoding of a prefix of `s` is no longer than that of `s`.
pub proof fn lemma_utf8_len_prefix(s: Seq<char>, i: int)
    requires
        0 <= i <= s.len(),
    ensures
        utf8_len(s.take(i)) <= utf8_len(s),
    decreases s.len() - i,
{
    if i < s.len() {
        lemma_utf8_len_prefix(s, i + 1);
        assert(s.take(i + 1).drop_last() == s.take(i));
    } else {
        assert(s.take(i) == s);
    }
}

/// The number of bytes of the UTF-8 encoding of `c`.
pub fn char_width(c: char) -> (w: usize)
    ensures
        w == utf8_width(c),
{
    let u = c as u32;
    if u < 0x80 {
        1
    } else if u < 0x800 {
        2
    } else if u < 0x10000 {
        3
    } else {
        4
    }
}

/// Finds the line and the column of `character` in a bitmap font texture whose
/// characters, in order, are `chars`, laid out `texture_column` per line: the
/// position of the character is its position in bytes in `chars`.
pub fn find_line_and_column(chars: &String, texture_column: usize, character: char) -> (res: (usize, usize))
    requires
        chars@.contains(character),
        texture_column > 0,
        utf8_len(chars@) <= usize::MAX,
    ensures
        ({
            let b = byte_index_of(chars@, character);
            res.0 == b / (texture_column as nat) && res.1 == b % (texture_column as nat)
        }),
{
    let s = chars.as_str();
    let n = s.unicode_len();
    let mut i: usize = 0;
    let mut b: usize = 0;
    while i < n
        invariant
            n == s@.len(),
            s@ == chars@,
            i <= n,
            b == utf8_len(s@.take(i as int)),
            forall|j: int| 0 <= j < i ==> s@[j] != character,
            s@.contains(character),
            texture_column > 0,
            utf8_len(chars@) <= usize::MAX,
        decreases n - i,
    {
        let ch = s.get_char(i);
        if ch == character {
            let ghost k = first_index_of(chars@, character);
            assert(0 <= i < s@.len() && s@[i as int] == character && (forall|j: int|
                0 <= j < i ==> s@[j] != character));
            assert(0 <= k < s@.len() && s@[k] == character && (forall|j: int|
                0 <= j < k ==> s@[j] != character));
            assert(k == i as int) by {
                if k < i {
                    assert(s@[k] != character);
                } else if k > i {
                    assert(s@[i as int] != character);
                }
            }
            return (b / texture_column, b % texture_column);
        }
        proof {
            lemma_utf8_len_prefix(s@, i + 1);
            assert(s@.take(i + 1).drop_last() == s@.take(i as int));
        }
        b = b + char_width(ch);
        i = i + 1;
    }
    proof {
        let j = choose|j: int| 0 <= j < s@.len() && s@[j] == character;
        assert(s@[j] != character);
    }
    (0, 0)
}

} // verus!
