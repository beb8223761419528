//! Text rendering support: font ids and registry, alignment enums, and the
//! builtin 5x7 bitmap font.

use vstd::prelude::*;
use crate::chars::{ascii_upper, to_ascii_upper, str_equal};
use crate::assoc::{assoc_map, keys_unique, lemma_assoc_dom, lemma_assoc_index, lemma_assoc_update, lemma_push_fresh_unique};
use ab_glyph::{FontArc, InvalidFont};

verus! {

/// Width of a builtin glyph in bitmap columns.
pub const BUILTIN_FONT_WIDTH: usize = 5;
/// Height of a builtin glyph in bitmap rows.
pub const BUILTIN_FONT_HEIGHT: usize = 7;
/// First character code of the builtin font.
pub const BUILTIN_FIRST_GLYPH: u8 = 32;
/// Last character code of the builtin font.
pub const BUILTIN_LAST_GLYPH: u8 = 126;

/// The character the builtin font draws for `ch`: ASCII letters in upper case,
/// printable ASCII kept, anything else shown as `?`.
pub open spec fn normalize_glyph_spec(ch: char) -> char {
    let c = ascii_upper(ch);
    if 32 <= (c as u32) && (c as u32) <= 126 {
        c
    } else {
        '?'
    }
}

/// The character the builtin font draws for `ch`.
pub fn normalize_builtin_glyph(ch: char) -> (r: char)
    ensures
        r == normalize_glyph_spec(ch),
{
    let c = to_ascii_upper(ch);
    let code = c as u32;
    if BUILTIN_FIRST_GLYPH as u32 <= code && code <= BUILTIN_LAST_GLYPH as u32 {
        c
    } else {
        '?'
    }
}

/// The seven bitmap rows (five bits each, leftmost column in bit 4) of a
/// builtin glyph; characters without a drawing use the `?` glyph.
pub open spec fn glyph_rows(c: char) -> Seq<u8> {
    match c {
        ' ' => seq![0u8, 0, 0, 0, 0, 0, 0],
        '!' => seq![4u8, 4, 4, 4, 4, 0, 4],
        '"' => seq![10u8, 10, 10, 0, 0, 0, 0],
        '#' => seq![10u8, 31, 10, 10, 31, 10, 0],
        '$' => seq![4u8, 15, 20, 14, 5, 30, 4],
        '%' => seq![25u8, 26, 4, 8, 22, 6, 0],
        '&' => seq![12u8, 18, 20, 8, 21, 18, 13],
        '\'' => seq![4u8, 4, 8, 0, 0, 0, 0],
        '(' => seq![2u8, 4, 8, 8, 8, 4, 2],
        ')' => seq![8u8, 4, 2, 2, 2, 4, 8],
        '*' => seq![0u8, 21, 14, 31, 14, 21, 0],
        '+' => seq![0u8, 4, 4, 31, 4, 4, 0],
        ',' => seq![0u8, 0, 0, 0, 4, 4, 8],
        '-' => seq![0u8, 0, 0, 31, 0, 0, 0],
        '.' => seq![0u8, 0, 0, 0, 0, 4, 4],
        '/' => seq![1u8, 2, 2, 4, 8, 8, 16],
        '0' => seq![14u8, 17, 19, 21, 25, 17, 14],
        '1' => seq![4u8, 12, 4, 4, 4, 4, 14],
        '2' => seq![14u8, 17, 1, 2, 4, 8, 31],
        '3' => seq![30u8, 1, 1, 14, 1, 1, 30],
        '4' => seq![2u8, 6, 10, 18, 31, 2, 2],
        '5' => seq![31u8, 16, 16, 30, 1, 1, 30],
        '6' => seq![14u8, 16, 16, 30, 17, 17, 14],
        '7' => seq![31u8, 1, 2, 4, 8, 8, 8],
        '8' => seq![14u8, 17, 17, 14, 17, 17, 14],
        '9' => seq![14u8, 17, 17, 15, 1, 1, 14],
        ':' => seq![0u8, 4, 4, 0, 4, 4, 0],
        ';' => seq![0u8, 4, 4, 0, 4, 4, 8],
        '<' => seq![2u8, 4, 8, 16, 8, 4, 2],
        '=' => seq![0u8, 0, 31, 0, 31, 0, 0],
        '>' => seq![8u8, 4, 2, 1, 2, 4, 8],
        '?' => seq![14u8, 17, 1, 2, 4, 0, 4],
        '@' => seq![14u8, 17, 23, 21, 23, 16, 14],
        'A' => seq![14u8, 17, 17, 31, 17, 17, 17],
        'B' => seq![30u8, 17, 17, 30, 17, 17, 30],
        'C' => seq![14u8, 17, 16, 16, 16, 17, 14],
        'D' => seq![30u8, 17, 17, 17, 17, 17, 30],
        'E' => seq![31u8, 16, 16, 30, 16, 16, 31],
        'F' => seq![31u8, 16, 16, 30, 16, 16, 16],
        'G' => seq![14u8, 17, 16, 23, 17, 17, 14],
        'H' => seq![17u8, 17, 17, 31, 17, 17, 17],
        'I' => seq![14u8, 4, 4, 4, 4, 4, 14],
        'J' => seq![7u8, 2, 2, 2, 18, 18, 12],
        'K' => seq![17u8, 18, 20, 24, 20, 18, 17],
        'L' => seq![16u8, 16, 16, 16, 16, 16, 31],
        'M' => seq![17u8, 27, 21, 21, 17, 17, 17],
        'N' => seq![17u8, 25, 21, 19, 17, 17, 17],
        'O' => seq![14u8, 17, 17, 17, 17, 17, 14],
        'P' => seq![30u8, 17, 17, 30, 16, 16, 16],
        'Q' => seq![14u8, 17, 17, 17, 21, 18, 13],
        'R' => seq![30u8, 17, 17, 30, 20, 18, 17],
        'S' => seq![15u8, 16, 16, 14, 1, 1, 30],
        'T' => seq![31u8, 4, 4, 4, 4, 4, 4],
        'U' => seq![17u8, 17, 17, 17, 17, 17, 14],
        'V' => seq![17u8, 17, 17, 17, 10, 10, 4],
        'W' => seq![17u8, 17, 17, 21, 21, 21, 10],
        'X' => seq![17u8, 10, 10, 4, 10, 10, 17],
        'Y' => seq![17u8, 10, 10, 4, 4, 4, 4],
        'Z' => seq![31u8, 1, 2, 4, 8, 16, 31],
        '[' => seq![14u8, 8, 8, 8, 8, 8, 14],
        '\\' => seq![16u8, 8, 8, 4, 2, 2, 1],
        ']' => seq![14u8, 2, 2, 2, 2, 2, 14],
        '^' => seq![4u8, 10, 17, 0, 0, 0, 0],
        '_' => seq![0u8, 0, 0, 0, 0, 0, 31],
        '`' => seq![8u8, 4, 2, 0, 0, 0, 0],
        '{' => seq![2u8, 4, 4, 8, 4, 4, 2],
        '|' => seq![4u8, 4, 4, 0, 4, 4, 4],
        '}' => seq![8u8, 4, 4, 2, 4, 4, 8],
        '~' => seq![0u8, 0, 8, 21, 2, 0, 0],
        _ => seq![14u8, 17, 1, 2, 4, 0, 4],
    }
}

/// Whether the builtin font has a drawing of its own for `c`: printable ASCII
/// other than the lower-case letters (which it draws in upper case).
pub open spec fn has_own_glyph(c: char) -> bool {
    (32 <= c as u32 && c as u32 <= 96) || (123 <= c as u32 && c as u32 <= 126)
}

/// The seven five-bit rows of a glyph packed into one number, first row lowest.
pub open spec fn glyph_code(rows: Seq<u8>) -> int {
    rows[0] + 32 * rows[1] + 1024 * rows[2] + 32768 * rows[3] + 1048576 * rows[4] + 33554432 * rows[5]
        + 1073741824 * rows[6]
}

/// The character whose drawing has the packed code `code` (the font's
/// glyphs read back from their bitmaps).
spec fn glyph_char_of_code(code: int) -> char {
    if code == 0 {
        ' '
    } else if code == 4299296900 {
        '!'
    } else if code == 10570 {
        '"'
    } else if code == 368389098 {
        '#'
    } else if code == 5307322852 {
        '$'
    } else if code == 224662361 {
        '%'
    } else if code == 14584926796 {
        '&'
    } else if code == 8324 {
        '\''
    } else if code == 2290360450 {
        '('
    } else if code == 8726317192 {
        ')'
    } else if code == 720353952 {
        '*'
    } else if code == 139432064 {
        '+'
    } else if code == 8728346624 {
        ','
    } else if code == 1015808 {
        '-'
    } else if code == 4429185024 {
        '.'
    } else if code == 17456826433 {
        '/'
    } else if code == 15629733422 {
        '0'
    } else if code == 15170933124 {
        '1'
    } else if code == 33558693422 {
        '2'
    } else if code == 32247317566 {
        '3'
    } else if code == 2247698626 {
        '4'
    } else if code == 32247857695 {
        '5'
    } else if code == 15621636622 {
        '6'
    } else if code == 8866891839 {
        '7'
    } else if code == 15621113390 {
        '8'
    } else if code == 15067498030 {
        '9'
    } else if code == 138416256 {
        ':'
    } else if code == 8728350848 {
        ';'
    } else if code == 2290622594 {
        '<'
    } else if code == 32537600 {
        '='
    } else if code == 8726284424 {
        '>'
    } else if code == 4299228718 {
        '?'
    } else if code == 15594085934 {
        '@'
    } else if code == 18842895918 {
        'A'
    } else if code == 32801506878 {
        'B'
    } else if code == 15620129326 {
        'C'
    } else if code == 32801080894 {
        'D'
    } else if code == 33840644639 {
        'E'
    } else if code == 17734517279 {
        'F'
    } else if code == 15621407278 {
        'G'
    } else if code == 18842895921 {
        'H'
    } else if code == 15170932878 {
        'I'
    } else if code == 13507823687 {
        'J'
    } else if code == 18879369809 {
        'K'
    } else if code == 33840185872 {
        'L'
    } else if code == 18842572657 {
        'M'
    } else if code == 18842507057 {
        'N'
    } else if code == 15621211694 {
        'O'
    } else if code == 17734518334 {
        'P'
    } else if code == 14585218606 {
        'Q'
    } else if code == 18879563326 {
        'R'
    } else if code == 32247333391 {
        'S'
    } else if code == 4433514655 {
        'T'
    } else if code == 15621211697 {
        'U'
    } else if code == 4641572401 {
        'V'
    } else if code == 11464787505 {
        'W'
    } else if code == 18599782737 {
        'X'
    } else if code == 4433520977 {
        'Y'
    } else if code == 33831389247 {
        'Z'
    } else if code == 15309480206 {
        '['
    } else if code == 1143087376 {
        '\\'
    } else if code == 15101659214 {
        ']'
    } else if code == 17732 {
        '^'
    } else if code == 33285996544 {
        '_'
    } else if code == 2184 {
        '`'
    } else if code == 2286162050 {
        '{'
    } else if code == 4433383556 {
        '|'
    } else if code == 8728416392 {
        '}'
    } else if code == 2793472 {
        '~'
    } else {
        '?'
    }
}

proof fn lemma_glyph_reads_back_0(c: char)
    requires
        32 <= c as u32 <= 41,
    ensures
        glyph_char_of_code(glyph_code(glyph_rows(c))) == c,
{
    let n = c as u32;
    if n == 32 {
        assert(c == ' ');
    } else if n == 33 {
        assert(c == '!');
    } else if n == 34 {
        assert(c == '"');
    } else if n == 35 {
        assert(c == '#');
    } else if n == 36 {
        assert(c == '$');
    } else if n == 37 {
        assert(c == '%');
    } else if n == 38 {
        assert(c == '&');
    } else if n == 39 {
        assert(c == '\'');
    } else if n == 40 {
        assert(c == '(');
    } else if n == 41 {
        assert(c == ')');
    }
}

proof fn lemma_glyph_reads_back_1(c: char)
    requires
        42 <= c as u32 <= 51,
    ensures
        glyph_char_of_code(glyph_code(glyph_rows(c))) == c,
{
    let n = c as u32;
    if n == 42 {
        assert(c == '*');
    } else if n == 43 {
        assert(c == '+');
    } else if n == 44 {
        assert(c == ',');
    } else if n == 45 {
        assert(c == '-');
    } else if n == 46 {
        assert(c == '.');
    } else if n == 47 {
        assert(c == '/');
    } else if n == 48 {
        assert(c == '0');
    } else if n == 49 {
        assert(c == '1');
    } else if n == 50 {
        assert(c == '2');
    } else if n == 51 {
        assert(c == '3');
    }
}

proof fn lemma_glyph_reads_back_2(c: char)
    requires
        52 <= c as u32 <= 61,
    ensures
        glyph_char_of_code(glyph_code(glyph_rows(c))) == c,
{
    let n = c as u32;
    if n == 52 {
        assert(c == '4');
    } else if n == 53 {
        assert(c == '5');
    } else if n == 54 {
        assert(c == '6');
    } else if n == 55 {
        assert(c == '7');
    } else if n == 56 {
        assert(c == '8');
    } else if n == 57 {
        assert(c == '9');
    } else if n == 58 {
        assert(c == ':');
    } else if n == 59 {
        assert(c == ';');
    } else if n == 60 {
        assert(c == '<');
    } else if n == 61 {
        assert(c == '=');
    }
}

proof fn lemma_glyph_reads_back_3(c: char)
    requires
        62 <= c as u32 <= 71,
    ensures
        glyph_char_of_code(glyph_code(glyph_rows(c))) == c,
{
    let n = c as u32;
    if n == 62 {
        assert(c == '>');
    } else if n == 63 {
        assert(c == '?');
    } else if n == 64 {
        assert(c == '@');
    } else if n == 65 {
        assert(c == 'A');
    } else if n == 66 {
        assert(c == 'B');
    } else if n == 67 {
        assert(c == 'C');
    } else if n == 68 {
        assert(c == 'D');
    } else if n == 69 {
        assert(c == 'E');
    } else if n == 70 {
        assert(c == 'F');
    } else if n == 71 {
        assert(c == 'G');
    }
}

proof fn lemma_glyph_reads_back_4(c: char)
    requires
        72 <= c as u32 <= 81,
    ensures
        glyph_char_of_code(glyph_code(glyph_rows(c))) == c,
{
    let n = c as u32;
    if n == 72 {
        assert(c == 'H');
    } else if n == 73 {
        assert(c == 'I');
    } else if n == 74 {
        assert(c == 'J');
    } else if n == 75 {
        assert(c == 'K');
    } else if n == 76 {
        assert(c == 'L');
    } else if n == 77 {
        assert(c == 'M');
    } else if n == 78 {
        assert(c == 'N');
    } else if n == 79 {
        assert(c == 'O');
    } else if n == 80 {
        assert(c == 'P');
    } else if n == 81 {
        assert(c == 'Q');
    }
}

proof fn lemma_glyph_reads_back_5(c: char)
    requires
        82 <= c as u32 <= 91,
    ensures
        glyph_char_of_code(glyph_code(glyph_rows(c))) == c,
{
    let n = c as u32;
    if n == 82 {
        assert(c == 'R');
    } else if n == 83 {
        assert(c == 'S');
    } else if n == 84 {
        assert(c == 'T');
    } else if n == 85 {
        assert(c == 'U');
    } else if n == 86 {
        assert(c == 'V');
    } else if n == 87 {
        assert(c == 'W');
    } else if n == 88 {
        assert(c == 'X');
    } else if n == 89 {
        assert(c == 'Y');
    } else if n == 90 {
        assert(c == 'Z');
    } else if n == 91 {
        assert(c == '[');
    }
}

proof fn lemma_glyph_reads_back_6(c: char)
    requires
        92 <= c as u32 <= 96,
    ensures
        glyph_char_of_code(glyph_code(glyph_rows(c))) == c,
{
    let n = c as u32;
    if n == 92 {
        assert(c == '\\');
    } else if n == 93 {
        assert(c == ']');
    } else if n == 94 {
        assert(c == '^');
    } else if n == 95 {
        assert(c == '_');
    } else if n == 96 {
        assert(c == '`');
    }
}

proof fn lemma_glyph_reads_back_7(c: char)
    requires
        123 <= c as u32 <= 126,
    ensures
        glyph_char_of_code(glyph_code(glyph_rows(c))) == c,
{
    let n = c as u32;
    if n == 123 {
        assert(c == '{');
    } else if n == 124 {
        assert(c == '|');
    } else if n == 125 {
        assert(c == '}');
    } else if n == 126 {
        assert(c == '~');
    }
}

proof fn lemma_glyph_reads_back(c: char)
    requires
        has_own_glyph(c),
    ensures
        glyph_char_of_code(glyph_code(glyph_rows(c))) == c,
{
    if 32 <= c as u32 <= 41 {
        lemma_glyph_reads_back_0(c);
    }
    if 42 <= c as u32 <= 51 {
        lemma_glyph_reads_back_1(c);
    }
    if 52 <= c as u32 <= 61 {
        lemma_glyph_reads_back_2(c);
    }
    if 62 <= c as u32 <= 71 {
        lemma_glyph_reads_back_3(c);
    }
    if 72 <= c as u32 <= 81 {
        lemma_glyph_reads_back_4(c);
    }
    if 82 <= c as u32 <= 91 {
        lemma_glyph_reads_back_5(c);
    }
    if 92 <= c as u32 <= 96 {
        lemma_glyph_reads_back_6(c);
    }
    if 123 <= c as u32 <= 126 {
        lemma_glyph_reads_back_7(c);
    }
}

/// Distinct characters that the builtin font draws with their own glyph (the
/// printable ASCII characters other than lower-case letters) get distinct
/// bitmaps, so no character is drawn with another's glyph.
pub proof fn lemma_own_glyphs_distinct(a: char, b: char)
    requires
        has_own_glyph(a),
        has_own_glyph(b),
        a != b,
    ensures
        glyph_rows(a) != glyph_rows(b),
{
    lemma_glyph_reads_back(a);
    lemma_glyph_reads_back(b);
}

/// The builtin font draws two printable ASCII characters with the same bitmap
/// only when they are the same letter in either case.
pub proof fn lemma_printable_glyphs_distinct(a: char, b: char)
    requires
        32 <= a as u32 <= 126,
        32 <= b as u32 <= 126,
        ascii_upper(a) != ascii_upper(b),
    ensures
        glyph_rows(normalize_glyph_spec(a)) != glyph_rows(normalize_glyph_spec(b)),
{
    lemma_own_glyphs_distinct(normalize_glyph_spec(a), normalize_glyph_spec(b));
}

/// The bitmap rows of the glyph the builtin font draws for `ch`.
pub fn glyph_bitmap(ch: char) -> (r: [u8; 7])
    ensures
        r@ == glyph_rows(normalize_glyph_spec(ch)),
{
    let c = normalize_builtin_glyph(ch);
    let r: [u8; 7] = match c {
        ' ' => [0u8, 0, 0, 0, 0, 0, 0],
        '!' => [4u8, 4, 4, 4, 4, 0, 4],
        '"' => [10u8, 10, 10, 0, 0, 0, 0],
        '#' => [10u8, 31, 10, 10, 31, 10, 0],
        '$' => [4u8, 15, 20, 14, 5, 30, 4],
        '%' => [25u8, 26, 4, 8, 22, 6, 0],
        '&' => [12u8, 18, 20, 8, 21, 18, 13],
        '\'' => [4u8, 4, 8, 0, 0, 0, 0],
        '(' => [2u8, 4, 8, 8, 8, 4, 2],
        ')' => [8u8, 4, 2, 2, 2, 4, 8],
        '*' => [0u8, 21, 14, 31, 14, 21, 0],
        '+' => [0u8, 4, 4, 31, 4, 4, 0],
        ',' => [0u8, 0, 0, 0, 4, 4, 8],
        '-' => [0u8, 0, 0, 31, 0, 0, 0],
        '.' => [0u8, 0, 0, 0, 0, 4, 4],
        '/' => [1u8, 2, 2, 4, 8, 8, 16],
        '0' => [14u8, 17, 19, 21, 25, 17, 14],
        '1' => [4u8, 12, 4, 4, 4, 4, 14],
        '2' => [14u8, 17, 1, 2, 4, 8, 31],
        '3' => [30u8, 1, 1, 14, 1, 1, 30],
        '4' => [2u8, 6, 10, 18, 31, 2, 2],
        '5' => [31u8, 16, 16, 30, 1, 1, 30],
        '6' => [14u8, 16, 16, 30, 17, 17, 14],
        '7' => [31u8, 1, 2, 4, 8, 8, 8],
        '8' => [14u8, 17, 17, 14, 17, 17, 14],
        '9' => [14u8, 17, 17, 15, 1, 1, 14],
        ':' => [0u8, 4, 4, 0, 4, 4, 0],
        ';' => [0u8, 4, 4, 0, 4, 4, 8],
        '<' => [2u8, 4, 8, 16, 8, 4, 2],
        '=' => [0u8, 0, 31, 0, 31, 0, 0],
        '>' => [8u8, 4, 2, 1, 2, 4, 8],
        '?' => [14u8, 17, 1, 2, 4, 0, 4],
        '@' => [14u8, 17, 23, 21, 23, 16, 14],
        'A' => [14u8, 17, 17, 31, 17, 17, 17],
        'B' => [30u8, 17, 17, 30, 17, 17, 30],
        'C' => [14u8, 17, 16, 16, 16, 17, 14],
        'D' => [30u8, 17, 17, 17, 17, 17, 30],
        'E' => [31u8, 16, 16, 30, 16, 16, 31],
        'F' => [31u8, 16, 16, 30, 16, 16, 16],
        'G' => [14u8, 17, 16, 23, 17, 17, 14],
        'H' => [17u8, 17, 17, 31, 17, 17, 17],
        'I' => [14u8, 4, 4, 4, 4, 4, 14],
        'J' => [7u8, 2, 2, 2, 18, 18, 12],
        'K' => [17u8, 18, 20, 24, 20, 18, 17],
        'L' => [16u8, 16, 16, 16, 16, 16, 31],
        'M' => [17u8, 27, 21, 21, 17, 17, 17],
        'N' => [17u8, 25, 21, 19, 17, 17, 17],
        'O' => [14u8, 17, 17, 17, 17, 17, 14],
        'P' => [30u8, 17, 17, 30, 16, 16, 16],
        'Q' => [14u8, 17, 17, 17, 21, 18, 13],
        'R' => [30u8, 17, 17, 30, 20, 18, 17],
        'S' => [15u8, 16, 16, 14, 1, 1, 30],
        'T' => [31u8, 4, 4, 4, 4, 4, 4],
        'U' => [17u8, 17, 17, 17, 17, 17, 14],
        'V' => [17u8, 17, 17, 17, 10, 10, 4],
        'W' => [17u8, 17, 17, 21, 21, 21, 10],
        'X' => [17u8, 10, 10, 4, 10, 10, 17],
        'Y' => [17u8, 10, 10, 4, 4, 4, 4],
        'Z' => [31u8, 1, 2, 4, 8, 16, 31],
        '[' => [14u8, 8, 8, 8, 8, 8, 14],
        '\\' => [16u8, 8, 8, 4, 2, 2, 1],
        ']' => [14u8, 2, 2, 2, 2, 2, 14],
        '^' => [4u8, 10, 17, 0, 0, 0, 0],
        '_' => [0u8, 0, 0, 0, 0, 0, 31],
        '`' => [8u8, 4, 2, 0, 0, 0, 0],
        '{' => [2u8, 4, 4, 8, 4, 4, 2],
        '|' => [4u8, 4, 4, 0, 4, 4, 4],
        '}' => [8u8, 4, 4, 2, 4, 4, 8],
        '~' => [0u8, 0, 8, 21, 2, 0, 0],
        _ => [14u8, 17, 1, 2, 4, 0, 4],
    };
    assert(r@ =~= glyph_rows(c));
    r
}

/// Horizontal alignment of a text block.
#[derive(Clone, Copy, Debug, PartialEq, Eq, Structural)]
pub enum TextHorizontalAlign {
    Left,
    Center,
    Right,
}

/// Vertical alignment of a text block.
#[derive(Clone, Copy, Debug, PartialEq, Eq, Structural)]
pub enum TextVerticalAlign {
    Top,
    Center,
    Bottom,
}

/// Id of the builtin bitmap font.
pub const BUILTIN_GAME_FONT: &'static str = "oxide:builtin";

/// The text of the builtin font id.
pub open spec fn builtin_font_text() -> Seq<char> {
    seq!['o', 'x', 'i', 'd', 'e', ':', 'b', 'u', 'i', 'l', 't', 'i', 'n']
}

/// Identifier of a game font.
#[derive(Clone, Debug)]
pub struct GameFontId(String);

impl View for GameFontId {
    type V = Seq<char>;

    closed spec fn view(&self) -> Seq<char> {
        self.0@
    }
}

impl GameFontId {
    /// A font id with the given text.
    pub fn new(id: &str) -> (r: Self)
        ensures
            r@ == id@,
    {
        GameFontId(id.to_string())
    }

    /// The id of the builtin bitmap font.
    pub fn builtin() -> (r: Self)
        ensures
            r@ == builtin_font_text(),
    {
        proof {
            reveal_strlit("oxide:builtin");
            assert(BUILTIN_GAME_FONT@ =~= builtin_font_text());
        }
        GameFontId(BUILTIN_GAME_FONT.to_string())
    }

    /// The id's text.
    pub fn as_str(&self) -> (r: &str)
        ensures
            r@ == self@,
    {
        self.0.as_str()
    }

    /// A copy of this id.
    pub fn duplicate(&self) -> (r: Self)
        ensures
            r@ == self@,
    {
        GameFontId(self.0.clone())
    }
}

impl Default for GameFontId {
    fn default() -> (r: Self)
        ensures
            r@ == builtin_font_text(),
    {
        Self::builtin()
    }
}

#[verifier::external_type_specification]
#[verifier::external_body]
pub struct ExFontArc(FontArc);

#[verifier::external_type_specification]
#[verifier::external_body]
pub struct ExInvalidFont(InvalidFont);

/// Whether the bytes parse as a TrueType/OpenType font (the font parser's verdict).
pub uninterp spec fn font_bytes_valid(bytes: Seq<u8>) -> bool;

/// The font that the parser makes of these bytes (a function of the bytes alone).
pub uninterp spec fn parsed_font(bytes: Seq<u8>) -> FontArc;

/// Parses font data with `ab_glyph::FontArc::try_from_vec`, a pure parse of the
/// bytes: success is the parser's verdict on them, and the font it gives is the
/// one named by `parsed_font` for these bytes.
#[verifier::external_body]
fn parse_font(bytes: Vec<u8>) -> (r: Result<FontArc, InvalidFont>)
    ensures
        r is Ok <==> font_bytes_valid(bytes@),
        r matches Ok(f) ==> f == parsed_font(bytes@),
{
    FontArc::try_from_vec(bytes)
}

/// Where a font's glyphs come from.
pub enum GameFontSource {
    BuiltinBitmap,
    TrueType(FontArc),
}

/// A registered game font.
pub struct GameFont {
    id: GameFontId,
    source: GameFontSource,
}

impl GameFont {
    /// The font's id.
    pub fn id(&self) -> (r: &GameFontId)
        ensures
            r@ == self.id_view(),
    {
        &self.id
    }

    /// Where the font's glyphs come from.
    pub fn source(&self) -> (r: &GameFontSource)
        ensures
            *r == self.source_view(),
    {
        &self.source
    }

    /// The font's id text.
    pub closed spec fn id_view(&self) -> Seq<char> {
        self.id@
    }

    /// Where the font's glyphs come from.
    pub closed spec fn source_view(&self) -> GameFontSource {
        self.source
    }
}

/// Why a font could not be registered.
#[derive(Clone, Debug)]
pub enum GameFontError {
    InvalidFont { id: String },
}

fn builtin_only() -> (r: Vec<GameFont>)
    ensures
        keys_unique(font_entries(r@)),
        assoc_map(font_entries(r@)) == Map::<Seq<char>, GameFontSource>::empty().insert(
            builtin_font_text(),
            GameFontSource::BuiltinBitmap,
        ),
        assoc_map(font_entries(r@)).dom().contains(builtin_font_text()),
{
    let mut fonts: Vec<GameFont> = Vec::new();
    let builtin = GameFont { id: GameFontId::builtin(), source: GameFontSource::BuiltinBitmap };
    fonts.push(builtin);
    proof {
        let e = font_entries(fonts@);
        assert(e.drop_last() =~= Seq::<(Seq<char>, GameFontSource)>::empty());
        assert(e.len() == 1);
        assert(e.last() == (builtin_font_text(), GameFontSource::BuiltinBitmap));
        assert(assoc_map(e.drop_last()) =~= Map::<Seq<char>, GameFontSource>::empty());
    }
    fonts
}

/// Registry of game fonts by id; the builtin bitmap font is always present.
pub struct GameFonts {
    fonts: Vec<GameFont>,
}

/// The registry entries keyed by id text.
pub open spec fn font_entries(v: Seq<GameFont>) -> Seq<(Seq<char>, GameFontSource)> {
    v.map_values(|f: GameFont| (f.id_view(), f.source_view()))
}

impl View for GameFonts {
    type V = Map<Seq<char>, GameFontSource>;

    closed spec fn view(&self) -> Map<Seq<char>, GameFontSource> {
        assoc_map(font_entries(self.fonts@))
    }
}

impl GameFonts {
    #[verifier::type_invariant]
    spec fn inv(self) -> bool {
        &&& keys_unique(font_entries(self.fonts@))
        &&& assoc_map(font_entries(self.fonts@)).dom().contains(builtin_font_text())
    }

    /// A registry holding only the builtin bitmap font.
    pub fn new() -> (r: Self)
        ensures
            r@ == Map::<Seq<char>, GameFontSource>::empty().insert(
                builtin_font_text(),
                GameFontSource::BuiltinBitmap,
            ),
    {
        GameFonts { fonts: builtin_only() }
    }

    fn find(&self, id: &GameFontId) -> (r: Option<usize>)
        ensures
            match r {
                Some(i) => i < self.fonts@.len() && self.fonts@[i as int].id_view() == id@,
                None => forall|i: int| 0 <= i < self.fonts@.len() ==> #[trigger] self.fonts@[i].id_view() != id@,
            },
    {
        let mut i: usize = 0;
        while i < self.fonts.len()
            invariant
                i <= self.fonts@.len(),
                forall|j: int| 0 <= j < i ==> #[trigger] self.fonts@[j].id_view() != id@,
            decreases self.fonts@.len() - i,
        {
            if str_equal(self.fonts[i].id.as_str(), id.as_str()) {
                return Some(i);
            }
            i = i + 1;
        }
        None
    }

    fn insert_font(&mut self, id: GameFontId, source: GameFontSource)
        ensures
            final(self)@ == old(self)@.insert(id@, source),
    {
        proof {
            use_type_invariant(&*self);
        }
        let ghost entries = font_entries(self.fonts@);
        let ghost key = id@;
        match self.find(&id) {
            Some(i) => {
                proof {
                    assert(entries[i as int].0 == key);
                    lemma_assoc_update(entries, i as int, source);
                }
                let font = GameFont { id, source };
                let mut fonts: Vec<GameFont> = builtin_only();
                std::mem::swap(&mut fonts, &mut self.fonts);
                proof {
                    assert(font_entries(fonts@.update(i as int, font)) =~= entries.update(
                        i as int,
                        (entries[i as int].0, source),
                    ));
                    lemma_assoc_dom(entries.update(i as int, (entries[i as int].0, source)), builtin_font_text());
                    lemma_assoc_dom(entries, builtin_font_text());
                    if assoc_map(entries).dom().contains(builtin_font_text()) {
                        let j = choose|j: int| 0 <= j < entries.len() && #[trigger] entries[j].0 == builtin_font_text();
                        assert(entries.update(i as int, (entries[i as int].0, source))[j].0 == builtin_font_text());
                    }
                }
                fonts.set(i, font);
                self.fonts = fonts;
            },
            None => {
                proof {
                    assert forall|j: int| 0 <= j < entries.len() implies #[trigger] entries[j].0 != key by {
                        assert(self.fonts@[j].id_view() != key);
                    }
                    lemma_push_fresh_unique(entries, (key, source));
                }
                let font = GameFont { id, source };
                let mut fonts: Vec<GameFont> = builtin_only();
                std::mem::swap(&mut fonts, &mut self.fonts);
                proof {
                    assert(font_entries(fonts@.push(font)) =~= entries.push((key, source)));
                }
                fonts.push(font);
                self.fonts = fonts;
            },
        }
    }

    /// Registers TrueType/OpenType font data under `id`, replacing any font with
    /// that id; the stored font is the one parsed from `bytes`. Fails, leaving the registry unchanged, when the data is not a font.
    pub fn register_truetype_bytes(&mut self, id: GameFontId, bytes: Vec<u8>) -> (r: Result<GameFontId, GameFontError>)
        ensures
            r is Ok <==> font_bytes_valid(bytes@),
            final(self)@.dom().contains(builtin_font_text()),
            match r {
                Ok(rid) => rid@ == id@ && final(self)@.dom() == old(self)@.dom().insert(id@)
                    && final(self)@[id@] == GameFontSource::TrueType(parsed_font(bytes@)) && forall|k: Seq<char>| k != id@ && #[trigger] old(self)@.dom().contains(k)
                    ==> final(self)@[k] == old(self)@[k],
                Err(e) => final(self)@ == old(self)@ && (e matches GameFontError::InvalidFont { id: n } && n@ == id@),
            },
    {
        proof {
            use_type_invariant(&*self);
        }
        match parse_font(bytes) {
            Ok(font) => {
                let result = id.duplicate();
                self.insert_font(id, GameFontSource::TrueType(font));
                Ok(result)
            },
            Err(_) => Err(GameFontError::InvalidFont { id: id.as_str().to_string() }),
        }
    }

    /// Registers `id` as another name of the builtin bitmap font and returns it.
    pub fn alias_builtin(&mut self, id: GameFontId) -> (r: GameFontId)
        ensures
            r@ == id@,
            final(self)@ == old(self)@.insert(id@, GameFontSource::BuiltinBitmap),
            final(self)@.dom().contains(builtin_font_text()),
    {
        proof {
            use_type_invariant(&*self);
        }
        let result = id.duplicate();
        self.insert_font(id, GameFontSource::BuiltinBitmap);
        result
    }

    /// Whether a font is registered under `id`.
    pub fn contains(&self, id: &GameFontId) -> (r: bool)
        ensures
            r == self@.dom().contains(id@),
    {
        proof {
            use_type_invariant(self);
            lemma_assoc_dom(font_entries(self.fonts@), id@);
        }
        match self.find(id) {
            Some(i) => {
                assert(font_entries(self.fonts@)[i as int].0 == id@);
                true
            },
            None => {
                assert forall|j: int| 0 <= j < font_entries(self.fonts@).len() implies #[trigger] font_entries(self.fonts@)[j].0 != id@ by {
                    assert(self.fonts@[j].id_view() != id@);
                }
                false
            },
        }
    }

    /// The font registered under `id`, or the builtin font when there is none.
    pub fn resolve(&self, id: &GameFontId) -> (r: &GameFont)
        ensures
            self@.dom().contains(builtin_font_text()),
            self@.dom().contains(id@) ==> r.id_view() == id@ && r.source_view() == self@[id@],
            !self@.dom().contains(id@) ==> r.id_view() == builtin_font_text() && r.source_view()
                == self@[builtin_font_text()],
    {
        proof {
            use_type_invariant(self);
            lemma_assoc_dom(font_entries(self.fonts@), id@);
        }
        match self.find(id) {
            Some(i) => {
                proof {
                    lemma_assoc_index(font_entries(self.fonts@), i as int);
                }
                &self.fonts[i]
            },
            None => {
                assert forall|j: int| 0 <= j < font_entries(self.fonts@).len() implies #[trigger] font_entries(self.fonts@)[j].0 != id@ by {
                    assert(self.fonts@[j].id_view() != id@);
                }
                let builtin = GameFontId::builtin();
                proof {
                    lemma_assoc_dom(font_entries(self.fonts@), builtin_font_text());
                }
                match self.find(&builtin) {
                    Some(j) => {
                        proof {
                            lemma_assoc_index(font_entries(self.fonts@), j as int);
                        }
                        &self.fonts[j]
                    },
                    None => {
                        proof {
                            let k = choose|k: int| 0 <= k < font_entries(self.fonts@).len() && #[trigger] font_entries(self.fonts@)[k].0 == builtin_font_text();
                            assert(self.fonts@[k].id_view() != builtin_font_text());
                        }
                        &self.fonts[0]
                    },
                }
            },
        }
    }
}

impl Default for GameFonts {
    fn default() -> (r: Self)
        ensures
            r@ == Map::<Seq<char>, GameFontSource>::empty().insert(
                builtin_font_text(),
                GameFontSource::BuiltinBitmap,
            ),
    {
        Self::new()
    }
}

} // verus!
