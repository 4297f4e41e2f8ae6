//! Vietnamese tone marks and the table that places them on vowels.
use vstd::prelude::*;

use crate::ascii::{lemma_ascii_lower, spec_ascii_lower, spec_is_ascii_alpha};

verus! {

/// The six tones of Vietnamese: ngang (no mark), sắc (acute), huyền (grave),
/// hỏi (hook), ngã (tilde) and nặng (dot below).
#[derive(Debug, Clone, Copy, PartialEq, Eq, Structural)]
pub enum Tone {
    Ngang,
    Sac,
    Huyen,
    Hoi,
    Nga,
    Nang,
}

/// Tone keys do not depend on case: an upper-case letter is the same tone
/// key (or no tone key) as its lower-case letter, so that typing with Caps
/// Lock places the same tones.
pub proof fn lemma_tone_keys_ignore_case(c: char)
    requires
        spec_is_ascii_alpha(c),
    ensures
        spec_tone_from_telex(c) == spec_tone_from_telex(spec_ascii_lower(c)),
{
    lemma_ascii_lower(c);
}

/// Number of rows in the tone table.
pub const TONE_ROWS: usize = 24;

/// Number of columns in the tone table: the base vowel and its five toned forms.
pub const TONE_COLUMNS: usize = 6;

/// Row `r` of the tone table: a base vowel followed by its sắc, huyền, hỏi,
/// ngã and nặng forms. Rows 0..12 are lower case, rows 12..24 upper case.
pub open spec fn tone_row(r: int) -> Seq<char> {
    if r == 0 {
        seq!['a', 'á', 'à', 'ả', 'ã', 'ạ']
    } else if r == 1 {
        seq!['ă', 'ắ', 'ằ', 'ẳ', 'ẵ', 'ặ']
    } else if r == 2 {
        seq!['â', 'ấ', 'ầ', 'ẩ', 'ẫ', 'ậ']
    } else if r == 3 {
        seq!['e', 'é', 'è', 'ẻ', 'ẽ', 'ẹ']
    } else if r == 4 {
        seq!['ê', 'ế', 'ề', 'ể', 'ễ', 'ệ']
    } else if r == 5 {
        seq!['i', 'í', 'ì', 'ỉ', 'ĩ', 'ị']
    } else if r == 6 {
        seq!['o', 'ó', 'ò', 'ỏ', 'õ', 'ọ']
    } else if r == 7 {
        seq!['ô', 'ố', 'ồ', 'ổ', 'ỗ', 'ộ']
    } else if r == 8 {
        seq!['ơ', 'ớ', 'ờ', 'ở', 'ỡ', 'ợ']
    } else if r == 9 {
        seq!['u', 'ú', 'ù', 'ủ', 'ũ', 'ụ']
    } else if r == 10 {
        seq!['ư', 'ứ', 'ừ', 'ử', 'ữ', 'ự']
    } else if r == 11 {
        seq!['y', 'ý', 'ỳ', 'ỷ', 'ỹ', 'ỵ']
    } else if r == 12 {
        seq!['A', 'Á', 'À', 'Ả', 'Ã', 'Ạ']
    } else if r == 13 {
        seq!['Ă', 'Ắ', 'Ằ', 'Ẳ', 'Ẵ', 'Ặ']
    } else if r == 14 {
        seq!['Â', 'Ấ', 'Ầ', 'Ẩ', 'Ẫ', 'Ậ']
    } else if r == 15 {
        seq!['E', 'É', 'È', 'Ẻ', 'Ẽ', 'Ẹ']
    } else if r == 16 {
        seq!['Ê', 'Ế', 'Ề', 'Ể', 'Ễ', 'Ệ']
    } else if r == 17 {
        seq!['I', 'Í', 'Ì', 'Ỉ', 'Ĩ', 'Ị']
    } else if r == 18 {
        seq!['O', 'Ó', 'Ò', 'Ỏ', 'Õ', 'Ọ']
    } else if r == 19 {
        seq!['Ô', 'Ố', 'Ồ', 'Ổ', 'Ỗ', 'Ộ']
    } else if r == 20 {
        seq!['Ơ', 'Ớ', 'Ờ', 'Ở', 'Ỡ', 'Ợ']
    } else if r == 21 {
        seq!['U', 'Ú', 'Ù', 'Ủ', 'Ũ', 'Ụ']
    } else if r == 22 {
        seq!['Ư', 'Ứ', 'Ừ', 'Ử', 'Ữ', 'Ự']
    } else if r == 23 {
        seq!['Y', 'Ý', 'Ỳ', 'Ỷ', 'Ỹ', 'Ỵ']
    } else {
        seq![]
    }
}

/// `c` stands in column `k` of row `r` of the tone table.
pub open spec fn is_table_entry(c: char, r: int, k: int) -> bool {
    &&& 0 <= r < TONE_ROWS
    &&& 0 <= k < TONE_COLUMNS
    &&& tone_row(r)[k] == c
}

/// `c` is a vowel of the tone table, with or without a tone mark.
pub open spec fn in_tone_table(c: char) -> bool {
    exists|r: int, k: int| #[trigger] is_table_entry(c, r, k)
}

/// The (row, column) at which `c` stands in the tone table; the table holds
/// each character at most once (see `lemma_table_entry_unique`).
pub open spec fn table_position(c: char) -> (int, int)
    recommends
        in_tone_table(c),
{
    choose|r: int, k: int| #[trigger] is_table_entry(c, r, k)
}

/// The column of the tone table that holds tone `t`.
pub open spec fn tone_column(t: Tone) -> int {
    match t {
        Tone::Ngang => 0,
        Tone::Sac => 1,
        Tone::Huyen => 2,
        Tone::Hoi => 3,
        Tone::Nga => 4,
        Tone::Nang => 5,
    }
}

/// The tone of column `k` of the tone table.
pub open spec fn column_tone(k: int) -> Tone {
    if k == 1 {
        Tone::Sac
    } else if k == 2 {
        Tone::Huyen
    } else if k == 3 {
        Tone::Hoi
    } else if k == 4 {
        Tone::Nga
    } else if k == 5 {
        Tone::Nang
    } else {
        Tone::Ngang
    }
}

/// The Telex key that selects a tone, if `c` is one.
pub open spec fn spec_tone_from_telex(c: char) -> Option<Tone> {
    if c == 's' || c == 'S' {
        Some(Tone::Sac)
    } else if c == 'f' || c == 'F' {
        Some(Tone::Huyen)
    } else if c == 'r' || c == 'R' {
        Some(Tone::Hoi)
    } else if c == 'x' || c == 'X' {
        Some(Tone::Nga)
    } else if c == 'j' || c == 'J' {
        Some(Tone::Nang)
    } else if c == 'z' || c == 'Z' {
        Some(Tone::Ngang)
    } else {
        None
    }
}

/// `c` without its tone mark: the base of its row for a vowel of the table,
/// `c` itself for any other character.
pub open spec fn spec_strip_tone(c: char) -> char {
    if in_tone_table(c) {
        tone_row(table_position(c).0)[0]
    } else {
        c
    }
}

/// The tone that `c` carries; `Tone::Ngang` for a character outside the table.
pub open spec fn spec_get_tone(c: char) -> Tone {
    if in_tone_table(c) {
        column_tone(table_position(c).1)
    } else {
        Tone::Ngang
    }
}

/// `c` with its tone replaced by `t`; a character outside the table is left as it is.
pub open spec fn spec_apply_tone(c: char, t: Tone) -> char {
    if in_tone_table(c) {
        tone_row(table_position(c).0)[tone_column(t)]
    } else {
        c
    }
}

/// The place of each character of the tone table, read off row by row.
pub(crate) open spec fn table_index(c: char) -> Option<(int, int)> {
    match c {
        'a' => Some((0, 0)),
        'á' => Some((0, 1)),
        'à' => Some((0, 2)),
        'ả' => Some((0, 3)),
        'ã' => Some((0, 4)),
        'ạ' => Some((0, 5)),
        'ă' => Some((1, 0)),
        'ắ' => Some((1, 1)),
        'ằ' => Some((1, 2)),
        'ẳ' => Some((1, 3)),
        'ẵ' => Some((1, 4)),
        'ặ' => Some((1, 5)),
        'â' => Some((2, 0)),
        'ấ' => Some((2, 1)),
        'ầ' => Some((2, 2)),
        'ẩ' => Some((2, 3)),
        'ẫ' => Some((2, 4)),
        'ậ' => Some((2, 5)),
        'e' => Some((3, 0)),
        'é' => Some((3, 1)),
        'è' => Some((3, 2)),
        'ẻ' => Some((3, 3)),
        'ẽ' => Some((3, 4)),
        'ẹ' => Some((3, 5)),
        'ê' => Some((4, 0)),
        'ế' => Some((4, 1)),
        'ề' => Some((4, 2)),
        'ể' => Some((4, 3)),
        'ễ' => Some((4, 4)),
        'ệ' => Some((4, 5)),
        'i' => Some((5, 0)),
        'í' => Some((5, 1)),
        'ì' => Some((5, 2)),
        'ỉ' => Some((5, 3)),
        'ĩ' => Some((5, 4)),
        'ị' => Some((5, 5)),
        'o' => Some((6, 0)),
        'ó' => Some((6, 1)),
        'ò' => Some((6, 2)),
        'ỏ' => Some((6, 3)),
        'õ' => Some((6, 4)),
        'ọ' => Some((6, 5)),
        'ô' => Some((7, 0)),
        'ố' => Some((7, 1)),
        'ồ' => Some((7, 2)),
        'ổ' => Some((7, 3)),
        'ỗ' => Some((7, 4)),
        'ộ' => Some((7, 5)),
        'ơ' => Some((8, 0)),
        'ớ' => Some((8, 1)),
        'ờ' => Some((8, 2)),
        'ở' => Some((8, 3)),
        'ỡ' => Some((8, 4)),
        'ợ' => Some((8, 5)),
        'u' => Some((9, 0)),
        'ú' => Some((9, 1)),
        'ù' => Some((9, 2)),
        'ủ' => Some((9, 3)),
        'ũ' => Some((9, 4)),
        'ụ' => Some((9, 5)),
        'ư' => Some((10, 0)),
        'ứ' => Some((10, 1)),
        'ừ' => Some((10, 2)),
        'ử' => Some((10, 3)),
        'ữ' => Some((10, 4)),
        'ự' => Some((10, 5)),
        'y' => Some((11, 0)),
        'ý' => Some((11, 1)),
        'ỳ' => Some((11, 2)),
        'ỷ' => Some((11, 3)),
        'ỹ' => Some((11, 4)),
        'ỵ' => Some((11, 5)),
        'A' => Some((12, 0)),
        'Á' => Some((12, 1)),
        'À' => Some((12, 2)),
        'Ả' => Some((12, 3)),
        'Ã' => Some((12, 4)),
        'Ạ' => Some((12, 5)),
        'Ă' => Some((13, 0)),
        'Ắ' => Some((13, 1)),
        'Ằ' => Some((13, 2)),
        'Ẳ' => Some((13, 3)),
        'Ẵ' => Some((13, 4)),
        'Ặ' => Some((13, 5)),
        'Â' => Some((14, 0)),
        'Ấ' => Some((14, 1)),
        'Ầ' => Some((14, 2)),
        'Ẩ' => Some((14, 3)),
        'Ẫ' => Some((14, 4)),
        'Ậ' => Some((14, 5)),
        'E' => Some((15, 0)),
        'É' => Some((15, 1)),
        'È' => Some((15, 2)),
        'Ẻ' => Some((15, 3)),
        'Ẽ' => Some((15, 4)),
        'Ẹ' => Some((15, 5)),
        'Ê' => Some((16, 0)),
        'Ế' => Some((16, 1)),
        'Ề' => Some((16, 2)),
        'Ể' => Some((16, 3)),
        'Ễ' => Some((16, 4)),
        'Ệ' => Some((16, 5)),
        'I' => Some((17, 0)),
        'Í' => Some((17, 1)),
        'Ì' => Some((17, 2)),
        'Ỉ' => Some((17, 3)),
        'Ĩ' => Some((17, 4)),
        'Ị' => Some((17, 5)),
        'O' => Some((18, 0)),
        'Ó' => Some((18, 1)),
        'Ò' => Some((18, 2)),
        'Ỏ' => Some((18, 3)),
        'Õ' => Some((18, 4)),
        'Ọ' => Some((18, 5)),
        'Ô' => Some((19, 0)),
        'Ố' => Some((19, 1)),
        'Ồ' => Some((19, 2)),
        'Ổ' => Some((19, 3)),
        'Ỗ' => Some((19, 4)),
        'Ộ' => Some((19, 5)),
        'Ơ' => Some((20, 0)),
        'Ớ' => Some((20, 1)),
        'Ờ' => Some((20, 2)),
        'Ở' => Some((20, 3)),
        'Ỡ' => Some((20, 4)),
        'Ợ' => Some((20, 5)),
        'U' => Some((21, 0)),
        'Ú' => Some((21, 1)),
        'Ù' => Some((21, 2)),
        'Ủ' => Some((21, 3)),
        'Ũ' => Some((21, 4)),
        'Ụ' => Some((21, 5)),
        'Ư' => Some((22, 0)),
        'Ứ' => Some((22, 1)),
        'Ừ' => Some((22, 2)),
        'Ử' => Some((22, 3)),
        'Ữ' => Some((22, 4)),
        'Ự' => Some((22, 5)),
        'Y' => Some((23, 0)),
        'Ý' => Some((23, 1)),
        'Ỳ' => Some((23, 2)),
        'Ỷ' => Some((23, 3)),
        'Ỹ' => Some((23, 4)),
        'Ỵ' => Some((23, 5)),
        _ => None,
    }
}

proof fn lemma_table_index_inverts(r: int, k: int)
    requires
        0 <= r < TONE_ROWS,
        0 <= k < TONE_COLUMNS,
    ensures
        table_index(tone_row(r)[k]) == Some((r, k)),
{
}

proof fn lemma_table_index_sound(c: char)
    ensures
        match table_index(c) {
            Some((r, k)) => is_table_entry(c, r, k),
            None => true,
        },
{
}

/// `c` is a character of the tone table exactly when the listing of its
/// places holds it.
pub(crate) proof fn lemma_in_table_iff_indexed(c: char)
    ensures
        in_tone_table(c) <==> table_index(c) is Some,
        table_index(c) matches Some((r, k)) ==> table_position(c) == (r, k),
{
    lemma_table_index_sound(c);
    if in_tone_table(c) {
        let (r, k) = table_position(c);
        lemma_table_index_inverts(r, k);
    }
    if let Some((r, k)) = table_index(c) {
        lemma_table_entry_unique(c, r, k);
    }
}

/// No character stands twice in the tone table.
pub proof fn lemma_table_distinct(r1: int, k1: int, r2: int, k2: int)
    requires
        0 <= r1 < TONE_ROWS,
        0 <= k1 < TONE_COLUMNS,
        0 <= r2 < TONE_ROWS,
        0 <= k2 < TONE_COLUMNS,
        tone_row(r1)[k1] == tone_row(r2)[k2],
    ensures
        r1 == r2,
        k1 == k2,
{
    lemma_table_index_inverts(r1, k1);
    lemma_table_index_inverts(r2, k2);
}

/// A character of the tone table stands at exactly one place in it.
pub proof fn lemma_table_entry_unique(c: char, r: int, k: int)
    requires
        is_table_entry(c, r, k),
    ensures
        in_tone_table(c),
        table_position(c) == (r, k),
{
    let (r2, k2) = table_position(c);
    assert(is_table_entry(c, r2, k2));
    lemma_table_distinct(r, k, r2, k2);
}

fn table_row(r: usize) -> (row: [char; 6])
    requires
        r < TONE_ROWS,
    ensures
        row@ == tone_row(r as int),
{
    let row = match r {
        0 => ['a', 'á', 'à', 'ả', 'ã', 'ạ'],
        1 => ['ă', 'ắ', 'ằ', 'ẳ', 'ẵ', 'ặ'],
        2 => ['â', 'ấ', 'ầ', 'ẩ', 'ẫ', 'ậ'],
        3 => ['e', 'é', 'è', 'ẻ', 'ẽ', 'ẹ'],
        4 => ['ê', 'ế', 'ề', 'ể', 'ễ', 'ệ'],
        5 => ['i', 'í', 'ì', 'ỉ', 'ĩ', 'ị'],
        6 => ['o', 'ó', 'ò', 'ỏ', 'õ', 'ọ'],
        7 => ['ô', 'ố', 'ồ', 'ổ', 'ỗ', 'ộ'],
        8 => ['ơ', 'ớ', 'ờ', 'ở', 'ỡ', 'ợ'],
        9 => ['u', 'ú', 'ù', 'ủ', 'ũ', 'ụ'],
        10 => ['ư', 'ứ', 'ừ', 'ử', 'ữ', 'ự'],
        11 => ['y', 'ý', 'ỳ', 'ỷ', 'ỹ', 'ỵ'],
        12 => ['A', 'Á', 'À', 'Ả', 'Ã', 'Ạ'],
        13 => ['Ă', 'Ắ', 'Ằ', 'Ẳ', 'Ẵ', 'Ặ'],
        14 => ['Â', 'Ấ', 'Ầ', 'Ẩ', 'Ẫ', 'Ậ'],
        15 => ['E', 'É', 'È', 'Ẻ', 'Ẽ', 'Ẹ'],
        16 => ['Ê', 'Ế', 'Ề', 'Ể', 'Ễ', 'Ệ'],
        17 => ['I', 'Í', 'Ì', 'Ỉ', 'Ĩ', 'Ị'],
        18 => ['O', 'Ó', 'Ò', 'Ỏ', 'Õ', 'Ọ'],
        19 => ['Ô', 'Ố', 'Ồ', 'Ổ', 'Ỗ', 'Ộ'],
        20 => ['Ơ', 'Ớ', 'Ờ', 'Ở', 'Ỡ', 'Ợ'],
        21 => ['U', 'Ú', 'Ù', 'Ủ', 'Ũ', 'Ụ'],
        22 => ['Ư', 'Ứ', 'Ừ', 'Ử', 'Ữ', 'Ự'],
        _ => ['Y', 'Ý', 'Ỳ', 'Ỷ', 'Ỹ', 'Ỵ'],
    };
    assert(row@ =~= tone_row(r as int));
    row
}

/// Finds the place of `c` in the tone table.
fn locate(c: char) -> (pos: Option<(usize, usize)>)
    ensures
        match pos {
            Some((r, k)) => is_table_entry(c, r as int, k as int),
            None => !in_tone_table(c),
        },
{
    let mut r: usize = 0;
    while r < TONE_ROWS
        invariant
            r <= TONE_ROWS,
            forall|r2: int, k2: int| 0 <= r2 < r && 0 <= k2 < TONE_COLUMNS ==> tone_row(r2)[k2] != c,
        decreases TONE_ROWS - r,
    {
        let row = table_row(r);
        let mut k: usize = 0;
        while k < TONE_COLUMNS
            invariant
                r < TONE_ROWS,
                k <= TONE_COLUMNS,
                row@ == tone_row(r as int),
                forall|r2: int, k2: int| 0 <= r2 < r && 0 <= k2 < TONE_COLUMNS ==> tone_row(r2)[k2] != c,
                forall|k2: int| 0 <= k2 < k ==> tone_row(r as int)[k2] != c,
            decreases TONE_COLUMNS - k,
        {
            if row[k] == c {
                return Some((r, k));
            }
            k += 1;
        }
        r += 1;
    }
    assert forall|r2: int, k2: int| !is_table_entry(c, r2, k2) by {}
    None
}

impl Tone {
    /// The tone that a Telex key selects: s, f, r, x, j, and z for no mark,
    /// in either case.
    pub fn from_telex(c: char) -> (t: Option<Tone>)
        ensures
            t == spec_tone_from_telex(c),
    {
        match c {
            's' | 'S' => Some(Tone::Sac),
            'f' | 'F' => Some(Tone::Huyen),
            'r' | 'R' => Some(Tone::Hoi),
            'x' | 'X' => Some(Tone::Nga),
            'j' | 'J' => Some(Tone::Nang),
            'z' | 'Z' => Some(Tone::Ngang),
            _ => None,
        }
    }
}

/// Places tone `tone` on `base`, replacing any tone it carries. A character
/// outside the tone table is returned as it is.
pub fn apply_tone(base: char, tone: Tone) -> (r: char)
    ensures
        r == spec_apply_tone(base, tone),
{
    let stripped = strip_tone(base);
    let mut row: usize = 0;
    while row < TONE_ROWS
        invariant
            row <= TONE_ROWS,
            stripped == spec_strip_tone(base),
            forall|r2: int| 0 <= r2 < row ==> tone_row(r2)[0] != stripped,
        decreases TONE_ROWS - row,
    {
        let entries = table_row(row);
        if entries[0] == stripped {
            proof {
                if in_tone_table(base) {
                    let (r, k) = table_position(base);
                    lemma_table_distinct(r, 0, row as int, 0);
                } else {
                    assert(is_table_entry(base, row as int, 0));
                }
            }
            let col: usize = match tone {
                Tone::Ngang => 0,
                Tone::Sac => 1,
                Tone::Huyen => 2,
                Tone::Hoi => 3,
                Tone::Nga => 4,
                Tone::Nang => 5,
            };
            return entries[col];
        }
        row += 1;
    }
    proof {
        if in_tone_table(base) {
            let (r, k) = table_position(base);
            assert(tone_row(r)[0] == stripped);
        }
    }
    base
}

/// Removes the tone mark of `c`; a character outside the tone table is
/// returned as it is.
pub fn strip_tone(c: char) -> (r: char)
    ensures
        r == spec_strip_tone(c),
{
    match locate(c) {
        Some((row, col)) => {
            proof {
                lemma_table_entry_unique(c, row as int, col as int);
            }
            table_row(row)[0]
        },
        None => c,
    }
}

/// The tone that `c` carries; `Tone::Ngang` for an unmarked vowel and for any
/// character outside the tone table.
pub fn get_tone(c: char) -> (t: Tone)
    ensures
        t == spec_get_tone(c),
{
    match locate(c) {
        Some((row, col)) => {
            proof {
                lemma_table_entry_unique(c, row as int, col as int);
            }
            match col {
                1 => Tone::Sac,
                2 => Tone::Huyen,
                3 => Tone::Hoi,
                4 => Tone::Nga,
                5 => Tone::Nang,
                _ => Tone::Ngang,
            }
        },
        None => Tone::Ngang,
    }
}

/// Placing a tone on a vowel of the table keeps its base and gives it exactly
/// that tone; the result is still a vowel of the table.
pub proof fn lemma_tone_roundtrip(c: char, t: Tone)
    requires
        in_tone_table(c),
    ensures
        in_tone_table(spec_apply_tone(c, t)),
        spec_strip_tone(spec_apply_tone(c, t)) == spec_strip_tone(c),
        spec_get_tone(spec_apply_tone(c, t)) == t,
{
    let (r, k) = table_position(c);
    assert(is_table_entry(c, r, k));
    let d = spec_apply_tone(c, t);
    assert(is_table_entry(d, r, tone_column(t)));
    lemma_table_entry_unique(d, r, tone_column(t));
}

/// A character outside the tone table passes through every tone operation.
pub proof fn lemma_outside_table_unchanged(c: char, t: Tone)
    requires
        !in_tone_table(c),
    ensures
        spec_apply_tone(c, t) == c,
        spec_strip_tone(c) == c,
        spec_get_tone(c) == Tone::Ngang,
{
}

/// A new tone replaces the old one: applying two tones in turn is applying
/// the second.
pub proof fn lemma_tone_replaces(c: char, t1: Tone, t2: Tone)
    ensures
        spec_apply_tone(spec_apply_tone(c, t1), t2) == spec_apply_tone(c, t2),
{
    if in_tone_table(c) {
        let (r, k) = table_position(c);
        assert(is_table_entry(c, r, k));
        let d = spec_apply_tone(c, t1);
        assert(is_table_entry(d, r, tone_column(t1)));
        lemma_table_entry_unique(d, r, tone_column(t1));
    }
}

/// Applying the level tone ngang is stripping the tone; a stripped character
/// carries no tone and strips to itself.
pub proof fn lemma_strip_is_ngang(c: char)
    ensures
        spec_apply_tone(c, Tone::Ngang) == spec_strip_tone(c),
        spec_strip_tone(spec_strip_tone(c)) == spec_strip_tone(c),
        spec_get_tone(spec_strip_tone(c)) == Tone::Ngang,
        in_tone_table(spec_strip_tone(c)) == in_tone_table(c),
{
    if in_tone_table(c) {
        lemma_tone_roundtrip(c, Tone::Ngang);
        let (r, k) = table_position(c);
        assert(is_table_entry(c, r, k));
        let s = spec_strip_tone(c);
        assert(is_table_entry(s, r, 0));
        lemma_table_entry_unique(s, r, 0);
    }
}

/// The canonical decomposition that the Unicode Character Database gives a
/// Vietnamese vowel letter: a letter and one combining mark (U+0300 grave,
/// U+0301 acute, U+0303 tilde, U+0309 hook above, U+0323 dot below, U+0302
/// circumflex, U+0306 breve, U+031B horn), or nothing for a plain letter.
pub open spec fn unicode_decomposition(c: char) -> Option<(char, char)> {
    match c {
        'á' => Some(('a', '\u{301}')),
        'à' => Some(('a', '\u{300}')),
        'ả' => Some(('a', '\u{309}')),
        'ã' => Some(('a', '\u{303}')),
        'ạ' => Some(('a', '\u{323}')),
        'ă' => Some(('a', '\u{306}')),
        'ắ' => Some(('ă', '\u{301}')),
        'ằ' => Some(('ă', '\u{300}')),
        'ẳ' => Some(('ă', '\u{309}')),
        'ẵ' => Some(('ă', '\u{303}')),
        'ặ' => Some(('ạ', '\u{306}')),
        'â' => Some(('a', '\u{302}')),
        'ấ' => Some(('â', '\u{301}')),
        'ầ' => Some(('â', '\u{300}')),
        'ẩ' => Some(('â', '\u{309}')),
        'ẫ' => Some(('â', '\u{303}')),
        'ậ' => Some(('ạ', '\u{302}')),
        'é' => Some(('e', '\u{301}')),
        'è' => Some(('e', '\u{300}')),
        'ẻ' => Some(('e', '\u{309}')),
        'ẽ' => Some(('e', '\u{303}')),
        'ẹ' => Some(('e', '\u{323}')),
        'ê' => Some(('e', '\u{302}')),
        'ế' => Some(('ê', '\u{301}')),
        'ề' => Some(('ê', '\u{300}')),
        'ể' => Some(('ê', '\u{309}')),
        'ễ' => Some(('ê', '\u{303}')),
        'ệ' => Some(('ẹ', '\u{302}')),
        'í' => Some(('i', '\u{301}')),
        'ì' => Some(('i', '\u{300}')),
        'ỉ' => Some(('i', '\u{309}')),
        'ĩ' => Some(('i', '\u{303}')),
        'ị' => Some(('i', '\u{323}')),
        'ó' => Some(('o', '\u{301}')),
        'ò' => Some(('o', '\u{300}')),
        'ỏ' => Some(('o', '\u{309}')),
        'õ' => Some(('o', '\u{303}')),
        'ọ' => Some(('o', '\u{323}')),
        'ô' => Some(('o', '\u{302}')),
        'ố' => Some(('ô', '\u{301}')),
        'ồ' => Some(('ô', '\u{300}')),
        'ổ' => Some(('ô', '\u{309}')),
        'ỗ' => Some(('ô', '\u{303}')),
        'ộ' => Some(('ọ', '\u{302}')),
        'ơ' => Some(('o', '\u{31b}')),
        'ớ' => Some(('ơ', '\u{301}')),
        'ờ' => Some(('ơ', '\u{300}')),
        'ở' => Some(('ơ', '\u{309}')),
        'ỡ' => Some(('ơ', '\u{303}')),
        'ợ' => Some(('ơ', '\u{323}')),
        'ú' => Some(('u', '\u{301}')),
        'ù' => Some(('u', '\u{300}')),
        'ủ' => Some(('u', '\u{309}')),
        'ũ' => Some(('u', '\u{303}')),
        'ụ' => Some(('u', '\u{323}')),
        'ư' => Some(('u', '\u{31b}')),
        'ứ' => Some(('ư', '\u{301}')),
        'ừ' => Some(('ư', '\u{300}')),
        'ử' => Some(('ư', '\u{309}')),
        'ữ' => Some(('ư', '\u{303}')),
        'ự' => Some(('ư', '\u{323}')),
        'ý' => Some(('y', '\u{301}')),
        'ỳ' => Some(('y', '\u{300}')),
        'ỷ' => Some(('y', '\u{309}')),
        'ỹ' => Some(('y', '\u{303}')),
        'ỵ' => Some(('y', '\u{323}')),
        'Á' => Some(('A', '\u{301}')),
        'À' => Some(('A', '\u{300}')),
        'Ả' => Some(('A', '\u{309}')),
        'Ã' => Some(('A', '\u{303}')),
        'Ạ' => Some(('A', '\u{323}')),
        'Ă' => Some(('A', '\u{306}')),
        'Ắ' => Some(('Ă', '\u{301}')),
        'Ằ' => Some(('Ă', '\u{300}')),
        'Ẳ' => Some(('Ă', '\u{309}')),
        'Ẵ' => Some(('Ă', '\u{303}')),
        'Ặ' => Some(('Ạ', '\u{306}')),
        'Â' => Some(('A', '\u{302}')),
        'Ấ' => Some(('Â', '\u{301}')),
        'Ầ' => Some(('Â', '\u{300}')),
        'Ẩ' => Some(('Â', '\u{309}')),
        'Ẫ' => Some(('Â', '\u{303}')),
        'Ậ' => Some(('Ạ', '\u{302}')),
        'É' => Some(('E', '\u{301}')),
        'È' => Some(('E', '\u{300}')),
        'Ẻ' => Some(('E', '\u{309}')),
        'Ẽ' => Some(('E', '\u{303}')),
        'Ẹ' => Some(('E', '\u{323}')),
        'Ê' => Some(('E', '\u{302}')),
        'Ế' => Some(('Ê', '\u{301}')),
        'Ề' => Some(('Ê', '\u{300}')),
        'Ể' => Some(('Ê', '\u{309}')),
        'Ễ' => Some(('Ê', '\u{303}')),
        'Ệ' => Some(('Ẹ', '\u{302}')),
        'Í' => Some(('I', '\u{301}')),
        'Ì' => Some(('I', '\u{300}')),
        'Ỉ' => Some(('I', '\u{309}')),
        'Ĩ' => Some(('I', '\u{303}')),
        'Ị' => Some(('I', '\u{323}')),
        'Ó' => Some(('O', '\u{301}')),
        'Ò' => Some(('O', '\u{300}')),
        'Ỏ' => Some(('O', '\u{309}')),
        'Õ' => Some(('O', '\u{303}')),
        'Ọ' => Some(('O', '\u{323}')),
        'Ô' => Some(('O', '\u{302}')),
        'Ố' => Some(('Ô', '\u{301}')),
        'Ồ' => Some(('Ô', '\u{300}')),
        'Ổ' => Some(('Ô', '\u{309}')),
        'Ỗ' => Some(('Ô', '\u{303}')),
        'Ộ' => Some(('Ọ', '\u{302}')),
        'Ơ' => Some(('O', '\u{31b}')),
        'Ớ' => Some(('Ơ', '\u{301}')),
        'Ờ' => Some(('Ơ', '\u{300}')),
        'Ở' => Some(('Ơ', '\u{309}')),
        'Ỡ' => Some(('Ơ', '\u{303}')),
        'Ợ' => Some(('Ơ', '\u{323}')),
        'Ú' => Some(('U', '\u{301}')),
        'Ù' => Some(('U', '\u{300}')),
        'Ủ' => Some(('U', '\u{309}')),
        'Ũ' => Some(('U', '\u{303}')),
        'Ụ' => Some(('U', '\u{323}')),
        'Ư' => Some(('U', '\u{31b}')),
        'Ứ' => Some(('Ư', '\u{301}')),
        'Ừ' => Some(('Ư', '\u{300}')),
        'Ử' => Some(('Ư', '\u{309}')),
        'Ữ' => Some(('Ư', '\u{303}')),
        'Ự' => Some(('Ư', '\u{323}')),
        'Ý' => Some(('Y', '\u{301}')),
        'Ỳ' => Some(('Y', '\u{300}')),
        'Ỷ' => Some(('Y', '\u{309}')),
        'Ỹ' => Some(('Y', '\u{303}')),
        'Ỵ' => Some(('Y', '\u{323}')),
        _ => None,
    }
}

/// The combining mark that writes tone `t` (nothing for ngang).
pub open spec fn tone_mark(t: Tone) -> Option<char> {
    match t {
        Tone::Ngang => None,
        Tone::Sac => Some('\u{301}'),
        Tone::Huyen => Some('\u{300}'),
        Tone::Hoi => Some('\u{309}'),
        Tone::Nga => Some('\u{303}'),
        Tone::Nang => Some('\u{323}'),
    }
}

/// `c` is the letter `b` with tone mark `mark`, by Unicode: its decomposition
/// is `b` and `mark`; or, for a breve or circumflex letter with the dot
/// below, which Unicode composes the other way round, its decomposition is
/// the dot-below form of the plain letter of `b` with the mark of `b`.
pub open spec fn marked_with(c: char, b: char, mark: char) -> bool {
    ||| unicode_decomposition(c) == Some((b, mark))
    ||| mark == '\u{323}' && match (unicode_decomposition(c), unicode_decomposition(b)) {
        (Some((x, m)), Some((l, m2))) => m == m2 && unicode_decomposition(x) == Some((l, mark)),
        _ => false,
    }
}

/// Each toned entry of the tone table is its row's base written with the
/// tone's mark.
proof fn lemma_entry_marked(r: int, k: int)
    requires
        0 <= r < TONE_ROWS,
        1 <= k < TONE_COLUMNS,
    ensures
        marked_with(tone_row(r)[k], tone_row(r)[0], tone_mark(column_tone(k))->0),
{
    if r == 0 {
        if k == 1 {
            } else if k == 2 {
            } else if k == 3 {
            } else if k == 4 {
            } else if k == 5 {
            }
    } else if r == 1 {
        if k == 1 {
            } else if k == 2 {
            } else if k == 3 {
            } else if k == 4 {
            } else if k == 5 {
            }
    } else if r == 2 {
        if k == 1 {
            } else if k == 2 {
            } else if k == 3 {
            } else if k == 4 {
            } else if k == 5 {
            }
    } else if r == 3 {
        if k == 1 {
            } else if k == 2 {
            } else if k == 3 {
            } else if k == 4 {
            } else if k == 5 {
            }
    } else if r == 4 {
        if k == 1 {
            } else if k == 2 {
            } else if k == 3 {
            } else if k == 4 {
            } else if k == 5 {
            }
    } else if r == 5 {
        if k == 1 {
            } else if k == 2 {
            } else if k == 3 {
            } else if k == 4 {
            } else if k == 5 {
            }
    } else if r == 6 {
        if k == 1 {
            } else if k == 2 {
            } else if k == 3 {
            } else if k == 4 {
            } else if k == 5 {
            }
    } else if r == 7 {
        if k == 1 {
            } else if k == 2 {
            } else if k == 3 {
            } else if k == 4 {
            } else if k == 5 {
            }
    } else if r == 8 {
        if k == 1 {
            } else if k == 2 {
            } else if k == 3 {
            } else if k == 4 {
            } else if k == 5 {
            }
    } else if r == 9 {
        if k == 1 {
            } else if k == 2 {
            } else if k == 3 {
            } else if k == 4 {
            } else if k == 5 {
            }
    } else if r == 10 {
        if k == 1 {
            } else if k == 2 {
            } else if k == 3 {
            } else if k == 4 {
            } else if k == 5 {
            }
    } else if r == 11 {
        if k == 1 {
            } else if k == 2 {
            } else if k == 3 {
            } else if k == 4 {
            } else if k == 5 {
            }
    } else if r == 12 {
        if k == 1 {
            } else if k == 2 {
            } else if k == 3 {
            } else if k == 4 {
            } else if k == 5 {
            }
    } else if r == 13 {
        if k == 1 {
            } else if k == 2 {
            } else if k == 3 {
            } else if k == 4 {
            } else if k == 5 {
            }
    } else if r == 14 {
        if k == 1 {
            } else if k == 2 {
            } else if k == 3 {
            } else if k == 4 {
            } else if k == 5 {
            }
    } else if r == 15 {
        if k == 1 {
            } else if k == 2 {
            } else if k == 3 {
            } else if k == 4 {
            } else if k == 5 {
            }
    } else if r == 16 {
        if k == 1 {
            } else if k == 2 {
            } else if k == 3 {
            } else if k == 4 {
            } else if k == 5 {
            }
    } else if r == 17 {
        if k == 1 {
            } else if k == 2 {
            } else if k == 3 {
            } else if k == 4 {
            } else if k == 5 {
            }
    } else if r == 18 {
        if k == 1 {
            } else if k == 2 {
            } else if k == 3 {
            } else if k == 4 {
            } else if k == 5 {
            }
    } else if r == 19 {
        if k == 1 {
            } else if k == 2 {
            } else if k == 3 {
            } else if k == 4 {
            } else if k == 5 {
            }
    } else if r == 20 {
        if k == 1 {
            } else if k == 2 {
            } else if k == 3 {
            } else if k == 4 {
            } else if k == 5 {
            }
    } else if r == 21 {
        if k == 1 {
            } else if k == 2 {
            } else if k == 3 {
            } else if k == 4 {
            } else if k == 5 {
            }
    } else if r == 22 {
        if k == 1 {
            } else if k == 2 {
            } else if k == 3 {
            } else if k == 4 {
            } else if k == 5 {
            }
    } else if r == 23 {
        if k == 1 {
            } else if k == 2 {
            } else if k == 3 {
            } else if k == 4 {
            } else if k == 5 {
            }
    }
}

/// A tone put on a vowel is written as Unicode writes it: the toned letter
/// decomposes into the vowel's base letter and the combining mark of the tone
/// (hỏi the hook above U+0309, ngã the tilde U+0303, and so on).
pub proof fn lemma_tone_marks(v: char, t: Tone)
    requires
        in_tone_table(v),
        t != Tone::Ngang,
    ensures
        marked_with(spec_apply_tone(v, t), spec_strip_tone(v), tone_mark(t)->0),
{
    let (r, k) = table_position(v);
    assert(is_table_entry(v, r, k));
    lemma_entry_marked(r, tone_column(t));
}

} // verus!
