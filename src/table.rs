//! The MacRoman mapping table: every Unicode spelling that MacRoman can
//! represent, with its byte code, sorted by source sequence.
use vstd::prelude::*;

verus! {

/// One table entry: a base scalar value, the combining mark that follows it
/// (`'\0'` when the entry is the base alone), and its MacRoman byte code.
pub type Entry = (char, char, u8);

/// Number of entries in `KNOWN_SEQUENCES`.
pub const TABLE_LEN: usize = 310;

/// The mapping table, sorted by source sequence and free of duplicate sources.
pub const KNOWN_SEQUENCES: [Entry; 310] = [
    ('\u{0000}', '\0', 0),
    ('\u{0001}', '\0', 1),
    ('\u{0002}', '\0', 2),
    ('\u{0003}', '\0', 3),
    ('\u{0004}', '\0', 4),
    ('\u{0005}', '\0', 5),
    ('\u{0006}', '\0', 6),
    ('\u{0007}', '\0', 7),
    ('\u{0008}', '\0', 8),
    ('\u{0009}', '\0', 9),
    ('\u{000A}', '\0', 10),
    ('\u{000B}', '\0', 11),
    ('\u{000C}', '\0', 12),
    ('\u{000D}', '\0', 13),
    ('\u{000E}', '\0', 14),
    ('\u{000F}', '\0', 15),
    ('\u{0010}', '\0', 16),
    ('\u{0011}', '\0', 17),
    ('\u{0012}', '\0', 18),
    ('\u{0013}', '\0', 19),
    ('\u{0014}', '\0', 20),
    ('\u{0015}', '\0', 21),
    ('\u{0016}', '\0', 22),
    ('\u{0017}', '\0', 23),
    ('\u{0018}', '\0', 24),
    ('\u{0019}', '\0', 25),
    ('\u{001A}', '\0', 26),
    ('\u{001B}', '\0', 27),
    ('\u{001C}', '\0', 28),
    ('\u{001D}', '\0', 29),
    ('\u{001E}', '\0', 30),
    ('\u{001F}', '\0', 31),
    ('\u{0020}', '\0', 32),
    ('\u{0021}', '\0', 33),
    ('\u{0022}', '\0', 34),
    ('\u{0023}', '\0', 35),
    ('\u{0024}', '\0', 36),
    ('\u{0025}', '\0', 37),
    ('\u{0026}', '\0', 38),
    ('\u{0027}', '\0', 39),
    ('\u{0028}', '\0', 40),
    ('\u{0029}', '\0', 41),
    ('\u{002A}', '\0', 42),
    ('\u{002B}', '\0', 43),
    ('\u{002C}', '\0', 44),
    ('\u{002D}', '\0', 45),
    ('\u{002E}', '\0', 46),
    ('\u{002F}', '\0', 47),
    ('\u{0030}', '\0', 48),
    ('\u{0031}', '\0', 49),
    ('\u{0032}', '\0', 50),
    ('\u{0033}', '\0', 51),
    ('\u{0034}', '\0', 52),
    ('\u{0035}', '\0', 53),
    ('\u{0036}', '\0', 54),
    ('\u{0037}', '\0', 55),
    ('\u{0038}', '\0', 56),
    ('\u{0039}', '\0', 57),
    ('\u{003A}', '\0', 58),
    ('\u{003B}', '\0', 59),
    ('\u{003C}', '\0', 60),
    ('\u{003D}', '\0', 61),
    ('\u{003E}', '\0', 62),
    ('\u{003F}', '\0', 63),
    ('\u{0040}', '\0', 64),
    ('\u{0041}', '\0', 65),
    ('\u{0041}', '\u{0300}', 203),
    ('\u{0041}', '\u{0301}', 231),
    ('\u{0041}', '\u{0302}', 229),
    ('\u{0041}', '\u{0303}', 204),
    ('\u{0041}', '\u{0308}', 128),
    ('\u{0041}', '\u{030A}', 129),
    ('\u{0042}', '\0', 66),
    ('\u{0043}', '\0', 67),
    ('\u{0043}', '\u{0327}', 130),
    ('\u{0044}', '\0', 68),
    ('\u{0045}', '\0', 69),
    ('\u{0045}', '\u{0300}', 233),
    ('\u{0045}', '\u{0301}', 131),
    ('\u{0045}', '\u{0302}', 230),
    ('\u{0045}', '\u{0308}', 232),
    ('\u{0046}', '\0', 70),
    ('\u{0047}', '\0', 71),
    ('\u{0048}', '\0', 72),
    ('\u{0049}', '\0', 73),
    ('\u{0049}', '\u{0300}', 237),
    ('\u{0049}', '\u{0301}', 234),
    ('\u{0049}', '\u{0302}', 235),
    ('\u{0049}', '\u{0308}', 236),
    ('\u{004A}', '\0', 74),
    ('\u{004B}', '\0', 75),
    ('\u{004C}', '\0', 76),
    ('\u{004D}', '\0', 77),
    ('\u{004E}', '\0', 78),
    ('\u{004E}', '\u{0303}', 132),
    ('\u{004F}', '\0', 79),
    ('\u{004F}', '\u{0300}', 241),
    ('\u{004F}', '\u{0301}', 238),
    ('\u{004F}', '\u{0302}', 239),
    ('\u{004F}', '\u{0303}', 205),
    ('\u{004F}', '\u{0308}', 133),
    ('\u{0050}', '\0', 80),
    ('\u{0051}', '\0', 81),
    ('\u{0052}', '\0', 82),
    ('\u{0053}', '\0', 83),
    ('\u{0054}', '\0', 84),
    ('\u{0055}', '\0', 85),
    ('\u{0055}', '\u{0300}', 244),
    ('\u{0055}', '\u{0301}', 242),
    ('\u{0055}', '\u{0302}', 243),
    ('\u{0055}', '\u{0308}', 134),
    ('\u{0056}', '\0', 86),
    ('\u{0057}', '\0', 87),
    ('\u{0058}', '\0', 88),
    ('\u{0059}', '\0', 89),
    ('\u{0059}', '\u{0308}', 217),
    ('\u{005A}', '\0', 90),
    ('\u{005B}', '\0', 91),
    ('\u{005C}', '\0', 92),
    ('\u{005D}', '\0', 93),
    ('\u{005E}', '\0', 94),
    ('\u{005F}', '\0', 95),
    ('\u{0060}', '\0', 96),
    ('\u{0061}', '\0', 97),
    ('\u{0061}', '\u{0300}', 136),
    ('\u{0061}', '\u{0301}', 135),
    ('\u{0061}', '\u{0302}', 137),
    ('\u{0061}', '\u{0303}', 139),
    ('\u{0061}', '\u{0308}', 138),
    ('\u{0061}', '\u{030A}', 140),
    ('\u{0062}', '\0', 98),
    ('\u{0063}', '\0', 99),
    ('\u{0063}', '\u{0327}', 141),
    ('\u{0064}', '\0', 100),
    ('\u{0065}', '\0', 101),
    ('\u{0065}', '\u{0300}', 143),
    ('\u{0065}', '\u{0301}', 142),
    ('\u{0065}', '\u{0302}', 144),
    ('\u{0065}', '\u{0308}', 145),
    ('\u{0066}', '\0', 102),
    ('\u{0067}', '\0', 103),
    ('\u{0068}', '\0', 104),
    ('\u{0069}', '\0', 105),
    ('\u{0069}', '\u{0300}', 147),
    ('\u{0069}', '\u{0301}', 146),
    ('\u{0069}', '\u{0302}', 148),
    ('\u{0069}', '\u{0308}', 149),
    ('\u{006A}', '\0', 106),
    ('\u{006B}', '\0', 107),
    ('\u{006C}', '\0', 108),
    ('\u{006D}', '\0', 109),
    ('\u{006E}', '\0', 110),
    ('\u{006E}', '\u{0303}', 150),
    ('\u{006F}', '\0', 111),
    ('\u{006F}', '\u{0300}', 152),
    ('\u{006F}', '\u{0301}', 151),
    ('\u{006F}', '\u{0302}', 153),
    ('\u{006F}', '\u{0303}', 155),
    ('\u{006F}', '\u{0308}', 154),
    ('\u{0070}', '\0', 112),
    ('\u{0071}', '\0', 113),
    ('\u{0072}', '\0', 114),
    ('\u{0073}', '\0', 115),
    ('\u{0074}', '\0', 116),
    ('\u{0075}', '\0', 117),
    ('\u{0075}', '\u{0300}', 157),
    ('\u{0075}', '\u{0301}', 156),
    ('\u{0075}', '\u{0302}', 158),
    ('\u{0075}', '\u{0308}', 159),
    ('\u{0076}', '\0', 118),
    ('\u{0077}', '\0', 119),
    ('\u{0078}', '\0', 120),
    ('\u{0079}', '\0', 121),
    ('\u{0079}', '\u{0308}', 216),
    ('\u{007A}', '\0', 122),
    ('\u{007B}', '\0', 123),
    ('\u{007C}', '\0', 124),
    ('\u{007D}', '\0', 125),
    ('\u{007E}', '\0', 126),
    ('\u{007F}', '\0', 127),
    ('\u{00A0}', '\0', 202),
    ('\u{00A1}', '\0', 193),
    ('\u{00A2}', '\0', 162),
    ('\u{00A3}', '\0', 163),
    ('\u{00A4}', '\0', 219),
    ('\u{00A5}', '\0', 180),
    ('\u{00A7}', '\0', 164),
    ('\u{00A8}', '\0', 172),
    ('\u{00A9}', '\0', 169),
    ('\u{00AA}', '\0', 187),
    ('\u{00AB}', '\0', 199),
    ('\u{00AC}', '\0', 194),
    ('\u{00AE}', '\0', 168),
    ('\u{00AF}', '\0', 248),
    ('\u{00B0}', '\0', 161),
    ('\u{00B1}', '\0', 177),
    ('\u{00B4}', '\0', 171),
    ('\u{00B5}', '\0', 181),
    ('\u{00B6}', '\0', 166),
    ('\u{00B7}', '\0', 225),
    ('\u{00B8}', '\0', 252),
    ('\u{00BA}', '\0', 188),
    ('\u{00BB}', '\0', 200),
    ('\u{00BF}', '\0', 192),
    ('\u{00C0}', '\0', 203),
    ('\u{00C1}', '\0', 231),
    ('\u{00C2}', '\0', 229),
    ('\u{00C3}', '\0', 204),
    ('\u{00C4}', '\0', 128),
    ('\u{00C5}', '\0', 129),
    ('\u{00C6}', '\0', 174),
    ('\u{00C7}', '\0', 130),
    ('\u{00C8}', '\0', 233),
    ('\u{00C9}', '\0', 131),
    ('\u{00CA}', '\0', 230),
    ('\u{00CB}', '\0', 232),
    ('\u{00CC}', '\0', 237),
    ('\u{00CD}', '\0', 234),
    ('\u{00CE}', '\0', 235),
    ('\u{00CF}', '\0', 236),
    ('\u{00D1}', '\0', 132),
    ('\u{00D2}', '\0', 241),
    ('\u{00D3}', '\0', 238),
    ('\u{00D4}', '\0', 239),
    ('\u{00D5}', '\0', 205),
    ('\u{00D6}', '\0', 133),
    ('\u{00D8}', '\0', 175),
    ('\u{00D9}', '\0', 244),
    ('\u{00DA}', '\0', 242),
    ('\u{00DB}', '\0', 243),
    ('\u{00DC}', '\0', 134),
    ('\u{00DF}', '\0', 167),
    ('\u{00E0}', '\0', 136),
    ('\u{00E1}', '\0', 135),
    ('\u{00E2}', '\0', 137),
    ('\u{00E3}', '\0', 139),
    ('\u{00E4}', '\0', 138),
    ('\u{00E5}', '\0', 140),
    ('\u{00E6}', '\0', 190),
    ('\u{00E7}', '\0', 141),
    ('\u{00E8}', '\0', 143),
    ('\u{00E9}', '\0', 142),
    ('\u{00EA}', '\0', 144),
    ('\u{00EB}', '\0', 145),
    ('\u{00EC}', '\0', 147),
    ('\u{00ED}', '\0', 146),
    ('\u{00EE}', '\0', 148),
    ('\u{00EF}', '\0', 149),
    ('\u{00F1}', '\0', 150),
    ('\u{00F2}', '\0', 152),
    ('\u{00F3}', '\0', 151),
    ('\u{00F4}', '\0', 153),
    ('\u{00F5}', '\0', 155),
    ('\u{00F6}', '\0', 154),
    ('\u{00F7}', '\0', 214),
    ('\u{00F8}', '\0', 191),
    ('\u{00F9}', '\0', 157),
    ('\u{00FA}', '\0', 156),
    ('\u{00FB}', '\0', 158),
    ('\u{00FC}', '\0', 159),
    ('\u{00FF}', '\0', 216),
    ('\u{0131}', '\0', 245),
    ('\u{0152}', '\0', 206),
    ('\u{0153}', '\0', 207),
    ('\u{0178}', '\0', 217),
    ('\u{0192}', '\0', 196),
    ('\u{02C6}', '\0', 246),
    ('\u{02C7}', '\0', 255),
    ('\u{02D8}', '\0', 249),
    ('\u{02D9}', '\0', 250),
    ('\u{02DA}', '\0', 251),
    ('\u{02DB}', '\0', 254),
    ('\u{02DC}', '\0', 247),
    ('\u{02DD}', '\0', 253),
    ('\u{03A9}', '\0', 189),
    ('\u{03C0}', '\0', 185),
    ('\u{2013}', '\0', 208),
    ('\u{2014}', '\0', 209),
    ('\u{2018}', '\0', 212),
    ('\u{2019}', '\0', 213),
    ('\u{201A}', '\0', 226),
    ('\u{201C}', '\0', 210),
    ('\u{201D}', '\0', 211),
    ('\u{201E}', '\0', 227),
    ('\u{2020}', '\0', 160),
    ('\u{2021}', '\0', 224),
    ('\u{2022}', '\0', 165),
    ('\u{2026}', '\0', 201),
    ('\u{2030}', '\0', 228),
    ('\u{2039}', '\0', 220),
    ('\u{203A}', '\0', 221),
    ('\u{2044}', '\0', 218),
    ('\u{20AC}', '\0', 219),
    ('\u{2122}', '\0', 170),
    ('\u{2126}', '\0', 189),
    ('\u{2202}', '\0', 182),
    ('\u{2206}', '\0', 198),
    ('\u{220F}', '\0', 184),
    ('\u{2211}', '\0', 183),
    ('\u{221A}', '\0', 195),
    ('\u{221E}', '\0', 176),
    ('\u{222B}', '\0', 186),
    ('\u{2248}', '\0', 197),
    ('\u{2260}', '\0', 173),
    ('\u{2264}', '\0', 178),
    ('\u{2265}', '\0', 179),
    ('\u{25CA}', '\0', 215),
    ('\u{F8FF}', '\0', 240),
    ('\u{FB01}', '\0', 222),
    ('\u{FB02}', '\0', 223),
];

/// The source sequence that an entry maps from.
pub open spec fn source_of(e: Entry) -> Seq<char> {
    if e.1 == '\0' {
        seq![e.0]
    } else {
        seq![e.0, e.1]
    }
}

/// The sort key of an entry: its base, then its mark (0 for none). Ordering
/// entries by this key orders them as their source sequences compare.
pub open spec fn entry_key(e: Entry) -> (int, int) {
    (e.0 as int, e.1 as int)
}

/// Strict lexicographic order on keys.
pub open spec fn key_lt(a: (int, int), b: (int, int)) -> bool {
    a.0 < b.0 || (a.0 == b.0 && a.1 < b.1)
}

/// Each entry from `i` on sorts strictly before the next one; a mark, where
/// present, lies at or above U+0300; and a two-scalar entry follows an entry
/// with the same base.
pub open spec fn ordered_from(i: int) -> bool
    decreases TABLE_LEN - i,
{
    if i < 0 || i >= TABLE_LEN {
        true
    } else {
        &&& (KNOWN_SEQUENCES@[i].1 == '\0' || KNOWN_SEQUENCES@[i].1 as int >= 0x300)
        &&& (i + 1 < TABLE_LEN ==> key_lt(
            entry_key(KNOWN_SEQUENCES@[i]),
            entry_key(KNOWN_SEQUENCES@[i + 1]),
        ))
        &&& (i + 1 < TABLE_LEN && KNOWN_SEQUENCES@[i + 1].1 != '\0' ==> KNOWN_SEQUENCES@[i].0
            == KNOWN_SEQUENCES@[i + 1].0)
        &&& ordered_from(i + 1)
    }
}

/// From index `i` on, the table holds, in order, an entry mapping each
/// scalar value `c`, ..., 0x7F alone to the byte of the same value.
pub open spec fn ascii_from(i: int, c: int) -> bool
    decreases TABLE_LEN - i,
{
    if c >= 0x80 {
        true
    } else if i < 0 || i >= TABLE_LEN {
        false
    } else if KNOWN_SEQUENCES@[i].0 as int == c && KNOWN_SEQUENCES@[i].1 == '\0'
        && KNOWN_SEQUENCES@[i].2 as int == c {
        ascii_from(i + 1, c + 1)
    } else {
        ascii_from(i + 1, c)
    }
}

/// The source sequence `s` has an entry in the table.
pub open spec fn in_table(s: Seq<char>) -> bool {
    exists|i: int| 0 <= i < TABLE_LEN && #[trigger] source_of(KNOWN_SEQUENCES@[i]) == s
}

/// The byte code of the entry whose source is `s` (meaningful when `in_table(s)`).
pub open spec fn code_for(s: Seq<char>) -> u8 {
    KNOWN_SEQUENCES@[choose|i: int|
        0 <= i < TABLE_LEN && #[trigger] source_of(KNOWN_SEQUENCES@[i]) == s].2
}

// The two checkers below are evaluated on the literal table, unfolded twenty
// entries at a time from the end back to the start.
proof fn lemma_ordered_checked()
    ensures
        ordered_from(0),
{
    assert(ordered_from(290)) by {
        reveal_with_fuel(ordered_from, 21);
    }
    assert(ordered_from(270)) by {
        reveal_with_fuel(ordered_from, 21);
    }
    assert(ordered_from(250)) by {
        reveal_with_fuel(ordered_from, 21);
    }
    assert(ordered_from(230)) by {
        reveal_with_fuel(ordered_from, 21);
    }
    assert(ordered_from(210)) by {
        reveal_with_fuel(ordered_from, 21);
    }
    assert(ordered_from(190)) by {
        reveal_with_fuel(ordered_from, 21);
    }
    assert(ordered_from(170)) by {
        reveal_with_fuel(ordered_from, 21);
    }
    assert(ordered_from(150)) by {
        reveal_with_fuel(ordered_from, 21);
    }
    assert(ordered_from(130)) by {
        reveal_with_fuel(ordered_from, 21);
    }
    assert(ordered_from(110)) by {
        reveal_with_fuel(ordered_from, 21);
    }
    assert(ordered_from(90)) by {
        reveal_with_fuel(ordered_from, 21);
    }
    assert(ordered_from(70)) by {
        reveal_with_fuel(ordered_from, 21);
    }
    assert(ordered_from(50)) by {
        reveal_with_fuel(ordered_from, 21);
    }
    assert(ordered_from(30)) by {
        reveal_with_fuel(ordered_from, 21);
    }
    assert(ordered_from(10)) by {
        reveal_with_fuel(ordered_from, 21);
    }
    assert(ordered_from(0)) by {
        reveal_with_fuel(ordered_from, 11);
    }
}

proof fn lemma_ascii_checked()
    ensures
        ascii_from(0, 0),
{
    assert(ascii_from(160, 113)) by {
        reveal_with_fuel(ascii_from, 21);
    }
    assert(ascii_from(140, 103)) by {
        reveal_with_fuel(ascii_from, 21);
    }
    assert(ascii_from(120, 94)) by {
        reveal_with_fuel(ascii_from, 21);
    }
    assert(ascii_from(100, 80)) by {
        reveal_with_fuel(ascii_from, 21);
    }
    assert(ascii_from(80, 70)) by {
        reveal_with_fuel(ascii_from, 21);
    }
    assert(ascii_from(60, 60)) by {
        reveal_with_fuel(ascii_from, 21);
    }
    assert(ascii_from(40, 40)) by {
        reveal_with_fuel(ascii_from, 21);
    }
    assert(ascii_from(20, 20)) by {
        reveal_with_fuel(ascii_from, 21);
    }
    assert(ascii_from(0, 0)) by {
        reveal_with_fuel(ascii_from, 21);
    }
}

proof fn lemma_ordered_tail(i: int)
    requires
        0 <= i,
        ordered_from(i),
    ensures
        forall|k: int| i <= k < TABLE_LEN ==> ordered_from(k),
    decreases TABLE_LEN - i,
{
    if i < TABLE_LEN {
        lemma_ordered_tail(i + 1);
    }
}

/// The table is strictly sorted by key; its marks lie at or above U+0300;
/// and the base of every two-scalar entry has an entry of its own.
pub proof fn lemma_table_sorted()
    ensures
        forall|i: int, j: int|
            0 <= i < j < TABLE_LEN ==> key_lt(
                #[trigger] entry_key(KNOWN_SEQUENCES@[i]),
                #[trigger] entry_key(KNOWN_SEQUENCES@[j]),
            ),
        forall|i: int|
            0 <= i < TABLE_LEN ==> (#[trigger] KNOWN_SEQUENCES@[i]).1 == '\0'
                || KNOWN_SEQUENCES@[i].1 as int >= 0x300,
{
    lemma_ordered_checked();
    lemma_ordered_tail(0);
    assert forall|i: int, j: int| 0 <= i < j < TABLE_LEN implies key_lt(
        #[trigger] entry_key(KNOWN_SEQUENCES@[i]),
        #[trigger] entry_key(KNOWN_SEQUENCES@[j]),
    ) by {
        lemma_sorted_pair(i, j);
    }
    assert forall|i: int| 0 <= i < TABLE_LEN implies (#[trigger] KNOWN_SEQUENCES@[i]).1 == '\0'
        || KNOWN_SEQUENCES@[i].1 as int >= 0x300 by {
        assert(ordered_from(i));
    }
}

proof fn lemma_sorted_pair(i: int, j: int)
    requires
        0 <= i < j < TABLE_LEN,
        forall|k: int| 0 <= k < TABLE_LEN ==> ordered_from(k),
    ensures
        key_lt(entry_key(KNOWN_SEQUENCES@[i]), entry_key(KNOWN_SEQUENCES@[j])),
    decreases j - i,
{
    assert(ordered_from(i));
    if j > i + 1 {
        lemma_sorted_pair(i + 1, j);
    }
}

/// The base of a two-scalar entry has an entry of its own.
pub proof fn lemma_base_present(i: int)
    requires
        0 <= i < TABLE_LEN,
    ensures
        in_table(seq![KNOWN_SEQUENCES@[i].0]),
    decreases i,
{
    lemma_ordered_checked();
    lemma_ordered_tail(0);
    let e = KNOWN_SEQUENCES@[i];
    if e.1 == '\0' {
        assert(source_of(e) =~= seq![e.0]);
    } else {
        assert(ordered_from(i - 1));
        lemma_base_present(i - 1);
    }
}

/// Some entry maps the scalar value `d` alone to the byte `d`.
spec fn ascii_entry(d: int) -> bool {
    exists|j: int|
        0 <= j < TABLE_LEN && (#[trigger] KNOWN_SEQUENCES@[j]).0 as int == d
            && KNOWN_SEQUENCES@[j].1 == '\0' && KNOWN_SEQUENCES@[j].2 as int == d
}

proof fn lemma_ascii_walk(i: int, c: int)
    requires
        0 <= i,
        0 <= c,
        ascii_from(i, c),
    ensures
        forall|d: int| c <= d < 0x80 ==> #[trigger] ascii_entry(d),
    decreases TABLE_LEN - i,
{
    if c < 0x80 {
        let e = KNOWN_SEQUENCES@[i];
        if e.0 as int == c && e.1 == '\0' && e.2 as int == c {
            lemma_ascii_walk(i + 1, c + 1);
        } else {
            lemma_ascii_walk(i + 1, c);
        }
    }
}

/// Every scalar value below 0x80 maps alone to the byte of the same value.
pub proof fn lemma_ascii_entries(c: char)
    requires
        (c as int) < 0x80,
    ensures
        in_table(seq![c]),
        code_for(seq![c]) as int == c as int,
{
    lemma_ascii_checked();
    lemma_ascii_walk(0, 0);
    lemma_table_sorted();
    let d = c as int;
    assert(ascii_entry(d));
    let j = choose|j: int|
        0 <= j < TABLE_LEN && (#[trigger] KNOWN_SEQUENCES@[j]).0 as int == d
            && KNOWN_SEQUENCES@[j].1 == '\0' && KNOWN_SEQUENCES@[j].2 as int == d;
    assert(KNOWN_SEQUENCES@[j].0 == c);
    assert(source_of(KNOWN_SEQUENCES@[j]) =~= seq![c]);
    lemma_source_unique(j);
}

/// No two entries share a source sequence.
pub proof fn lemma_source_unique(i: int)
    requires
        0 <= i < TABLE_LEN,
    ensures
        forall|j: int|
            0 <= j < TABLE_LEN && source_of(#[trigger] KNOWN_SEQUENCES@[j]) == source_of(
                KNOWN_SEQUENCES@[i],
            ) ==> j == i,
        code_for(source_of(KNOWN_SEQUENCES@[i])) == KNOWN_SEQUENCES@[i].2,
{
    lemma_table_sorted();
    assert forall|j: int|
        0 <= j < TABLE_LEN && source_of(#[trigger] KNOWN_SEQUENCES@[j]) == source_of(
            KNOWN_SEQUENCES@[i],
        ) implies j == i by {
        let a = KNOWN_SEQUENCES@[i];
        let b = KNOWN_SEQUENCES@[j];
        let sa = source_of(a);
        let sb = source_of(b);
        assert(sa[0] == sb[0]);
        assert(sa.len() == sb.len());
        if sa.len() == 2 {
            assert(sa[1] == sb[1]);
        }
        assert(entry_key(a) == entry_key(b));
    }
}

/// Whether key `(a0, a1)` sorts strictly before key `(b0, b1)`.
fn key_less(a0: char, a1: char, b0: char, b1: char) -> (r: bool)
    ensures
        r == key_lt((a0 as int, a1 as int), (b0 as int, b1 as int)),
{
    let (x0, x1, y0, y1) = (a0 as u32, a1 as u32, b0 as u32, b1 as u32);
    x0 < y0 || (x0 == y0 && x1 < y1)
}

/// The index of the last entry whose key is at most `(first, mark)`: the
/// entry just before the place where that key would be inserted into the
/// table, found by binary search. `None` when every entry sorts after it.
pub fn floor_index(first: char, mark: char) -> (r: Option<usize>)
    ensures
        match r {
            Some(i) => {
                &&& i < TABLE_LEN
                &&& !key_lt((first as int, mark as int), entry_key(KNOWN_SEQUENCES@[i as int]))
                &&& forall|j: int|
                    i < j < TABLE_LEN ==> key_lt(
                        (first as int, mark as int),
                        #[trigger] entry_key(KNOWN_SEQUENCES@[j]),
                    )
            },
            None => forall|j: int|
                0 <= j < TABLE_LEN ==> key_lt(
                    (first as int, mark as int),
                    #[trigger] entry_key(KNOWN_SEQUENCES@[j]),
                ),
        },
{
    proof {
        lemma_table_sorted();
    }
    let ghost k = (first as int, mark as int);
    let mut lo: usize = 0;
    let mut hi: usize = TABLE_LEN;
    while lo < hi
        invariant
            0 <= lo <= hi <= TABLE_LEN,
            k == (first as int, mark as int),
            forall|j: int| 0 <= j < lo ==> !key_lt(k, #[trigger] entry_key(KNOWN_SEQUENCES@[j])),
            forall|j: int| hi <= j < TABLE_LEN ==> key_lt(k, #[trigger] entry_key(KNOWN_SEQUENCES@[j])),
            forall|i: int, j: int|
                0 <= i < j < TABLE_LEN ==> key_lt(
                    #[trigger] entry_key(KNOWN_SEQUENCES@[i]),
                    #[trigger] entry_key(KNOWN_SEQUENCES@[j]),
                ),
        decreases hi - lo,
    {
        let mid = lo + (hi - lo) / 2;
        let e = KNOWN_SEQUENCES[mid];
        assert(e == KNOWN_SEQUENCES@[mid as int]);
        if key_less(first, mark, e.0, e.1) {
            assert forall|j: int| mid <= j < TABLE_LEN implies key_lt(
                k,
                #[trigger] entry_key(KNOWN_SEQUENCES@[j]),
            ) by {
                if j > mid {
                    assert(key_lt(entry_key(KNOWN_SEQUENCES@[mid as int]), entry_key(KNOWN_SEQUENCES@[j])));
                }
            }
            hi = mid;
        } else {
            assert forall|j: int| 0 <= j <= mid implies !key_lt(
                k,
                #[trigger] entry_key(KNOWN_SEQUENCES@[j]),
            ) by {
                if j < mid {
                    assert(key_lt(entry_key(KNOWN_SEQUENCES@[j]), entry_key(KNOWN_SEQUENCES@[mid as int])));
                }
            }
            lo = mid + 1;
        }
    }
    if lo == 0 {
        None
    } else {
        Some(lo - 1)
    }
}

/// The number of leading scalar values of `t` that the longest table entry
/// matching a prefix of `t` covers: 2, 1, or 0 when no entry matches.
pub open spec fn match_len(t: Seq<char>) -> int {
    if t.len() >= 2 && in_table(t.take(2)) {
        2
    } else if t.len() >= 1 && in_table(t.take(1)) {
        1
    } else {
        0
    }
}

/// The first one or two scalar values of a text.
pub open spec fn head_of(first: char, next: Option<char>) -> Seq<char> {
    match next {
        Some(c) => seq![first, c],
        None => seq![first],
    }
}

/// What an entry's fields are, given its source sequence.
pub proof fn lemma_key_of_source(j: int, s: Seq<char>)
    requires
        0 <= j < TABLE_LEN,
        source_of(KNOWN_SEQUENCES@[j]) == s,
    ensures
        KNOWN_SEQUENCES@[j].0 == s[0],
        s.len() == 1 ==> KNOWN_SEQUENCES@[j].1 == '\0',
        s.len() == 2 ==> KNOWN_SEQUENCES@[j].1 == s[1] && s[1] != '\0',
        s.len() == 1 || s.len() == 2,
{
    let e = KNOWN_SEQUENCES@[j];
    if e.1 == '\0' {
        assert(s[0] == seq![e.0][0]);
    } else {
        assert(s[0] == seq![e.0, e.1][0]);
        assert(s[1] == seq![e.0, e.1][1]);
    }
}

/// `r` is what `floor_index` returns for key `k`.
pub open spec fn is_floor(r: Option<usize>, k: (int, int)) -> bool {
    match r {
        Some(i) => {
            &&& i < TABLE_LEN
            &&& !key_lt(k, entry_key(KNOWN_SEQUENCES@[i as int]))
            &&& forall|j: int| i < j < TABLE_LEN ==> key_lt(k, #[trigger] entry_key(KNOWN_SEQUENCES@[j]))
        },
        None => forall|j: int| 0 <= j < TABLE_LEN ==> key_lt(k, #[trigger] entry_key(KNOWN_SEQUENCES@[j])),
    }
}

/// An entry whose key equals the searched key is the one the search finds.
proof fn lemma_floor_exact(r: Option<usize>, k: (int, int), j: int)
    requires
        is_floor(r, k),
        0 <= j < TABLE_LEN,
        entry_key(KNOWN_SEQUENCES@[j]) == k,
    ensures
        r == Some(j as usize),
{
    lemma_table_sorted();
    let i = r->0 as int;
    if j < i {
        assert(key_lt(entry_key(KNOWN_SEQUENCES@[j]), entry_key(KNOWN_SEQUENCES@[i])));
    }
}

/// A text that starts with `s` cannot also start with a different entry
/// found at index `i` for `s`'s key, unless the two are the same entry.
proof fn lemma_entry_of(s: Seq<char>, k: (int, int), r: Option<usize>)
    requires
        is_floor(r, k),
        in_table(s),
        k == (s[0] as int, if s.len() >= 2 { s[1] as int } else { 0 }),
    ensures
        r is Some,
        source_of(KNOWN_SEQUENCES@[r->0 as int]) == s,
{
    let j = choose|j: int| 0 <= j < TABLE_LEN && #[trigger] source_of(KNOWN_SEQUENCES@[j]) == s;
    lemma_key_of_source(j, s);
    lemma_floor_exact(r, k, j);
}

/// The longest entry that is a prefix of a text beginning with `first`,
/// followed by `next` where the text goes on: the number of scalar values it
/// covers and its byte code, or `None` when no entry is such a prefix.
///
/// The candidate is the entry just before the text's place in the sorted
/// table. When that candidate is not a prefix, the only shorter entry that
/// could be one is `first` alone, whose place is looked up the same way.
#[verifier::rlimit(60)]
pub fn longest_match(first: char, next: Option<char>) -> (r: Option<(usize, u8)>)
    ensures
        match r {
            Some((n, code)) => {
                &&& n as int == match_len(head_of(first, next))
                &&& n >= 1
                &&& code == code_for(head_of(first, next).take(n as int))
            },
            None => match_len(head_of(first, next)) == 0,
        },
{
    let ghost h = head_of(first, next);
    let (has_next, mark) = match next {
        Some(c) => (true, c),
        None => (false, '\0'),
    };
    let cand = floor_index(first, mark);
    assert(is_floor(cand, (first as int, mark as int)));
    if let Some(i) = cand {
        let e = KNOWN_SEQUENCES[i];
        assert(e == KNOWN_SEQUENCES@[i as int]);
        if e.0 == first && (e.1 == '\0' || (has_next && e.1 == mark)) {
            proof {
                lemma_source_unique(i as int);
                if e.1 == '\0' {
                    assert(source_of(e) =~= h.take(1));
                    if h.len() >= 2 && in_table(h.take(2)) {
                        lemma_entry_of(h.take(2), (first as int, mark as int), cand);
                        lemma_key_of_source(i as int, h.take(2));
                    }
                } else {
                    assert(source_of(e) =~= h.take(2));
                }
            }
            let n: usize = if e.1 == '\0' {
                1
            } else {
                2
            };
            return Some((n, e.2));
        }
    }
    proof {
        if h.len() >= 2 && in_table(h.take(2)) {
            lemma_entry_of(h.take(2), (first as int, mark as int), cand);
            lemma_key_of_source(cand->0 as int, h.take(2));
        }
    }
    let base = floor_index(first, '\0');
    assert(is_floor(base, (first as int, 0)));
    if let Some(i) = base {
        let e = KNOWN_SEQUENCES[i];
        assert(e == KNOWN_SEQUENCES@[i as int]);
        if e.0 == first && e.1 == '\0' {
            proof {
                lemma_source_unique(i as int);
                assert(source_of(e) =~= h.take(1));
            }
            return Some((1, e.2));
        }
    }
    proof {
        if in_table(h.take(1)) {
            lemma_entry_of(h.take(1), (first as int, 0), base);
            lemma_key_of_source(base->0 as int, h.take(1));
        }
    }
    None
}

} // verus!
