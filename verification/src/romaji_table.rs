//! The romaji spellings and the kana that they stand for.

use vstd::prelude::*;

verus! {

/// The number of spellings in the table.
pub const ROMAJI_TABLE_LENGTH: usize = 287;

/// Every spelling with its kana. The rules for `n` and for doubled consonants stand beside the
/// table. The arrow shortcuts are entries, so that an arrow stays editable in the same
/// composition as kana.
pub const ROMAJI_TABLE: [(&'static str, &'static str); ROMAJI_TABLE_LENGTH] = [
    ("a", "あ"),
    ("i", "い"),
    ("u", "う"),
    ("e", "え"),
    ("o", "お"),
    ("ka", "か"),
    ("ki", "き"),
    ("ku", "く"),
    ("ke", "け"),
    ("ko", "こ"),
    ("kya", "きゃ"),
    ("kyi", "きぃ"),
    ("kyu", "きゅ"),
    ("kye", "きぇ"),
    ("kyo", "きょ"),
    ("ga", "が"),
    ("gi", "ぎ"),
    ("gu", "ぐ"),
    ("ge", "げ"),
    ("go", "ご"),
    ("gya", "ぎゃ"),
    ("gyi", "ぎぃ"),
    ("gyu", "ぎゅ"),
    ("gye", "ぎぇ"),
    ("gyo", "ぎょ"),
    ("sa", "さ"),
    ("si", "し"),
    ("shi", "し"),
    ("su", "す"),
    ("se", "せ"),
    ("so", "そ"),
    ("sya", "しゃ"),
    ("syi", "しぃ"),
    ("syu", "しゅ"),
    ("sye", "しぇ"),
    ("syo", "しょ"),
    ("sha", "しゃ"),
    ("shu", "しゅ"),
    ("she", "しぇ"),
    ("sho", "しょ"),
    ("za", "ざ"),
    ("zi", "じ"),
    ("ji", "じ"),
    ("zu", "ず"),
    ("ze", "ぜ"),
    ("zo", "ぞ"),
    ("zya", "じゃ"),
    ("zyi", "じぃ"),
    ("zyu", "じゅ"),
    ("zye", "じぇ"),
    ("zyo", "じょ"),
    ("zh", "←"),
    ("zj", "↓"),
    ("zk", "↑"),
    ("zl", "→"),
    ("zm", "→"),
    ("ja", "じゃ"),
    ("jya", "じゃ"),
    ("jyi", "じぃ"),
    ("ju", "じゅ"),
    ("jyu", "じゅ"),
    ("je", "じぇ"),
    ("jye", "じぇ"),
    ("jo", "じょ"),
    ("jyo", "じょ"),
    ("ta", "た"),
    ("ti", "ち"),
    ("chi", "ち"),
    ("tu", "つ"),
    ("tsu", "つ"),
    ("te", "て"),
    ("to", "と"),
    ("tya", "ちゃ"),
    ("tyi", "ちぃ"),
    ("tyu", "ちゅ"),
    ("tye", "ちぇ"),
    ("tyo", "ちょ"),
    ("cha", "ちゃ"),
    ("chu", "ちゅ"),
    ("che", "ちぇ"),
    ("cho", "ちょ"),
    ("cya", "ちゃ"),
    ("cyi", "ちぃ"),
    ("cyu", "ちゅ"),
    ("cye", "ちぇ"),
    ("cyo", "ちょ"),
    ("tsa", "つぁ"),
    ("tsi", "つぃ"),
    ("tse", "つぇ"),
    ("tso", "つぉ"),
    ("tha", "てゃ"),
    ("thi", "てぃ"),
    ("t'i", "てぃ"),
    ("thu", "てゅ"),
    ("the", "てぇ"),
    ("tho", "てょ"),
    ("t'yu", "てゅ"),
    ("twa", "とぁ"),
    ("twi", "とぃ"),
    ("twu", "とぅ"),
    ("twe", "とぇ"),
    ("two", "とぉ"),
    ("t'u", "とぅ"),
    ("da", "だ"),
    ("di", "ぢ"),
    ("du", "づ"),
    ("de", "で"),
    ("do", "ど"),
    ("dya", "ぢゃ"),
    ("dyi", "ぢぃ"),
    ("dyu", "ぢゅ"),
    ("dye", "ぢぇ"),
    ("dyo", "ぢょ"),
    ("dha", "でゃ"),
    ("dhi", "でぃ"),
    ("d'i", "でぃ"),
    ("dhu", "でゅ"),
    ("dhe", "でぇ"),
    ("dho", "でょ"),
    ("d'yu", "でゅ"),
    ("dwa", "どぁ"),
    ("dwi", "どぃ"),
    ("dwu", "どぅ"),
    ("dwe", "どぇ"),
    ("dwo", "どぉ"),
    ("d'u", "どぅ"),
    ("na", "な"),
    ("ni", "に"),
    ("nu", "ぬ"),
    ("ne", "ね"),
    ("no", "の"),
    ("nya", "にゃ"),
    ("nyi", "にぃ"),
    ("nyu", "にゅ"),
    ("nye", "にぇ"),
    ("nyo", "にょ"),
    ("n", "ん"),
    ("xn", "ん"),
    ("ha", "は"),
    ("hi", "ひ"),
    ("hu", "ふ"),
    ("fu", "ふ"),
    ("he", "へ"),
    ("ho", "ほ"),
    ("hya", "ひゃ"),
    ("hyi", "ひぃ"),
    ("hyu", "ひゅ"),
    ("hye", "ひぇ"),
    ("hyo", "ひょ"),
    ("fa", "ふぁ"),
    ("fi", "ふぃ"),
    ("fe", "ふぇ"),
    ("fo", "ふぉ"),
    ("fya", "ふゃ"),
    ("fyu", "ふゅ"),
    ("fyo", "ふょ"),
    ("hwa", "ふぁ"),
    ("hwi", "ふぃ"),
    ("hwe", "ふぇ"),
    ("hwo", "ふぉ"),
    ("hwyu", "ふゅ"),
    ("ba", "ば"),
    ("bi", "び"),
    ("bu", "ぶ"),
    ("be", "べ"),
    ("bo", "ぼ"),
    ("bya", "びゃ"),
    ("byi", "びぃ"),
    ("byu", "びゅ"),
    ("bye", "びぇ"),
    ("byo", "びょ"),
    ("pa", "ぱ"),
    ("pi", "ぴ"),
    ("pu", "ぷ"),
    ("pe", "ぺ"),
    ("po", "ぽ"),
    ("pya", "ぴゃ"),
    ("pyi", "ぴぃ"),
    ("pyu", "ぴゅ"),
    ("pye", "ぴぇ"),
    ("pyo", "ぴょ"),
    ("ma", "ま"),
    ("mi", "み"),
    ("mu", "む"),
    ("me", "め"),
    ("mo", "も"),
    ("mya", "みゃ"),
    ("myi", "みぃ"),
    ("myu", "みゅ"),
    ("mye", "みぇ"),
    ("myo", "みょ"),
    ("ya", "や"),
    ("yu", "ゆ"),
    ("yo", "よ"),
    ("ra", "ら"),
    ("ri", "り"),
    ("ru", "る"),
    ("re", "れ"),
    ("ro", "ろ"),
    ("rya", "りゃ"),
    ("ryi", "りぃ"),
    ("ryu", "りゅ"),
    ("rye", "りぇ"),
    ("ryo", "りょ"),
    ("wa", "わ"),
    ("wi", "うぃ"),
    ("we", "うぇ"),
    ("wo", "を"),
    ("wha", "うぁ"),
    ("whi", "うぃ"),
    ("whu", "う"),
    ("whe", "うぇ"),
    ("who", "うぉ"),
    ("wyi", "ゐ"),
    ("wye", "ゑ"),
    ("wu", "う"),
    ("va", "ゔぁ"),
    ("vi", "ゔぃ"),
    ("vu", "ゔ"),
    ("ve", "ゔぇ"),
    ("vo", "ゔぉ"),
    ("vya", "ゔゃ"),
    ("vyi", "ゔぃ"),
    ("vyu", "ゔゅ"),
    ("vye", "ゔぇ"),
    ("vyo", "ゔょ"),
    ("xya", "ゃ"),
    ("xyu", "ゅ"),
    ("xyo", "ょ"),
    ("xyi", "ぃ"),
    ("xye", "ぇ"),
    ("xwa", "ゎ"),
    ("lya", "ゃ"),
    ("lyu", "ゅ"),
    ("lyo", "ょ"),
    ("lyi", "ぃ"),
    ("lye", "ぇ"),
    ("lwa", "ゎ"),
    ("xtu", "っ"),
    ("xtsu", "っ"),
    ("ltu", "っ"),
    ("ltsu", "っ"),
    ("xa", "ぁ"),
    ("xi", "ぃ"),
    ("xu", "ぅ"),
    ("xe", "ぇ"),
    ("xo", "ぉ"),
    ("la", "ぁ"),
    ("li", "ぃ"),
    ("lu", "ぅ"),
    ("le", "ぇ"),
    ("lo", "ぉ"),
    ("xka", "ヵ"),
    ("xke", "ヶ"),
    ("lka", "ヵ"),
    ("lke", "ヶ"),
    ("ye", "いぇ"),
    ("ca", "か"),
    ("ci", "し"),
    ("cu", "く"),
    ("ce", "せ"),
    ("co", "こ"),
    ("qa", "くぁ"),
    ("qi", "くぃ"),
    ("qu", "く"),
    ("qe", "くぇ"),
    ("qo", "くぉ"),
    ("kwa", "くぁ"),
    ("kwi", "くぃ"),
    ("kwu", "くぅ"),
    ("kwe", "くぇ"),
    ("kwo", "くぉ"),
    ("gwa", "ぐぁ"),
    ("gwi", "ぐぃ"),
    ("gwu", "ぐぅ"),
    ("gwe", "ぐぇ"),
    ("gwo", "ぐぉ"),
    ("swa", "すぁ"),
    ("swi", "すぃ"),
    ("swu", "すぅ"),
    ("swe", "すぇ"),
    ("swo", "すぉ"),
    ("zwa", "ずぁ"),
    ("zwi", "ずぃ"),
    ("zwu", "ずぅ"),
    ("zwe", "ずぇ"),
    ("zwo", "ずぉ"),
];

/// Whether the key is a vowel.
pub open spec fn vowel(character: char) -> bool {
    character == 'a' || character == 'i' || character == 'u' || character == 'e' || character
        == 'o'
}

/// Whether the key is one that spellings are made of: a small letter or an apostrophe.
pub open spec fn is_spelling_key(character: char) -> bool {
    'a' <= character <= 'z' || character == '\''
}

/// What the rules for `n`, `tch` and doubled consonants leave to the table: whether none of
/// them applies to the start of `romaji`.
pub open spec fn is_plain_spelling(romaji: Seq<char>) -> bool {
    &&& romaji.len() > 0
    &&& romaji.len() >= 2 ==> romaji[0] != romaji[1]
    &&& romaji.len() >= 2 && romaji[0] == 't' ==> romaji[1] != 'c'
    &&& romaji.len() >= 2 && romaji[0] == 'n' ==> vowel(romaji[1]) || romaji[1] == 'y'
}

/// Whether two consonants are a spelling of their own: an arrow, or ん.
pub open spec fn is_consonant_pair(first: char, second: char) -> bool {
    ||| first == 'z' && (second == 'h' || second == 'j' || second == 'k' || second == 'l' || second
        == 'm')
    ||| first == 'x' && second == 'n'
}

/// Whether a spelling is built as all of them are: some consonants and a vowel behind them,
/// or one of the few that are made of consonants alone and that no longer one starts with.
pub open spec fn is_built_of_consonants_and_a_vowel(romaji: Seq<char>) -> bool {
    &&& 0 < romaji.len() <= 4
    &&& forall|k: int| 0 <= k < romaji.len() ==> is_spelling_key(#[trigger] romaji[k])
    &&& forall|k: int| 0 <= k < romaji.len() - 1 ==> !vowel(#[trigger] romaji[k])
    &&& vowel(romaji.last()) || romaji == seq!['n'] || (romaji.len() == 2 && is_consonant_pair(
        romaji[0],
        romaji[1],
    ))
    &&& romaji.len() > 2 ==> !is_consonant_pair(romaji[0], romaji[1])
}

/// One of five places, according to the vowel.
spec fn by_vowel(key: char, a: int, i: int, u: int, e: int, o: int) -> int {
    if key == 'a' {
        a
    } else if key == 'i' {
        i
    } else if key == 'u' {
        u
    } else if key == 'e' {
        e
    } else if key == 'o' {
        o
    } else {
        -1
    }
}

/// The key at `index`; a space behind the last one.
spec fn key_or_space(romaji: Seq<char>, index: int) -> char {
    if 0 <= index < romaji.len() {
        romaji[index]
    } else {
        ' '
    }
}

spec fn place_behind_k(second: char, third: char, fourth: char) -> int {
    if second == 'y' {
        by_vowel(third, 10, 11, 12, 13, 14)
    } else if second == 'w' {
        by_vowel(third, 267, 268, 269, 270, 271)
    } else {
        by_vowel(second, 5, 6, 7, 8, 9)
    }
}

spec fn place_behind_g(second: char, third: char, fourth: char) -> int {
    if second == 'y' {
        by_vowel(third, 20, 21, 22, 23, 24)
    } else if second == 'w' {
        by_vowel(third, 272, 273, 274, 275, 276)
    } else {
        by_vowel(second, 15, 16, 17, 18, 19)
    }
}

spec fn place_behind_s(second: char, third: char, fourth: char) -> int {
    if second == 'h' {
        by_vowel(third, 36, 27, 37, 38, 39)
    } else if second == 'y' {
        by_vowel(third, 31, 32, 33, 34, 35)
    } else if second == 'w' {
        by_vowel(third, 277, 278, 279, 280, 281)
    } else {
        by_vowel(second, 25, 26, 28, 29, 30)
    }
}

spec fn place_behind_z(second: char, third: char, fourth: char) -> int {
    if second == 'h' {
        51
    } else if second == 'j' {
        52
    } else if second == 'k' {
        53
    } else if second == 'l' {
        54
    } else if second == 'm' {
        55
    } else if second == 'y' {
        by_vowel(third, 46, 47, 48, 49, 50)
    } else if second == 'w' {
        by_vowel(third, 282, 283, 284, 285, 286)
    } else {
        by_vowel(second, 40, 41, 43, 44, 45)
    }
}

spec fn place_behind_j(second: char, third: char, fourth: char) -> int {
    if second == 'y' {
        by_vowel(third, 57, 58, 60, 62, 64)
    } else {
        by_vowel(second, 56, 42, 59, 61, 63)
    }
}

spec fn place_behind_t(second: char, third: char, fourth: char) -> int {
    if second == 's' {
        by_vowel(third, 86, 87, 69, 88, 89)
    } else if second == 'y' {
        by_vowel(third, 72, 73, 74, 75, 76)
    } else if second == 'h' {
        by_vowel(third, 90, 91, 93, 94, 95)
    } else if second == '\'' {
        if third == 'y' {
            by_vowel(fourth, -1, -1, 96, -1, -1)
        } else {
            by_vowel(third, -1, 92, 102, -1, -1)
        }
    } else if second == 'w' {
        by_vowel(third, 97, 98, 99, 100, 101)
    } else {
        by_vowel(second, 65, 66, 68, 70, 71)
    }
}

spec fn place_behind_c(second: char, third: char, fourth: char) -> int {
    if second == 'h' {
        by_vowel(third, 77, 67, 78, 79, 80)
    } else if second == 'y' {
        by_vowel(third, 81, 82, 83, 84, 85)
    } else {
        by_vowel(second, 257, 258, 259, 260, 261)
    }
}

spec fn place_behind_d(second: char, third: char, fourth: char) -> int {
    if second == 'y' {
        by_vowel(third, 108, 109, 110, 111, 112)
    } else if second == 'h' {
        by_vowel(third, 113, 114, 116, 117, 118)
    } else if second == '\'' {
        if third == 'y' {
            by_vowel(fourth, -1, -1, 119, -1, -1)
        } else {
            by_vowel(third, -1, 115, 125, -1, -1)
        }
    } else if second == 'w' {
        by_vowel(third, 120, 121, 122, 123, 124)
    } else {
        by_vowel(second, 103, 104, 105, 106, 107)
    }
}

spec fn place_behind_n(second: char, third: char, fourth: char) -> int {
    if second == ' ' {
        136
    } else if second == 'y' {
        by_vowel(third, 131, 132, 133, 134, 135)
    } else {
        by_vowel(second, 126, 127, 128, 129, 130)
    }
}

spec fn place_behind_h(second: char, third: char, fourth: char) -> int {
    if second == 'y' {
        by_vowel(third, 144, 145, 146, 147, 148)
    } else if second == 'w' {
        if third == 'y' {
            by_vowel(fourth, -1, -1, 160, -1, -1)
        } else {
            by_vowel(third, 156, 157, -1, 158, 159)
        }
    } else {
        by_vowel(second, 138, 139, 140, 142, 143)
    }
}

spec fn place_behind_f(second: char, third: char, fourth: char) -> int {
    if second == 'y' {
        by_vowel(third, 153, -1, 154, -1, 155)
    } else {
        by_vowel(second, 149, 150, 141, 151, 152)
    }
}

spec fn place_behind_b(second: char, third: char, fourth: char) -> int {
    if second == 'y' {
        by_vowel(third, 166, 167, 168, 169, 170)
    } else {
        by_vowel(second, 161, 162, 163, 164, 165)
    }
}

spec fn place_behind_p(second: char, third: char, fourth: char) -> int {
    if second == 'y' {
        by_vowel(third, 176, 177, 178, 179, 180)
    } else {
        by_vowel(second, 171, 172, 173, 174, 175)
    }
}

spec fn place_behind_m(second: char, third: char, fourth: char) -> int {
    if second == 'y' {
        by_vowel(third, 186, 187, 188, 189, 190)
    } else {
        by_vowel(second, 181, 182, 183, 184, 185)
    }
}

spec fn place_behind_y(second: char, third: char, fourth: char) -> int {
    by_vowel(second, 191, -1, 192, 256, 193)
}

spec fn place_behind_r(second: char, third: char, fourth: char) -> int {
    if second == 'y' {
        by_vowel(third, 199, 200, 201, 202, 203)
    } else {
        by_vowel(second, 194, 195, 196, 197, 198)
    }
}

spec fn place_behind_w(second: char, third: char, fourth: char) -> int {
    if second == 'h' {
        by_vowel(third, 208, 209, 210, 211, 212)
    } else if second == 'y' {
        by_vowel(third, -1, 213, -1, 214, -1)
    } else {
        by_vowel(second, 204, 205, 215, 206, 207)
    }
}

spec fn place_behind_v(second: char, third: char, fourth: char) -> int {
    if second == 'y' {
        by_vowel(third, 221, 222, 223, 224, 225)
    } else {
        by_vowel(second, 216, 217, 218, 219, 220)
    }
}

spec fn place_behind_x(second: char, third: char, fourth: char) -> int {
    if second == 'n' {
        137
    } else if second == 'y' {
        by_vowel(third, 226, 229, 227, 230, 228)
    } else if second == 'w' {
        by_vowel(third, 231, -1, -1, -1, -1)
    } else if second == 't' {
        if third == 's' {
            by_vowel(fourth, -1, -1, 239, -1, -1)
        } else {
            by_vowel(third, -1, -1, 238, -1, -1)
        }
    } else if second == 'k' {
        by_vowel(third, 252, -1, -1, 253, -1)
    } else {
        by_vowel(second, 242, 243, 244, 245, 246)
    }
}

spec fn place_behind_l(second: char, third: char, fourth: char) -> int {
    if second == 'y' {
        by_vowel(third, 232, 235, 233, 236, 234)
    } else if second == 'w' {
        by_vowel(third, 237, -1, -1, -1, -1)
    } else if second == 't' {
        if third == 's' {
            by_vowel(fourth, -1, -1, 241, -1, -1)
        } else {
            by_vowel(third, -1, -1, 240, -1, -1)
        }
    } else if second == 'k' {
        by_vowel(third, 254, -1, -1, 255, -1)
    } else {
        by_vowel(second, 247, 248, 249, 250, 251)
    }
}

spec fn place_behind_q(second: char, third: char, fourth: char) -> int {
    by_vowel(second, 262, 263, 264, 265, 266)
}

/// The place in the table of a spelling with these keys.
spec fn place_of_keys(first: char, second: char, third: char, fourth: char) -> int {
    if first == 'k' {
        place_behind_k(second, third, fourth)
    } else if first == 'g' {
        place_behind_g(second, third, fourth)
    } else if first == 's' {
        place_behind_s(second, third, fourth)
    } else if first == 'z' {
        place_behind_z(second, third, fourth)
    } else if first == 'j' {
        place_behind_j(second, third, fourth)
    } else if first == 't' {
        place_behind_t(second, third, fourth)
    } else if first == 'c' {
        place_behind_c(second, third, fourth)
    } else if first == 'd' {
        place_behind_d(second, third, fourth)
    } else if first == 'n' {
        place_behind_n(second, third, fourth)
    } else if first == 'h' {
        place_behind_h(second, third, fourth)
    } else if first == 'f' {
        place_behind_f(second, third, fourth)
    } else if first == 'b' {
        place_behind_b(second, third, fourth)
    } else if first == 'p' {
        place_behind_p(second, third, fourth)
    } else if first == 'm' {
        place_behind_m(second, third, fourth)
    } else if first == 'y' {
        place_behind_y(second, third, fourth)
    } else if first == 'r' {
        place_behind_r(second, third, fourth)
    } else if first == 'w' {
        place_behind_w(second, third, fourth)
    } else if first == 'v' {
        place_behind_v(second, third, fourth)
    } else if first == 'x' {
        place_behind_x(second, third, fourth)
    } else if first == 'l' {
        place_behind_l(second, third, fourth)
    } else if first == 'q' {
        place_behind_q(second, third, fourth)
    } else {
        by_vowel(first, 0, 1, 2, 3, 4)
    }
}

/// The place of a spelling in the table, found key by key.
pub closed spec fn place_of(romaji: Seq<char>) -> int {
    place_of_keys(
        key_or_space(romaji, 0),
        key_or_space(romaji, 1),
        key_or_space(romaji, 2),
        key_or_space(romaji, 3),
    )
}

/// The place of a vowel in its order: a, i, u, e, o.
pub open spec fn vowel_place(key: char) -> int {
    if key == 'a' {
        0
    } else if key == 'i' {
        1
    } else if key == 'u' {
        2
    } else if key == 'e' {
        3
    } else {
        4
    }
}

/// The code of a small vowel.
pub open spec fn small_vowel(key: char) -> int {
    0x3041 + 2 * vowel_place(key)
}

/// The code of the small kana of a spelling with `y`: there is one for a, u and o, and the others
/// have a small vowel.
pub open spec fn small_glide(key: char) -> int {
    if key == 'a' {
        0x3083
    } else if key == 'u' {
        0x3085
    } else if key == 'o' {
        0x3087
    } else {
        small_vowel(key)
    }
}

/// Whether the consonant has a row of five kana.
pub open spec fn has_row(key: char) -> bool {
    key == 'k' || key == 'g' || key == 's' || key == 'z' || key == 't' || key == 'd' || key == 'n'
        || key == 'h' || key == 'b' || key == 'p' || key == 'm' || key == 'r'
}

/// The code of the kana of a consonant with a vowel. Rows with voiced kana stand two codes apart,
/// the one with the small tsu has one more in between, and that of `h` has three kana in each place.
pub open spec fn row_code(key: char, vowel: char) -> int {
    let place = vowel_place(vowel);
    let behind_tsu: int = if place >= 2 {
        1
    } else {
        0
    };
    if key == 'k' {
        0x304b + 2 * place
    } else if key == 'g' {
        0x304c + 2 * place
    } else if key == 's' {
        0x3055 + 2 * place
    } else if key == 'z' {
        0x3056 + 2 * place
    } else if key == 't' {
        0x305f + 2 * place + behind_tsu
    } else if key == 'd' {
        0x3060 + 2 * place + behind_tsu
    } else if key == 'n' {
        0x306a + place
    } else if key == 'h' {
        0x306f + 3 * place
    } else if key == 'b' {
        0x3070 + 3 * place
    } else if key == 'p' {
        0x3071 + 3 * place
    } else if key == 'm' {
        0x307e + place
    } else {
        0x3089 + place
    }
}

/// The codes of the kana of spellings that make a kana small.
spec fn small_sound(second: char, third: char) -> (int, int) {
    if vowel(second) {
        (small_vowel(second), 0)
    } else if second == 'y' {
        (small_glide(third), 0)
    } else if second == 'w' {
        (0x308e, 0)
    } else if second == 't' {
        (0x3063, 0)
    } else if second == 'k' && third == 'a' {
        (0x30f5, 0)
    } else if second == 'k' {
        (0x30f6, 0)
    } else {
        (0x3093, 0)
    }
}

/// The codes of the kana of spellings of a consonant without a row.
spec fn lone_sound(first: char, second: char, third: char) -> (int, int) {
    if first == 'c' {
        if second == 'i' || second == 'e' {
            (row_code('s', second), 0)
        } else if vowel(second) {
            (row_code('k', second), 0)
        } else if second == 'h' && third == 'i' {
            (0x3061, 0)
        } else {
            (0x3061, small_glide(third))
        }
    } else if first == 'j' {
        if second == 'i' {
            (0x3058, 0)
        } else if vowel(second) {
            (0x3058, small_glide(second))
        } else {
            (0x3058, small_glide(third))
        }
    } else if first == 'y' {
        if second == 'e' {
            (0x3044, 0x3047)
        } else {
            (0x3084 + vowel_place(second), 0)
        }
    } else if first == 'w' {
        if second == 'a' {
            (0x308f, 0)
        } else if second == 'o' {
            (0x3092, 0)
        } else if second == 'u' || (second == 'h' && third == 'u') {
            (0x3046, 0)
        } else if second == 'h' {
            (0x3046, small_vowel(third))
        } else if second == 'y' {
            (if third == 'i' {
                0x3090
            } else {
                0x3091
            }, 0)
        } else {
            (0x3046, small_vowel(second))
        }
    } else {
        let head: int = if first == 'f' {
            0x3075
        } else if first == 'v' {
            0x3094
        } else {
            0x304f
        };
        if second == 'u' {
            (head, 0)
        } else if second == 'y' {
            (head, small_glide(third))
        } else {
            (head, small_vowel(second))
        }
    }
}

/// The codes of the kana of spellings with another consonant behind the first one.
spec fn joined_sound(first: char, second: char, third: char) -> (int, int) {
    if second == 'y' {
        (row_code(first, 'i'), small_glide(third))
    } else if first == 'h' && third == 'y' {
        (0x3075, 0x3085)
    } else if second == 'w' {
        (row_code(
            first,
            if first == 't' || first == 'd' {
                'o'
            } else {
                'u'
            },
        ), small_vowel(third))
    } else if first == 's' && third == 'i' {
        (0x3057, 0)
    } else if first == 's' {
        (0x3057, small_glide(third))
    } else if second == 's' && third == 'u' {
        (0x3064, 0)
    } else if second == 's' {
        (0x3064, small_vowel(third))
    } else if second == 'h' {
        (row_code(first, 'e'), small_glide(third))
    } else if third == 'u' {
        (row_code(first, 'o'), 0x3045)
    } else if third == 'i' {
        (row_code(first, 'e'), 0x3043)
    } else {
        (row_code(first, 'e'), 0x3085)
    }
}

/// The codes of the kana of a spelling, zero standing for none.
spec fn sound_of_keys(first: char, second: char, third: char) -> (int, int) {
    if vowel(first) {
        (0x3042 + 2 * vowel_place(first), 0)
    } else if first == 'x' || first == 'l' {
        small_sound(second, third)
    } else if first == 'n' && second == ' ' {
        (0x3093, 0)
    } else if first == 'z' && third == ' ' && second == 'h' {
        (0x2190, 0)
    } else if first == 'z' && third == ' ' && second == 'k' {
        (0x2191, 0)
    } else if first == 'z' && third == ' ' && (second == 'l' || second == 'm') {
        (0x2192, 0)
    } else if first == 'z' && third == ' ' && second == 'j' {
        (0x2193, 0)
    } else if !has_row(first) {
        lone_sound(first, second, third)
    } else if vowel(second) {
        (row_code(first, second), 0)
    } else {
        joined_sound(first, second, third)
    }
}

/// Whether the kana is what the keys of a spelling sound like.
spec fn sounds_like(romaji: Seq<char>, kana: Seq<char>) -> bool {
    let (head, tail) = sound_of_keys(
        key_or_space(romaji, 0),
        key_or_space(romaji, 1),
        key_or_space(romaji, 2),
    );
    if tail == 0 {
        kana.len() == 1 && kana[0] as u32 == head
    } else {
        kana.len() == 2 && kana[0] as u32 == head && kana[1] as u32 == tail
    }
}

/// Whether the entry at `place` is sound: the table alone decides its spelling, which is built
/// as all of them are and stands at that place only, and it stands for what its keys sound like.
#[verifier::opaque]
spec fn is_sound(place: int, romaji: Seq<char>, kana: Seq<char>) -> bool {
    is_plain_spelling(romaji) && is_built_of_consonants_and_a_vowel(romaji) && place_of(romaji)
        == place && kana.len() > 0 && sounds_like(romaji, kana)
}

proof fn entries_from_0_are_sound(place: int)
    requires
        0 <= place < 12,
    ensures
        is_sound(place, ROMAJI_TABLE@[place].0@, ROMAJI_TABLE@[place].1@),
{
    assert(is_sound(0, "a"@, "あ"@)) by {
        reveal(is_sound);
        reveal_strlit("a");
        reveal_strlit("あ");
    }
    assert(is_sound(1, "i"@, "い"@)) by {
        reveal(is_sound);
        reveal_strlit("i");
        reveal_strlit("い");
    }
    assert(is_sound(2, "u"@, "う"@)) by {
        reveal(is_sound);
        reveal_strlit("u");
        reveal_strlit("う");
    }
    assert(is_sound(3, "e"@, "え"@)) by {
        reveal(is_sound);
        reveal_strlit("e");
        reveal_strlit("え");
    }
    assert(is_sound(4, "o"@, "お"@)) by {
        reveal(is_sound);
        reveal_strlit("o");
        reveal_strlit("お");
    }
    assert(is_sound(5, "ka"@, "か"@)) by {
        reveal(is_sound);
        reveal_strlit("ka");
        reveal_strlit("か");
    }
    assert(is_sound(6, "ki"@, "き"@)) by {
        reveal(is_sound);
        reveal_strlit("ki");
        reveal_strlit("き");
    }
    assert(is_sound(7, "ku"@, "く"@)) by {
        reveal(is_sound);
        reveal_strlit("ku");
        reveal_strlit("く");
    }
    assert(is_sound(8, "ke"@, "け"@)) by {
        reveal(is_sound);
        reveal_strlit("ke");
        reveal_strlit("け");
    }
    assert(is_sound(9, "ko"@, "こ"@)) by {
        reveal(is_sound);
        reveal_strlit("ko");
        reveal_strlit("こ");
    }
    assert(is_sound(10, "kya"@, "きゃ"@)) by {
        reveal(is_sound);
        reveal_strlit("kya");
        reveal_strlit("きゃ");
    }
    assert(is_sound(11, "kyi"@, "きぃ"@)) by {
        reveal(is_sound);
        reveal_strlit("kyi");
        reveal_strlit("きぃ");
    }
}

proof fn entries_from_12_are_sound(place: int)
    requires
        12 <= place < 24,
    ensures
        is_sound(place, ROMAJI_TABLE@[place].0@, ROMAJI_TABLE@[place].1@),
{
    assert(is_sound(12, "kyu"@, "きゅ"@)) by {
        reveal(is_sound);
        reveal_strlit("kyu");
        reveal_strlit("きゅ");
    }
    assert(is_sound(13, "kye"@, "きぇ"@)) by {
        reveal(is_sound);
        reveal_strlit("kye");
        reveal_strlit("きぇ");
    }
    assert(is_sound(14, "kyo"@, "きょ"@)) by {
        reveal(is_sound);
        reveal_strlit("kyo");
        reveal_strlit("きょ");
    }
    assert(is_sound(15, "ga"@, "が"@)) by {
        reveal(is_sound);
        reveal_strlit("ga");
        reveal_strlit("が");
    }
    assert(is_sound(16, "gi"@, "ぎ"@)) by {
        reveal(is_sound);
        reveal_strlit("gi");
        reveal_strlit("ぎ");
    }
    assert(is_sound(17, "gu"@, "ぐ"@)) by {
        reveal(is_sound);
        reveal_strlit("gu");
        reveal_strlit("ぐ");
    }
    assert(is_sound(18, "ge"@, "げ"@)) by {
        reveal(is_sound);
        reveal_strlit("ge");
        reveal_strlit("げ");
    }
    assert(is_sound(19, "go"@, "ご"@)) by {
        reveal(is_sound);
        reveal_strlit("go");
        reveal_strlit("ご");
    }
    assert(is_sound(20, "gya"@, "ぎゃ"@)) by {
        reveal(is_sound);
        reveal_strlit("gya");
        reveal_strlit("ぎゃ");
    }
    assert(is_sound(21, "gyi"@, "ぎぃ"@)) by {
        reveal(is_sound);
        reveal_strlit("gyi");
        reveal_strlit("ぎぃ");
    }
    assert(is_sound(22, "gyu"@, "ぎゅ"@)) by {
        reveal(is_sound);
        reveal_strlit("gyu");
        reveal_strlit("ぎゅ");
    }
    assert(is_sound(23, "gye"@, "ぎぇ"@)) by {
        reveal(is_sound);
        reveal_strlit("gye");
        reveal_strlit("ぎぇ");
    }
}

proof fn entries_from_24_are_sound(place: int)
    requires
        24 <= place < 36,
    ensures
        is_sound(place, ROMAJI_TABLE@[place].0@, ROMAJI_TABLE@[place].1@),
{
    assert(is_sound(24, "gyo"@, "ぎょ"@)) by {
        reveal(is_sound);
        reveal_strlit("gyo");
        reveal_strlit("ぎょ");
    }
    assert(is_sound(25, "sa"@, "さ"@)) by {
        reveal(is_sound);
        reveal_strlit("sa");
        reveal_strlit("さ");
    }
    assert(is_sound(26, "si"@, "し"@)) by {
        reveal(is_sound);
        reveal_strlit("si");
        reveal_strlit("し");
    }
    assert(is_sound(27, "shi"@, "し"@)) by {
        reveal(is_sound);
        reveal_strlit("shi");
        reveal_strlit("し");
    }
    assert(is_sound(28, "su"@, "す"@)) by {
        reveal(is_sound);
        reveal_strlit("su");
        reveal_strlit("す");
    }
    assert(is_sound(29, "se"@, "せ"@)) by {
        reveal(is_sound);
        reveal_strlit("se");
        reveal_strlit("せ");
    }
    assert(is_sound(30, "so"@, "そ"@)) by {
        reveal(is_sound);
        reveal_strlit("so");
        reveal_strlit("そ");
    }
    assert(is_sound(31, "sya"@, "しゃ"@)) by {
        reveal(is_sound);
        reveal_strlit("sya");
        reveal_strlit("しゃ");
    }
    assert(is_sound(32, "syi"@, "しぃ"@)) by {
        reveal(is_sound);
        reveal_strlit("syi");
        reveal_strlit("しぃ");
    }
    assert(is_sound(33, "syu"@, "しゅ"@)) by {
        reveal(is_sound);
        reveal_strlit("syu");
        reveal_strlit("しゅ");
    }
    assert(is_sound(34, "sye"@, "しぇ"@)) by {
        reveal(is_sound);
        reveal_strlit("sye");
        reveal_strlit("しぇ");
    }
    assert(is_sound(35, "syo"@, "しょ"@)) by {
        reveal(is_sound);
        reveal_strlit("syo");
        reveal_strlit("しょ");
    }
}

proof fn entries_from_36_are_sound(place: int)
    requires
        36 <= place < 48,
    ensures
        is_sound(place, ROMAJI_TABLE@[place].0@, ROMAJI_TABLE@[place].1@),
{
    assert(is_sound(36, "sha"@, "しゃ"@)) by {
        reveal(is_sound);
        reveal_strlit("sha");
        reveal_strlit("しゃ");
    }
    assert(is_sound(37, "shu"@, "しゅ"@)) by {
        reveal(is_sound);
        reveal_strlit("shu");
        reveal_strlit("しゅ");
    }
    assert(is_sound(38, "she"@, "しぇ"@)) by {
        reveal(is_sound);
        reveal_strlit("she");
        reveal_strlit("しぇ");
    }
    assert(is_sound(39, "sho"@, "しょ"@)) by {
        reveal(is_sound);
        reveal_strlit("sho");
        reveal_strlit("しょ");
    }
    assert(is_sound(40, "za"@, "ざ"@)) by {
        reveal(is_sound);
        reveal_strlit("za");
        reveal_strlit("ざ");
    }
    assert(is_sound(41, "zi"@, "じ"@)) by {
        reveal(is_sound);
        reveal_strlit("zi");
        reveal_strlit("じ");
    }
    assert(is_sound(42, "ji"@, "じ"@)) by {
        reveal(is_sound);
        reveal_strlit("ji");
        reveal_strlit("じ");
    }
    assert(is_sound(43, "zu"@, "ず"@)) by {
        reveal(is_sound);
        reveal_strlit("zu");
        reveal_strlit("ず");
    }
    assert(is_sound(44, "ze"@, "ぜ"@)) by {
        reveal(is_sound);
        reveal_strlit("ze");
        reveal_strlit("ぜ");
    }
    assert(is_sound(45, "zo"@, "ぞ"@)) by {
        reveal(is_sound);
        reveal_strlit("zo");
        reveal_strlit("ぞ");
    }
    assert(is_sound(46, "zya"@, "じゃ"@)) by {
        reveal(is_sound);
        reveal_strlit("zya");
        reveal_strlit("じゃ");
    }
    assert(is_sound(47, "zyi"@, "じぃ"@)) by {
        reveal(is_sound);
        reveal_strlit("zyi");
        reveal_strlit("じぃ");
    }
}

proof fn entries_from_48_are_sound(place: int)
    requires
        48 <= place < 60,
    ensures
        is_sound(place, ROMAJI_TABLE@[place].0@, ROMAJI_TABLE@[place].1@),
{
    assert(is_sound(48, "zyu"@, "じゅ"@)) by {
        reveal(is_sound);
        reveal_strlit("zyu");
        reveal_strlit("じゅ");
    }
    assert(is_sound(49, "zye"@, "じぇ"@)) by {
        reveal(is_sound);
        reveal_strlit("zye");
        reveal_strlit("じぇ");
    }
    assert(is_sound(50, "zyo"@, "じょ"@)) by {
        reveal(is_sound);
        reveal_strlit("zyo");
        reveal_strlit("じょ");
    }
    assert(is_sound(51, "zh"@, "←"@)) by {
        reveal(is_sound);
        reveal_strlit("zh");
        reveal_strlit("←");
    }
    assert(is_sound(52, "zj"@, "↓"@)) by {
        reveal(is_sound);
        reveal_strlit("zj");
        reveal_strlit("↓");
    }
    assert(is_sound(53, "zk"@, "↑"@)) by {
        reveal(is_sound);
        reveal_strlit("zk");
        reveal_strlit("↑");
    }
    assert(is_sound(54, "zl"@, "→"@)) by {
        reveal(is_sound);
        reveal_strlit("zl");
        reveal_strlit("→");
    }
    assert(is_sound(55, "zm"@, "→"@)) by {
        reveal(is_sound);
        reveal_strlit("zm");
        reveal_strlit("→");
    }
    assert(is_sound(56, "ja"@, "じゃ"@)) by {
        reveal(is_sound);
        reveal_strlit("ja");
        reveal_strlit("じゃ");
    }
    assert(is_sound(57, "jya"@, "じゃ"@)) by {
        reveal(is_sound);
        reveal_strlit("jya");
        reveal_strlit("じゃ");
    }
    assert(is_sound(58, "jyi"@, "じぃ"@)) by {
        reveal(is_sound);
        reveal_strlit("jyi");
        reveal_strlit("じぃ");
    }
    assert(is_sound(59, "ju"@, "じゅ"@)) by {
        reveal(is_sound);
        reveal_strlit("ju");
        reveal_strlit("じゅ");
    }
}

proof fn entries_from_60_are_sound(place: int)
    requires
        60 <= place < 72,
    ensures
        is_sound(place, ROMAJI_TABLE@[place].0@, ROMAJI_TABLE@[place].1@),
{
    assert(is_sound(60, "jyu"@, "じゅ"@)) by {
        reveal(is_sound);
        reveal_strlit("jyu");
        reveal_strlit("じゅ");
    }
    assert(is_sound(61, "je"@, "じぇ"@)) by {
        reveal(is_sound);
        reveal_strlit("je");
        reveal_strlit("じぇ");
    }
    assert(is_sound(62, "jye"@, "じぇ"@)) by {
        reveal(is_sound);
        reveal_strlit("jye");
        reveal_strlit("じぇ");
    }
    assert(is_sound(63, "jo"@, "じょ"@)) by {
        reveal(is_sound);
        reveal_strlit("jo");
        reveal_strlit("じょ");
    }
    assert(is_sound(64, "jyo"@, "じょ"@)) by {
        reveal(is_sound);
        reveal_strlit("jyo");
        reveal_strlit("じょ");
    }
    assert(is_sound(65, "ta"@, "た"@)) by {
        reveal(is_sound);
        reveal_strlit("ta");
        reveal_strlit("た");
    }
    assert(is_sound(66, "ti"@, "ち"@)) by {
        reveal(is_sound);
        reveal_strlit("ti");
        reveal_strlit("ち");
    }
    assert(is_sound(67, "chi"@, "ち"@)) by {
        reveal(is_sound);
        reveal_strlit("chi");
        reveal_strlit("ち");
    }
    assert(is_sound(68, "tu"@, "つ"@)) by {
        reveal(is_sound);
        reveal_strlit("tu");
        reveal_strlit("つ");
    }
    assert(is_sound(69, "tsu"@, "つ"@)) by {
        reveal(is_sound);
        reveal_strlit("tsu");
        reveal_strlit("つ");
    }
    assert(is_sound(70, "te"@, "て"@)) by {
        reveal(is_sound);
        reveal_strlit("te");
        reveal_strlit("て");
    }
    assert(is_sound(71, "to"@, "と"@)) by {
        reveal(is_sound);
        reveal_strlit("to");
        reveal_strlit("と");
    }
}

proof fn entries_from_72_are_sound(place: int)
    requires
        72 <= place < 84,
    ensures
        is_sound(place, ROMAJI_TABLE@[place].0@, ROMAJI_TABLE@[place].1@),
{
    assert(is_sound(72, "tya"@, "ちゃ"@)) by {
        reveal(is_sound);
        reveal_strlit("tya");
        reveal_strlit("ちゃ");
    }
    assert(is_sound(73, "tyi"@, "ちぃ"@)) by {
        reveal(is_sound);
        reveal_strlit("tyi");
        reveal_strlit("ちぃ");
    }
    assert(is_sound(74, "tyu"@, "ちゅ"@)) by {
        reveal(is_sound);
        reveal_strlit("tyu");
        reveal_strlit("ちゅ");
    }
    assert(is_sound(75, "tye"@, "ちぇ"@)) by {
        reveal(is_sound);
        reveal_strlit("tye");
        reveal_strlit("ちぇ");
    }
    assert(is_sound(76, "tyo"@, "ちょ"@)) by {
        reveal(is_sound);
        reveal_strlit("tyo");
        reveal_strlit("ちょ");
    }
    assert(is_sound(77, "cha"@, "ちゃ"@)) by {
        reveal(is_sound);
        reveal_strlit("cha");
        reveal_strlit("ちゃ");
    }
    assert(is_sound(78, "chu"@, "ちゅ"@)) by {
        reveal(is_sound);
        reveal_strlit("chu");
        reveal_strlit("ちゅ");
    }
    assert(is_sound(79, "che"@, "ちぇ"@)) by {
        reveal(is_sound);
        reveal_strlit("che");
        reveal_strlit("ちぇ");
    }
    assert(is_sound(80, "cho"@, "ちょ"@)) by {
        reveal(is_sound);
        reveal_strlit("cho");
        reveal_strlit("ちょ");
    }
    assert(is_sound(81, "cya"@, "ちゃ"@)) by {
        reveal(is_sound);
        reveal_strlit("cya");
        reveal_strlit("ちゃ");
    }
    assert(is_sound(82, "cyi"@, "ちぃ"@)) by {
        reveal(is_sound);
        reveal_strlit("cyi");
        reveal_strlit("ちぃ");
    }
    assert(is_sound(83, "cyu"@, "ちゅ"@)) by {
        reveal(is_sound);
        reveal_strlit("cyu");
        reveal_strlit("ちゅ");
    }
}

proof fn entries_from_84_are_sound(place: int)
    requires
        84 <= place < 96,
    ensures
        is_sound(place, ROMAJI_TABLE@[place].0@, ROMAJI_TABLE@[place].1@),
{
    assert(is_sound(84, "cye"@, "ちぇ"@)) by {
        reveal(is_sound);
        reveal_strlit("cye");
        reveal_strlit("ちぇ");
    }
    assert(is_sound(85, "cyo"@, "ちょ"@)) by {
        reveal(is_sound);
        reveal_strlit("cyo");
        reveal_strlit("ちょ");
    }
    assert(is_sound(86, "tsa"@, "つぁ"@)) by {
        reveal(is_sound);
        reveal_strlit("tsa");
        reveal_strlit("つぁ");
    }
    assert(is_sound(87, "tsi"@, "つぃ"@)) by {
        reveal(is_sound);
        reveal_strlit("tsi");
        reveal_strlit("つぃ");
    }
    assert(is_sound(88, "tse"@, "つぇ"@)) by {
        reveal(is_sound);
        reveal_strlit("tse");
        reveal_strlit("つぇ");
    }
    assert(is_sound(89, "tso"@, "つぉ"@)) by {
        reveal(is_sound);
        reveal_strlit("tso");
        reveal_strlit("つぉ");
    }
    assert(is_sound(90, "tha"@, "てゃ"@)) by {
        reveal(is_sound);
        reveal_strlit("tha");
        reveal_strlit("てゃ");
    }
    assert(is_sound(91, "thi"@, "てぃ"@)) by {
        reveal(is_sound);
        reveal_strlit("thi");
        reveal_strlit("てぃ");
    }
    assert(is_sound(92, "t'i"@, "てぃ"@)) by {
        reveal(is_sound);
        reveal_strlit("t'i");
        reveal_strlit("てぃ");
    }
    assert(is_sound(93, "thu"@, "てゅ"@)) by {
        reveal(is_sound);
        reveal_strlit("thu");
        reveal_strlit("てゅ");
    }
    assert(is_sound(94, "the"@, "てぇ"@)) by {
        reveal(is_sound);
        reveal_strlit("the");
        reveal_strlit("てぇ");
    }
    assert(is_sound(95, "tho"@, "てょ"@)) by {
        reveal(is_sound);
        reveal_strlit("tho");
        reveal_strlit("てょ");
    }
}

proof fn entries_from_96_are_sound(place: int)
    requires
        96 <= place < 108,
    ensures
        is_sound(place, ROMAJI_TABLE@[place].0@, ROMAJI_TABLE@[place].1@),
{
    assert(is_sound(96, "t'yu"@, "てゅ"@)) by {
        reveal(is_sound);
        reveal_strlit("t'yu");
        reveal_strlit("てゅ");
    }
    assert(is_sound(97, "twa"@, "とぁ"@)) by {
        reveal(is_sound);
        reveal_strlit("twa");
        reveal_strlit("とぁ");
    }
    assert(is_sound(98, "twi"@, "とぃ"@)) by {
        reveal(is_sound);
        reveal_strlit("twi");
        reveal_strlit("とぃ");
    }
    assert(is_sound(99, "twu"@, "とぅ"@)) by {
        reveal(is_sound);
        reveal_strlit("twu");
        reveal_strlit("とぅ");
    }
    assert(is_sound(100, "twe"@, "とぇ"@)) by {
        reveal(is_sound);
        reveal_strlit("twe");
        reveal_strlit("とぇ");
    }
    assert(is_sound(101, "two"@, "とぉ"@)) by {
        reveal(is_sound);
        reveal_strlit("two");
        reveal_strlit("とぉ");
    }
    assert(is_sound(102, "t'u"@, "とぅ"@)) by {
        reveal(is_sound);
        reveal_strlit("t'u");
        reveal_strlit("とぅ");
    }
    assert(is_sound(103, "da"@, "だ"@)) by {
        reveal(is_sound);
        reveal_strlit("da");
        reveal_strlit("だ");
    }
    assert(is_sound(104, "di"@, "ぢ"@)) by {
        reveal(is_sound);
        reveal_strlit("di");
        reveal_strlit("ぢ");
    }
    assert(is_sound(105, "du"@, "づ"@)) by {
        reveal(is_sound);
        reveal_strlit("du");
        reveal_strlit("づ");
    }
    assert(is_sound(106, "de"@, "で"@)) by {
        reveal(is_sound);
        reveal_strlit("de");
        reveal_strlit("で");
    }
    assert(is_sound(107, "do"@, "ど"@)) by {
        reveal(is_sound);
        reveal_strlit("do");
        reveal_strlit("ど");
    }
}

proof fn entries_from_108_are_sound(place: int)
    requires
        108 <= place < 120,
    ensures
        is_sound(place, ROMAJI_TABLE@[place].0@, ROMAJI_TABLE@[place].1@),
{
    assert(is_sound(108, "dya"@, "ぢゃ"@)) by {
        reveal(is_sound);
        reveal_strlit("dya");
        reveal_strlit("ぢゃ");
    }
    assert(is_sound(109, "dyi"@, "ぢぃ"@)) by {
        reveal(is_sound);
        reveal_strlit("dyi");
        reveal_strlit("ぢぃ");
    }
    assert(is_sound(110, "dyu"@, "ぢゅ"@)) by {
        reveal(is_sound);
        reveal_strlit("dyu");
        reveal_strlit("ぢゅ");
    }
    assert(is_sound(111, "dye"@, "ぢぇ"@)) by {
        reveal(is_sound);
        reveal_strlit("dye");
        reveal_strlit("ぢぇ");
    }
    assert(is_sound(112, "dyo"@, "ぢょ"@)) by {
        reveal(is_sound);
        reveal_strlit("dyo");
        reveal_strlit("ぢょ");
    }
    assert(is_sound(113, "dha"@, "でゃ"@)) by {
        reveal(is_sound);
        reveal_strlit("dha");
        reveal_strlit("でゃ");
    }
    assert(is_sound(114, "dhi"@, "でぃ"@)) by {
        reveal(is_sound);
        reveal_strlit("dhi");
        reveal_strlit("でぃ");
    }
    assert(is_sound(115, "d'i"@, "でぃ"@)) by {
        reveal(is_sound);
        reveal_strlit("d'i");
        reveal_strlit("でぃ");
    }
    assert(is_sound(116, "dhu"@, "でゅ"@)) by {
        reveal(is_sound);
        reveal_strlit("dhu");
        reveal_strlit("でゅ");
    }
    assert(is_sound(117, "dhe"@, "でぇ"@)) by {
        reveal(is_sound);
        reveal_strlit("dhe");
        reveal_strlit("でぇ");
    }
    assert(is_sound(118, "dho"@, "でょ"@)) by {
        reveal(is_sound);
        reveal_strlit("dho");
        reveal_strlit("でょ");
    }
    assert(is_sound(119, "d'yu"@, "でゅ"@)) by {
        reveal(is_sound);
        reveal_strlit("d'yu");
        reveal_strlit("でゅ");
    }
}

proof fn entries_from_120_are_sound(place: int)
    requires
        120 <= place < 132,
    ensures
        is_sound(place, ROMAJI_TABLE@[place].0@, ROMAJI_TABLE@[place].1@),
{
    assert(is_sound(120, "dwa"@, "どぁ"@)) by {
        reveal(is_sound);
        reveal_strlit("dwa");
        reveal_strlit("どぁ");
    }
    assert(is_sound(121, "dwi"@, "どぃ"@)) by {
        reveal(is_sound);
        reveal_strlit("dwi");
        reveal_strlit("どぃ");
    }
    assert(is_sound(122, "dwu"@, "どぅ"@)) by {
        reveal(is_sound);
        reveal_strlit("dwu");
        reveal_strlit("どぅ");
    }
    assert(is_sound(123, "dwe"@, "どぇ"@)) by {
        reveal(is_sound);
        reveal_strlit("dwe");
        reveal_strlit("どぇ");
    }
    assert(is_sound(124, "dwo"@, "どぉ"@)) by {
        reveal(is_sound);
        reveal_strlit("dwo");
        reveal_strlit("どぉ");
    }
    assert(is_sound(125, "d'u"@, "どぅ"@)) by {
        reveal(is_sound);
        reveal_strlit("d'u");
        reveal_strlit("どぅ");
    }
    assert(is_sound(126, "na"@, "な"@)) by {
        reveal(is_sound);
        reveal_strlit("na");
        reveal_strlit("な");
    }
    assert(is_sound(127, "ni"@, "に"@)) by {
        reveal(is_sound);
        reveal_strlit("ni");
        reveal_strlit("に");
    }
    assert(is_sound(128, "nu"@, "ぬ"@)) by {
        reveal(is_sound);
        reveal_strlit("nu");
        reveal_strlit("ぬ");
    }
    assert(is_sound(129, "ne"@, "ね"@)) by {
        reveal(is_sound);
        reveal_strlit("ne");
        reveal_strlit("ね");
    }
    assert(is_sound(130, "no"@, "の"@)) by {
        reveal(is_sound);
        reveal_strlit("no");
        reveal_strlit("の");
    }
    assert(is_sound(131, "nya"@, "にゃ"@)) by {
        reveal(is_sound);
        reveal_strlit("nya");
        reveal_strlit("にゃ");
    }
}

proof fn entries_from_132_are_sound(place: int)
    requires
        132 <= place < 144,
    ensures
        is_sound(place, ROMAJI_TABLE@[place].0@, ROMAJI_TABLE@[place].1@),
{
    assert(is_sound(132, "nyi"@, "にぃ"@)) by {
        reveal(is_sound);
        reveal_strlit("nyi");
        reveal_strlit("にぃ");
    }
    assert(is_sound(133, "nyu"@, "にゅ"@)) by {
        reveal(is_sound);
        reveal_strlit("nyu");
        reveal_strlit("にゅ");
    }
    assert(is_sound(134, "nye"@, "にぇ"@)) by {
        reveal(is_sound);
        reveal_strlit("nye");
        reveal_strlit("にぇ");
    }
    assert(is_sound(135, "nyo"@, "にょ"@)) by {
        reveal(is_sound);
        reveal_strlit("nyo");
        reveal_strlit("にょ");
    }
    assert(is_sound(136, "n"@, "ん"@)) by {
        reveal(is_sound);
        reveal_strlit("n");
        reveal_strlit("ん");
        assert("n"@ =~= seq!['n']);
    }
    assert(is_sound(137, "xn"@, "ん"@)) by {
        reveal(is_sound);
        reveal_strlit("xn");
        reveal_strlit("ん");
    }
    assert(is_sound(138, "ha"@, "は"@)) by {
        reveal(is_sound);
        reveal_strlit("ha");
        reveal_strlit("は");
    }
    assert(is_sound(139, "hi"@, "ひ"@)) by {
        reveal(is_sound);
        reveal_strlit("hi");
        reveal_strlit("ひ");
    }
    assert(is_sound(140, "hu"@, "ふ"@)) by {
        reveal(is_sound);
        reveal_strlit("hu");
        reveal_strlit("ふ");
    }
    assert(is_sound(141, "fu"@, "ふ"@)) by {
        reveal(is_sound);
        reveal_strlit("fu");
        reveal_strlit("ふ");
    }
    assert(is_sound(142, "he"@, "へ"@)) by {
        reveal(is_sound);
        reveal_strlit("he");
        reveal_strlit("へ");
    }
    assert(is_sound(143, "ho"@, "ほ"@)) by {
        reveal(is_sound);
        reveal_strlit("ho");
        reveal_strlit("ほ");
    }
}

proof fn entries_from_144_are_sound(place: int)
    requires
        144 <= place < 156,
    ensures
        is_sound(place, ROMAJI_TABLE@[place].0@, ROMAJI_TABLE@[place].1@),
{
    assert(is_sound(144, "hya"@, "ひゃ"@)) by {
        reveal(is_sound);
        reveal_strlit("hya");
        reveal_strlit("ひゃ");
    }
    assert(is_sound(145, "hyi"@, "ひぃ"@)) by {
        reveal(is_sound);
        reveal_strlit("hyi");
        reveal_strlit("ひぃ");
    }
    assert(is_sound(146, "hyu"@, "ひゅ"@)) by {
        reveal(is_sound);
        reveal_strlit("hyu");
        reveal_strlit("ひゅ");
    }
    assert(is_sound(147, "hye"@, "ひぇ"@)) by {
        reveal(is_sound);
        reveal_strlit("hye");
        reveal_strlit("ひぇ");
    }
    assert(is_sound(148, "hyo"@, "ひょ"@)) by {
        reveal(is_sound);
        reveal_strlit("hyo");
        reveal_strlit("ひょ");
    }
    assert(is_sound(149, "fa"@, "ふぁ"@)) by {
        reveal(is_sound);
        reveal_strlit("fa");
        reveal_strlit("ふぁ");
    }
    assert(is_sound(150, "fi"@, "ふぃ"@)) by {
        reveal(is_sound);
        reveal_strlit("fi");
        reveal_strlit("ふぃ");
    }
    assert(is_sound(151, "fe"@, "ふぇ"@)) by {
        reveal(is_sound);
        reveal_strlit("fe");
        reveal_strlit("ふぇ");
    }
    assert(is_sound(152, "fo"@, "ふぉ"@)) by {
        reveal(is_sound);
        reveal_strlit("fo");
        reveal_strlit("ふぉ");
    }
    assert(is_sound(153, "fya"@, "ふゃ"@)) by {
        reveal(is_sound);
        reveal_strlit("fya");
        reveal_strlit("ふゃ");
    }
    assert(is_sound(154, "fyu"@, "ふゅ"@)) by {
        reveal(is_sound);
        reveal_strlit("fyu");
        reveal_strlit("ふゅ");
    }
    assert(is_sound(155, "fyo"@, "ふょ"@)) by {
        reveal(is_sound);
        reveal_strlit("fyo");
        reveal_strlit("ふょ");
    }
}

proof fn entries_from_156_are_sound(place: int)
    requires
        156 <= place < 168,
    ensures
        is_sound(place, ROMAJI_TABLE@[place].0@, ROMAJI_TABLE@[place].1@),
{
    assert(is_sound(156, "hwa"@, "ふぁ"@)) by {
        reveal(is_sound);
        reveal_strlit("hwa");
        reveal_strlit("ふぁ");
    }
    assert(is_sound(157, "hwi"@, "ふぃ"@)) by {
        reveal(is_sound);
        reveal_strlit("hwi");
        reveal_strlit("ふぃ");
    }
    assert(is_sound(158, "hwe"@, "ふぇ"@)) by {
        reveal(is_sound);
        reveal_strlit("hwe");
        reveal_strlit("ふぇ");
    }
    assert(is_sound(159, "hwo"@, "ふぉ"@)) by {
        reveal(is_sound);
        reveal_strlit("hwo");
        reveal_strlit("ふぉ");
    }
    assert(is_sound(160, "hwyu"@, "ふゅ"@)) by {
        reveal(is_sound);
        reveal_strlit("hwyu");
        reveal_strlit("ふゅ");
    }
    assert(is_sound(161, "ba"@, "ば"@)) by {
        reveal(is_sound);
        reveal_strlit("ba");
        reveal_strlit("ば");
    }
    assert(is_sound(162, "bi"@, "び"@)) by {
        reveal(is_sound);
        reveal_strlit("bi");
        reveal_strlit("び");
    }
    assert(is_sound(163, "bu"@, "ぶ"@)) by {
        reveal(is_sound);
        reveal_strlit("bu");
        reveal_strlit("ぶ");
    }
    assert(is_sound(164, "be"@, "べ"@)) by {
        reveal(is_sound);
        reveal_strlit("be");
        reveal_strlit("べ");
    }
    assert(is_sound(165, "bo"@, "ぼ"@)) by {
        reveal(is_sound);
        reveal_strlit("bo");
        reveal_strlit("ぼ");
    }
    assert(is_sound(166, "bya"@, "びゃ"@)) by {
        reveal(is_sound);
        reveal_strlit("bya");
        reveal_strlit("びゃ");
    }
    assert(is_sound(167, "byi"@, "びぃ"@)) by {
        reveal(is_sound);
        reveal_strlit("byi");
        reveal_strlit("びぃ");
    }
}

proof fn entries_from_168_are_sound(place: int)
    requires
        168 <= place < 180,
    ensures
        is_sound(place, ROMAJI_TABLE@[place].0@, ROMAJI_TABLE@[place].1@),
{
    assert(is_sound(168, "byu"@, "びゅ"@)) by {
        reveal(is_sound);
        reveal_strlit("byu");
        reveal_strlit("びゅ");
    }
    assert(is_sound(169, "bye"@, "びぇ"@)) by {
        reveal(is_sound);
        reveal_strlit("bye");
        reveal_strlit("びぇ");
    }
    assert(is_sound(170, "byo"@, "びょ"@)) by {
        reveal(is_sound);
        reveal_strlit("byo");
        reveal_strlit("びょ");
    }
    assert(is_sound(171, "pa"@, "ぱ"@)) by {
        reveal(is_sound);
        reveal_strlit("pa");
        reveal_strlit("ぱ");
    }
    assert(is_sound(172, "pi"@, "ぴ"@)) by {
        reveal(is_sound);
        reveal_strlit("pi");
        reveal_strlit("ぴ");
    }
    assert(is_sound(173, "pu"@, "ぷ"@)) by {
        reveal(is_sound);
        reveal_strlit("pu");
        reveal_strlit("ぷ");
    }
    assert(is_sound(174, "pe"@, "ぺ"@)) by {
        reveal(is_sound);
        reveal_strlit("pe");
        reveal_strlit("ぺ");
    }
    assert(is_sound(175, "po"@, "ぽ"@)) by {
        reveal(is_sound);
        reveal_strlit("po");
        reveal_strlit("ぽ");
    }
    assert(is_sound(176, "pya"@, "ぴゃ"@)) by {
        reveal(is_sound);
        reveal_strlit("pya");
        reveal_strlit("ぴゃ");
    }
    assert(is_sound(177, "pyi"@, "ぴぃ"@)) by {
        reveal(is_sound);
        reveal_strlit("pyi");
        reveal_strlit("ぴぃ");
    }
    assert(is_sound(178, "pyu"@, "ぴゅ"@)) by {
        reveal(is_sound);
        reveal_strlit("pyu");
        reveal_strlit("ぴゅ");
    }
    assert(is_sound(179, "pye"@, "ぴぇ"@)) by {
        reveal(is_sound);
        reveal_strlit("pye");
        reveal_strlit("ぴぇ");
    }
}

proof fn entries_from_180_are_sound(place: int)
    requires
        180 <= place < 192,
    ensures
        is_sound(place, ROMAJI_TABLE@[place].0@, ROMAJI_TABLE@[place].1@),
{
    assert(is_sound(180, "pyo"@, "ぴょ"@)) by {
        reveal(is_sound);
        reveal_strlit("pyo");
        reveal_strlit("ぴょ");
    }
    assert(is_sound(181, "ma"@, "ま"@)) by {
        reveal(is_sound);
        reveal_strlit("ma");
        reveal_strlit("ま");
    }
    assert(is_sound(182, "mi"@, "み"@)) by {
        reveal(is_sound);
        reveal_strlit("mi");
        reveal_strlit("み");
    }
    assert(is_sound(183, "mu"@, "む"@)) by {
        reveal(is_sound);
        reveal_strlit("mu");
        reveal_strlit("む");
    }
    assert(is_sound(184, "me"@, "め"@)) by {
        reveal(is_sound);
        reveal_strlit("me");
        reveal_strlit("め");
    }
    assert(is_sound(185, "mo"@, "も"@)) by {
        reveal(is_sound);
        reveal_strlit("mo");
        reveal_strlit("も");
    }
    assert(is_sound(186, "mya"@, "みゃ"@)) by {
        reveal(is_sound);
        reveal_strlit("mya");
        reveal_strlit("みゃ");
    }
    assert(is_sound(187, "myi"@, "みぃ"@)) by {
        reveal(is_sound);
        reveal_strlit("myi");
        reveal_strlit("みぃ");
    }
    assert(is_sound(188, "myu"@, "みゅ"@)) by {
        reveal(is_sound);
        reveal_strlit("myu");
        reveal_strlit("みゅ");
    }
    assert(is_sound(189, "mye"@, "みぇ"@)) by {
        reveal(is_sound);
        reveal_strlit("mye");
        reveal_strlit("みぇ");
    }
    assert(is_sound(190, "myo"@, "みょ"@)) by {
        reveal(is_sound);
        reveal_strlit("myo");
        reveal_strlit("みょ");
    }
    assert(is_sound(191, "ya"@, "や"@)) by {
        reveal(is_sound);
        reveal_strlit("ya");
        reveal_strlit("や");
    }
}

proof fn entries_from_192_are_sound(place: int)
    requires
        192 <= place < 204,
    ensures
        is_sound(place, ROMAJI_TABLE@[place].0@, ROMAJI_TABLE@[place].1@),
{
    assert(is_sound(192, "yu"@, "ゆ"@)) by {
        reveal(is_sound);
        reveal_strlit("yu");
        reveal_strlit("ゆ");
    }
    assert(is_sound(193, "yo"@, "よ"@)) by {
        reveal(is_sound);
        reveal_strlit("yo");
        reveal_strlit("よ");
    }
    assert(is_sound(194, "ra"@, "ら"@)) by {
        reveal(is_sound);
        reveal_strlit("ra");
        reveal_strlit("ら");
    }
    assert(is_sound(195, "ri"@, "り"@)) by {
        reveal(is_sound);
        reveal_strlit("ri");
        reveal_strlit("り");
    }
    assert(is_sound(196, "ru"@, "る"@)) by {
        reveal(is_sound);
        reveal_strlit("ru");
        reveal_strlit("る");
    }
    assert(is_sound(197, "re"@, "れ"@)) by {
        reveal(is_sound);
        reveal_strlit("re");
        reveal_strlit("れ");
    }
    assert(is_sound(198, "ro"@, "ろ"@)) by {
        reveal(is_sound);
        reveal_strlit("ro");
        reveal_strlit("ろ");
    }
    assert(is_sound(199, "rya"@, "りゃ"@)) by {
        reveal(is_sound);
        reveal_strlit("rya");
        reveal_strlit("りゃ");
    }
    assert(is_sound(200, "ryi"@, "りぃ"@)) by {
        reveal(is_sound);
        reveal_strlit("ryi");
        reveal_strlit("りぃ");
    }
    assert(is_sound(201, "ryu"@, "りゅ"@)) by {
        reveal(is_sound);
        reveal_strlit("ryu");
        reveal_strlit("りゅ");
    }
    assert(is_sound(202, "rye"@, "りぇ"@)) by {
        reveal(is_sound);
        reveal_strlit("rye");
        reveal_strlit("りぇ");
    }
    assert(is_sound(203, "ryo"@, "りょ"@)) by {
        reveal(is_sound);
        reveal_strlit("ryo");
        reveal_strlit("りょ");
    }
}

proof fn entries_from_204_are_sound(place: int)
    requires
        204 <= place < 216,
    ensures
        is_sound(place, ROMAJI_TABLE@[place].0@, ROMAJI_TABLE@[place].1@),
{
    assert(is_sound(204, "wa"@, "わ"@)) by {
        reveal(is_sound);
        reveal_strlit("wa");
        reveal_strlit("わ");
    }
    assert(is_sound(205, "wi"@, "うぃ"@)) by {
        reveal(is_sound);
        reveal_strlit("wi");
        reveal_strlit("うぃ");
    }
    assert(is_sound(206, "we"@, "うぇ"@)) by {
        reveal(is_sound);
        reveal_strlit("we");
        reveal_strlit("うぇ");
    }
    assert(is_sound(207, "wo"@, "を"@)) by {
        reveal(is_sound);
        reveal_strlit("wo");
        reveal_strlit("を");
    }
    assert(is_sound(208, "wha"@, "うぁ"@)) by {
        reveal(is_sound);
        reveal_strlit("wha");
        reveal_strlit("うぁ");
    }
    assert(is_sound(209, "whi"@, "うぃ"@)) by {
        reveal(is_sound);
        reveal_strlit("whi");
        reveal_strlit("うぃ");
    }
    assert(is_sound(210, "whu"@, "う"@)) by {
        reveal(is_sound);
        reveal_strlit("whu");
        reveal_strlit("う");
    }
    assert(is_sound(211, "whe"@, "うぇ"@)) by {
        reveal(is_sound);
        reveal_strlit("whe");
        reveal_strlit("うぇ");
    }
    assert(is_sound(212, "who"@, "うぉ"@)) by {
        reveal(is_sound);
        reveal_strlit("who");
        reveal_strlit("うぉ");
    }
    assert(is_sound(213, "wyi"@, "ゐ"@)) by {
        reveal(is_sound);
        reveal_strlit("wyi");
        reveal_strlit("ゐ");
    }
    assert(is_sound(214, "wye"@, "ゑ"@)) by {
        reveal(is_sound);
        reveal_strlit("wye");
        reveal_strlit("ゑ");
    }
    assert(is_sound(215, "wu"@, "う"@)) by {
        reveal(is_sound);
        reveal_strlit("wu");
        reveal_strlit("う");
    }
}

proof fn entries_from_216_are_sound(place: int)
    requires
        216 <= place < 228,
    ensures
        is_sound(place, ROMAJI_TABLE@[place].0@, ROMAJI_TABLE@[place].1@),
{
    assert(is_sound(216, "va"@, "ゔぁ"@)) by {
        reveal(is_sound);
        reveal_strlit("va");
        reveal_strlit("ゔぁ");
    }
    assert(is_sound(217, "vi"@, "ゔぃ"@)) by {
        reveal(is_sound);
        reveal_strlit("vi");
        reveal_strlit("ゔぃ");
    }
    assert(is_sound(218, "vu"@, "ゔ"@)) by {
        reveal(is_sound);
        reveal_strlit("vu");
        reveal_strlit("ゔ");
    }
    assert(is_sound(219, "ve"@, "ゔぇ"@)) by {
        reveal(is_sound);
        reveal_strlit("ve");
        reveal_strlit("ゔぇ");
    }
    assert(is_sound(220, "vo"@, "ゔぉ"@)) by {
        reveal(is_sound);
        reveal_strlit("vo");
        reveal_strlit("ゔぉ");
    }
    assert(is_sound(221, "vya"@, "ゔゃ"@)) by {
        reveal(is_sound);
        reveal_strlit("vya");
        reveal_strlit("ゔゃ");
    }
    assert(is_sound(222, "vyi"@, "ゔぃ"@)) by {
        reveal(is_sound);
        reveal_strlit("vyi");
        reveal_strlit("ゔぃ");
    }
    assert(is_sound(223, "vyu"@, "ゔゅ"@)) by {
        reveal(is_sound);
        reveal_strlit("vyu");
        reveal_strlit("ゔゅ");
    }
    assert(is_sound(224, "vye"@, "ゔぇ"@)) by {
        reveal(is_sound);
        reveal_strlit("vye");
        reveal_strlit("ゔぇ");
    }
    assert(is_sound(225, "vyo"@, "ゔょ"@)) by {
        reveal(is_sound);
        reveal_strlit("vyo");
        reveal_strlit("ゔょ");
    }
    assert(is_sound(226, "xya"@, "ゃ"@)) by {
        reveal(is_sound);
        reveal_strlit("xya");
        reveal_strlit("ゃ");
    }
    assert(is_sound(227, "xyu"@, "ゅ"@)) by {
        reveal(is_sound);
        reveal_strlit("xyu");
        reveal_strlit("ゅ");
    }
}

proof fn entries_from_228_are_sound(place: int)
    requires
        228 <= place < 240,
    ensures
        is_sound(place, ROMAJI_TABLE@[place].0@, ROMAJI_TABLE@[place].1@),
{
    assert(is_sound(228, "xyo"@, "ょ"@)) by {
        reveal(is_sound);
        reveal_strlit("xyo");
        reveal_strlit("ょ");
    }
    assert(is_sound(229, "xyi"@, "ぃ"@)) by {
        reveal(is_sound);
        reveal_strlit("xyi");
        reveal_strlit("ぃ");
    }
    assert(is_sound(230, "xye"@, "ぇ"@)) by {
        reveal(is_sound);
        reveal_strlit("xye");
        reveal_strlit("ぇ");
    }
    assert(is_sound(231, "xwa"@, "ゎ"@)) by {
        reveal(is_sound);
        reveal_strlit("xwa");
        reveal_strlit("ゎ");
    }
    assert(is_sound(232, "lya"@, "ゃ"@)) by {
        reveal(is_sound);
        reveal_strlit("lya");
        reveal_strlit("ゃ");
    }
    assert(is_sound(233, "lyu"@, "ゅ"@)) by {
        reveal(is_sound);
        reveal_strlit("lyu");
        reveal_strlit("ゅ");
    }
    assert(is_sound(234, "lyo"@, "ょ"@)) by {
        reveal(is_sound);
        reveal_strlit("lyo");
        reveal_strlit("ょ");
    }
    assert(is_sound(235, "lyi"@, "ぃ"@)) by {
        reveal(is_sound);
        reveal_strlit("lyi");
        reveal_strlit("ぃ");
    }
    assert(is_sound(236, "lye"@, "ぇ"@)) by {
        reveal(is_sound);
        reveal_strlit("lye");
        reveal_strlit("ぇ");
    }
    assert(is_sound(237, "lwa"@, "ゎ"@)) by {
        reveal(is_sound);
        reveal_strlit("lwa");
        reveal_strlit("ゎ");
    }
    assert(is_sound(238, "xtu"@, "っ"@)) by {
        reveal(is_sound);
        reveal_strlit("xtu");
        reveal_strlit("っ");
    }
    assert(is_sound(239, "xtsu"@, "っ"@)) by {
        reveal(is_sound);
        reveal_strlit("xtsu");
        reveal_strlit("っ");
    }
}

proof fn entries_from_240_are_sound(place: int)
    requires
        240 <= place < 252,
    ensures
        is_sound(place, ROMAJI_TABLE@[place].0@, ROMAJI_TABLE@[place].1@),
{
    assert(is_sound(240, "ltu"@, "っ"@)) by {
        reveal(is_sound);
        reveal_strlit("ltu");
        reveal_strlit("っ");
    }
    assert(is_sound(241, "ltsu"@, "っ"@)) by {
        reveal(is_sound);
        reveal_strlit("ltsu");
        reveal_strlit("っ");
    }
    assert(is_sound(242, "xa"@, "ぁ"@)) by {
        reveal(is_sound);
        reveal_strlit("xa");
        reveal_strlit("ぁ");
    }
    assert(is_sound(243, "xi"@, "ぃ"@)) by {
        reveal(is_sound);
        reveal_strlit("xi");
        reveal_strlit("ぃ");
    }
    assert(is_sound(244, "xu"@, "ぅ"@)) by {
        reveal(is_sound);
        reveal_strlit("xu");
        reveal_strlit("ぅ");
    }
    assert(is_sound(245, "xe"@, "ぇ"@)) by {
        reveal(is_sound);
        reveal_strlit("xe");
        reveal_strlit("ぇ");
    }
    assert(is_sound(246, "xo"@, "ぉ"@)) by {
        reveal(is_sound);
        reveal_strlit("xo");
        reveal_strlit("ぉ");
    }
    assert(is_sound(247, "la"@, "ぁ"@)) by {
        reveal(is_sound);
        reveal_strlit("la");
        reveal_strlit("ぁ");
    }
    assert(is_sound(248, "li"@, "ぃ"@)) by {
        reveal(is_sound);
        reveal_strlit("li");
        reveal_strlit("ぃ");
    }
    assert(is_sound(249, "lu"@, "ぅ"@)) by {
        reveal(is_sound);
        reveal_strlit("lu");
        reveal_strlit("ぅ");
    }
    assert(is_sound(250, "le"@, "ぇ"@)) by {
        reveal(is_sound);
        reveal_strlit("le");
        reveal_strlit("ぇ");
    }
    assert(is_sound(251, "lo"@, "ぉ"@)) by {
        reveal(is_sound);
        reveal_strlit("lo");
        reveal_strlit("ぉ");
    }
}

proof fn entries_from_252_are_sound(place: int)
    requires
        252 <= place < 264,
    ensures
        is_sound(place, ROMAJI_TABLE@[place].0@, ROMAJI_TABLE@[place].1@),
{
    assert(is_sound(252, "xka"@, "ヵ"@)) by {
        reveal(is_sound);
        reveal_strlit("xka");
        reveal_strlit("ヵ");
    }
    assert(is_sound(253, "xke"@, "ヶ"@)) by {
        reveal(is_sound);
        reveal_strlit("xke");
        reveal_strlit("ヶ");
    }
    assert(is_sound(254, "lka"@, "ヵ"@)) by {
        reveal(is_sound);
        reveal_strlit("lka");
        reveal_strlit("ヵ");
    }
    assert(is_sound(255, "lke"@, "ヶ"@)) by {
        reveal(is_sound);
        reveal_strlit("lke");
        reveal_strlit("ヶ");
    }
    assert(is_sound(256, "ye"@, "いぇ"@)) by {
        reveal(is_sound);
        reveal_strlit("ye");
        reveal_strlit("いぇ");
    }
    assert(is_sound(257, "ca"@, "か"@)) by {
        reveal(is_sound);
        reveal_strlit("ca");
        reveal_strlit("か");
    }
    assert(is_sound(258, "ci"@, "し"@)) by {
        reveal(is_sound);
        reveal_strlit("ci");
        reveal_strlit("し");
    }
    assert(is_sound(259, "cu"@, "く"@)) by {
        reveal(is_sound);
        reveal_strlit("cu");
        reveal_strlit("く");
    }
    assert(is_sound(260, "ce"@, "せ"@)) by {
        reveal(is_sound);
        reveal_strlit("ce");
        reveal_strlit("せ");
    }
    assert(is_sound(261, "co"@, "こ"@)) by {
        reveal(is_sound);
        reveal_strlit("co");
        reveal_strlit("こ");
    }
    assert(is_sound(262, "qa"@, "くぁ"@)) by {
        reveal(is_sound);
        reveal_strlit("qa");
        reveal_strlit("くぁ");
    }
    assert(is_sound(263, "qi"@, "くぃ"@)) by {
        reveal(is_sound);
        reveal_strlit("qi");
        reveal_strlit("くぃ");
    }
}

proof fn entries_from_264_are_sound(place: int)
    requires
        264 <= place < 276,
    ensures
        is_sound(place, ROMAJI_TABLE@[place].0@, ROMAJI_TABLE@[place].1@),
{
    assert(is_sound(264, "qu"@, "く"@)) by {
        reveal(is_sound);
        reveal_strlit("qu");
        reveal_strlit("く");
    }
    assert(is_sound(265, "qe"@, "くぇ"@)) by {
        reveal(is_sound);
        reveal_strlit("qe");
        reveal_strlit("くぇ");
    }
    assert(is_sound(266, "qo"@, "くぉ"@)) by {
        reveal(is_sound);
        reveal_strlit("qo");
        reveal_strlit("くぉ");
    }
    assert(is_sound(267, "kwa"@, "くぁ"@)) by {
        reveal(is_sound);
        reveal_strlit("kwa");
        reveal_strlit("くぁ");
    }
    assert(is_sound(268, "kwi"@, "くぃ"@)) by {
        reveal(is_sound);
        reveal_strlit("kwi");
        reveal_strlit("くぃ");
    }
    assert(is_sound(269, "kwu"@, "くぅ"@)) by {
        reveal(is_sound);
        reveal_strlit("kwu");
        reveal_strlit("くぅ");
    }
    assert(is_sound(270, "kwe"@, "くぇ"@)) by {
        reveal(is_sound);
        reveal_strlit("kwe");
        reveal_strlit("くぇ");
    }
    assert(is_sound(271, "kwo"@, "くぉ"@)) by {
        reveal(is_sound);
        reveal_strlit("kwo");
        reveal_strlit("くぉ");
    }
    assert(is_sound(272, "gwa"@, "ぐぁ"@)) by {
        reveal(is_sound);
        reveal_strlit("gwa");
        reveal_strlit("ぐぁ");
    }
    assert(is_sound(273, "gwi"@, "ぐぃ"@)) by {
        reveal(is_sound);
        reveal_strlit("gwi");
        reveal_strlit("ぐぃ");
    }
    assert(is_sound(274, "gwu"@, "ぐぅ"@)) by {
        reveal(is_sound);
        reveal_strlit("gwu");
        reveal_strlit("ぐぅ");
    }
    assert(is_sound(275, "gwe"@, "ぐぇ"@)) by {
        reveal(is_sound);
        reveal_strlit("gwe");
        reveal_strlit("ぐぇ");
    }
}

proof fn entries_from_276_are_sound(place: int)
    requires
        276 <= place < 287,
    ensures
        is_sound(place, ROMAJI_TABLE@[place].0@, ROMAJI_TABLE@[place].1@),
{
    assert(is_sound(276, "gwo"@, "ぐぉ"@)) by {
        reveal(is_sound);
        reveal_strlit("gwo");
        reveal_strlit("ぐぉ");
    }
    assert(is_sound(277, "swa"@, "すぁ"@)) by {
        reveal(is_sound);
        reveal_strlit("swa");
        reveal_strlit("すぁ");
    }
    assert(is_sound(278, "swi"@, "すぃ"@)) by {
        reveal(is_sound);
        reveal_strlit("swi");
        reveal_strlit("すぃ");
    }
    assert(is_sound(279, "swu"@, "すぅ"@)) by {
        reveal(is_sound);
        reveal_strlit("swu");
        reveal_strlit("すぅ");
    }
    assert(is_sound(280, "swe"@, "すぇ"@)) by {
        reveal(is_sound);
        reveal_strlit("swe");
        reveal_strlit("すぇ");
    }
    assert(is_sound(281, "swo"@, "すぉ"@)) by {
        reveal(is_sound);
        reveal_strlit("swo");
        reveal_strlit("すぉ");
    }
    assert(is_sound(282, "zwa"@, "ずぁ"@)) by {
        reveal(is_sound);
        reveal_strlit("zwa");
        reveal_strlit("ずぁ");
    }
    assert(is_sound(283, "zwi"@, "ずぃ"@)) by {
        reveal(is_sound);
        reveal_strlit("zwi");
        reveal_strlit("ずぃ");
    }
    assert(is_sound(284, "zwu"@, "ずぅ"@)) by {
        reveal(is_sound);
        reveal_strlit("zwu");
        reveal_strlit("ずぅ");
    }
    assert(is_sound(285, "zwe"@, "ずぇ"@)) by {
        reveal(is_sound);
        reveal_strlit("zwe");
        reveal_strlit("ずぇ");
    }
    assert(is_sound(286, "zwo"@, "ずぉ"@)) by {
        reveal(is_sound);
        reveal_strlit("zwo");
        reveal_strlit("ずぉ");
    }
}

proof fn an_entry_is_sound(place: int)
    requires
        0 <= place < ROMAJI_TABLE_LENGTH,
    ensures
        is_sound(place, ROMAJI_TABLE@[place].0@, ROMAJI_TABLE@[place].1@),
{
    if place < 12 {
        entries_from_0_are_sound(place);
    } else if place < 24 {
        entries_from_12_are_sound(place);
    } else if place < 36 {
        entries_from_24_are_sound(place);
    } else if place < 48 {
        entries_from_36_are_sound(place);
    } else if place < 60 {
        entries_from_48_are_sound(place);
    } else if place < 72 {
        entries_from_60_are_sound(place);
    } else if place < 84 {
        entries_from_72_are_sound(place);
    } else if place < 96 {
        entries_from_84_are_sound(place);
    } else if place < 108 {
        entries_from_96_are_sound(place);
    } else if place < 120 {
        entries_from_108_are_sound(place);
    } else if place < 132 {
        entries_from_120_are_sound(place);
    } else if place < 144 {
        entries_from_132_are_sound(place);
    } else if place < 156 {
        entries_from_144_are_sound(place);
    } else if place < 168 {
        entries_from_156_are_sound(place);
    } else if place < 180 {
        entries_from_168_are_sound(place);
    } else if place < 192 {
        entries_from_180_are_sound(place);
    } else if place < 204 {
        entries_from_192_are_sound(place);
    } else if place < 216 {
        entries_from_204_are_sound(place);
    } else if place < 228 {
        entries_from_216_are_sound(place);
    } else if place < 240 {
        entries_from_228_are_sound(place);
    } else if place < 252 {
        entries_from_240_are_sound(place);
    } else if place < 264 {
        entries_from_252_are_sound(place);
    } else if place < 276 {
        entries_from_264_are_sound(place);
    } else {
        entries_from_276_are_sound(place);
    }
}

/// Every entry is spelled so that the table alone decides it, is built of consonants and a
/// vowel, and stands for some text.
pub proof fn entries_are_plain_and_never_empty()
    ensures
        forall|i: int|
            #![trigger ROMAJI_TABLE@[i]]
            0 <= i < ROMAJI_TABLE_LENGTH ==> is_plain_spelling(ROMAJI_TABLE@[i].0@)
                && is_built_of_consonants_and_a_vowel(ROMAJI_TABLE@[i].0@)
                && ROMAJI_TABLE@[i].1@.len() > 0,
{
    assert forall|i: int|
        #![trigger ROMAJI_TABLE@[i]]
        0 <= i < ROMAJI_TABLE_LENGTH implies is_plain_spelling(ROMAJI_TABLE@[i].0@)
        && is_built_of_consonants_and_a_vowel(ROMAJI_TABLE@[i].0@) && ROMAJI_TABLE@[i].1@.len()
        > 0 by {
        an_entry_is_sound(i);
        reveal(is_sound);
    }
}

/// No spelling stands twice in the table.
pub proof fn spellings_differ(left: int, right: int)
    requires
        0 <= left < ROMAJI_TABLE_LENGTH,
        0 <= right < ROMAJI_TABLE_LENGTH,
        ROMAJI_TABLE@[left].0@ == ROMAJI_TABLE@[right].0@,
    ensures
        left == right,
{
    an_entry_is_sound(left);
    an_entry_is_sound(right);
    reveal(is_sound);
}

// ---------------------------------------------------------------------------
// How spellings are related
// ---------------------------------------------------------------------------

proof fn a_code_names_one_character(left: char, right: char)
    ensures
        left as u32 == right as u32 <==> left == right,
{
    if left as u32 == right as u32 {
        crate::kana::same_code_same_character(left, right);
    }
}

/// The vowels stand two codes apart, in their order.
pub proof fn vowels_stand_in_their_order(index: int)
    requires
        0 <= index < ROMAJI_TABLE_LENGTH,
        ROMAJI_TABLE@[index].0@.len() == 1,
        ROMAJI_TABLE@[index].0@[0] != 'n',
    ensures
        ({
            let key = ROMAJI_TABLE@[index].0@[0];
            let kana = ROMAJI_TABLE@[index].1@;
            &&& kana.len() == 1
            &&& key == 'a' ==> kana[0] == 'あ'
            &&& key == 'i' ==> kana[0] == 'い'
            &&& key == 'u' ==> kana[0] == 'う'
            &&& key == 'e' ==> kana[0] == 'え'
            &&& key == 'o' ==> kana[0] == 'お'
        }),
{
    an_entry_is_sound(index);
    reveal(is_sound);
    a_code_names_one_character(ROMAJI_TABLE@[index].1@[0], 'あ');
    a_code_names_one_character(ROMAJI_TABLE@[index].1@[0], 'い');
    a_code_names_one_character(ROMAJI_TABLE@[index].1@[0], 'う');
    a_code_names_one_character(ROMAJI_TABLE@[index].1@[0], 'え');
    a_code_names_one_character(ROMAJI_TABLE@[index].1@[0], 'お');
}

/// Two vowels behind one consonant stand for two kana of one row, the later vowel for the later kana:
/// next to each other for `n` and `m` and `r`, two codes apart for `k`, `g`, `s` and `z`, three codes
/// apart for `h`, `b` and `p`.
pub proof fn rows_go_from_vowel_to_vowel(left: int, right: int)
    requires
        0 <= left < ROMAJI_TABLE_LENGTH,
        0 <= right < ROMAJI_TABLE_LENGTH,
        ROMAJI_TABLE@[left].0@.len() == 2,
        ROMAJI_TABLE@[right].0@.len() == 2,
        ROMAJI_TABLE@[left].0@[0] == ROMAJI_TABLE@[right].0@[0],
        vowel(ROMAJI_TABLE@[left].0@[1]),
        vowel(ROMAJI_TABLE@[right].0@[1]),
    ensures
        ({
            let key = ROMAJI_TABLE@[left].0@[0];
            let places = vowel_place(ROMAJI_TABLE@[right].0@[1]) - vowel_place(ROMAJI_TABLE@[left].0@[1]);
            let (kana, other) = (ROMAJI_TABLE@[left].1@, ROMAJI_TABLE@[right].1@);
            let codes = other[0] as u32 - kana[0] as u32;
            &&& key == 'n' || key == 'm' || key == 'r' ==> kana.len() == 1 && other.len() == 1 && codes
                == places
            &&& key == 'k' || key == 'g' || key == 's' || key == 'z' ==> kana.len() == 1
                && other.len() == 1 && codes == 2 * places
            &&& key == 'h' || key == 'b' || key == 'p' ==> kana.len() == 1 && other.len() == 1
                && codes == 3 * places
        }),
{
    an_entry_is_sound(left);
    an_entry_is_sound(right);
    reveal(is_sound);
}

/// Each row begins with its own kana.
pub proof fn rows_begin_with_their_kana(index: int)
    requires
        0 <= index < ROMAJI_TABLE_LENGTH,
        ROMAJI_TABLE@[index].0@.len() == 2,
        ROMAJI_TABLE@[index].0@[1] == 'a',
    ensures
        ({
            let key = ROMAJI_TABLE@[index].0@[0];
            let kana = ROMAJI_TABLE@[index].1@;
            &&& key == 'k' ==> kana.len() == 1 && kana[0] == 'か'
            &&& key == 's' ==> kana.len() == 1 && kana[0] == 'さ'
            &&& key == 't' ==> kana.len() == 1 && kana[0] == 'た'
            &&& key == 'n' ==> kana.len() == 1 && kana[0] == 'な'
            &&& key == 'h' ==> kana.len() == 1 && kana[0] == 'は'
            &&& key == 'm' ==> kana.len() == 1 && kana[0] == 'ま'
            &&& key == 'y' ==> kana.len() == 1 && kana[0] == 'や'
            &&& key == 'r' ==> kana.len() == 1 && kana[0] == 'ら'
            &&& key == 'w' ==> kana.len() == 1 && kana[0] == 'わ'
            &&& key == 'c' ==> kana.len() == 1 && kana[0] == 'か'
            &&& key == 'x' ==> kana.len() == 1 && kana[0] == 'ぁ'
            &&& key == 'l' ==> kana.len() == 1 && kana[0] == 'ぁ'
        }),
{
    an_entry_is_sound(index);
    reveal(is_sound);
    a_code_names_one_character(ROMAJI_TABLE@[index].1@[0], 'か');
    a_code_names_one_character(ROMAJI_TABLE@[index].1@[0], 'さ');
    a_code_names_one_character(ROMAJI_TABLE@[index].1@[0], 'た');
    a_code_names_one_character(ROMAJI_TABLE@[index].1@[0], 'な');
    a_code_names_one_character(ROMAJI_TABLE@[index].1@[0], 'は');
    a_code_names_one_character(ROMAJI_TABLE@[index].1@[0], 'ま');
    a_code_names_one_character(ROMAJI_TABLE@[index].1@[0], 'や');
    a_code_names_one_character(ROMAJI_TABLE@[index].1@[0], 'ら');
    a_code_names_one_character(ROMAJI_TABLE@[index].1@[0], 'わ');
    a_code_names_one_character(ROMAJI_TABLE@[index].1@[0], 'か');
    a_code_names_one_character(ROMAJI_TABLE@[index].1@[0], 'ぁ');
    a_code_names_one_character(ROMAJI_TABLE@[index].1@[0], 'ぁ');
}

/// A voiced consonant stands for the kana one code behind that of the voiceless one, and `p` for the
/// one two codes behind that of `h`.
pub proof fn voiced_kana_stand_behind_the_others(left: int, right: int)
    requires
        0 <= left < ROMAJI_TABLE_LENGTH,
        0 <= right < ROMAJI_TABLE_LENGTH,
        ROMAJI_TABLE@[left].0@.len() == 2,
        ROMAJI_TABLE@[right].0@.len() == 2,
        ROMAJI_TABLE@[left].0@[1] == ROMAJI_TABLE@[right].0@[1],
        vowel(ROMAJI_TABLE@[left].0@[1]),
    ensures
        ({
            let (key, voiced) = (ROMAJI_TABLE@[left].0@[0], ROMAJI_TABLE@[right].0@[0]);
            let (kana, other) = (ROMAJI_TABLE@[left].1@, ROMAJI_TABLE@[right].1@);
            let codes = other[0] as u32 - kana[0] as u32;
            &&& (key == 'k' && voiced == 'g') || (key == 's' && voiced == 'z') || (key == 't' && voiced
                == 'd') || (key == 'h' && voiced == 'b') ==> other.len() == 1 && codes == 1
            &&& key == 'h' && voiced == 'p' ==> other.len() == 1 && codes == 2
        }),
{
    an_entry_is_sound(left);
    an_entry_is_sound(right);
    reveal(is_sound);
}

/// The row of `t` has the small tsu between its second and its third kana.
pub proof fn the_small_tsu_stands_within_its_row(index: int)
    requires
        0 <= index < ROMAJI_TABLE_LENGTH,
        ROMAJI_TABLE@[index].0@.len() == 2,
        ROMAJI_TABLE@[index].0@[0] == 't',
    ensures
        ({
            let key = ROMAJI_TABLE@[index].0@[1];
            let kana = ROMAJI_TABLE@[index].1@;
            &&& kana.len() == 1
            &&& key == 'a' ==> kana[0] == 'た'
            &&& key == 'i' ==> kana[0] == 'ち'
            &&& key == 'u' ==> kana[0] == 'つ'
            &&& key == 'e' ==> kana[0] == 'て'
            &&& key == 'o' ==> kana[0] == 'と'
        }),
{
    an_entry_is_sound(index);
    reveal(is_sound);
    a_code_names_one_character(ROMAJI_TABLE@[index].1@[0], 'た');
    a_code_names_one_character(ROMAJI_TABLE@[index].1@[0], 'ち');
    a_code_names_one_character(ROMAJI_TABLE@[index].1@[0], 'つ');
    a_code_names_one_character(ROMAJI_TABLE@[index].1@[0], 'て');
    a_code_names_one_character(ROMAJI_TABLE@[index].1@[0], 'と');
}

/// With a `y` between a consonant and a vowel, the kana of the consonant with `i` stands before a small
/// one.
pub proof fn a_glide_follows_the_kana_with_i(left: int, right: int)
    requires
        0 <= left < ROMAJI_TABLE_LENGTH,
        0 <= right < ROMAJI_TABLE_LENGTH,
        ROMAJI_TABLE@[left].0@.len() == 2,
        ROMAJI_TABLE@[right].0@.len() == 3,
        ROMAJI_TABLE@[left].0@[0] == ROMAJI_TABLE@[right].0@[0],
        ROMAJI_TABLE@[left].0@[1] == 'i',
        ROMAJI_TABLE@[right].0@[1] == 'y',
        has_row(ROMAJI_TABLE@[left].0@[0]) || ROMAJI_TABLE@[left].0@[0] == 'j',
    ensures
        ({
            let key = ROMAJI_TABLE@[right].0@[2];
            let kana = ROMAJI_TABLE@[right].1@;
            &&& ROMAJI_TABLE@[left].1@.len() == 1 && kana.len() == 2 && kana[0] == ROMAJI_TABLE@[left].1@[0]
            &&& key == 'a' ==> kana[1] == 'ゃ'
            &&& key == 'i' ==> kana[1] == 'ぃ'
            &&& key == 'u' ==> kana[1] == 'ゅ'
            &&& key == 'e' ==> kana[1] == 'ぇ'
            &&& key == 'o' ==> kana[1] == 'ょ'
        }),
{
    an_entry_is_sound(left);
    an_entry_is_sound(right);
    reveal(is_sound);
    a_code_names_one_character(ROMAJI_TABLE@[right].1@[1], 'ゃ');
    a_code_names_one_character(ROMAJI_TABLE@[right].1@[1], 'ぃ');
    a_code_names_one_character(ROMAJI_TABLE@[right].1@[1], 'ゅ');
    a_code_names_one_character(ROMAJI_TABLE@[right].1@[1], 'ぇ');
    a_code_names_one_character(ROMAJI_TABLE@[right].1@[1], 'ょ');
    a_code_names_one_character(ROMAJI_TABLE@[left].1@[0], ROMAJI_TABLE@[right].1@[0]);
}

/// With a `w` between a consonant and a vowel, the kana of the consonant with `u`, or with `o` for `t` and
/// `d`, stands before a small vowel.
pub proof fn a_small_vowel_follows_the_kana_with_u(left: int, right: int)
    requires
        0 <= left < ROMAJI_TABLE_LENGTH,
        0 <= right < ROMAJI_TABLE_LENGTH,
        ROMAJI_TABLE@[left].0@.len() == 2,
        ROMAJI_TABLE@[right].0@.len() == 3,
        ROMAJI_TABLE@[left].0@[0] == ROMAJI_TABLE@[right].0@[0],
        ROMAJI_TABLE@[right].0@[1] == 'w',
        has_row(ROMAJI_TABLE@[left].0@[0]),
        ROMAJI_TABLE@[left].0@[1] == (if ROMAJI_TABLE@[left].0@[0] == 't' || ROMAJI_TABLE@[left].0@[0] == 'd' {
            'o'
        } else {
            'u'
        }),
    ensures
        ({
            let key = ROMAJI_TABLE@[right].0@[2];
            let kana = ROMAJI_TABLE@[right].1@;
            &&& ROMAJI_TABLE@[left].1@.len() == 1 && kana.len() == 2 && kana[0] == ROMAJI_TABLE@[left].1@[0]
            &&& key == 'a' ==> kana[1] == 'ぁ'
            &&& key == 'i' ==> kana[1] == 'ぃ'
            &&& key == 'u' ==> kana[1] == 'ぅ'
            &&& key == 'e' ==> kana[1] == 'ぇ'
            &&& key == 'o' ==> kana[1] == 'ぉ'
        }),
{
    an_entry_is_sound(left);
    an_entry_is_sound(right);
    reveal(is_sound);
    a_code_names_one_character(ROMAJI_TABLE@[right].1@[1], 'ぁ');
    a_code_names_one_character(ROMAJI_TABLE@[right].1@[1], 'ぃ');
    a_code_names_one_character(ROMAJI_TABLE@[right].1@[1], 'ぅ');
    a_code_names_one_character(ROMAJI_TABLE@[right].1@[1], 'ぇ');
    a_code_names_one_character(ROMAJI_TABLE@[right].1@[1], 'ぉ');
    a_code_names_one_character(ROMAJI_TABLE@[left].1@[0], ROMAJI_TABLE@[right].1@[0]);
}

/// An `x` or `l` before a vowel, or before `y` with `a`, `u` or `o`, stands for the small kana, one code
/// before the other one; both keys mean the same.
pub proof fn small_kana_stand_before_the_others(left: int, right: int)
    requires
        0 <= left < ROMAJI_TABLE_LENGTH,
        0 <= right < ROMAJI_TABLE_LENGTH,
        ROMAJI_TABLE@[right].0@[0] == 'x' || ROMAJI_TABLE@[right].0@[0] == 'l',
        ROMAJI_TABLE@[right].0@.len() == ROMAJI_TABLE@[left].0@.len() + 1,
        ROMAJI_TABLE@[right].0@[1] == ROMAJI_TABLE@[left].0@[0],
        ROMAJI_TABLE@[left].0@.len() == 1 || (ROMAJI_TABLE@[left].0@.len() == 2 && ROMAJI_TABLE@[left].0@[0] == 'y' && ROMAJI_TABLE@[left].0@[1] != 'e' && ROMAJI_TABLE@[left].0@[1] == ROMAJI_TABLE@[right].0@[2]),
        ROMAJI_TABLE@[left].0@[0] != 'n',
    ensures
        ROMAJI_TABLE@[left].1@.len() == 1 && ROMAJI_TABLE@[right].1@.len() == 1,
        ROMAJI_TABLE@[right].1@[0] as u32 + 1 == ROMAJI_TABLE@[left].1@[0] as u32,
{
    an_entry_is_sound(left);
    an_entry_is_sound(right);
    reveal(is_sound);
}

/// Both keys for small kana mean the same.
pub proof fn both_keys_make_small_kana(left: int, right: int)
    requires
        0 <= left < ROMAJI_TABLE_LENGTH,
        0 <= right < ROMAJI_TABLE_LENGTH,
        ROMAJI_TABLE@[left].0@[0] == 'x',
        ROMAJI_TABLE@[right].0@[0] == 'l',
        ROMAJI_TABLE@[left].0@.skip(1) == ROMAJI_TABLE@[right].0@.skip(1),
    ensures
        ROMAJI_TABLE@[left].1@ == ROMAJI_TABLE@[right].1@,
{
    an_entry_is_sound(left);
    an_entry_is_sound(right);
    reveal(is_sound);
    let (one, other) = (ROMAJI_TABLE@[left].0@, ROMAJI_TABLE@[right].0@);
    assert(one.skip(1).len() == other.skip(1).len());
    assert forall|i: int| 1 <= i < one.len() implies one[i] == other[i] by {
        assert(one[i] == one.skip(1)[i - 1]);
        assert(other[i] == other.skip(1)[i - 1]);
    }
    let (kana, same) = (ROMAJI_TABLE@[left].1@, ROMAJI_TABLE@[right].1@);
    a_code_names_one_character(kana[0], same[0]);
    a_code_names_one_character(kana[1], same[1]);
    assert(kana.len() == same.len());
    assert(kana =~= same);
}

/// Several spellings mean the same: `sh` and `sy`, `ch`, `cy` and `ty`, `j`, `jy` and `zy`, before
/// the same vowel, other than `i`; and `hw` and `f`, `kw` and `q` before the same vowel, other than `u`.
pub proof fn several_spellings_mean_the_same(left: int, right: int)
    requires
        0 <= left < ROMAJI_TABLE_LENGTH,
        0 <= right < ROMAJI_TABLE_LENGTH,
        ROMAJI_TABLE@[left].0@.len() >= 2,
        ROMAJI_TABLE@[right].0@.len() >= 2,
        ROMAJI_TABLE@[left].0@.last() == ROMAJI_TABLE@[right].0@.last(),
        ({
            let (one, other) = (ROMAJI_TABLE@[left].0@.drop_last(), ROMAJI_TABLE@[right].0@.drop_last());
            ||| one == seq!['s', 'h'] && other == seq!['s', 'y'] && ROMAJI_TABLE@[left].0@.last() != 'i'
            ||| one == seq!['c', 'h'] && other == seq!['t', 'y'] && ROMAJI_TABLE@[left].0@.last() != 'i'
            ||| one == seq!['c', 'y'] && other == seq!['t', 'y']
            ||| one == seq!['j', 'y'] && other == seq!['z', 'y']
            ||| one == seq!['j'] && other == seq!['z', 'y'] && ROMAJI_TABLE@[left].0@.last() != 'i'
            ||| one == seq!['h', 'w'] && other == seq!['f'] && ROMAJI_TABLE@[left].0@.last() != 'u'
            ||| one == seq!['k', 'w'] && other == seq!['q'] && ROMAJI_TABLE@[left].0@.last() != 'u'
        }),
        vowel(ROMAJI_TABLE@[left].0@.last()),
    ensures
        ROMAJI_TABLE@[left].1@ == ROMAJI_TABLE@[right].1@,
{
    an_entry_is_sound(left);
    an_entry_is_sound(right);
    reveal(is_sound);
    let (one, other) = (ROMAJI_TABLE@[left].0@, ROMAJI_TABLE@[right].0@);
    assert(one.len() == one.drop_last().len() + 1 && other.len() == other.drop_last().len() + 1);
    assert(one[0] == one.drop_last()[0] && other[0] == other.drop_last()[0]);
    if one.len() == 3 {
        assert(one[1] == one.drop_last()[1]);
    }
    if other.len() == 3 {
        assert(other[1] == other.drop_last()[1]);
    }
    let (kana, same) = (ROMAJI_TABLE@[left].1@, ROMAJI_TABLE@[right].1@);
    a_code_names_one_character(kana[0], same[0]);
    a_code_names_one_character(kana[1], same[1]);
    assert(kana.len() == same.len());
    assert(kana =~= same);
}

/// An entry stands for an arrow exactly if its keys are `z` and one of `h`, `j`, `k`, `l` and `m`: to the
/// left, down, up, and to the right for the last two. Every other entry stands for one or two kana.
pub proof fn arrows_have_their_keys(index: int)
    requires
        0 <= index < ROMAJI_TABLE_LENGTH,
    ensures
        ({
            let keys = ROMAJI_TABLE@[index].0@;
            let kana = ROMAJI_TABLE@[index].1@;
            let short = keys.len() == 2 && keys[0] == 'z';
            &&& short && keys[1] == 'h' ==> kana == seq!['←']
            &&& short && keys[1] == 'j' ==> kana == seq!['↓']
            &&& short && keys[1] == 'k' ==> kana == seq!['↑']
            &&& short && (keys[1] == 'l' || keys[1] == 'm') ==> kana == seq!['→']
            &&& short && (keys[1] == 'h' || keys[1] == 'j' || keys[1] == 'k' || keys[1] == 'l'
                || keys[1] == 'm') || (0 < kana.len() <= 2 && forall|i: int|
                0 <= i < kana.len() ==> 0x3041 <= (#[trigger] kana[i]) as u32 <= 0x30f6)
        }),
{
    an_entry_is_sound(index);
    reveal(is_sound);
    a_code_names_one_character(ROMAJI_TABLE@[index].1@[0], '←');
    a_code_names_one_character(ROMAJI_TABLE@[index].1@[0], '↓');
    a_code_names_one_character(ROMAJI_TABLE@[index].1@[0], '↑');
    a_code_names_one_character(ROMAJI_TABLE@[index].1@[0], '→');
    let (keys, kana) = (ROMAJI_TABLE@[index].0@, ROMAJI_TABLE@[index].1@);
    let points = keys.len() == 2 && keys[0] == 'z' && (keys[1] == 'h' || keys[1] == 'j' || keys[1]
        == 'k' || keys[1] == 'l' || keys[1] == 'm');
    if points {
        assert(keys[1] == 'h' ==> kana =~= seq!['←']);
        assert(keys[1] == 'j' ==> kana =~= seq!['↓']);
        assert(keys[1] == 'k' ==> kana =~= seq!['↑']);
        assert(keys[1] == 'l' || keys[1] == 'm' ==> kana =~= seq!['→']);
    } else {
        assert(is_plain_spelling(keys));
        assert(keys.len() > 2 ==> key_or_space(keys, 2) != ' ');
        assert(0x3041 <= kana[0] as u32 <= 0x30f6);
        assert(kana.len() == 2 ==> 0x3041 <= kana[1] as u32 <= 0x30f6);
        assert forall|i: int| 0 <= i < kana.len() implies 0x3041 <= (#[trigger] kana[i]) as u32
            <= 0x30f6 by {
            assert(i == 0 || i == 1);
        }
        assert(0 < kana.len() <= 2);
    }
}

} // verus!
