//! A pig-latin style rewriting of a single word, driven by its first
//! character.
//!
//! A word starting with a consonant moves that character to the end behind a
//! hyphen and gains `ay`; one starting with a vowel keeps its characters and
//! gains `-hay`; anything else — an empty word, or one starting outside both
//! sets — is returned unchanged.

use vstd::prelude::*;

verus! {

/// The vowels recognized, plain and acute-accented, in both cases.
pub open spec fn spec_is_vowel(c: char) -> bool {
    ||| c == 'a' || c == 'e' || c == 'i' || c == 'o' || c == 'u'
    ||| c == 'A' || c == 'E' || c == 'I' || c == 'O' || c == 'U'
    ||| c == '\u{e1}' || c == '\u{e9}' || c == '\u{ed}' || c == '\u{f3}' || c == '\u{fa}'
    ||| c == '\u{c1}' || c == '\u{c9}' || c == '\u{cd}' || c == '\u{d3}' || c == '\u{da}'
}

/// The consonants recognized, including the tilde n, in both cases.
pub open spec fn spec_is_consonant(c: char) -> bool {
    ||| c == 'b' || c == 'c' || c == 'd' || c == 'f' || c == 'g' || c == 'h' || c == 'j'
    ||| c == 'k' || c == 'l' || c == 'm' || c == 'n' || c == '\u{f1}' || c == 'p' || c == 'q'
    ||| c == 'r' || c == 's' || c == 't' || c == 'v' || c == 'w' || c == 'x' || c == 'y'
    ||| c == 'z'
    ||| c == 'B' || c == 'C' || c == 'D' || c == 'F' || c == 'G' || c == 'H' || c == 'J'
    ||| c == 'K' || c == 'L' || c == 'M' || c == 'N' || c == '\u{d1}' || c == 'P' || c == 'Q'
    ||| c == 'R' || c == 'S' || c == 'T' || c == 'V' || c == 'W' || c == 'X' || c == 'Y'
    ||| c == 'Z'
}

/// The rewriting itself: consonant-first words rotate their first character
/// behind a hyphen and gain `ay`, vowel-first words gain `-hay`, all other
/// words stay as they are.
pub open spec fn spec_to_pig_latin(s: Seq<char>) -> Seq<char> {
    if s.len() == 0 {
        s
    } else if spec_is_consonant(s[0]) {
        s.subrange(1, s.len() as int) + "-"@ + s.subrange(0, 1) + "ay"@
    } else if spec_is_vowel(s[0]) {
        s + "-hay"@
    } else {
        s
    }
}

/// Decides `spec_is_vowel`.
pub fn is_vowel(c: &char) -> (r: bool)
    ensures
        r == spec_is_vowel(*c),
{
    match *c {
        'a' | 'e' | 'i' | 'o' | 'u' => true,
        'A' | 'E' | 'I' | 'O' | 'U' => true,
        '\u{e1}' | '\u{e9}' | '\u{ed}' | '\u{f3}' | '\u{fa}' => true,
        '\u{c1}' | '\u{c9}' | '\u{cd}' | '\u{d3}' | '\u{da}' => true,
        _ => false,
    }
}

/// Decides `spec_is_consonant`.
pub fn is_consonant(c: &char) -> (r: bool)
    ensures
        r == spec_is_consonant(*c),
{
    match *c {
        'b' | 'c' | 'd' | 'f' | 'g' | 'h' | 'j' | 'k' | 'l' | 'm' | 'n' | '\u{f1}' | 'p' | 'q'
            | 'r' | 's' | 't' | 'v' | 'w' | 'x' | 'y' | 'z' => true,
        'B' | 'C' | 'D' | 'F' | 'G' | 'H' | 'J' | 'K' | 'L' | 'M' | 'N' | '\u{d1}' | 'P' | 'Q'
            | 'R' | 'S' | 'T' | 'V' | 'W' | 'X' | 'Y' | 'Z' => true,
        _ => false,
    }
}

/// Rewrites one word as `spec_to_pig_latin` says.
pub fn to_pig_latin(s: &str) -> (r: String)
    ensures
        r@ == spec_to_pig_latin(s@),
{
    let mut result = String::new();
    let n = s.unicode_len();
    if n > 0 {
        let first_char = s.get_char(0);
        if is_consonant(&first_char) {
            result.append(s.substring_char(1, n));
            result.append("-");
            result.append(s.substring_char(0, 1));
            result.append("ay");
            proof {
                assert(result@ =~= spec_to_pig_latin(s@));
            }
        } else {
            result.append(s);
            if is_vowel(&first_char) {
                result.append("-hay");
            }
            proof {
                assert(result@ =~= spec_to_pig_latin(s@));
            }
        }
    } else {
        proof {
            assert(result@ =~= s@);
        }
    }
    result
}

} // verus!
