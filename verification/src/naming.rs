//! Display names from ordinals: a Roman numeral for a planet among the
//! planets of its star, a capital letter for a moon among the moons of its
//! planet.

use vstd::prelude::*;
use vstd::string::*;

verus! {

/// How many planets of one star can be named: the numerals run from I to XII.
pub const MAX_PLANETS: usize = 12;

/// How many moons of one planet can be named: the letters run from A to Z.
pub const MAX_MOONS: usize = 26;

/// The Roman numeral of the planet with ordinal `ordinal`, counted from
/// zero: I for the first planet, XII for the twelfth and last.
pub open spec fn roman_numeral(ordinal: nat) -> Seq<char> {
    if ordinal == 0 {
        "I"@
    } else if ordinal == 1 {
        "II"@
    } else if ordinal == 2 {
        "III"@
    } else if ordinal == 3 {
        "IV"@
    } else if ordinal == 4 {
        "V"@
    } else if ordinal == 5 {
        "VI"@
    } else if ordinal == 6 {
        "VII"@
    } else if ordinal == 7 {
        "VIII"@
    } else if ordinal == 8 {
        "IX"@
    } else if ordinal == 9 {
        "X"@
    } else if ordinal == 10 {
        "XI"@
    } else if ordinal == 11 {
        "XII"@
    } else {
        Seq::empty()
    }
}

/// What a Roman digit counts for.
pub open spec fn digit_value(digit: char) -> int {
    if digit == 'I' {
        1
    } else if digit == 'V' {
        5
    } else if digit == 'X' {
        10
    } else {
        0
    }
}

/// The number that a Roman numeral stands for: each digit counts for its
/// value, and against it where a greater digit follows.
pub open spec fn numeral_value(numeral: Seq<char>) -> int
    decreases numeral.len(),
{
    if numeral.len() == 0 {
        0
    } else if numeral.len() >= 2 && digit_value(numeral[0]) < digit_value(numeral[1]) {
        numeral_value(numeral.skip(1)) - digit_value(numeral[0])
    } else {
        numeral_value(numeral.skip(1)) + digit_value(numeral[0])
    }
}

/// The numeral of a planet stands for its ordinal, counted from one.
pub proof fn lemma_roman_numeral_value(ordinal: nat)
    requires
        ordinal < MAX_PLANETS,
    ensures
        numeral_value(roman_numeral(ordinal)) == ordinal + 1,
{
    reveal_strlit("I");
    reveal_strlit("II");
    reveal_strlit("III");
    reveal_strlit("IV");
    reveal_strlit("V");
    reveal_strlit("VI");
    reveal_strlit("VII");
    reveal_strlit("VIII");
    reveal_strlit("IX");
    reveal_strlit("X");
    reveal_strlit("XI");
    reveal_strlit("XII");
    reveal_with_fuel(numeral_value, 5);
    let numeral = roman_numeral(ordinal);
    let two = numeral.skip(1);
    let three = two.skip(1);
    let four = three.skip(1);
    assert(numeral.len() >= 1 ==> two.len() == numeral.len() - 1);
    assert(two.len() >= 1 ==> three.len() == two.len() - 1);
    assert(three.len() >= 1 ==> four.len() == three.len() - 1);
    assert(numeral.len() >= 2 ==> two[0] == numeral[1]);
    assert(numeral.len() >= 3 ==> two[1] == numeral[2] && three[0] == numeral[2]);
    assert(numeral.len() >= 4 ==> two[2] == numeral[3] && three[1] == numeral[3] && four[0] == numeral[3]);
}

/// The letter of the moon with ordinal `ordinal`, counted from zero: A for
/// the first moon, Z for the twenty-sixth and last.
pub open spec fn abc_char(ordinal: nat) -> char {
    (('A' as u8) + ordinal) as u8 as char
}

/// The standard name of a body: the name of its star, a space and the
/// numeral of the planet; for a moon, a hyphen and its letter follow.
pub open spec fn standard_name(star: Seq<char>, planet: nat, moon: Option<nat>) -> Seq<char> {
    match moon {
        Some(moon) => star + " "@ + roman_numeral(planet) + "-"@ + seq![abc_char(moon)],
        None => star + " "@ + roman_numeral(planet),
    }
}

/// Whether the ordinals of a body can be rendered: the planet has a
/// numeral, and the moon, where there is one, has a letter.
pub open spec fn nameable(planet: nat, moon: Option<nat>) -> bool {
    &&& planet < MAX_PLANETS
    &&& moon matches Some(moon) ==> moon < MAX_MOONS
}

/// `String::push` of std appends one character to the end of the string and
/// leaves what was there as it was.
pub assume_specification[ String::push ](text: &mut String, letter: char)
    ensures
        final(text)@ == old(text)@.push(letter),
;

/// The Roman numeral of the planet with ordinal `i`, counted from zero.
pub fn get_roman_numeral(i: usize) -> (numeral: &'static str)
    requires
        i < MAX_PLANETS,
    ensures
        numeral@ == roman_numeral(i as nat),
{
    match i {
        0 => "I",
        1 => "II",
        2 => "III",
        3 => "IV",
        4 => "V",
        5 => "VI",
        6 => "VII",
        7 => "VIII",
        8 => "IX",
        9 => "X",
        10 => "XI",
        _ => "XII",
    }
}

/// The letter of the moon with ordinal `i`, counted from zero.
pub fn get_abc_char(i: usize) -> (letter: char)
    requires
        i < MAX_MOONS,
    ensures
        letter == abc_char(i as nat),
        'A' <= letter <= 'Z',
{
    let code: u8 = i as u8 + 65u8;
    code as char
}

/// The standard name of a body from the name of its star and its ordinals,
/// each counted from zero.
pub fn get_standard_name(star: &str, planet: usize, moon: Option<usize>) -> (name: String)
    requires
        planet < MAX_PLANETS,
        moon matches Some(m) ==> m < MAX_MOONS,
    ensures
        name@ == standard_name(
            star@,
            planet as nat,
            match moon {
                Some(m) => Some(m as nat),
                None => None,
            },
        ),
{
    let mut name = String::from_str(star);
    name.append(" ");
    name.append(get_roman_numeral(planet));
    if let Some(moon) = moon {
        name.append("-");
        name.push(get_abc_char(moon));
    }
    name
}

} // verus!
