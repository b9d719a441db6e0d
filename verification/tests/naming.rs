use star_system::naming::{get_abc_char, get_roman_numeral, get_standard_name, MAX_MOONS, MAX_PLANETS};

#[test]
fn get_standard_names() {
    assert_eq!("Rigel IV", get_standard_name("Rigel", 3, None));
    assert_eq!("Rigel IV-C", get_standard_name("Rigel", 3, Some(2)));
}

#[test]
fn roman_numerals_run_from_one_to_twelve() {
    let expected = ["I", "II", "III", "IV", "V", "VI", "VII", "VIII", "IX", "X", "XI", "XII"];
    assert_eq!(expected.len(), MAX_PLANETS);
    for (ordinal, numeral) in expected.iter().enumerate() {
        assert_eq!(*numeral, get_roman_numeral(ordinal));
    }
}

#[test]
fn letters_run_from_a_to_z() {
    assert_eq!(MAX_MOONS, 26);
    assert_eq!('A', get_abc_char(0));
    assert_eq!('B', get_abc_char(1));
    assert_eq!('J', get_abc_char(9));
    assert_eq!('K', get_abc_char(10));
    assert_eq!('Z', get_abc_char(25));
    let letters: String = (0..MAX_MOONS).map(get_abc_char).collect();
    assert_eq!("ABCDEFGHIJKLMNOPQRSTUVWXYZ", letters);
}

#[test]
fn first_and_last_names() {
    assert_eq!("Sol I", get_standard_name("Sol", 0, None));
    assert_eq!("Sol III-A", get_standard_name("Sol", 2, Some(0)));
    assert_eq!("Sol XII", get_standard_name("Sol", 11, None));
    assert_eq!("Sol XII-Z", get_standard_name("Sol", 11, Some(25)));
}

#[test]
fn star_name_is_taken_as_it_is() {
    assert_eq!(" I", get_standard_name("", 0, None));
    assert_eq!("Alpha Centauri II-B", get_standard_name("Alpha Centauri", 1, Some(1)));
    assert_eq!("Sírius V", get_standard_name("Sírius", 4, None));
}
