use std::collections::HashMap;

use county::soundex;

#[test]
fn soundex_tests() {
    let test_cases: HashMap<&str, &str> = [
        ("TestCaseSensitivity", "T232"),
        ("testcasesensitivitY", "T232"),
        ("Washington", "W252"),
        ("Lee", "L000"),
        ("Gutierrez", "G362"),
        ("Pfister", "P236"),
        ("Jackson", "J250"),
        ("Tymczak", "T522"),
        ("VanDeusen", "V532"),
        ("Deusen", "D250"),
        ("Ashcraft", "A226"),
        ("Euler", "E460"),
        ("Gauss", "G200"),
        ("Hilbert", "H416"),
        ("Knuth", "K530"),
        ("Lloyd", "L300"),
        ("Lukasiewicz", "L222"),
        ("Ellery", "E460"),
        ("Ghosh", "G200"),
        ("Heilbronn", "H416"),
        ("Kant", "K530"),
        ("Ladd", "L300"),
        ("Lissajous", "L222"),
        ("blackberry", "B421"),
        ("calculate", "C424"),
        ("fox", "F200"),
        ("jump", "J510"),
        ("phonetics", "P532"),
        ("Soundex", "S532"),
        ("Example", "E251"),
        ("Sownteks", "S532"),
        ("Ekzampul", "E251"),
        ("Wheaton", "W350"),
        ("Burroughs", "B622"),
        ("Burrows", "B620"),
        ("O'Hara", "O600"),
    ]
    .iter()
    .cloned()
    .collect();

    for (key, expected) in &test_cases {
        let result = soundex(key);
        assert_eq!(result, *expected, "Test case failed for input: {}", key);
    }
}

#[test]
fn phonetic_classes() {
    assert_eq!(county::get_phonetic('b'), Some('1'));
    assert_eq!(county::get_phonetic('X'), Some('2'));
    assert_eq!(county::get_phonetic('d'), Some('3'));
    assert_eq!(county::get_phonetic('L'), Some('4'));
    assert_eq!(county::get_phonetic('n'), Some('5'));
    assert_eq!(county::get_phonetic('r'), Some('6'));
    assert_eq!(county::get_phonetic('a'), Some('0'));
    assert_eq!(county::get_phonetic('H'), Some('0'));
    assert_eq!(county::get_phonetic('\''), None);
    assert_eq!(county::get_phonetic('3'), None);
}
