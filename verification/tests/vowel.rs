use gochu_core::tone::Tone;
use gochu_core::vowel::{
    apply_tone_to_buffer, is_modified_vowel, is_vowel, modify_vowel, remove_tone_from_buffer,
    tone_position,
};

// -- is_vowel --

#[test]
fn plain_vowels() {
    for c in ['a', 'e', 'i', 'o', 'u', 'y', 'A', 'E', 'I', 'O', 'U', 'Y'] {
        assert!(is_vowel(c), "{c} should be a vowel");
    }
}

#[test]
fn toned_vowels_are_vowels() {
    for c in ['á', 'à', 'ả', 'ã', 'ạ', 'ế', 'ồ', 'ự', 'ỳ'] {
        assert!(is_vowel(c), "{c} should be a vowel");
    }
}

#[test]
fn consonants_not_vowels() {
    for c in ['b', 'c', 'd', 'g', 'h', 'k', 'l', 'm', 'n', 'đ'] {
        assert!(!is_vowel(c), "{c} should not be a vowel");
    }
}

// -- is_modified_vowel --

#[test]
fn modified_vowels() {
    for c in ['ă', 'â', 'ê', 'ô', 'ơ', 'ư', 'Ă', 'Â', 'Ê', 'Ô', 'Ơ', 'Ư'] {
        assert!(is_modified_vowel(c), "{c} should be modified");
    }
}

#[test]
fn toned_modified_vowels() {
    for c in ['ắ', 'ầ', 'ễ', 'ồ', 'ở', 'ự'] {
        assert!(is_modified_vowel(c), "{c} should be modified");
    }
}

#[test]
fn plain_vowels_not_modified() {
    for c in ['a', 'e', 'i', 'o', 'u', 'y'] {
        assert!(!is_modified_vowel(c), "{c} should not be modified");
    }
}

// -- modify_vowel --

#[test]
fn modify_all_pairs() {
    assert_eq!(modify_vowel('a', 'a'), Some('â'));
    assert_eq!(modify_vowel('a', 'w'), Some('ă'));
    assert_eq!(modify_vowel('e', 'e'), Some('ê'));
    assert_eq!(modify_vowel('o', 'o'), Some('ô'));
    assert_eq!(modify_vowel('o', 'w'), Some('ơ'));
    assert_eq!(modify_vowel('u', 'w'), Some('ư'));
}

#[test]
fn modify_preserves_tone() {
    assert_eq!(modify_vowel('á', 'a'), Some('ấ'));
    assert_eq!(modify_vowel('è', 'e'), Some('ề'));
}

#[test]
fn modify_preserves_case() {
    assert_eq!(modify_vowel('A', 'a'), Some('Â'));
    assert_eq!(modify_vowel('O', 'w'), Some('Ơ'));
    assert_eq!(modify_vowel('U', 'w'), Some('Ư'));
}

#[test]
fn modify_invalid_pairs_return_none() {
    assert_eq!(modify_vowel('i', 'i'), None);
    assert_eq!(modify_vowel('u', 'u'), None);
    assert_eq!(modify_vowel('b', 'a'), None);
    assert_eq!(modify_vowel('a', 'e'), None);
}

// -- tone_position --

#[test]
fn no_vowels() {
    let buf: Vec<char> = "bcd".chars().collect();
    assert_eq!(tone_position(&buf), None);
}

#[test]
fn single_vowel() {
    let buf: Vec<char> = "ba".chars().collect();
    assert_eq!(tone_position(&buf), Some(1));
}

#[test]
fn modified_vowel_preferred() {
    let buf: Vec<char> = "thân".chars().collect();
    assert_eq!(tone_position(&buf), Some(2));
}

#[test]
fn two_vowels_open_syllable() {
    let buf: Vec<char> = "hoa".chars().collect();
    assert_eq!(tone_position(&buf), Some(1)); // 'o'
}

#[test]
fn two_vowels_closed_syllable() {
    let buf: Vec<char> = "toan".chars().collect();
    assert_eq!(tone_position(&buf), Some(2)); // 'a'
}

#[test]
fn three_vowels_second() {
    let buf: Vec<char> = vec!['n', 'g', 'ư', 'ơ', 'i'];
    assert_eq!(tone_position(&buf), Some(3)); // 'ơ'
}

// -- apply_tone_to_buffer / remove_tone_from_buffer --

#[test]
fn apply_and_remove_buffer() {
    let mut buf: Vec<char> = "ba".chars().collect();
    assert!(apply_tone_to_buffer(&mut buf, Tone::Sac));
    assert_eq!(buf, vec!['b', 'á']);
    assert!(remove_tone_from_buffer(&mut buf));
    assert_eq!(buf, vec!['b', 'a']);
}

#[test]
fn apply_tone_no_vowel_returns_false() {
    let mut buf: Vec<char> = "bc".chars().collect();
    assert!(!apply_tone_to_buffer(&mut buf, Tone::Sac));
}
