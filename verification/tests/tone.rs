use gochu_core::tone::{apply_tone, get_tone, strip_tone, Tone};

#[test]
fn from_telex_maps_all_keys() {
    assert_eq!(Tone::from_telex('s'), Some(Tone::Sac));
    assert_eq!(Tone::from_telex('f'), Some(Tone::Huyen));
    assert_eq!(Tone::from_telex('r'), Some(Tone::Hoi));
    assert_eq!(Tone::from_telex('x'), Some(Tone::Nga));
    assert_eq!(Tone::from_telex('j'), Some(Tone::Nang));
    assert_eq!(Tone::from_telex('z'), Some(Tone::Ngang));
    assert_eq!(Tone::from_telex('a'), None);
    assert_eq!(Tone::from_telex('1'), None);
}

#[test]
fn from_telex_uppercase() {
    assert_eq!(Tone::from_telex('S'), Some(Tone::Sac));
    assert_eq!(Tone::from_telex('Z'), Some(Tone::Ngang));
}

#[test]
fn apply_tone_all_variants() {
    assert_eq!(apply_tone('a', Tone::Sac), 'á');
    assert_eq!(apply_tone('a', Tone::Huyen), 'à');
    assert_eq!(apply_tone('a', Tone::Hoi), 'ả');
    assert_eq!(apply_tone('a', Tone::Nga), 'ã');
    assert_eq!(apply_tone('a', Tone::Nang), 'ạ');
    assert_eq!(apply_tone('a', Tone::Ngang), 'a');
}

#[test]
fn apply_tone_on_modified_vowels() {
    assert_eq!(apply_tone('â', Tone::Sac), 'ấ');
    assert_eq!(apply_tone('ê', Tone::Huyen), 'ề');
    assert_eq!(apply_tone('ơ', Tone::Hoi), 'ở');
    assert_eq!(apply_tone('ư', Tone::Nang), 'ự');
}

#[test]
fn apply_tone_uppercase() {
    assert_eq!(apply_tone('A', Tone::Sac), 'Á');
    assert_eq!(apply_tone('Ê', Tone::Huyen), 'Ề');
}

#[test]
fn apply_tone_replaces_existing() {
    assert_eq!(apply_tone('á', Tone::Huyen), 'à');
    assert_eq!(apply_tone('ề', Tone::Sac), 'ế');
}

#[test]
fn apply_tone_non_vowel_passthrough() {
    assert_eq!(apply_tone('b', Tone::Sac), 'b');
    assert_eq!(apply_tone('1', Tone::Huyen), '1');
}

#[test]
fn strip_tone_removes_all() {
    assert_eq!(strip_tone('á'), 'a');
    assert_eq!(strip_tone('ả'), 'a');
    assert_eq!(strip_tone('ạ'), 'a');
    assert_eq!(strip_tone('ề'), 'ê');
    assert_eq!(strip_tone('ự'), 'ư');
}

#[test]
fn strip_tone_no_tone_unchanged() {
    assert_eq!(strip_tone('a'), 'a');
    assert_eq!(strip_tone('â'), 'â');
    assert_eq!(strip_tone('b'), 'b');
}

#[test]
fn get_tone_identifies_correctly() {
    assert_eq!(get_tone('á'), Tone::Sac);
    assert_eq!(get_tone('à'), Tone::Huyen);
    assert_eq!(get_tone('ả'), Tone::Hoi);
    assert_eq!(get_tone('ã'), Tone::Nga);
    assert_eq!(get_tone('ạ'), Tone::Nang);
    assert_eq!(get_tone('a'), Tone::Ngang);
    assert_eq!(get_tone('b'), Tone::Ngang);
}

#[test]
fn roundtrip_apply_then_strip() {
    for base in ['a', 'ă', 'â', 'e', 'ê', 'o', 'ô', 'ơ', 'u', 'ư', 'y'] {
        for tone in [Tone::Sac, Tone::Huyen, Tone::Hoi, Tone::Nga, Tone::Nang] {
            let toned = apply_tone(base, tone);
            assert_eq!(strip_tone(toned), base, "strip(apply({base}, {tone:?}))");
            assert_eq!(get_tone(toned), tone, "get_tone(apply({base}, {tone:?}))");
        }
    }
}
