use gochu_core::transform::{apply_effect, classify_key, replay, KeyEffect};

#[test]
fn classify_tone_on_vowel() {
    let buf: Vec<char> = vec!['a'];
    let effect = classify_key('s', &buf);
    assert_eq!(
        effect,
        KeyEffect::ToneApplied {
            position: 0,
            replacement: 'á'
        }
    );
}

#[test]
fn classify_tone_no_vowel_falls_through() {
    let buf: Vec<char> = vec!['d'];
    let effect = classify_key('s', &buf);
    assert_eq!(effect, KeyEffect::Append('s'));
}

#[test]
fn classify_dd() {
    let buf: Vec<char> = vec!['d'];
    assert_eq!(
        classify_key('d', &buf),
        KeyEffect::DdApplied {
            position: 0,
            replacement: 'đ'
        }
    );
}

#[test]
fn classify_vowel_modify() {
    let buf: Vec<char> = vec!['a'];
    assert_eq!(
        classify_key('a', &buf),
        KeyEffect::VowelModified {
            position: 0,
            replacement: 'â'
        }
    );
}

#[test]
fn classify_w_modifies_u() {
    let buf: Vec<char> = vec!['u'];
    assert_eq!(
        classify_key('w', &buf),
        KeyEffect::VowelModified {
            position: 0,
            replacement: 'ư'
        }
    );
}

#[test]
fn classify_w_standalone() {
    let buf: Vec<char> = vec!['t'];
    assert_eq!(classify_key('w', &buf), KeyEffect::WAsVowel('ư'));
}

#[test]
fn classify_commit_on_space() {
    let buf: Vec<char> = vec!['a'];
    assert_eq!(classify_key(' ', &buf), KeyEffect::Commit(' '));
}

#[test]
fn classify_commit_on_digit() {
    let buf: Vec<char> = vec![];
    assert_eq!(classify_key('1', &buf), KeyEffect::Commit('1'));
}

#[test]
fn apply_effect_tone() {
    let buf = vec!['t', 'o', 'i'];
    let effect = KeyEffect::ToneApplied {
        position: 1,
        replacement: 'ó',
    };
    assert_eq!(apply_effect(&buf, &effect), vec!['t', 'ó', 'i']);
}

#[test]
fn apply_effect_append() {
    let buf = vec!['x'];
    assert_eq!(apply_effect(&buf, &KeyEffect::Append('i')), vec!['x', 'i']);
}

#[test]
fn replay_viet() {
    let raw: Vec<char> = "Vieejt".chars().collect();
    let result: String = replay(&raw).into_iter().collect();
    assert_eq!(result, "Việt");
}

#[test]
fn replay_dde() {
    let raw: Vec<char> = "ddeef".chars().collect();
    let result: String = replay(&raw).into_iter().collect();
    assert_eq!(result, "đề");
}

#[test]
fn replay_empty() {
    assert_eq!(replay(&[]), Vec::<char>::new());
}
