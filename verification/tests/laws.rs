use gochu_core::engine::{Action, TelexEngine};
use gochu_core::release::{bump_version, read_version};
use gochu_core::tone::{apply_tone, get_tone, strip_tone, Tone};
use gochu_core::transform::{apply_effect, classify_key, replay, KeyEffect};
use gochu_core::vowel::{is_modified_vowel, is_vowel, modify_vowel, tone_position};

const TONES: [Tone; 6] = [Tone::Ngang, Tone::Sac, Tone::Huyen, Tone::Hoi, Tone::Nga, Tone::Nang];
const TABLE: &str = "aáàảãạăắằẳẵặâấầẩẫậeéèẻẽẹêếềểễệiíìỉĩịoóòỏõọôốồổỗộơớờởỡợuúùủũụưứừửữựyýỳỷỹỵ\
AÁÀẢÃẠĂẮẰẲẴẶÂẤẦẨẪẬEÉÈẺẼẸÊẾỀỂỄỆIÍÌỈĨỊOÓÒỎÕỌÔỐỒỔỖỘƠỚỜỞỠỢUÚÙỦŨỤƯỨỪỬỮỰYÝỲỶỸỴ";

#[test]
fn tone_roundtrip_on_every_vowel() {
    for c in TABLE.chars() {
        assert!(is_vowel(c), "{c}");
        for t in TONES {
            let toned = apply_tone(c, t);
            assert_eq!(strip_tone(toned), strip_tone(c), "{c} {t:?}");
            assert_eq!(get_tone(toned), t, "{c} {t:?}");
            assert!(is_vowel(toned));
        }
    }
    assert_eq!(TABLE.chars().count(), 144);
}

#[test]
fn tone_replacement_is_last_tone() {
    for c in TABLE.chars() {
        for t1 in TONES {
            for t2 in TONES {
                assert_eq!(apply_tone(apply_tone(c, t1), t2), apply_tone(c, t2));
            }
        }
    }
}

#[test]
fn ngang_strips_tone() {
    for c in TABLE.chars().chain("bđqz1 ".chars()) {
        assert_eq!(apply_tone(c, Tone::Ngang), strip_tone(c));
        assert_eq!(strip_tone(strip_tone(c)), strip_tone(c));
        assert_eq!(get_tone(strip_tone(c)), Tone::Ngang);
    }
}

#[test]
fn characters_outside_table_pass_through() {
    for c in "bcdđĐgqwBW0 .\u{3000}".chars() {
        assert!(!is_vowel(c));
        for t in TONES {
            assert_eq!(apply_tone(c, t), c);
        }
        assert_eq!(strip_tone(c), c);
        assert_eq!(get_tone(c), Tone::Ngang);
    }
}

#[test]
fn modify_keeps_tone_and_case() {
    assert_eq!(modify_vowel('Ó', 'o'), Some('Ố'));
    assert_eq!(modify_vowel('ụ', 'W'), Some('ự'));
    assert_eq!(modify_vowel('ẫ', 'a'), None);
    for c in TABLE.chars() {
        for m in ['a', 'e', 'o', 'w', 'A', 'W'] {
            if let Some(r) = modify_vowel(c, m) {
                assert!(is_modified_vowel(r));
                assert_eq!(get_tone(r), get_tone(c));
            }
        }
    }
}

#[test]
fn tone_position_cases() {
    let pos = |s: &str| -> Option<usize> {
        let v: Vec<char> = s.chars().collect();
        tone_position(&v)
    };
    assert_eq!(pos("gia"), Some(2));
    assert_eq!(pos("qua"), Some(2));
    assert_eq!(pos("gi"), Some(1));
    assert_eq!(pos("quyen"), Some(3));
    assert_eq!(pos("khuya"), Some(3));
    assert_eq!(pos("ươn"), Some(1));
    assert_eq!(pos(""), None);
}

#[test]
fn same_tone_key_twice_types_the_key() {
    let buf = vec!['s', 'ĩ'];
    assert_eq!(
        classify_key('x', &buf),
        KeyEffect::ToneClearAndAppend { position: 1, replacement: 'i', key: 'x' }
    );
    assert_eq!(apply_effect(&buf, &classify_key('x', &buf)), vec!['s', 'i', 'x']);
    let buf = vec!['a'];
    assert_eq!(
        classify_key('z', &buf),
        KeyEffect::ToneApplied { position: 0, replacement: 'a' }
    );
}

#[test]
fn dd_keeps_case_of_first_d() {
    assert_eq!(
        classify_key('D', &['D']),
        KeyEffect::DdApplied { position: 0, replacement: 'Đ' }
    );
    assert_eq!(
        classify_key('d', &['D']),
        KeyEffect::DdApplied { position: 0, replacement: 'Đ' }
    );
    assert_eq!(
        classify_key('D', &['d']),
        KeyEffect::DdApplied { position: 0, replacement: 'đ' }
    );
}

#[test]
fn backspace_and_delete_keys() {
    assert_eq!(classify_key('\x08', &['a']), KeyEffect::Backspace);
    assert_eq!(classify_key('\x7f', &[]), KeyEffect::Backspace);
    assert_eq!(classify_key('\n', &['a']), KeyEffect::Commit('\n'));
    assert_eq!(classify_key('đ', &['a']), KeyEffect::Commit('đ'));
}

#[test]
fn engine_display_is_replay_of_raw() {
    for word in ["Vieejt", "nguwowif", "sixx", "thaanf", "DDaays", "quaatj"] {
        let mut e = TelexEngine::new();
        for k in word.chars() {
            e.process_key(k);
            let raw: Vec<char> = e.get_raw().chars().collect();
            let shown: String = replay(&raw).into_iter().collect();
            assert_eq!(e.get_display(), shown);
            assert_eq!(e.is_composing(), !shown.is_empty());
        }
        assert_eq!(e.get_raw(), word);
    }
}

fn bases(s: &str) -> Vec<char> {
    s.chars().map(strip_tone).collect()
}

fn check_backspaces(word: &str) {
    let mut e = TelexEngine::new();
    for k in word.chars() {
        e.process_key(k);
    }
    while e.is_composing() {
        let before = e.get_display();
        match e.process_key('\x08') {
            Action::Composing(s) => assert_eq!(s, e.get_display()),
            Action::Commit(_) => panic!("backspace on a word commits nothing"),
        }
        let after = e.get_display();
        let mut kept = bases(&before);
        kept.pop();
        assert_eq!(bases(&after), kept, "{word}: {before} -> {after}");
    }
    assert_eq!(e.get_display(), "");
}

#[test]
fn backspace_deletes_exactly_one_character() {
    check_backspaces("nguwowif");
    check_backspaces("asss");
    check_backspaces("toans");
    check_backspaces("tuonw");
}

#[test]
fn backspace_deletes_one_character_of_every_short_word() {
    let keys = ['a', 'd', 'o', 'w', 's', 'f', 'n'];
    let mut words = vec![String::new()];
    for _ in 0..5 {
        let mut next = Vec::new();
        for w in &words {
            for k in keys {
                let mut v = w.clone();
                v.push(k);
                check_backspaces(&v);
                next.push(v);
            }
        }
        words = next;
    }
}

#[test]
fn backspace_after_repeated_tone_key() {
    let mut e = TelexEngine::new();
    for k in "asss".chars() {
        e.process_key(k);
    }
    assert_eq!(e.get_display(), "ás");
    assert_eq!(e.process_key('\x08'), Action::Composing("á".to_string()));
    assert_eq!(e.get_raw(), "as");
}

#[test]
fn commit_key_commits_word_and_key() {
    let mut e = TelexEngine::new();
    for k in "chaof".chars() {
        e.process_key(k);
    }
    assert_eq!(e.process_key('!'), Action::Commit("chào!".to_string()));
    assert_eq!(e.get_display(), "");
    assert_eq!(e.get_raw(), "");
    assert!(!e.is_composing());
}

#[test]
fn clone_keeps_state() {
    let mut e = TelexEngine::new();
    e.process_key('a');
    let c = e.clone();
    assert_eq!(c.get_display(), "a");
    assert_eq!(c.get_raw(), "a");
    assert!(c.is_composing());
}

#[test]
fn bump_then_read_gives_new_version() {
    let manifest: Vec<char> = "[package]\nnote = 'version = \"1.0\"'\n  version = \"1.0\"\r\n[dependencies]\n"
        .chars()
        .collect();
    assert_eq!(read_version(&manifest), Ok("1.0".to_string()));
    let current: Vec<char> = "1.0".chars().collect();
    let next: Vec<char> = "2.0-beta".chars().collect();
    let bumped = bump_version(&manifest, &current, &next).unwrap();
    let bumped_chars: Vec<char> = bumped.chars().collect();
    assert_eq!(read_version(&bumped_chars), Ok("2.0-beta".to_string()));
}
