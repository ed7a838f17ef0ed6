use ukstemmer::preprocess::{as_str, ukstemmer_search_preprocess};
use ukstemmer::stem_word;

fn stem(w: &str) -> String {
    stem_word(w.to_string())
}

fn pre(w: &str) -> String {
    ukstemmer_search_preprocess(w.to_string())
}

#[test]
fn stem_word_test() {
    assert_eq!(stem_word("ручкається".into()), "ручкаєт",);
}

#[test]
fn stem_noun_diminutive() {
    assert_eq!(stem("рученька"), "рученьк");
}

#[test]
fn stem_vowel_free_word_is_normal_form() {
    assert_eq!(stem("бвгґ"), "бвгґ");
    assert_eq!(stem("ВЖК"), "вжк");
    assert_eq!(stem("Ъ'"), "ї");
    assert_eq!(stem(""), "");
}

#[test]
fn stem_collapses_double_n_after_soft_sign() {
    assert_eq!(stem("банньив"), "бан");
}

#[test]
fn stem_keeps_double_n_without_soft_sign() {
    assert_eq!(stem("баннив"), "банн");
}

#[test]
fn stem_strips_derivational_suffix() {
    assert_eq!(stem("молодостьив"), "молод");
}

#[test]
fn stem_keeps_ost_after_noun_ending() {
    assert_eq!(stem("молодость"), "молодост");
}

#[test]
fn stem_adjective_then_participle() {
    // "ого" is an adjective ending; nothing of the participle class is left.
    assert_eq!(stem("великого"), "велик");
}

#[test]
fn stem_verb_ending() {
    assert_eq!(stem("писати"), "пис");
}

#[test]
fn stem_is_never_longer_than_normal_form() {
    for w in ["ручкається", "рученька", "банньив", "молодостьив", "ПИСАТИ", "бвг", "а", "я'сна"] {
        let p = pre(w);
        let s = stem(w);
        assert!(s.len() <= p.len());
        assert!(s.chars().count() <= p.chars().count());
        assert!(p.starts_with(&s));
    }
}

#[test]
fn restemming_may_shorten_further() {
    let once = stem("молоив");
    assert_eq!(once, "моло");
    assert_eq!(stem(&once), "мол");
}

#[test]
fn preprocess_lowercases_and_folds() {
    assert_eq!(pre("П'ЯТЬ"), "пять");
    assert_eq!(pre("Ёлка"), "елка");
    assert_eq!(pre("підЪїзд"), "підїїзд");
    assert_eq!(pre(""), "");
}

#[test]
fn preprocess_is_idempotent() {
    for w in ["П'ЯТЬ", "ЁЪ'", "Рученька", "abc'D"] {
        let once = pre(w);
        assert_eq!(pre(&once), once);
    }
}

#[test]
fn as_str_decodes_utf8() {
    assert_eq!(as_str("привіт".as_bytes()), "привіт");
    assert_eq!(as_str(b""), "");
}
