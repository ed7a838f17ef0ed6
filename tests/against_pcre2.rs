use pcre2::bytes::{Regex, RegexBuilder};
use ukstemmer::catalog::{
    adjective_list, double_n_list, noun_list, ost_list, participle_list, perfective_ground_list,
    reflexive_list, soft_sign_list, superlative_list, trailing_i_list, verb_list,
};
use ukstemmer::matcher::{is_derivational, longest_ending_len};

fn compile(p: &str) -> Regex {
    RegexBuilder::new().utf(true).ucp(true).build(p).unwrap()
}

fn classes() -> Vec<(Regex, Vec<&'static str>)> {
    vec![
        (compile(r"(ив|ивши|ившись|ыв|ывши|ывшись((?<=[ая])(в|вши|вшись)))$"), perfective_ground_list()),
        (compile(r"(с[яьи])$"), reflexive_list()),
        (compile(r"(ими|ій|ий|а|е|ова|ове|ів|є|їй|єє|еє|я|ім|ем|им|ім|их|іх|ою|йми|іми|у|ю|ого|ому|ої)$"), adjective_list()),
        (compile(r"(ий|ого|ому|им|ім|а|ій|у|ою|ій|і|их|йми|их)$"), participle_list()),
        (compile(r"(сь|ся|ив|ать|ять|у|ю|ав|али|учи|ячи|вши|ши|е|ме|ати|яти|є)$"), verb_list()),
        (compile(r"(а|ев|ов|е|ями|ами|еи|и|ей|ой|ий|й|иям|ям|ием|ем|ам|ом|о|у|ах|иях|ях|ы|ь|ию|ью|ю|ия|ья|я|і|ові|ї|ею|єю|ою|є|еві|ем|єм|ів|їв|ю)$"), noun_list()),
        (compile(r"и$"), trailing_i_list()),
        (compile(r"ость$"), ost_list()),
        (compile(r"ь$"), soft_sign_list()),
        (compile(r"ейше?$"), superlative_list()),
        (compile(r"нн$"), double_n_list()),
    ]
}

/// Characters of the match that the engine finds, counted from its start to
/// the end of the subject; 0 without a match.
fn engine_suffix_len(re: &Regex, w: &str) -> usize {
    match re.find(w.as_bytes()).unwrap() {
        Some(m) => w[m.start()..].chars().count(),
        None => 0,
    }
}

#[test]
fn ending_classes_match_the_engine() {
    let classes = classes();
    let mut words: Vec<String> = Vec::new();
    let prefixes = ["", "к", "а", "и", "ов", "сь", "ій", "н"];
    for (_, list) in &classes {
        for e in list {
            for x in prefixes {
                words.push(format!("{}{}", x, e));
                words.push(format!("{}{}ь", x, e));
            }
        }
    }
    for w in ["ручкається", "рученька", "банньив", "молодостьив", "найбільшеє", "читавши", "ывшисьв"] {
        words.push(w.to_string());
    }
    for w in &words {
        let chars: Vec<char> = w.chars().collect();
        for (re, list) in &classes {
            assert_eq!(longest_ending_len(&chars, list), engine_suffix_len(re, w), "{}", w);
        }
    }
}

#[test]
fn derivational_marker_matches_the_engine() {
    let re = compile(r"[^аеиоуюяіїє][аеиоуюяіїє]+[^аеиоуюяіїє]+[аеиоуюяіїє].*(?<=о)сть?$");
    let alphabet = ['о', 'а', 'д', 'с', 'т', 'ь', '\n'];
    let mut current: Vec<Vec<char>> = vec![Vec::new()];
    for _ in 0..6 {
        let mut next = Vec::new();
        for w in &current {
            for c in alphabet {
                let mut v = w.clone();
                v.push(c);
                next.push(v);
            }
        }
        for w in &next {
            // A final line feed lets the engine's `$` match before it; the
            // marker is anchored at the very end.
            if w.last() == Some(&'\n') {
                continue;
            }
            let s: String = w.iter().collect();
            let engine = re.find(s.as_bytes()).unwrap().is_some();
            assert_eq!(is_derivational(w), engine, "{:?}", s);
        }
        current = next;
    }
    let long: Vec<char> = "молодость".chars().collect();
    assert!(is_derivational(&long));
}
