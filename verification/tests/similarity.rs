use resava::similarity::{distance, score, similarity, Score};

fn ratio(score: Score) -> f64 {
    if score.longest == 0 {
        1.0
    } else {
        1.0 - score.distance as f64 / score.longest as f64
    }
}

fn chars(text: &str) -> Vec<char> {
    text.chars().collect()
}

const SAMPLES: [&str; 12] = [
    "",
    "a",
    "ab",
    "ba",
    "kitten",
    "sitting",
    "int main(){return 0;}",
    "int main() { return 0; }",
    "print('hi')",
    "Ünïcödé téxt",
    "日本語のテキスト",
    "mov eax, 1 ret",
];

#[test]
fn similarity_to_self_is_one() {
    for a in SAMPLES {
        let score = similarity(a, a);
        assert_eq!(score.distance, 0);
        assert_eq!(score.longest, a.chars().count());
        assert!(score.is_one());
        assert_eq!(ratio(score), 1.0);
    }
}

#[test]
fn similarity_is_symmetric() {
    for a in SAMPLES {
        for b in SAMPLES {
            assert_eq!(similarity(a, b), similarity(b, a));
        }
    }
}

#[test]
fn similarity_lies_between_zero_and_one() {
    for a in SAMPLES {
        for b in SAMPLES {
            let score = similarity(a, b);
            assert!(score.distance <= score.longest);
            let value = ratio(score);
            assert!(0.0 <= value && value <= 1.0);
        }
    }
}

#[test]
fn similarity_of_empty_texts() {
    let both = similarity("", "");
    assert_eq!(both, Score { distance: 0, longest: 0 });
    assert!(both.is_one());
    assert_eq!(ratio(both), 1.0);
    let one = similarity("", "abc");
    assert_eq!(one, Score { distance: 3, longest: 3 });
    assert!(!one.is_one());
    assert_eq!(ratio(one), 0.0);
    assert_eq!(similarity("abc", ""), Score { distance: 3, longest: 3 });
}

#[test]
fn similarity_of_known_pairs() {
    assert_eq!(similarity("kitten", "sitting"), Score { distance: 3, longest: 7 });
    assert_eq!(similarity("flaw", "lawn"), Score { distance: 2, longest: 4 });
    assert_eq!(similarity("saturday", "sunday"), Score { distance: 3, longest: 8 });
    assert_eq!(similarity("abc", "xyz"), Score { distance: 3, longest: 3 });
    assert_eq!(similarity("ab", "ba"), Score { distance: 2, longest: 2 });
    assert_eq!(similarity("first", "second"), Score { distance: 6, longest: 6 });
    assert!((ratio(similarity("kitten", "sitting")) - 0.57142).abs() < 0.00001);
}

#[test]
fn similarity_counts_characters_not_bytes() {
    assert_eq!(similarity("é", "e"), Score { distance: 1, longest: 1 });
    assert_eq!(similarity("日本語", "日本"), Score { distance: 1, longest: 3 });
    assert_eq!(similarity("öüä", ""), Score { distance: 3, longest: 3 });
}

#[test]
fn distance_of_known_pairs() {
    assert_eq!(distance(&chars("kitten"), &chars("sitting")), 3);
    assert_eq!(distance(&chars("sitting"), &chars("kitten")), 3);
    assert_eq!(distance(&chars(""), &chars("")), 0);
    assert_eq!(distance(&chars(""), &chars("abc")), 3);
    assert_eq!(distance(&chars("abc"), &chars("")), 3);
    assert_eq!(distance(&chars("intention"), &chars("execution")), 5);
    assert_eq!(distance(&chars("a"), &chars("b")), 1);
    assert_eq!(distance(&chars("abcdef"), &chars("abdef")), 1);
}

#[test]
fn distance_agrees_with_strsim() {
    for a in SAMPLES {
        for b in SAMPLES {
            assert_eq!(distance(&chars(a), &chars(b)), strsim::levenshtein(a, b));
        }
    }
}

#[test]
fn distance_agrees_with_strsim_on_generated_texts() {
    let alphabet = ['a', 'b', 'c', ' ', 'é'];
    let mut state: u64 = 0x2545_f491_4f6c_dd1d;
    let mut texts: Vec<String> = Vec::new();
    for _ in 0..60 {
        state = state.wrapping_mul(6364136223846793005).wrapping_add(1442695040888963407);
        let len = ((state >> 59) % 9) as usize;
        let mut text = String::new();
        for _ in 0..len {
            state = state.wrapping_mul(6364136223846793005).wrapping_add(1442695040888963407);
            text.push(alphabet[((state >> 33) % alphabet.len() as u64) as usize]);
        }
        texts.push(text);
    }
    for a in &texts {
        for b in &texts {
            assert_eq!(distance(&chars(a), &chars(b)), strsim::levenshtein(a, b));
        }
    }
}

#[test]
fn score_agrees_with_strsim() {
    for a in SAMPLES {
        for b in SAMPLES {
            assert_eq!(ratio(similarity(a, b)), strsim::normalized_levenshtein(a, b));
        }
    }
}

#[test]
fn score_is_one_only_without_edits() {
    assert!(Score { distance: 0, longest: 5 }.is_one());
    assert!(Score { distance: 0, longest: 0 }.is_one());
    assert!(!Score { distance: 1, longest: 5 }.is_one());
    assert!(!Score { distance: 5, longest: 5 }.is_one());
}

#[test]
fn score_reaches_thresholds() {
    let score = Score { distance: 1, longest: 5 };
    assert!(score.at_least(8, 10));
    assert!(score.at_least(4, 5));
    assert!(score.at_least(0, 1));
    assert!(!score.at_least(81, 100));
    assert!(!score.at_least(1, 1));
    let full = Score { distance: 0, longest: 0 };
    assert!(full.at_least(1, 1));
    assert!(full.at_least(100, 100));
    let none = Score { distance: 3, longest: 3 };
    assert!(none.at_least(0, 100));
    assert!(!none.at_least(1, 100));
    let large = Score { distance: 1, longest: usize::MAX };
    assert!(large.at_least(u64::MAX - 1, u64::MAX));
    assert!(!large.at_least(u64::MAX, u64::MAX));
}

#[test]
fn score_of_characters_is_similarity_of_texts() {
    for a in SAMPLES {
        for b in SAMPLES {
            assert_eq!(score(&chars(a), &chars(b)), similarity(a, b));
        }
    }
    assert_eq!(score(&chars("kitten"), &chars("sitting")), Score { distance: 3, longest: 7 });
}

#[test]
fn similarity_of_long_texts() {
    let a = "int main() { return 0; }\n".repeat(120);
    let b = "int main() { return 1; }\n".repeat(100);
    let found = similarity(&a, &b);
    assert_eq!(found, Score { distance: 600, longest: 3000 });
    assert_eq!(found.distance, strsim::levenshtein(&a, &b));
    assert!(found.at_least(8, 10));
    assert!(!found.at_least(81, 100));
}
