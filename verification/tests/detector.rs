use resava::preprocessors::{AsmPreprocessor, CPreprocessor, TextPreprocessor};
use resava::similarity::Score;
use resava::{detect, Document, Error, Resava};
use std::io::ErrorKind;

fn readable(path: &str, content: &str) -> Document {
    Document { path: path.to_string(), content: Ok(content.to_string()) }
}

fn unreadable(path: &str, kind: ErrorKind) -> Document {
    Document { path: path.to_string(), content: Err(std::io::Error::from(kind)) }
}

fn ratio(score: Score) -> f64 {
    if score.longest == 0 {
        1.0
    } else {
        1.0 - score.distance as f64 / score.longest as f64
    }
}

fn scored(entry: &Result<(String, Score), Error>) -> (&str, Score) {
    match entry {
        Ok((path, score)) => (path.as_str(), *score),
        Err(e) => panic!("no score: {:?}", e),
    }
}

fn failed(entry: &Result<(String, Score), Error>) -> (&str, ErrorKind) {
    match entry {
        Ok(found) => panic!("no failure: {:?}", found),
        Err(Error::IoError(path, cause)) => (path.as_str(), cause.kind()),
    }
}

#[test]
fn detect_scores_each_target() {
    let c = CPreprocessor::new();
    let results = detect(
        readable("main.c", "int main(){return 0;}"),
        vec![readable("spaced.c", "int main() { return 0; }"), readable("hi.py", "print('hi')")],
        Some(&c),
    );
    assert_eq!(results.len(), 2);
    let (path, score) = scored(&results[0]);
    assert_eq!(path, "spaced.c");
    assert_eq!(score, Score { distance: 3, longest: 24 });
    assert_eq!(ratio(score), 0.875);
    assert!(score.at_least(8, 10));
    let (path, score) = scored(&results[1]);
    assert_eq!(path, "hi.py");
    assert_eq!(score, Score { distance: 18, longest: 21 });
    assert!(ratio(score) < 0.2);
    assert!(!score.at_least(8, 10));
}

#[test]
fn detect_compares_normal_forms() {
    let c = CPreprocessor::new();
    let results = detect(
        readable("main.c", "int main(){return 0;}"),
        vec![
            readable("same.c", "INT\tmain(){return\n0;}"),
            readable("commented.c", "/* entry */int main(){return 0;}// done"),
            readable("trailing.c", "int main(){return 0;}\n"),
        ],
        Some(&c),
    );
    assert_eq!(results.len(), 3);
    let (path, score) = scored(&results[0]);
    assert_eq!(path, "same.c");
    assert_eq!(score, Score { distance: 0, longest: 21 });
    assert!(score.is_one());
    assert_eq!(ratio(score), 1.0);
    assert_eq!(scored(&results[1]), ("commented.c", Score { distance: 0, longest: 21 }));
    assert_eq!(scored(&results[2]), ("trailing.c", Score { distance: 1, longest: 22 }));
}

#[test]
fn detect_without_preprocessor_compares_as_is() {
    let results = detect(
        readable("a.txt", "Hello World"),
        vec![readable("b.txt", "hello  world"), readable("c.txt", "Hello World")],
        None::<&TextPreprocessor>,
    );
    assert_eq!(results.len(), 2);
    assert_eq!(scored(&results[0]), ("b.txt", Score { distance: 3, longest: 12 }));
    assert_eq!(scored(&results[1]), ("c.txt", Score { distance: 0, longest: 11 }));
    let plain = TextPreprocessor::new();
    let results = detect(
        readable("a.txt", "Hello World"),
        vec![readable("b.txt", "hello  world")],
        Some(&plain),
    );
    assert_eq!(scored(&results[0]), ("b.txt", Score { distance: 0, longest: 11 }));
}

#[test]
fn detect_skips_the_source_among_the_targets() {
    let assembly = AsmPreprocessor::new();
    let results = detect(
        readable("a.s", "mov eax, 1"),
        vec![
            readable("a.s", "mov eax, 1"),
            readable("b.s", "mov eax, 2"),
            unreadable("a.s", ErrorKind::NotFound),
            readable("a.s", "something else"),
        ],
        Some(&assembly),
    );
    assert_eq!(results.len(), 1);
    assert_eq!(scored(&results[0]), ("b.s", Score { distance: 1, longest: 10 }));
    let results = detect(
        readable("a.s", "mov eax, 1"),
        vec![readable("a.s", "mov eax, 1")],
        Some(&assembly),
    );
    assert!(results.is_empty());
}

#[test]
fn detect_tells_paths_apart_as_written() {
    let results = detect(
        readable("a.s", "x"),
        vec![readable("./a.s", "x"), readable("A.s", "x")],
        None::<&TextPreprocessor>,
    );
    assert_eq!(results.len(), 2);
    assert_eq!(scored(&results[0]).0, "./a.s");
    assert_eq!(scored(&results[1]).0, "A.s");
}

#[test]
fn detect_records_a_failed_target_and_goes_on() {
    let plain = TextPreprocessor::new();
    let results = detect(
        readable("src.txt", "some text"),
        vec![
            readable("one.txt", "Some  Text"),
            unreadable("gone.txt", ErrorKind::NotFound),
            readable("two.txt", "same text"),
            unreadable("locked.txt", ErrorKind::PermissionDenied),
            readable("three.txt", ""),
        ],
        Some(&plain),
    );
    assert_eq!(results.len(), 5);
    assert_eq!(scored(&results[0]), ("one.txt", Score { distance: 0, longest: 9 }));
    assert_eq!(failed(&results[1]), ("gone.txt", ErrorKind::NotFound));
    assert_eq!(scored(&results[2]), ("two.txt", Score { distance: 1, longest: 9 }));
    assert_eq!(failed(&results[3]), ("locked.txt", ErrorKind::PermissionDenied));
    assert_eq!(scored(&results[4]), ("three.txt", Score { distance: 9, longest: 9 }));
}

#[test]
fn detect_fails_as_a_whole_without_the_source() {
    let plain = TextPreprocessor::new();
    let results = detect(
        unreadable("src.txt", ErrorKind::NotFound),
        vec![readable("one.txt", "text"), unreadable("gone.txt", ErrorKind::InvalidData)],
        Some(&plain),
    );
    assert_eq!(results.len(), 1);
    assert_eq!(failed(&results[0]), ("src.txt", ErrorKind::NotFound));
    let results = detect(
        unreadable("src.txt", ErrorKind::InvalidData),
        Vec::new(),
        None::<&TextPreprocessor>,
    );
    assert_eq!(results.len(), 1);
    assert_eq!(failed(&results[0]), ("src.txt", ErrorKind::InvalidData));
}

#[test]
fn detect_without_targets_has_no_outcomes() {
    let results = detect(readable("src.txt", "text"), Vec::new(), None::<&TextPreprocessor>);
    assert!(results.is_empty());
}

#[test]
fn detect_gives_the_same_outcomes_again() {
    let c = CPreprocessor::new();
    let mut runs = Vec::new();
    for _ in 0..2 {
        let results = detect(
            readable("main.c", "int main(){return 0;}"),
            vec![
                readable("near.c", "int main() { return 1; }"),
                unreadable("gone.c", ErrorKind::NotFound),
                readable("main.c", "int main(){return 0;}"),
                readable("far.c", "/* nothing */"),
            ],
            Some(&c),
        );
        runs.push(format!("{:?}", results));
    }
    assert_eq!(runs[0], runs[1]);
}

#[test]
fn resava_runs_the_detection() {
    let c = CPreprocessor::new();
    let resava = Resava::new(
        readable("main.c", "int main(){return 0;}"),
        vec![
            readable("main.c", "int main(){return 0;}"),
            readable("copy.c", "int main() { return 0; } // copied"),
            unreadable("gone.c", ErrorKind::NotFound),
        ],
    );
    let results = resava.run(Some(&c));
    assert_eq!(results.len(), 2);
    assert_eq!(scored(&results[0]), ("copy.c", Score { distance: 4, longest: 25 }));
    assert_eq!(failed(&results[1]), ("gone.c", ErrorKind::NotFound));
}
