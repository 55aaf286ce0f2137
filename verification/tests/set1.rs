use cryptopals::set1::{run_all, run_challenge_1, run_challenge_2, run_challenge_3};

#[test]
fn challenge_1_gives_the_expected_base64() {
    let o = run_challenge_1();
    assert!(o.passed);
    assert_eq!(
        o.line.unwrap(),
        "s1c1: I'm killing your brain like a poisonous mushroom"
    );
}

#[test]
fn challenge_2_gives_the_expected_hex() {
    let o = run_challenge_2();
    assert!(o.passed);
    assert_eq!(o.line.unwrap(), "s1c2: the kid don't play");
}

#[test]
fn challenge_3_finds_the_sentence() {
    let o = run_challenge_3();
    assert!(o.passed);
    assert_eq!(o.line.unwrap(), "s1c3: Cooking MC's like a pound of bacon");
}

#[test]
fn run_all_runs_the_three_in_order() {
    let all = run_all();
    assert_eq!(all.len(), 3);
    assert!(all.iter().all(|o| o.passed));
    let lines: Vec<String> = all.into_iter().map(|o| o.line.unwrap()).collect();
    assert_eq!(
        lines,
        vec![
            "s1c1: I'm killing your brain like a poisonous mushroom",
            "s1c2: the kid don't play",
            "s1c3: Cooking MC's like a pound of bacon",
        ]
    );
}
