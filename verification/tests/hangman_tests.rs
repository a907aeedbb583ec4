use rusty_anna::hangman::{
    contains_score, list_hiscores, sort_hiscores, update_hiscore, HangmanGame, Score,
};

fn score(name: &str, id: &str, points: u16) -> Score {
    Score { name: name.to_string(), id: id.to_string(), score: points }
}

fn game(word: &str) -> HangmanGame {
    HangmanGame::init(vec![word.to_string()], vec![])
}

#[test]
fn init_draws_from_the_words() {
    let g = game("apple");
    assert_eq!(g.word(), "apple");
    assert!(g.guessed().is_empty());
    assert!(g.hiscores().is_empty());
    assert_eq!(g.words(), &vec!["apple".to_string()]);
    let words = vec!["initial".to_string(), "pear".to_string(), "plum".to_string()];
    for _ in 0..20 {
        let g = HangmanGame::init(words.clone(), vec![score("a", "1", 2)]);
        assert!(g.word() == "pear" || g.word() == "plum");
        assert_eq!(g.hiscores().len(), 1);
    }
    let only = HangmanGame::init(vec!["initial".to_string()], vec![]);
    assert_eq!(only.word(), "initial");
}

#[test]
fn load_words_loads_nothing() {
    let mut g = game("apple");
    assert!(g.load_words().is_empty());
    assert_eq!(g.word(), "apple");
}

#[test]
fn guesses_reveal_letters() {
    let mut g = game("apple");
    assert_eq!(g.display_word(), "_____");
    assert_eq!(g.make_a_guess('p', "u1".to_string(), "alice".to_string()), "Yep.\n_pp__");
    assert_eq!(g.make_a_guess('z', "u1".to_string(), "alice".to_string()), "Nop.\n_pp__");
    assert_eq!(
        g.make_a_guess('p', "u1".to_string(), "alice".to_string()),
        "Letter has already been guessed."
    );
    assert_eq!(g.guessed(), &vec!['p', 'z']);
}

#[test]
fn completing_the_word_is_not_reported_as_a_win() {
    let mut g = game("apple");
    g.make_a_guess('a', "u1".to_string(), "alice".to_string());
    g.make_a_guess('p', "u1".to_string(), "alice".to_string());
    g.make_a_guess('l', "u1".to_string(), "alice".to_string());
    assert!(!g.check_win());
    assert_eq!(g.make_a_guess('e', "u1".to_string(), "alice".to_string()), "Yep.\napple");
    assert!(g.check_win());
    assert!(g.hiscores().is_empty());
    assert_eq!(g.word(), "apple");
}

#[test]
fn check_win_on_empty_word() {
    let mut g = game("");
    assert!(g.check_win());
    assert_eq!(g.display_word(), "");
}

#[test]
fn score_lines() {
    let mut s = score("bob", "1", 3);
    assert_eq!(s.display(), "\"bob\":    3\n");
    let mut g = HangmanGame::init(vec!["x".to_string()], vec![s, score("eve", "2", 12)]);
    assert_eq!(g.display_hiscores(), "\"bob\":    3\n\"eve\":    12\n");
    assert_eq!(game("x").display_hiscores(), "");
}

#[test]
fn hiscore_notice() {
    assert_eq!(list_hiscores(&vec![]), "No hiscores to show.");
    assert_eq!(list_hiscores(&vec![score("a", "1", 1)]), "Not yet implemented.");
}

#[test]
fn update_adds_new_players() {
    let mut table = vec![score("a", "1", 4)];
    update_hiscore(&mut table, "2".to_string(), "bee".to_string());
    assert_eq!(table.len(), 2);
    assert_eq!(table[1].name, "bee");
    assert_eq!(table[1].id, "2");
    assert_eq!(table[1].score, 1);
    assert!(contains_score(&table, "2".to_string()));
    assert!(!contains_score(&table, "3".to_string()));
}

#[test]
fn update_bumps_known_players() {
    let mut table = vec![score("a", "1", 4), score("b", "2", u16::MAX), score("c", "1", 0)];
    update_hiscore(&mut table, "1".to_string(), "renamed".to_string());
    assert_eq!(table[0].score, 5);
    assert_eq!(table[0].name, "renamed");
    assert_eq!(table[2].score, 1);
    assert_eq!(table[2].name, "renamed");
    update_hiscore(&mut table, "2".to_string(), "new".to_string());
    assert_eq!(table[1].score, u16::MAX);
    assert_eq!(table[1].name, "b");
    assert_eq!(table.len(), 3);
}

#[test]
fn sort_is_stable_by_points() {
    let mut table = vec![score("a", "1", 3), score("b", "2", 1), score("c", "3", 3), score("d", "4", 0)];
    sort_hiscores(&mut table);
    let names: Vec<&str> = table.iter().map(|s| s.name.as_str()).collect();
    assert_eq!(names, vec!["d", "b", "a", "c"]);
}
