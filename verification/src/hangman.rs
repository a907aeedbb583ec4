//! The hangman game: a secret word, the letters guessed so far and a
//! table of high scores.
use vstd::prelude::*;
use crate::random::choose_from;
use crate::text::{join_text, debug_string, decimal, decimal_string, str_debug, string_from_chars};

verus! {

/// A player's entry in the high-score table.
#[derive(Debug, Clone)]
pub struct Score {
    pub name: String,
    pub id: String,
    pub score: u16,
}

/// The line that shows a score: the player's name in `Debug` form, a
/// colon, four spaces, the points and a line break.
pub open spec fn score_line(s: Score) -> Seq<char> {
    str_debug(s.name@) + ":    "@ + decimal(s.score as nat) + "\n"@
}

/// The lines of all scores, in table order.
pub open spec fn score_lines(scores: Seq<Score>) -> Seq<char>
    decreases scores.len(),
{
    if scores.len() == 0 {
        Seq::empty()
    } else {
        score_lines(scores.drop_last()) + score_line(scores.last())
    }
}

fn line_of(score: &Score) -> (r: String)
    ensures
        r@ == score_line(*score),
{
    let name = debug_string(score.name.as_str());
    let points = decimal_string(score.score as u64);
    let mut line = join_text(name.as_str(), ":    ");
    line.append(points.as_str());
    line.append("\n");
    line
}

impl Score {
    /// The score as one line of the table.
    pub fn display(&mut self) -> (r: String)
        ensures
            r@ == score_line(*old(self)),
            *final(self) == *old(self),
    {
        line_of(self)
    }
}

/// Some entry of the table belongs to player `id`.
pub open spec fn has_player(scores: Seq<Score>, id: Seq<char>) -> bool {
    exists|i: int| 0 <= i < scores.len() && scores[i].id@ == id
}

/// A won round for player `id` as seen by one entry: a matching entry
/// below the maximum gains a point and takes the player's current name.
pub open spec fn bumped(s: Score, id: Seq<char>, name: String) -> Score {
    if s.id@ == id && s.score != u16::MAX {
        Score { name: name, id: s.id, score: (s.score + 1) as u16 }
    } else {
        s
    }
}

/// The table after a won round of player `id` called `name`: every entry
/// of a known player is bumped, an unknown player is added with 1 point.
pub open spec fn updated_scores(scores: Seq<Score>, id: String, name: String) -> Seq<Score> {
    if has_player(scores, id@) {
        Seq::new(scores.len(), |i: int| bumped(scores[i], id@, name))
    } else {
        scores.push(Score { name: name, id: id, score: 1 })
    }
}

/// What the table shows when asked for: a notice for an empty table, and
/// otherwise a notice that listing is not available yet.
pub open spec fn hiscore_notice(scores: Seq<Score>) -> Seq<char> {
    if scores.len() < 1 {
        "No hiscores to show."@
    } else {
        "Not yet implemented."@
    }
}

/// The notice shown for the high-score table.
pub fn list_hiscores(scores: &Vec<Score>) -> (r: String)
    ensures
        r@ == hiscore_notice(scores@),
{
    if scores.len() < 1 {
        return String::from_str("No hiscores to show.");
    }
    String::from_str("Not yet implemented.")
}

/// The table is ordered by points, lowest first.
pub open spec fn sorted_by_points(scores: Seq<Score>) -> bool {
    forall|i: int, j: int| 0 <= i <= j < scores.len() ==> scores[i].score <= scores[j].score
}

/// The entries with `k` points, in table order.
pub open spec fn points_class(scores: Seq<Score>, k: u16) -> Seq<Score> {
    scores.filter(|s: Score| s.score == k)
}

/// `slice::sort_by_key` on the points: a stable sort, so the table ends up
/// ordered by points and entries with equal points keep their order.
#[verifier::external_body]
fn sort_by_points(scores: &mut Vec<Score>)
    ensures
        final(scores)@.len() == old(scores)@.len(),
        sorted_by_points(final(scores)@),
        forall|k: u16| #[trigger] points_class(final(scores)@, k) == points_class(old(scores)@, k),
{
    scores.sort_by_key(|score| score.score)
}

/// Orders the table by points, lowest first; entries with equal points
/// keep their order.
pub fn sort_hiscores(scores: &mut Vec<Score>)
    ensures
        final(scores)@.len() == old(scores)@.len(),
        sorted_by_points(final(scores)@),
        forall|k: u16| #[trigger] points_class(final(scores)@, k) == points_class(old(scores)@, k),
{
    sort_by_points(scores);
}

/// Player `id` has an entry in the table.
pub fn contains_score(scores: &Vec<Score>, id: String) -> (r: bool)
    ensures
        r == has_player(scores@, id@),
{
    let mut i: usize = 0;
    while i < scores.len()
        invariant
            i <= scores@.len(),
            forall|j: int| 0 <= j < i ==> scores@[j].id@ != id@,
        decreases scores@.len() - i,
    {
        if scores[i].id == id {
            return true;
        }
        i = i + 1;
    }
    false
}

/// Records a won round for player `id` called `name`.
pub fn update_hiscore(scores: &mut Vec<Score>, id: String, name: String)
    ensures
        final(scores)@ == updated_scores(old(scores)@, id, name),
{
    if contains_score(scores, id.clone()) {
        let ghost start = scores@;
        let mut i: usize = 0;
        while i < scores.len()
            invariant
                i <= scores@.len(),
                scores@.len() == start.len(),
                forall|j: int| 0 <= j < i ==> #[trigger] scores@[j] == bumped(start[j], id@, name),
                forall|j: int| i <= j < start.len() ==> #[trigger] scores@[j] == start[j],
            decreases scores@.len() - i,
        {
            if scores[i].id == id && scores[i].score != u16::MAX {
                let entry = Score {
                    name: name.clone(),
                    id: scores[i].id.clone(),
                    score: scores[i].score + 1,
                };
                scores.set(i, entry);
            }
            i = i + 1;
        }
        assert(scores@ =~= Seq::new(start.len(), |j: int| bumped(start[j], id@, name)));
    } else {
        scores.push(Score { name: name, id: id, score: 1 });
    }
}

/// The abstract state of a [`HangmanGame`].
pub struct HangmanView {
    pub word: Seq<char>,
    pub guessed: Seq<char>,
    pub words: Seq<Seq<char>>,
    pub hiscores: Seq<Score>,
}

/// A round of hangman.
#[derive(Debug, Clone)]
pub struct HangmanGame {
    word: String,
    guessed: Vec<char>,
    words: Vec<String>,
    hiscores: Vec<Score>,
}

impl View for HangmanGame {
    type V = HangmanView;

    closed spec fn view(&self) -> HangmanView {
        HangmanView {
            word: self.word@,
            guessed: self.guessed@,
            words: self.words@.map_values(|w: String| w@),
            hiscores: self.hiscores@,
        }
    }
}

/// The word shown to the players: each letter of `word` that has been
/// guessed, and `_` in place of each other one.
pub open spec fn masked(word: Seq<char>, guessed: Seq<char>) -> Seq<char> {
    Seq::new(word.len(), |i: int| if guessed.contains(word[i]) { word[i] } else { '_' })
}

/// Every letter of `word` has been guessed.
pub open spec fn all_guessed(word: Seq<char>, guessed: Seq<char>) -> bool {
    forall|i: int| 0 <= i < word.len() ==> guessed.contains(#[trigger] word[i])
}

/// A new word can be drawn: the list is not empty, and with more than one
/// word some word differs from the current one (the draw repeats until it
/// finds one).
pub open spec fn can_draw(words: Seq<Seq<char>>, current: Seq<char>) -> bool {
    &&& words.len() > 0
    &&& (words.len() == 1 || exists|i: int| 0 <= i < words.len() && words[i] != current)
}

/// The word after a draw: one that differs from the current word when
/// there is one, else (a single word equal to it) the current word.
pub open spec fn drawn(words: Seq<Seq<char>>, current: Seq<char>, next: Seq<char>) -> bool {
    if exists|i: int| 0 <= i < words.len() && words[i] != current {
        exists|i: int| 0 <= i < words.len() && words[i] != current && words[i] == next
    } else {
        next == current
    }
}

/// The reply to a guess of a letter that has not been guessed yet: "Yep."
/// when the word holds it, "Nop." otherwise, then the word as shown after
/// the guess.
pub open spec fn guess_reply(word: Seq<char>, guessed: Seq<char>, letter: char) -> Seq<char> {
    (if word.contains(letter) {
        "Yep.\n"@
    } else {
        "Nop.\n"@
    }) + masked(word, guessed.push(letter))
}

fn holds_char(chars: &Vec<char>, c: char) -> (r: bool)
    ensures
        r == chars@.contains(c),
{
    let mut i: usize = 0;
    while i < chars.len()
        invariant
            i <= chars@.len(),
            forall|j: int| 0 <= j < i ==> chars@[j] != c,
        decreases chars@.len() - i,
    {
        if chars[i] == c {
            assert(chars@[i as int] == c);
            return true;
        }
        i = i + 1;
    }
    false
}

fn word_chars(word: &String) -> (v: Vec<char>)
    ensures
        v@ == word@,
{
    let s = word.as_str();
    let n = s.unicode_len();
    let mut v: Vec<char> = Vec::new();
    let mut i: usize = 0;
    while i < n
        invariant
            n == s@.len(),
            s@ == word@,
            i <= n,
            v@ == s@.take(i as int),
        decreases n - i,
    {
        v.push(s.get_char(i));
        i = i + 1;
        assert(v@ =~= s@.take(i as int));
    }
    assert(s@.take(n as int) =~= s@);
    v
}

impl HangmanGame {
    /// Starts a game over the given words and high-score table: the
    /// placeholder word "initial" is replaced by a word drawn from the list.
    pub fn init(words: Vec<String>, hiscores: Vec<Score>) -> (game: HangmanGame)
        requires
            can_draw(words@.map_values(|w: String| w@), "initial"@),
        ensures
            game@.words == words@.map_values(|w: String| w@),
            game@.hiscores == hiscores@,
            game@.guessed.len() == 0,
            drawn(game@.words, "initial"@, game@.word),
    {
        let mut game = HangmanGame {
            word: String::from_str("initial"),
            guessed: Vec::new(),
            words: words,
            hiscores: Vec::new(),
        };
        let _ = game.load_words();
        game.assign_new_word();
        game.hiscores = hiscores;
        game
    }

    /// The current word.
    pub fn word(&self) -> (r: &String)
        ensures
            r@ == self@.word,
    {
        &self.word
    }

    /// The letters guessed so far, in order.
    pub fn guessed(&self) -> (r: &Vec<char>)
        ensures
            r@ == self@.guessed,
    {
        &self.guessed
    }

    /// The words the game draws from.
    pub fn words(&self) -> (r: &Vec<String>)
        ensures
            r@.map_values(|w: String| w@) == self@.words,
    {
        &self.words
    }

    /// The high-score table.
    pub fn hiscores(&self) -> (r: &Vec<Score>)
        ensures
            r@ == self@.hiscores,
    {
        &self.hiscores
    }

    /// The word list loader; no source of words is wired in, so it loads
    /// nothing and reports no scores.
    pub fn load_words(&mut self) -> (r: Vec<Score>)
        ensures
            r@.len() == 0,
            final(self)@ == old(self)@,
    {
        Vec::new()
    }

    fn assign_new_word(&mut self)
        requires
            can_draw(old(self)@.words, old(self)@.word),
        ensures
            final(self)@.words == old(self)@.words,
            final(self)@.hiscores == old(self)@.hiscores,
            final(self)@.guessed.len() == 0,
            drawn(old(self)@.words, old(self)@.word, final(self)@.word),
    {
        let ghost words_view = self@.words;
        let mut candidates: Vec<usize> = Vec::new();
        let mut i: usize = 0;
        while i < self.words.len()
            invariant
                i <= self.words@.len(),
                words_view == self@.words,
                forall|j: int|
                    0 <= j < candidates@.len() ==> candidates@[j] < self.words@.len()
                        && self.words@[candidates@[j] as int]@ != self.word@,
                forall|j: int|
                    0 <= j < i && self.words@[j]@ != self.word@ ==> candidates@.contains(
                        j as usize,
                    ),
            decreases self.words@.len() - i,
        {
            let ghost before = candidates@;
            if self.words[i] != self.word {
                candidates.push(i);
            }
            assert forall|j: int|
                0 <= j < i + 1 && self.words@[j]@ != self.word@ implies candidates@.contains(
                j as usize,
            ) by {
                if j < i {
                    let k = choose|k: int| 0 <= k < before.len() && before[k] == j as usize;
                    assert(candidates@[k] == j as usize);
                } else {
                    assert(candidates@[candidates@.len() - 1] == i);
                }
            }
            i = i + 1;
        }
        let ghost current = self@.word;
        match choose_from(&candidates) {
            Some(k) => {
                let next = self.words[k].clone();
                proof {
                    let p = choose|p: int| 0 <= p < candidates@.len() && candidates@[p] == k;
                    assert(words_view[k as int] == self.words@[k as int]@);
                    assert(words_view[k as int] != current && words_view[k as int] == next@);
                }
                self.word = next;
            },
            None => {
                assert forall|j: int| 0 <= j < words_view.len() implies words_view[j]
                    == current by {
                    assert(words_view[j] == self.words@[j]@);
                    if self.words@[j]@ != current {
                        assert(candidates@.contains(j as usize));
                    }
                }
            },
        }
        self.guessed.clear();
    }

    /// The word as shown to the players.
    pub fn display_word(&self) -> (r: String)
        ensures
            r@ == masked(self@.word, self@.guessed),
    {
        let chars = word_chars(&self.word);
        let mut shown: Vec<char> = Vec::new();
        let mut i: usize = 0;
        while i < chars.len()
            invariant
                i <= chars@.len(),
                chars@ == self@.word,
                shown@ == masked(self@.word, self@.guessed).take(i as int),
            decreases chars@.len() - i,
        {
            let c = chars[i];
            if !holds_char(&self.guessed, c) {
                shown.push('_');
            } else {
                shown.push(c);
            }
            i = i + 1;
            assert(shown@ =~= masked(self@.word, self@.guessed).take(i as int));
        }
        assert(masked(self@.word, self@.guessed).take(i as int) =~= masked(
            self@.word,
            self@.guessed,
        ));
        string_from_chars(&shown)
    }

    /// The high-score table, one line per entry.
    pub fn display_hiscores(&mut self) -> (r: String)
        ensures
            r@ == score_lines(old(self)@.hiscores),
            *final(self) == *old(self),
    {
        let mut result = String::new();
        let mut i: usize = 0;
        while i < self.hiscores.len()
            invariant
                i <= self.hiscores@.len(),
                result@ == score_lines(self@.hiscores.take(i as int)),
            decreases self.hiscores@.len() - i,
        {
            let line = line_of(&self.hiscores[i]);
            result.append(line.as_str());
            assert(self@.hiscores.take(i + 1).drop_last() =~= self@.hiscores.take(i as int));
            i = i + 1;
        }
        assert(self@.hiscores.take(i as int) =~= self@.hiscores);
        result
    }

    /// Every letter of the word has been guessed.
    pub fn check_win(&mut self) -> (r: bool)
        ensures
            r == all_guessed(old(self)@.word, old(self)@.guessed),
            *final(self) == *old(self),
    {
        let chars = word_chars(&self.word);
        let mut i: usize = 0;
        while i < chars.len()
            invariant
                i <= chars@.len(),
                chars@ == self@.word,
                forall|j: int| 0 <= j < i ==> self@.guessed.contains(#[trigger] chars@[j]),
            decreases chars@.len() - i,
        {
            if !holds_char(&self.guessed, chars[i]) {
                return false;
            }
            i = i + 1;
        }
        true
    }

    /// Plays letter `letter` for the player `user_id` called `user_name`.
    ///
    /// A letter guessed before gets a notice and changes nothing. Otherwise
    /// the letter is recorded and the reply says whether the word holds it,
    /// followed by the word as now shown. The win is checked before the
    /// new letter is recorded, and a word that still holds the new letter
    /// cannot be complete, so a guess never ends the round.
    pub fn make_a_guess(&mut self, letter: char, user_id: String, user_name: String) -> (r:
        String)
        ensures
            old(self)@.guessed.contains(letter) ==> {
                &&& r@ == "Letter has already been guessed."@
                &&& final(self)@ == old(self)@
            },
            !old(self)@.guessed.contains(letter) ==> {
                &&& r@ == guess_reply(old(self)@.word, old(self)@.guessed, letter)
                &&& final(self)@ == HangmanView {
                    guessed: old(self)@.guessed.push(letter),
                    ..old(self)@
                }
            },
    {
        if holds_char(&self.guessed, letter) {
            return String::from_str("Letter has already been guessed.");
        }
        let word_as_chars = word_chars(&self.word);
        let mut result: String;
        if holds_char(&word_as_chars, letter) {
            if self.check_win() {
                proof {
                    let j = choose|j: int| 0 <= j < self@.word.len() && self@.word[j] == letter;
                    assert(self@.guessed.contains(self@.word[j]));
                }
                result = String::from_str("You won! Full word:\n");
                let shown = self.display_word();
                result.append(shown.as_str());
                update_hiscore(&mut self.hiscores, user_id, user_name);
                self.assign_new_word();
                return result;
            } else {
                result = String::from_str("Yep.\n");
            }
        } else {
            result = String::from_str("Nop.\n");
        }
        self.guessed.push(letter);
        let shown = self.display_word();
        result.append(shown.as_str());
        result
    }
}

/// The shown word has one place per letter, and once every letter has
/// been guessed it is the word itself.
pub proof fn lemma_full_guess_reveals(word: Seq<char>, guessed: Seq<char>)
    ensures
        masked(word, guessed).len() == word.len(),
        all_guessed(word, guessed) ==> masked(word, guessed) == word,
{
    if all_guessed(word, guessed) {
        assert forall|i: int| 0 <= i < word.len() implies masked(word, guessed)[i] == word[i] by {
            assert(guessed.contains(word[i]));
        }
        assert(masked(word, guessed) =~= word);
    }
}

/// A word that holds a letter not yet guessed is not complete: this is
/// why checking for a win before recording a new letter never succeeds.
pub proof fn lemma_new_letter_not_won(word: Seq<char>, guessed: Seq<char>, letter: char)
    requires
        word.contains(letter),
        !guessed.contains(letter),
    ensures
        !all_guessed(word, guessed),
{
    let j = choose|j: int| 0 <= j < word.len() && word[j] == letter;
    assert(word[j] == letter);
}

/// After a guess the letter counts as guessed, so guessing it again is
/// refused.
pub proof fn lemma_guess_recorded(guessed: Seq<char>, letter: char)
    ensures
        guessed.push(letter).contains(letter),
{
    assert(guessed.push(letter)[guessed.len() as int] == letter);
}

/// A won round leaves the player in the table: a new player is added
/// with one point and the table grows by one, a known player's entries
/// keep their place and their id and never lose points.
pub proof fn lemma_update_hiscore(scores: Seq<Score>, id: String, name: String)
    ensures
        has_player(updated_scores(scores, id, name), id@),
        !has_player(scores, id@) ==> updated_scores(scores, id, name).len() == scores.len() + 1
            && updated_scores(scores, id, name).last() == (Score { name: name, id: id, score: 1 }),
        has_player(scores, id@) ==> updated_scores(scores, id, name).len() == scores.len(),
        has_player(scores, id@) ==> forall|i: int|
            0 <= i < scores.len() ==> (#[trigger] updated_scores(scores, id, name)[i]).id
                == scores[i].id && updated_scores(scores, id, name)[i].score >= scores[i].score,
{
    let after = updated_scores(scores, id, name);
    if has_player(scores, id@) {
        let i = choose|i: int| 0 <= i < scores.len() && scores[i].id@ == id@;
        assert(after[i].id@ == id@);
    } else {
        assert(after[scores.len() as int].id@ == id@);
    }
}

/// A won round touches only the winner's entries: every other entry stays
/// as it was, each winner's entry below the maximum gains exactly one point
/// and takes the given name, one at the maximum stays; an unknown player is
/// appended with one point.
pub proof fn lemma_update_hiscore_entries(scores: Seq<Score>, id: String, name: String)
    ensures
        (exists|j: int| 0 <= j < scores.len() && scores[j].id@ == id@) ==> {
            &&& updated_scores(scores, id, name).len() == scores.len()
            &&& forall|i: int|
                0 <= i < scores.len() && scores[i].id@ != id@ ==> #[trigger] updated_scores(
                    scores,
                    id,
                    name,
                )[i] == scores[i]
            &&& forall|i: int|
                0 <= i < scores.len() && scores[i].id@ == id@ && scores[i].score < u16::MAX
                    ==> (#[trigger] updated_scores(scores, id, name)[i]).score == scores[i].score + 1
                    && updated_scores(scores, id, name)[i].name == name
                    && updated_scores(scores, id, name)[i].id == scores[i].id
            &&& forall|i: int|
                0 <= i < scores.len() && scores[i].id@ == id@ && scores[i].score == u16::MAX
                    ==> #[trigger] updated_scores(scores, id, name)[i] == scores[i]
        },
        !(exists|j: int| 0 <= j < scores.len() && scores[j].id@ == id@) ==> updated_scores(
            scores,
            id,
            name,
        ) == scores.push(Score { name: name, id: id, score: 1 }),
{
}

/// The shown word has, at each place, the word's letter when that letter
/// occurs anywhere among the guesses, and `_` otherwise.
pub proof fn lemma_masked_places(word: Seq<char>, guessed: Seq<char>)
    ensures
        masked(word, guessed).len() == word.len(),
        forall|i: int|
            0 <= i < word.len() ==> (#[trigger] masked(word, guessed)[i]) == if exists|j: int|
                0 <= j < guessed.len() && guessed[j] == word[i] {
                word[i]
            } else {
                '_'
            },
{
}

/// The reply to a new letter starts with "Yep.\n" when the letter occurs
/// anywhere in the word and with "Nop.\n" otherwise, and goes on with the
/// word shown with the new letter counted as guessed.
pub proof fn lemma_guess_reply_hit(word: Seq<char>, guessed: Seq<char>, letter: char)
    ensures
        guess_reply(word, guessed, letter).len() == 5 + word.len(),
        guess_reply(word, guessed, letter).take(5) == if exists|i: int|
            0 <= i < word.len() && word[i] == letter {
            seq!['Y', 'e', 'p', '.', '\n']
        } else {
            seq!['N', 'o', 'p', '.', '\n']
        },
        guess_reply(word, guessed, letter).skip(5) == masked(word, guessed.push(letter)),
{
    reveal_strlit("Yep.\n");
    reveal_strlit("Nop.\n");
    let r = guess_reply(word, guessed, letter);
    let head: Seq<char> = if word.contains(letter) { "Yep.\n"@ } else { "Nop.\n"@ };
    assert(r == head + masked(word, guessed.push(letter)));
    assert(r.take(5) =~= head);
    assert(r.skip(5) =~= masked(word, guessed.push(letter)));
    if word.contains(letter) {
        assert(head =~= seq!['Y', 'e', 'p', '.', '\n']);
    } else {
        assert(head =~= seq!['N', 'o', 'p', '.', '\n']);
    }
}

/// The word is complete exactly when each of its letters occurs among the
/// guesses, and a letter of the word that was never guessed keeps it
/// incomplete; other guesses do not matter, so guessing more keeps it
/// complete.
pub proof fn lemma_all_guessed_letters(word: Seq<char>, guessed: Seq<char>, extra: char)
    ensures
        all_guessed(word, guessed) <==> forall|i: int|
            0 <= i < word.len() ==> #[trigger] guessed.contains(word[i]),
        forall|i: int|
            0 <= i < word.len() && !guessed.contains(#[trigger] word[i]) ==> !all_guessed(
                word,
                guessed,
            ),
        all_guessed(word, guessed) ==> all_guessed(word, guessed.push(extra)),
        all_guessed(word, guessed) ==> all_guessed(word, seq![extra] + guessed),
{
    if all_guessed(word, guessed) {
        assert forall|i: int| 0 <= i < word.len() implies guessed.push(extra).contains(
            #[trigger] word[i],
        ) by {
            assert(guessed.contains(word[i]));
            let j = choose|j: int| 0 <= j < guessed.len() && guessed[j] == word[i];
            assert(guessed.push(extra)[j] == word[i]);
        }
        assert forall|i: int| 0 <= i < word.len() implies (seq![extra] + guessed).contains(
            #[trigger] word[i],
        ) by {
            assert(guessed.contains(word[i]));
            let j = choose|j: int| 0 <= j < guessed.len() && guessed[j] == word[i];
            assert((seq![extra] + guessed)[j + 1] == word[i]);
        }
    }
}

/// The table's lines are the entries' lines in table order: the lines of
/// two tables one after the other are the two tables' lines one after the
/// other, and a single entry shows as its own line.
pub proof fn lemma_score_lines_concat(a: Seq<Score>, b: Seq<Score>)
    ensures
        score_lines(a + b) == score_lines(a) + score_lines(b),
        forall|s: Score| #[trigger] score_lines(seq![s]) == score_line(s),
    decreases b.len(),
{
    assert forall|s: Score| #[trigger] score_lines(seq![s]) == score_line(s) by {
        assert(seq![s].drop_last() =~= Seq::<Score>::empty());
        assert(score_lines(seq![s].drop_last()) == Seq::<char>::empty());
        assert(seq![s].last() == s);
        assert(Seq::<char>::empty() + score_line(s) =~= score_line(s));
    }
    if b.len() == 0 {
        assert(a + b =~= a);
        assert(score_lines(a) + Seq::<char>::empty() =~= score_lines(a));
    } else {
        lemma_score_lines_concat(a, b.drop_last());
        assert((a + b).drop_last() =~= a + b.drop_last());
        assert((a + b).last() == b.last());
        assert(score_lines(a) + score_lines(b.drop_last()) + score_line(b.last()) =~= score_lines(a)
            + (score_lines(b.drop_last()) + score_line(b.last())));
    }
}

/// A draw over a list that holds a word other than the current one yields
/// one of the listed words, different from the current one; otherwise the
/// word stays.
pub proof fn lemma_draw_changes_word(words: Seq<Seq<char>>, current: Seq<char>, next: Seq<char>)
    requires
        drawn(words, current, next),
    ensures
        (exists|i: int| 0 <= i < words.len() && words[i] != current) ==> next != current
            && exists|i: int| 0 <= i < words.len() && words[i] == next,
        (forall|i: int| 0 <= i < words.len() ==> words[i] == current) ==> next == current,
{
}

/// The table notice depends only on whether the table is empty.
pub proof fn lemma_hiscore_notice(scores: Seq<Score>)
    ensures
        scores.len() == 0 ==> hiscore_notice(scores) == "No hiscores to show."@,
        scores.len() > 0 ==> hiscore_notice(scores) == "Not yet implemented."@,
{
}

} // verus!
