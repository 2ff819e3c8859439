//! Yes/no confirmation before something is destroyed.

use vstd::prelude::*;
use crate::text::{lowercase_of, str_eq, to_lowercase, trim, trimmed};

verus! {

/// What a reply to a yes/no question says.
#[derive(PartialEq, Eq, Structural, Debug, Clone, Copy)]
pub enum Answer {
    Yes,
    No,
    Unclear,
}

/// The answer in a reply word: `y` or `yes`, `n` or `no`, in any case and
/// with white space around it.
pub open spec fn answer_of(word: Seq<char>) -> Answer {
    let w = lowercase_of(trimmed(word));
    if w == "y"@ || w == "yes"@ {
        Answer::Yes
    } else if w == "n"@ || w == "no"@ {
        Answer::No
    } else {
        Answer::Unclear
    }
}

/// Reads the answer in a reply word (see [`answer_of`]).
pub fn read_answer(word: &str) -> (r: Answer)
    ensures
        r == answer_of(word@),
{
    let t = trim(word);
    let w = to_lowercase(t.as_str());
    if str_eq(w.as_str(), "y") || str_eq(w.as_str(), "yes") {
        Answer::Yes
    } else if str_eq(w.as_str(), "n") || str_eq(w.as_str(), "no") {
        Answer::No
    } else {
        Answer::Unclear
    }
}

/// What to do with the words of one reply to "Do you really want to delete this?".
#[derive(PartialEq, Eq, Structural, Debug, Clone, Copy)]
pub struct AskOutcome {
    /// The reply was not one word: say so and ask once more before deciding.
    pub ask_again_first: bool,
    /// What the first word says.
    pub answer: Answer,
    /// The first word was not understood: say so and ask once more.
    pub ask_again_after: bool,
    /// Whether the thing is destroyed. The replies to the questions asked
    /// again do not change it.
    pub confirmed: bool,
}

/// The decision on the words of a reply (see [`ask_outcome`]).
pub open spec fn outcome_of(words: Seq<Seq<char>>) -> AskOutcome {
    let answer = answer_of(words[0]);
    AskOutcome {
        ask_again_first: words.len() != 1,
        answer,
        ask_again_after: answer == Answer::Unclear,
        confirmed: answer == Answer::Yes,
    }
}

/// Decides on the words of a reply: the first word decides, `yes` confirms,
/// anything else does not.
pub fn ask_outcome(words: &Vec<String>) -> (r: AskOutcome)
    requires
        words@.len() >= 1,
    ensures
        r == outcome_of(words.deep_view()),
{
    let answer = read_answer(words[0].as_str());
    assert(words.deep_view()[0] == words@[0]@);
    AskOutcome {
        ask_again_first: words.len() != 1,
        answer,
        ask_again_after: answer == Answer::Unclear,
        confirmed: answer == Answer::Yes,
    }
}

/// The answer in a whole line read from the terminal.
pub open spec fn line_answer_of(line: Seq<char>) -> Answer {
    (if line == "y\n"@ || line == "Y\n"@ {
        Answer::Yes
    } else if line == "n\n"@ || line == "N\n"@ {
        Answer::No
    } else {
        Answer::Unclear
    })
}

/// The answer in a whole line read from the terminal, newline included:
/// only `y`, `Y`, `n` and `N` are understood.
pub fn line_answer(line: &str) -> (r: Answer)
    ensures
        r == line_answer_of(line@),
{
    if str_eq(line, "y\n") || str_eq(line, "Y\n") {
        Answer::Yes
    } else if str_eq(line, "n\n") || str_eq(line, "N\n") {
        Answer::No
    } else {
        Answer::Unclear
    }
}

/// A reply is read after trimming and lowercasing: any reply that trims
/// and lowercases to `y` or `yes` confirms, to `n` or `no` refuses, and
/// nothing else confirms; a whole line answers only as `y`, `Y`, `n` or `N`
/// followed by its newline.
pub proof fn law_answers(word: Seq<char>)
    ensures
        lowercase_of(trimmed(word)) == "y"@ ==> answer_of(word) == Answer::Yes,
        lowercase_of(trimmed(word)) == "yes"@ ==> answer_of(word) == Answer::Yes,
        lowercase_of(trimmed(word)) == "n"@ ==> answer_of(word) == Answer::No,
        lowercase_of(trimmed(word)) == "no"@ ==> answer_of(word) == Answer::No,
        (answer_of(word) == Answer::Yes) ==> (lowercase_of(trimmed(word)) == "y"@ || lowercase_of(trimmed(word))
            == "yes"@),
        line_answer_of("y\n"@) == Answer::Yes && line_answer_of("Y\n"@) == Answer::Yes,
        line_answer_of("n\n"@) == Answer::No && line_answer_of("N\n"@) == Answer::No,
        line_answer_of("y"@) == Answer::Unclear && line_answer_of("yes"@) == Answer::Unclear,
{
    reveal_strlit("y");
    reveal_strlit("yes");
    reveal_strlit("n");
    reveal_strlit("no");
    reveal_strlit("y\n");
    reveal_strlit("Y\n");
    reveal_strlit("n\n");
    reveal_strlit("N\n");
    assert("y"@.len() == 1 && "y\n"@.len() == 2 && "yes"@.len() == 3 && "n"@.len() == 1 && "no"@.len() == 2);
    assert("y"@[0] == 'y' && "n"@[0] == 'n' && "yes"@[0] == 'y' && "no"@[0] == 'n');
    assert("y\n"@[0] == 'y' && "Y\n"@[0] == 'Y' && "n\n"@[0] == 'n' && "N\n"@[0] == 'N');
    assert("n\n"@.len() == 2 && "N\n"@.len() == 2 && "Y\n"@.len() == 2);
}

/// Only a first word that says yes destroys; a first word that is not
/// understood brings the question again and destroys nothing; a reply of
/// more than one word brings the question again first, yet its first word
/// still decides; later words never matter.
pub proof fn law_reply_decides(words: Seq<Seq<char>>, more: Seq<Seq<char>>)
    requires
        words.len() >= 1,
    ensures
        outcome_of(words).confirmed <==> answer_of(words[0]) == Answer::Yes,
        outcome_of(words).ask_again_after ==> !outcome_of(words).confirmed,
        answer_of(words[0]) == Answer::No ==> !outcome_of(words).confirmed && !outcome_of(words).ask_again_after,
        outcome_of(words).ask_again_first <==> words.len() > 1,
        outcome_of(words + more).confirmed == outcome_of(words).confirmed,
        outcome_of(words + more).answer == outcome_of(words).answer,
{
    assert((words + more)[0] == words[0]);
}

} // verus!
