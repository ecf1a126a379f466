//! The lines that a build script prints so that a version can be told as
//! `commit-hash date channel`, and rebuilt when the commit changes.

use vstd::prelude::*;
use vstd::string::*;

verus! {

/// Asks for a rebuild when the release channel changes.
pub const RERUN_ON_RELEASE: &'static str = "cargo:rerun-if-env-changed=CFG_RELEASE";

/// Says that this is not a release.
pub const NOT_A_RELEASE: &'static str = "cargo:rustc-env=POKE_RA_DEVS=1";

/// Says that nothing will trigger a rebuild when the commit changes.
pub const NO_HEAD_FOUND: &'static str = "cargo:warning=Could not find `.git/HEAD` from manifest dir!";

/// Whether a character has Unicode's `White_Space` property.
pub open spec fn whitespace(c: char) -> bool {
    let u = c as int;
    ||| 0x9 <= u <= 0xD
    ||| u == 0x20
    ||| u == 0x85
    ||| u == 0xA0
    ||| u == 0x1680
    ||| 0x2000 <= u <= 0x200A
    ||| 0x2028 <= u <= 0x2029
    ||| u == 0x202F
    ||| u == 0x205F
    ||| u == 0x3000
}

/// A text without the whitespace around it.
pub open spec fn trimmed(text: Seq<char>) -> Seq<char>
    decreases text.len(),
{
    if text.len() == 0 {
        text
    } else if whitespace(text.first()) {
        trimmed(text.drop_first())
    } else if whitespace(text.last()) {
        trimmed(text.drop_last())
    } else {
        text
    }
}

/// The stretches of a text between its whitespace, none of them empty.
pub open spec fn words_of(text: Seq<char>) -> Seq<Seq<char>>
    decreases text.len(),
{
    if text.len() == 0 {
        Seq::empty()
    } else {
        let before = text.drop_last();
        let words = words_of(before);
        let c = text.last();
        if whitespace(c) {
            words
        } else if before.len() == 0 || whitespace(before.last()) {
            words.push(seq![c])
        } else {
            words.drop_last().push(words.last().push(c))
        }
    }
}

/// `str::trim`: the text without the whitespace around it.
#[verifier::external_body]
fn trim(text: &str) -> (r: &str)
    ensures
        r@ == trimmed(text@),
{
    text.trim()
}

/// `str::split_whitespace`: the stretches of the text between its whitespace.
#[verifier::external_body]
fn split_whitespace<'a>(text: &'a str) -> (r: Vec<&'a str>)
    ensures
        r@.map_values(|word: &'a str| word@) == words_of(text@),
{
    text.split_whitespace().collect()
}

/// `prefix` and then `value`.
fn line(prefix: &str, value: &str) -> (r: String)
    ensures
        r@ == prefix@ + value@,
{
    let mut r = prefix.to_string();
    r.append(value);
    r
}

/// Asks for a rebuild when the file at `path` changes.
pub fn rerun_if_changed(path: &str) -> (r: String)
    ensures
        r@ == "cargo:rerun-if-changed="@ + path@,
{
    line("cargo:rerun-if-changed=", path)
}

/// What to print for the path that git answers with, once the whitespace around
/// it is gone: nothing for an empty one.
pub fn rerun_for_path(path: &str) -> (r: Option<String>)
    ensures
        r is Some <==> path@.len() > 0,
        r matches Some(line) ==> line@ == "cargo:rerun-if-changed="@ + path@,
{
    if path.is_empty() {
        None
    } else {
        Some(rerun_if_changed(path))
    }
}

/// What to print for the path of `HEAD` as git answers it.
pub fn rerun_for_head(answer: &str) -> (r: Option<String>)
    ensures
        r is Some <==> trimmed(answer@).len() > 0,
        r matches Some(line) ==> line@ == "cargo:rerun-if-changed="@ + trimmed(answer@),
{
    rerun_for_path(trim(answer))
}

/// What to do at a directory on the way up from the manifest.
#[derive(Debug, Clone, Copy, PartialEq, Eq, Structural)]
pub enum Step {
    /// The directory holds `HEAD`: ask for a rebuild when it changes.
    Report,
    /// Go on with the parent.
    Climb,
    /// There is no parent: say that nothing was found.
    GiveUp,
}

/// The search for `HEAD` stops at the first directory that holds it, and looks
/// nowhere that has no parent.
pub fn next_step(has_parent: bool, holds_head: bool) -> (r: Step)
    ensures
        r == if !has_parent {
            Step::GiveUp
        } else if holds_head {
            Step::Report
        } else {
            Step::Climb
        },
{
    if !has_parent {
        Step::GiveUp
    } else if holds_head {
        Step::Report
    } else {
        Step::Climb
    }
}

/// What a full hash, a short hash and a date are introduced by.
pub open spec fn commit_prefixes() -> Seq<Seq<char>> {
    seq![
        "cargo:rustc-env=RA_COMMIT_HASH="@,
        "cargo:rustc-env=RA_COMMIT_SHORT_HASH="@,
        "cargo:rustc-env=RA_COMMIT_DATE="@,
    ]
}

/// The lines that the first three of `words` make, or as many as there are.
pub open spec fn commit_lines_of(words: Seq<Seq<char>>) -> Seq<Seq<char>> {
    Seq::new(
        if words.len() < 3 {
            words.len()
        } else {
            3
        },
        |i: int| commit_prefixes()[i] + words[i],
    )
}

/// The lines that the first three of `words` make, a full hash, a short hash and
/// a date. Where there are fewer words, the lines stop with them.
pub fn commit_lines_for(words: &[&str]) -> (r: Vec<String>)
    ensures
        r@.len() == if words@.len() < 3 {
            words@.len()
        } else {
            3
        },
        words@.len() > 0 ==> r@[0]@ == "cargo:rustc-env=RA_COMMIT_HASH="@ + words@[0]@,
        words@.len() > 1 ==> r@[1]@ == "cargo:rustc-env=RA_COMMIT_SHORT_HASH="@ + words@[1]@,
        words@.len() > 2 ==> r@[2]@ == "cargo:rustc-env=RA_COMMIT_DATE="@ + words@[2]@,
        r@.map_values(|line: String| line@) == commit_lines_of(
            words@.map_values(|word: &str| word@),
        ),
{
    let mut lines: Vec<String> = Vec::new();
    if words.len() > 0 {
        lines.push(line("cargo:rustc-env=RA_COMMIT_HASH=", words[0]));
    }
    if words.len() > 1 {
        lines.push(line("cargo:rustc-env=RA_COMMIT_SHORT_HASH=", words[1]));
    }
    if words.len() > 2 {
        lines.push(line("cargo:rustc-env=RA_COMMIT_DATE=", words[2]));
    }
    assert(lines@.map_values(|line: String| line@) =~= commit_lines_of(
        words@.map_values(|word: &str| word@),
    ));
    lines
}

/// The lines for what git logs about the last commit.
pub fn commit_lines(log: &str) -> (r: Vec<String>)
    ensures
        r@.map_values(|line: String| line@) == commit_lines_of(words_of(log@)),
{
    let words = split_whitespace(log);
    commit_lines_for(words.as_slice())
}

/// A word is never empty and holds no whitespace, and a text that does not end
/// in whitespace ends in its last word's last character.
pub proof fn law_words_hold_no_whitespace(text: Seq<char>)
    ensures
        forall|i: int| 0 <= i < words_of(text).len() ==> (#[trigger] words_of(text)[i]).len() > 0,
        forall|i: int, j: int|
            0 <= i < words_of(text).len() && 0 <= j < words_of(text)[i].len() ==> !whitespace(
                #[trigger] words_of(text)[i][j],
            ),
        text.len() > 0 && !whitespace(text.last()) ==> words_of(text).len() > 0
            && words_of(text).last().last() == text.last(),
    decreases text.len(),
{
    if text.len() > 0 {
        let before = text.drop_last();
        let words = words_of(before);
        law_words_hold_no_whitespace(before);
        assert forall|i: int| 0 <= i < words_of(text).len() implies {
            let word = #[trigger] words_of(text)[i];
            word.len() > 0 && forall|j: int| 0 <= j < word.len() ==> !whitespace(#[trigger] word[j])
        } by {
            if i < words.len() {
                assert(words[i].len() > 0);
                assert forall|j: int| 0 <= j < words[i].len() implies !whitespace(
                    #[trigger] words[i][j],
                ) by {}
            }
        }
    }
}

/// A path that git prints on a line of its own is reported as it stands: where
/// neither end of it is whitespace, the line's end changes nothing.
pub proof fn law_a_line_is_reported_without_its_end(path: Seq<char>, end: Seq<char>)
    requires
        path.len() > 0,
        !whitespace(path.first()),
        !whitespace(path.last()),
        forall|i: int| 0 <= i < end.len() ==> whitespace(#[trigger] end[i]),
    ensures
        trimmed(path + end) == path,
    decreases end.len(),
{
    if end.len() > 0 {
        assert(whitespace(end[end.len() - 1]));
        assert((path + end).last() == end.last());
        assert((path + end).first() == path.first());
        assert((path + end).drop_last() =~= path + end.drop_last());
        law_a_line_is_reported_without_its_end(path, end.drop_last());
    } else {
        assert(path + end =~= path);
    }
}

/// The lines name the first word as the full hash, the second as the short hash
/// and the third as the date, whatever the words are, and later words not at
/// all.
pub proof fn law_each_of_three_words_has_its_line(words: Seq<Seq<char>>, more: Seq<Seq<char>>)
    ensures
        commit_lines_of(words).len() <= 3,
        commit_lines_of(words).len() <= words.len(),
        words.len() > 0 ==> commit_lines_of(words)[0] == "cargo:rustc-env=RA_COMMIT_HASH="@
            + words[0],
        words.len() > 1 ==> commit_lines_of(words)[1] == "cargo:rustc-env=RA_COMMIT_SHORT_HASH="@
            + words[1],
        words.len() > 2 ==> commit_lines_of(words)[2] == "cargo:rustc-env=RA_COMMIT_DATE="@
            + words[2],
        words.len() >= 3 ==> commit_lines_of(words).len() == 3 && commit_lines_of(words + more)
            == commit_lines_of(words),
        words.len() < 3 ==> commit_lines_of(words).len() == words.len(),
{
    if words.len() >= 3 {
        assert(commit_lines_of(words + more) =~= commit_lines_of(words));
    }
}

/// Whitespace around a path is taken off at both ends, and nothing else is; of
/// whitespace alone nothing is left.
pub proof fn law_whitespace_is_trimmed_at_both_ends(
    front: Seq<char>,
    path: Seq<char>,
    end: Seq<char>,
)
    requires
        forall|i: int| 0 <= i < front.len() ==> whitespace(#[trigger] front[i]),
        forall|i: int| 0 <= i < end.len() ==> whitespace(#[trigger] end[i]),
        path.len() > 0 ==> !whitespace(path.first()) && !whitespace(path.last()),
    ensures
        trimmed(front + path + end) == path,
    decreases front.len() + end.len(),
{
    let text = front + path + end;
    if front.len() > 0 {
        assert(whitespace(front[0]));
        assert(text.first() == front[0]);
        assert(text.drop_first() =~= front.drop_first() + path + end);
        law_whitespace_is_trimmed_at_both_ends(front.drop_first(), path, end);
    } else if path.len() > 0 {
        assert(text =~= path + end);
        law_a_line_is_reported_without_its_end(path, end);
    } else if end.len() > 0 {
        assert(whitespace(end[0]));
        assert(text.first() == end[0]);
        assert(text.drop_first() =~= front + path + end.drop_first());
        law_whitespace_is_trimmed_at_both_ends(front, path, end.drop_first());
    } else {
        assert(text =~= path);
    }
}

/// Whitespace parts the words before it from the words after it, and a text
/// without whitespace is one word.
pub proof fn law_whitespace_parts_words(front: Seq<char>, space: char, back: Seq<char>)
    requires
        whitespace(space),
    ensures
        words_of(front.push(space) + back) == words_of(front) + words_of(back),
        back.len() > 0 && (forall|i: int| 0 <= i < back.len() ==> !whitespace(#[trigger] back[i]))
            ==> words_of(back) == seq![back],
    decreases back.len(),
{
    let text = front.push(space) + back;
    if back.len() == 0 {
        assert(text =~= front.push(space));
        assert(text.drop_last() =~= front);
        assert(words_of(front) + words_of(back) =~= words_of(front));
    } else {
        let before = back.drop_last();
        let c = back.last();
        assert(text.drop_last() =~= front.push(space) + before);
        law_whitespace_parts_words(front, space, before);
        law_words_hold_no_whitespace(before);
        if before.len() == 0 {
            assert(text.drop_last().last() == space);
        } else {
            assert(text.drop_last().last() == before.last());
        }
        assert(words_of(text) =~= words_of(front) + words_of(back));
        if forall|i: int| 0 <= i < back.len() ==> !whitespace(#[trigger] back[i]) {
            assert(!whitespace(back[back.len() - 1]));
            assert forall|i: int| 0 <= i < before.len() implies !whitespace(#[trigger] before[i]) by {
                assert(!whitespace(back[i]));
            }
            if before.len() > 0 {
                assert(!whitespace(before[before.len() - 1]));
                assert(words_of(before) == seq![before]);
                assert(before.push(c) =~= back);
            } else {
                assert(seq![c] =~= back);
            }
            assert(words_of(back) =~= seq![back]);
        }
    }
}

} // verus!
