//! Conventional-commit subjects: the full grammar that the changelog uses,
//! and the plain prefix rules that choose the bump level.

use vstd::prelude::*;
use vstd::string::StrSliceExecFns;
use vstd::string::StringExecFns;
use crate::text::{has_prefix, starts_with, to_chars, trim_range, trimmed};
use crate::version::{MAJOR_BUMP, MINOR_BUMP, PATCH_BUMP};

verus! {

/// The type of a conventional commit.
#[derive(PartialEq, Eq, Structural, Clone, Copy, Debug)]
pub enum CommitKind {
    Fix,
    Feat,
    Docs,
    Refactor,
    Chore,
    Revert,
}

/// The word that starts a subject of the given type.
pub open spec fn kind_word(k: CommitKind) -> Seq<char> {
    match k {
        CommitKind::Fix => "fix"@,
        CommitKind::Feat => "feat"@,
        CommitKind::Docs => "docs"@,
        CommitKind::Refactor => "refactor"@,
        CommitKind::Chore => "chore"@,
        CommitKind::Revert => "revert"@,
    }
}

/// The type whose word starts `s`.
pub open spec fn kind_prefix(s: Seq<char>) -> Option<CommitKind> {
    if has_prefix(s, "fix"@) {
        Some(CommitKind::Fix)
    } else if has_prefix(s, "feat"@) {
        Some(CommitKind::Feat)
    } else if has_prefix(s, "docs"@) {
        Some(CommitKind::Docs)
    } else if has_prefix(s, "refactor"@) {
        Some(CommitKind::Refactor)
    } else if has_prefix(s, "chore"@) {
        Some(CommitKind::Chore)
    } else if has_prefix(s, "revert"@) {
        Some(CommitKind::Revert)
    } else {
        None
    }
}

fn kind_str(k: CommitKind) -> (r: &'static str)
    ensures
        r@ == kind_word(k),
{
    match k {
        CommitKind::Fix => "fix",
        CommitKind::Feat => "feat",
        CommitKind::Docs => "docs",
        CommitKind::Refactor => "refactor",
        CommitKind::Chore => "chore",
        CommitKind::Revert => "revert",
    }
}

fn kind_of(s: &Vec<char>) -> (r: Option<CommitKind>)
    ensures
        r == kind_prefix(s@),
{
    if starts_with(s, "fix") {
        Some(CommitKind::Fix)
    } else if starts_with(s, "feat") {
        Some(CommitKind::Feat)
    } else if starts_with(s, "docs") {
        Some(CommitKind::Docs)
    } else if starts_with(s, "refactor") {
        Some(CommitKind::Refactor)
    } else if starts_with(s, "chore") {
        Some(CommitKind::Chore)
    } else if starts_with(s, "revert") {
        Some(CommitKind::Revert)
    } else {
        None
    }
}

/// The pattern that a scope note must match as a whole: one or more Unicode
/// punctuation, number, letter or white-space characters.
pub const NOTE_PATTERN: &'static str = r"^[\pP\pN\pL\s]+$";

/// Whether the regular expression `pattern` compiles and matches somewhere
/// in `text`.
pub uninterp spec fn regex_is_match(pattern: Seq<char>, text: Seq<char>) -> bool;

/// Relies on `regex::Regex::new` and `regex::Regex::is_match`: the answer
/// depends on the pattern and the text alone; false where the pattern does
/// not compile.
#[verifier::external_body]
pub(crate) fn regex_match(pattern: &str, text: &str) -> (r: bool)
    ensures
        r == regex_is_match(pattern@, text@),
{
    match regex::Regex::new(pattern) {
        Ok(re) => re.is_match(text),
        Err(_) => false,
    }
}

/// No line break in `t`.
pub open spec fn single_line(t: Seq<char>) -> bool {
    forall|i: int| 0 <= i < t.len() ==> t[i] != '\n'
}

/// A subject after the colon: at least one character, no line break.
pub open spec fn subject_ok(t: Seq<char>) -> bool {
    t.len() > 0 && single_line(t)
}

/// With the opening parenthesis at `p`, a note of `n` characters, closed by
/// `):`, followed by a valid subject.
pub open spec fn note_split(s: Seq<char>, p: int, n: int) -> bool {
    &&& 1 <= n
    &&& p + n + 3 < s.len()
    &&& s[p + 1 + n] == ')'
    &&& s[p + 2 + n] == ':'
    &&& subject_ok(s.subrange(p + n + 3, s.len() as int))
    &&& regex_is_match(NOTE_PATTERN@, s.subrange(p + 1, p + 1 + n))
}

/// The greatest note length up to `n` that splits `s` at `p`; 0 if none.
pub open spec fn longest_note(s: Seq<char>, p: int, n: int) -> int
    decreases n,
{
    if n < 1 {
        0
    } else if note_split(s, p, n) {
        n
    } else {
        longest_note(s, p, n - 1)
    }
}

/// The position after the type word and the optional `!` of a subject that
/// starts with the word of `k`.
pub open spec fn after_kind(s: Seq<char>, k: CommitKind) -> int {
    let p0 = kind_word(k).len() as int;
    if p0 < s.len() && s[p0] == '!' { p0 + 1 } else { p0 }
}

/// The reading of a subject `type!?(note)?: subject` as a type, an optional
/// note and the trimmed subject text; `None` where it does not have that form.
/// The note is the longest that leaves a valid remainder.
pub open spec fn parse_conventional(s: Seq<char>) -> Option<(CommitKind, Option<Seq<char>>, Seq<char>)> {
    match kind_prefix(s) {
        None => None,
        Some(k) => {
            let p = after_kind(s, k);
            let n = longest_note(s, p, s.len() as int);
            if p < s.len() && s[p] == '(' && n > 0 {
                Some((k, Some(s.subrange(p + 1, p + 1 + n)), trimmed(s.subrange(p + n + 3, s.len() as int))))
            } else if p < s.len() && s[p] == ':' && subject_ok(s.subrange(p + 1, s.len() as int)) {
                Some((k, None, trimmed(s.subrange(p + 1, s.len() as int))))
            } else {
                None
            }
        },
    }
}

/// A commit subject read by the conventional-commit grammar.
pub struct Conventional {
    pub kind: CommitKind,
    pub note: Option<String>,
    pub subject: String,
}

impl Conventional {
    pub open spec fn view(&self) -> (CommitKind, Option<Seq<char>>, Seq<char>) {
        (self.kind, match self.note {
            Some(n) => Some(n@),
            None => None,
        }, self.subject@)
    }
}

/// The view of an optional classification.
pub open spec fn classified_view(r: Option<Conventional>) -> Option<(CommitKind, Option<Seq<char>>, Seq<char>)> {
    match r {
        Some(c) => Some(c.view()),
        None => None,
    }
}

fn single_line_from(s: &Vec<char>, a: usize) -> (r: bool)
    requires
        a <= s.len(),
    ensures
        r == single_line(s@.subrange(a as int, s.len() as int)),
{
    let mut i: usize = a;
    while i < s.len()
        invariant
            a <= i <= s.len(),
            forall|k: int| a <= k < i ==> s@[k] != '\n',
        decreases s.len() - i,
    {
        if s[i] == '\n' {
            assert(s@.subrange(a as int, s.len() as int)[i - a] == '\n');
            return false;
        }
        i = i + 1;
    }
    assert forall|k: int| 0 <= k < s.len() - a implies s@.subrange(a as int, s.len() as int)[k] != '\n' by {
        assert(s@.subrange(a as int, s.len() as int)[k] == s@[a + k]);
    }
    true
}

/// Classifies a commit subject as a conventional commit: its type, the note
/// in parentheses if any, and the subject text trimmed of white space.
/// `None` where the subject does not follow the grammar.
pub fn classify(subject: &str) -> (r: Option<Conventional>)
    ensures
        classified_view(r) == parse_conventional(subject@),
{
    let s = to_chars(subject);
    let k = match kind_of(&s) {
        None => return None,
        Some(k) => k,
    };
    let p0 = to_chars(kind_str(k)).len();
    let p = if p0 < s.len() && s[p0] == '!' { p0 + 1 } else { p0 };
    assert(p == after_kind(s@, k));
    if p < s.len() && s[p] == '(' {
        let room = s.len() - p;
        let mut n: usize = s.len();
        while n >= 1
            invariant
                p < s.len(),
                room == s.len() - p,
                n <= s.len(),
                s@ == subject@,
                kind_prefix(s@) == Some(k),
                p == after_kind(s@, k),
                s@[p as int] == '(',
                longest_note(s@, p as int, s.len() as int) == longest_note(s@, p as int, n as int),
            decreases n,
        {
            if room > 3 && n < room - 3 && s[p + 1 + n] == ')' && s[p + 2 + n] == ':' && single_line_from(&s, p + n + 3)
                && regex_match(NOTE_PATTERN, subject.substring_char(p + 1, p + 1 + n)) {
                let note = String::from_str(subject.substring_char(p + 1, p + 1 + n));
                let (a, b) = trim_range(&s, p + n + 3, s.len());
                let text = String::from_str(subject.substring_char(a, b));
                return Some(Conventional { kind: k, note: Some(note), subject: text });
            }
            n = n - 1;
        }
        None
    } else if p < s.len() && s[p] == ':' && p + 1 < s.len() && single_line_from(&s, p + 1) {
        let (a, b) = trim_range(&s, p + 1, s.len());
        let text = String::from_str(subject.substring_char(a, b));
        Some(Conventional { kind: k, note: None, subject: text })
    } else {
        None
    }
}


/// The bump flag that a subject asks for by its prefix alone: a breaking
/// `fix!` or `feat!` asks for a major bump, `feat` for a minor one, `chore`,
/// `fix` and `refactor` for a patch; anything else for none (0).
pub open spec fn bump_rule(s: Seq<char>) -> u8 {
    if has_prefix(s, "fix!"@) || has_prefix(s, "feat!"@) {
        MAJOR_BUMP
    } else if has_prefix(s, "feat"@) {
        MINOR_BUMP
    } else if has_prefix(s, "chore"@) || has_prefix(s, "fix"@) || has_prefix(s, "refactor"@) {
        PATCH_BUMP
    } else {
        0
    }
}

/// The bump flag of the first commit, in the given order, whose subject
/// asks for one; 0 where none does.
pub open spec fn first_bump(c: Seq<(String, String)>) -> u8
    decreases c.len(),
{
    if c.len() == 0 {
        0
    } else if bump_rule(c[0].1@) != 0 {
        bump_rule(c[0].1@)
    } else {
        first_bump(c.drop_first())
    }
}

fn subject_bump(s: &str) -> (r: u8)
    ensures
        r == bump_rule(s@),
{
    let c = to_chars(s);
    if starts_with(&c, "fix!") || starts_with(&c, "feat!") {
        MAJOR_BUMP
    } else if starts_with(&c, "feat") {
        MINOR_BUMP
    } else if starts_with(&c, "chore") || starts_with(&c, "fix") || starts_with(&c, "refactor") {
        PATCH_BUMP
    } else {
        0
    }
}

/// The bump level of a list of `(id, subject)` commits: the flag that the
/// first commit whose subject asks for one asks for; 0 where none does.
pub fn select_bump(commits: &Vec<(String, String)>) -> (r: u8)
    ensures
        r == first_bump(commits@),
{
    let mut i: usize = 0;
    assert(commits@.subrange(0, commits.len() as int) =~= commits@);
    while i < commits.len()
        invariant
            i <= commits.len(),
            first_bump(commits@) == first_bump(commits@.subrange(i as int, commits.len() as int)),
        decreases commits.len() - i,
    {
        let ghost rest = commits@.subrange(i as int, commits.len() as int);
        assert(rest[0] == commits@[i as int]);
        let b = subject_bump(commits[i].1.as_str());
        if b != 0 {
            return b;
        }
        assert(rest.drop_first() =~= commits@.subrange(i + 1, commits.len() as int));
        i = i + 1;
    }
    0
}

/// The bump level of a release: `None` where there are no commits and no
/// patch bump is forced; a forced patch bump where there are none; otherwise
/// the level that the commits ask for.
pub fn release_bump(commits: &Vec<(String, String)>, force: bool) -> (r: Option<u8>)
    ensures
        commits.len() == 0 && !force ==> r is None,
        commits.len() == 0 && force ==> r == Some(PATCH_BUMP),
        commits.len() > 0 ==> r == Some(first_bump(commits@)),
{
    if commits.len() == 0 {
        if force {
            Some(PATCH_BUMP)
        } else {
            None
        }
    } else {
        Some(select_bump(commits))
    }
}

/// The bump level is that of the first commit whose subject asks for one:
/// the commits before it ask for none, and those after it do not count.
pub proof fn lemma_first_match_decides(c: Seq<(String, String)>, i: int)
    requires
        0 <= i < c.len(),
        bump_rule(c[i].1@) != 0,
        forall|j: int| 0 <= j < i ==> bump_rule(#[trigger] c[j].1@) == 0,
    ensures
        first_bump(c) == bump_rule(c[i].1@),
    decreases i,
{
    if i > 0 {
        assert forall|j: int| 0 <= j < i - 1 implies bump_rule(#[trigger] c.drop_first()[j].1@) == 0 by {
            assert(c.drop_first()[j] == c[j + 1]);
        }
        assert(c.drop_first()[i - 1] == c[i]);
        lemma_first_match_decides(c.drop_first(), i - 1);
    }
}

/// Appending commits after a list whose commits already decide a bump level
/// leaves that level unchanged.
pub proof fn lemma_appended_commits_ignored(a: Seq<(String, String)>, b: Seq<(String, String)>)
    requires
        first_bump(a) != 0,
    ensures
        first_bump(a + b) == first_bump(a),
    decreases a.len(),
{
    assert((a + b)[0] == a[0]);
    if bump_rule(a[0].1@) == 0 {
        assert((a + b).drop_first() =~= a.drop_first() + b);
        lemma_appended_commits_ignored(a.drop_first(), b);
    }
}


/// A subject that starts with none of the type words has no conventional
/// reading and asks for no bump.
pub proof fn lemma_untyped_subject_ignored(s: Seq<char>)
    requires
        kind_prefix(s) is None,
    ensures
        parse_conventional(s) is None,
        bump_rule(s) == 0,
{
    reveal_strlit("fix!");
    reveal_strlit("fix");
    reveal_strlit("feat!");
    reveal_strlit("feat");
    if has_prefix(s, "fix!"@) {
        assert(s.subrange(0, 3) =~= s.subrange(0, 4).subrange(0, 3));
        assert(s.subrange(0, 3) =~= "fix"@);
    }
    if has_prefix(s, "feat!"@) {
        assert(s.subrange(0, 4) =~= s.subrange(0, 5).subrange(0, 4));
        assert(s.subrange(0, 4) =~= "feat"@);
    }
}

} // verus!
