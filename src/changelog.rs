//! The changelog section of a release: commits ordered by type priority,
//! grouped under one heading per type.

use vstd::prelude::*;
use vstd::string::StringExecFns;
use crate::text::{has_prefix, starts_with, to_chars};
use crate::commit::{after_kind, classify, longest_note, note_split, parse_conventional, CommitKind};

verus! {

/// The view of a list of `(id, subject)` commits.
pub open spec fn pairs_view(c: Seq<(String, String)>) -> Seq<(Seq<char>, Seq<char>)> {
    c.map_values(|p: (String, String)| (p.0@, p.1@))
}

/// The place of a subject in the changelog order, by its prefix: `feat!`,
/// `feat`, `fix!`, `fix`, `refactor`, `docs`, `chore`, then all others.
pub open spec fn priority(s: Seq<char>) -> nat {
    if has_prefix(s, "feat!"@) {
        0
    } else if has_prefix(s, "feat"@) {
        1
    } else if has_prefix(s, "fix!"@) {
        2
    } else if has_prefix(s, "fix"@) {
        3
    } else if has_prefix(s, "refactor"@) {
        4
    } else if has_prefix(s, "docs"@) {
        5
    } else if has_prefix(s, "chore"@) {
        6
    } else {
        7
    }
}

/// The commits of `c` whose subject has priority `k`, in their order in `c`.
pub open spec fn bucket(c: Seq<(Seq<char>, Seq<char>)>, k: nat) -> Seq<(Seq<char>, Seq<char>)>
    decreases c.len(),
{
    if c.len() == 0 {
        Seq::empty()
    } else if priority(c.last().1) == k {
        bucket(c.drop_last(), k).push(c.last())
    } else {
        bucket(c.drop_last(), k)
    }
}

/// The commits of `c` with a priority below `k`, by priority, and in their
/// order in `c` within one priority.
pub open spec fn buckets_below(c: Seq<(Seq<char>, Seq<char>)>, k: nat) -> Seq<(Seq<char>, Seq<char>)>
    decreases k,
{
    if k == 0 {
        Seq::empty()
    } else {
        buckets_below(c, (k - 1) as nat) + bucket(c, (k - 1) as nat)
    }
}

/// `c` sorted stably by priority.
pub open spec fn priority_sorted(c: Seq<(Seq<char>, Seq<char>)>) -> Seq<(Seq<char>, Seq<char>)> {
    buckets_below(c, 8)
}

fn subject_priority(s: &str) -> (r: usize)
    ensures
        r == priority(s@),
{
    let c = to_chars(s);
    if starts_with(&c, "feat!") {
        0
    } else if starts_with(&c, "feat") {
        1
    } else if starts_with(&c, "fix!") {
        2
    } else if starts_with(&c, "fix") {
        3
    } else if starts_with(&c, "refactor") {
        4
    } else if starts_with(&c, "docs") {
        5
    } else if starts_with(&c, "chore") {
        6
    } else {
        7
    }
}

/// Sorts `(id, subject)` commits stably by the type priority of their
/// subjects: `feat!`, `feat`, `fix!`, `fix`, `refactor`, `docs`, `chore`,
/// then all others.
pub fn sort_commits(strings: &mut Vec<(String, String)>)
    ensures
        pairs_view(final(strings)@) == priority_sorted(pairs_view(old(strings)@)),
{
    let ghost c = pairs_view(strings@);
    let mut out: Vec<(String, String)> = Vec::new();
    let mut k: usize = 0;
    while k < 8
        invariant
            k <= 8,
            c == pairs_view(strings@),
            pairs_view(out@) == buckets_below(c, k as nat),
        decreases 8 - k,
    {
        let mut i: usize = 0;
        assert(c.take(0) =~= Seq::<(Seq<char>, Seq<char>)>::empty());
        assert(buckets_below(c, k as nat) + bucket(c.take(0), k as nat) =~= buckets_below(c, k as nat));
        while i < strings.len()
            invariant
                k < 8,
                i <= strings.len(),
                c == pairs_view(strings@),
                c.len() == strings.len(),
                pairs_view(out@) == buckets_below(c, k as nat) + bucket(c.take(i as int), k as nat),
            decreases strings.len() - i,
        {
            assert(c.take(i + 1).drop_last() =~= c.take(i as int));
            assert(c.take(i + 1).last() == c[i as int]);
            if subject_priority(strings[i].1.as_str()) == k {
                let e = (strings[i].0.clone(), strings[i].1.clone());
                let ghost old_out = out@;
                assert(c[i as int] == (e.0@, e.1@));
                out.push(e);
                assert(pairs_view(out@) =~= pairs_view(old_out).push(c[i as int]));
                assert(pairs_view(out@) =~= buckets_below(c, k as nat) + bucket(c.take(i + 1), k as nat));
            } else {
                assert(pairs_view(out@) =~= buckets_below(c, k as nat) + bucket(c.take(i + 1), k as nat));
            }
            i = i + 1;
        }
        assert(c.take(i as int) =~= c);
        k = k + 1;
    }
    *strings = out;
}


/// The heading of the group of commits of one type.
pub open spec fn heading(k: CommitKind) -> Seq<char> {
    match k {
        CommitKind::Feat => "Features"@,
        CommitKind::Fix => "Bug Fixes"@,
        CommitKind::Docs => "Documentation"@,
        CommitKind::Refactor => "Code Refactoring"@,
        CommitKind::Chore => "Chores"@,
        CommitKind::Revert => "Reverts"@,
    }
}

fn heading_str(k: CommitKind) -> (r: &'static str)
    ensures
        r@ == heading(k),
{
    match k {
        CommitKind::Feat => "Features",
        CommitKind::Fix => "Bug Fixes",
        CommitKind::Docs => "Documentation",
        CommitKind::Refactor => "Code Refactoring",
        CommitKind::Chore => "Chores",
        CommitKind::Revert => "Reverts",
    }
}

/// What opens an entry of type `k` after one of type `last`: nothing within
/// a group; else a blank line after an earlier group, and the heading.
pub open spec fn group_opening(last: Option<CommitKind>, k: CommitKind) -> Seq<char> {
    if last == Some(k) {
        Seq::empty()
    } else {
        (if last is Some { "\n"@ } else { Seq::empty() }) + "### "@ + heading(k) + "\n"@
    }
}

/// The line `- [**note:** ]subject (id)`.
pub open spec fn entry_line(note: Option<Seq<char>>, subject: Seq<char>, id: Seq<char>) -> Seq<char> {
    "- "@ + (match note {
        Some(n) => "**"@ + n + ":** "@,
        None => Seq::empty(),
    }) + subject + " ("@ + id + ")"@ + "\n"@
}

/// A release commit of the tool itself: type `chore`, note `release`.
pub open spec fn is_release_commit(k: CommitKind, note: Option<Seq<char>>) -> bool {
    k == CommitKind::Chore && note == Some("release"@)
}

/// The text so far and the type of the last entry, after one more commit:
/// commits outside the grammar and release commits add nothing.
pub open spec fn render_step(
    st: (Seq<char>, Option<CommitKind>),
    c: (Seq<char>, Seq<char>),
) -> (Seq<char>, Option<CommitKind>) {
    match parse_conventional(c.1) {
        None => st,
        Some((k, note, subject)) => if is_release_commit(k, note) {
            st
        } else {
            (st.0 + group_opening(st.1, k) + entry_line(note, subject, c.0), Some(k))
        },
    }
}

/// The rendering of the first `n` commits of `c`, in that order.
pub open spec fn render_prefix(c: Seq<(Seq<char>, Seq<char>)>, n: nat) -> (Seq<char>, Option<CommitKind>)
    decreases n,
{
    if n == 0 || n > c.len() {
        (Seq::empty(), None)
    } else {
        render_step(render_prefix(c, (n - 1) as nat), c[n - 1])
    }
}

/// The rendering of `c`, in that order.
pub open spec fn render_in_order(c: Seq<(Seq<char>, Seq<char>)>) -> Seq<char> {
    render_prefix(c, c.len()).0
}

/// The changelog section of the commits `c`: sorted by priority, then
/// rendered.
pub open spec fn changelog_text(c: Seq<(Seq<char>, Seq<char>)>) -> Seq<char> {
    render_in_order(priority_sorted(c))
}

/// The Markdown changelog section of a list of `(id, subject)` commits:
/// the commits sorted stably by type priority, each conventional commit as
/// one line under the heading of its type, a blank line between groups.
/// Subjects outside the grammar and `chore(release)` commits are left out;
/// the result is empty where nothing is left.
pub fn make_changelog(commits: Vec<(String, String)>) -> (r: String)
    ensures
        r@ == changelog_text(pairs_view(commits@)),
{
    let mut sorted = commits;
    sort_commits(&mut sorted);
    let ghost c = pairs_view(sorted@);
    let release = String::from_str("release");
    let mut result = String::new();
    let mut last: Option<CommitKind> = None;
    let mut i: usize = 0;
    while i < sorted.len()
        invariant
            i <= sorted.len(),
            c == pairs_view(sorted@),
            c.len() == sorted.len(),
            release@ == "release"@,
            (result@, last) == render_prefix(c, i as nat),
        decreases sorted.len() - i,
    {
        let ghost before = result@;
        assert(c[i as int] == (sorted@[i as int].0@, sorted@[i as int].1@));
        match classify(sorted[i].1.as_str()) {
            None => {},
            Some(conv) => {
                let skip = match &conv.note {
                    Some(n) => conv.kind == CommitKind::Chore && *n == release,
                    None => false,
                };
                if !skip {
                    if last != Some(conv.kind) {
                        if last.is_some() {
                            result.append("\n");
                        }
                        result.append("### ");
                        result.append(heading_str(conv.kind));
                        result.append("\n");
                    }
                    assert(result@ =~= before + group_opening(last, conv.kind));
                    let ghost opened = result@;
                    result.append("- ");
                    match &conv.note {
                        Some(n) => {
                            result.append("**");
                            result.append(n.as_str());
                            result.append(":** ");
                        },
                        None => {},
                    }
                    result.append(conv.subject.as_str());
                    result.append(" (");
                    result.append(sorted[i].0.as_str());
                    result.append(")");
                    result.append("\n");
                    assert(result@ =~= opened + entry_line(conv.view().1, conv.subject@, c[i as int].0));
                    last = Some(conv.kind);
                }
            },
        }
        i = i + 1;
    }
    result
}


proof fn lemma_bucket_concat(a: Seq<(Seq<char>, Seq<char>)>, b: Seq<(Seq<char>, Seq<char>)>, k: nat)
    ensures
        bucket(a + b, k) == bucket(a, k) + bucket(b, k),
    decreases b.len(),
{
    if b.len() == 0 {
        assert(a + b =~= a);
        assert(bucket(a, k) + bucket(b, k) =~= bucket(a, k));
    } else {
        assert((a + b).drop_last() =~= a + b.drop_last());
        assert((a + b).last() == b.last());
        lemma_bucket_concat(a, b.drop_last(), k);
        if priority(b.last().1) == k {
            assert(bucket(a, k) + bucket(b, k) =~= (bucket(a, k) + bucket(b.drop_last(), k)).push(b.last()));
        }
    }
}

proof fn lemma_bucket_of_bucket(c: Seq<(Seq<char>, Seq<char>)>, j: nat, k: nat)
    ensures
        bucket(bucket(c, j), k) == (if j == k { bucket(c, k) } else { Seq::empty() }),
    decreases c.len(),
{
    if c.len() > 0 {
        lemma_bucket_of_bucket(c.drop_last(), j, k);
        if priority(c.last().1) == j {
            let b = bucket(c.drop_last(), j).push(c.last());
            assert(b.drop_last() =~= bucket(c.drop_last(), j));
        }
    }
}

proof fn lemma_bucket_of_sorted(c: Seq<(Seq<char>, Seq<char>)>, m: nat, k: nat)
    ensures
        bucket(buckets_below(c, m), k) == (if k < m { bucket(c, k) } else { Seq::empty() }),
    decreases m,
{
    if m > 0 {
        let below = buckets_below(c, (m - 1) as nat);
        lemma_bucket_concat(below, bucket(c, (m - 1) as nat), k);
        lemma_bucket_of_sorted(c, (m - 1) as nat, k);
        lemma_bucket_of_bucket(c, (m - 1) as nat, k);
        if k < m - 1 {
            assert(bucket(c, k) + Seq::<(Seq<char>, Seq<char>)>::empty() =~= bucket(c, k));
        } else if k == m - 1 {
            assert(Seq::<(Seq<char>, Seq<char>)>::empty() + bucket(c, k) =~= bucket(c, k));
        } else {
            assert(Seq::<(Seq<char>, Seq<char>)>::empty() + Seq::<(Seq<char>, Seq<char>)>::empty()
                =~= Seq::<(Seq<char>, Seq<char>)>::empty());
        }
    } else {
        assert(bucket(Seq::<(Seq<char>, Seq<char>)>::empty(), k) == Seq::<(Seq<char>, Seq<char>)>::empty());
    }
}

proof fn lemma_below_of_sorted(c: Seq<(Seq<char>, Seq<char>)>, m: nat)
    requires
        m <= 8,
    ensures
        buckets_below(priority_sorted(c), m) == buckets_below(c, m),
    decreases m,
{
    if m > 0 {
        lemma_below_of_sorted(c, (m - 1) as nat);
        lemma_bucket_of_sorted(c, 8, (m - 1) as nat);
    }
}

/// Sorting by priority is idempotent, so the changelog of commits that are
/// already in changelog order is the same text: the grouping order depends
/// on the commits alone.
pub proof fn lemma_changelog_order_idempotent(c: Seq<(Seq<char>, Seq<char>)>)
    ensures
        priority_sorted(priority_sorted(c)) == priority_sorted(c),
        changelog_text(priority_sorted(c)) == changelog_text(c),
{
    lemma_below_of_sorted(c, 8);
}

/// Rendering is deterministic: equal commit lists give byte-identical
/// changelogs.
pub proof fn lemma_changelog_deterministic(a: Seq<(String, String)>, b: Seq<(String, String)>)
    requires
        pairs_view(a) == pairs_view(b),
    ensures
        changelog_text(pairs_view(a)) == changelog_text(pairs_view(b)),
{
}


/// A subject that puts no line in a changelog: outside the grammar, or a
/// release commit.
pub open spec fn adds_nothing(subject: Seq<char>) -> bool {
    match parse_conventional(subject) {
        None => true,
        Some((k, note, _)) => is_release_commit(k, note),
    }
}

proof fn lemma_render_prefix_local(s: Seq<(Seq<char>, Seq<char>)>, t: Seq<(Seq<char>, Seq<char>)>, n: nat)
    requires
        n <= s.len(),
        n <= t.len(),
        s.take(n as int) == t.take(n as int),
    ensures
        render_prefix(s, n) == render_prefix(t, n),
    decreases n,
{
    if n > 0 {
        assert(s.take(n - 1) =~= s.take(n as int).take(n - 1));
        assert(t.take(n - 1) =~= t.take(n as int).take(n - 1));
        assert(s[n - 1] == s.take(n as int)[n - 1]);
        assert(t[n - 1] == t.take(n as int)[n - 1]);
        lemma_render_prefix_local(s, t, (n - 1) as nat);
    }
}

proof fn lemma_render_skips(p: Seq<(Seq<char>, Seq<char>)>, x: (Seq<char>, Seq<char>), q: Seq<(Seq<char>, Seq<char>)>, j: nat)
    requires
        adds_nothing(x.1),
        j <= q.len(),
    ensures
        render_prefix(p + seq![x] + q, p.len() + 1 + j) == render_prefix(p + q, p.len() + j),
    decreases j,
{
    let pxq = p + seq![x] + q;
    let pq = p + q;
    if j == 0 {
        assert(pxq[p.len() as int] == x);
        assert(pxq.take(p.len() as int) =~= pq.take(p.len() as int));
        lemma_render_prefix_local(pxq, pq, p.len());
    } else {
        lemma_render_skips(p, x, q, (j - 1) as nat);
        assert(pxq[p.len() + j as int] == pq[p.len() + j - 1]);
    }
}

proof fn lemma_render_in_order_skips(p: Seq<(Seq<char>, Seq<char>)>, x: (Seq<char>, Seq<char>), q: Seq<(Seq<char>, Seq<char>)>)
    requires
        adds_nothing(x.1),
    ensures
        render_in_order(p + seq![x] + q) == render_in_order(p + q),
{
    lemma_render_skips(p, x, q, q.len());
}

/// Where one commit `x` of priority `kx` stands in the sorted list, with
/// `pos` the number of commits sorted before it.
proof fn lemma_sorted_with_one_more(
    a: Seq<(Seq<char>, Seq<char>)>,
    x: (Seq<char>, Seq<char>),
    b: Seq<(Seq<char>, Seq<char>)>,
    m: nat,
)
    requires
        m <= 8,
    ensures
        ({
            let kx = priority(x.1);
            let pos = (buckets_below(a + b, kx).len() + bucket(a, kx).len()) as int;
            let t = buckets_below(a + b, m);
            if m <= kx {
                buckets_below(a + seq![x] + b, m) == t
            } else {
                &&& pos <= t.len()
                &&& buckets_below(a + seq![x] + b, m) == t.take(pos) + seq![x] + t.skip(pos)
            }
        }),
    decreases m,
{
    let kx = priority(x.1);
    let pos = (buckets_below(a + b, kx).len() + bucket(a, kx).len()) as int;
    if m > 0 {
        let k = (m - 1) as nat;
        lemma_sorted_with_one_more(a, x, b, k);
        lemma_bucket_concat(a + seq![x], b, k);
        lemma_bucket_concat(a, seq![x], k);
        lemma_bucket_concat(a, b, k);
        let one = seq![x];
        assert(one.drop_last() =~= Seq::<(Seq<char>, Seq<char>)>::empty());
        assert(one.last() == x);
        assert(bucket(one.drop_last(), k) == Seq::<(Seq<char>, Seq<char>)>::empty());
        let t0 = buckets_below(a + b, k);
        let t = buckets_below(a + b, m);
        if k < kx {
            assert(bucket(one, k) == Seq::<(Seq<char>, Seq<char>)>::empty());
            assert(bucket(a + seq![x] + b, k) =~= bucket(a + b, k));
        } else if k == kx {
            assert(bucket(one, k) =~= seq![x]);
            assert(t.take(pos) =~= t0 + bucket(a, k));
            assert(t.skip(pos) =~= bucket(b, k));
            assert(buckets_below(a + seq![x] + b, m) =~= t.take(pos) + seq![x] + t.skip(pos));
        } else {
            assert(bucket(one, k) == Seq::<(Seq<char>, Seq<char>)>::empty());
            assert(bucket(a + seq![x] + b, k) =~= bucket(a + b, k));
            assert(t.take(pos) =~= t0.take(pos));
            assert(t.skip(pos) =~= t0.skip(pos) + bucket(a + b, k));
            assert(buckets_below(a + seq![x] + b, m) =~= t.take(pos) + seq![x] + t.skip(pos));
        }
    }
}

/// A commit that puts no line in a changelog, such as a `chore(release)`
/// commit, leaves the changelog of the other commits unchanged, wherever it
/// stands among them.
pub proof fn lemma_release_commit_excluded(
    a: Seq<(Seq<char>, Seq<char>)>,
    x: (Seq<char>, Seq<char>),
    b: Seq<(Seq<char>, Seq<char>)>,
)
    requires
        adds_nothing(x.1),
    ensures
        changelog_text(a + seq![x] + b) == changelog_text(a + b),
{
    let kx = priority(x.1);
    let pos = (buckets_below(a + b, kx).len() + bucket(a, kx).len()) as int;
    lemma_sorted_with_one_more(a, x, b, 8);
    let t = buckets_below(a + b, 8);
    if kx < 8 {
        lemma_render_in_order_skips(t.take(pos), x, t.skip(pos));
        assert(t.take(pos) + t.skip(pos) =~= t);
    } else {
        assert(priority(x.1) <= 7);
    }
}


/// The subject `chore(release): v1.2.3` puts no line in a changelog.
pub proof fn lemma_release_subject_adds_nothing()
    ensures
        adds_nothing("chore(release): v1.2.3"@),
{
    let s = "chore(release): v1.2.3"@;
    reveal_strlit("chore(release): v1.2.3");
    reveal_strlit("fix");
    reveal_strlit("feat");
    reveal_strlit("docs");
    reveal_strlit("refactor");
    reveal_strlit("chore");
    reveal_strlit("release");
    assert(s.subrange(0, "fix"@.len() as int)[0] != "fix"@[0]);
    assert(!has_prefix(s, "fix"@));
    assert(s.subrange(0, "feat"@.len() as int)[0] != "feat"@[0]);
    assert(!has_prefix(s, "feat"@));
    assert(s.subrange(0, "docs"@.len() as int)[0] != "docs"@[0]);
    assert(!has_prefix(s, "docs"@));
    assert(s.subrange(0, "refactor"@.len() as int)[0] != "refactor"@[0]);
    assert(!has_prefix(s, "refactor"@));
    assert(s.subrange(0, 5) =~= "chore"@);
    assert(has_prefix(s, "chore"@));
    assert(after_kind(s, CommitKind::Chore) == 5);
    assert(s.subrange(6, 13) =~= "release"@);
    reveal_with_fuel(longest_note, 23);
    assert(forall|n: int| 8 <= n <= 22 ==> !note_split(s, 5, n));
    assert(forall|n: int| 1 <= n <= 6 ==> !note_split(s, 5, n));
}

} // verus!
