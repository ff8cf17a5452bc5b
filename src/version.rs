//! Semantic versions: reading a version out of a tag name, ranking the tags
//! of a repository, and computing the next version tag.

use vstd::prelude::*;
use vstd::string::StringExecFns;
use crate::text::{decimal, push_decimal, to_chars};

verus! {

/// Bump flag: increment the patch component.
pub const PATCH_BUMP: u8 = 2;
/// Bump flag: increment the minor component.
pub const MINOR_BUMP: u8 = 4;
/// Bump flag: increment the major component.
pub const MAJOR_BUMP: u8 = 8;

pub open spec fn is_digit(c: char) -> bool {
    '0' <= c && c <= '9'
}

pub open spec fn digit_value(c: char) -> nat {
    (c as int - '0' as int) as nat
}

/// The number written by the decimal digits `t`.
pub open spec fn digits_value(t: Seq<char>) -> nat
    decreases t.len(),
{
    if t.len() == 0 {
        0
    } else {
        digits_value(t.drop_last()) * 10 + digit_value(t.last())
    }
}

/// The end of the run of digits that starts at `i`.
pub open spec fn digit_run_end(s: Seq<char>, i: int) -> int
    decreases s.len() - i,
{
    if 0 <= i < s.len() && is_digit(s[i]) {
        digit_run_end(s, i + 1)
    } else {
        i
    }
}

/// A version component at `i`: `0`, or a digit run without a leading zero.
/// Gives its value and the position after it.
pub open spec fn component_at(s: Seq<char>, i: int) -> Option<(nat, int)> {
    if 0 <= i < s.len() && s[i] == '0' {
        Some((0, i + 1))
    } else if 0 <= i < s.len() && is_digit(s[i]) {
        let e = digit_run_end(s, i);
        Some((digits_value(s.subrange(i, e)), e))
    } else {
        None
    }
}

/// `major.minor.patch` starting exactly at `i`.
pub open spec fn triple_at(s: Seq<char>, i: int) -> Option<(nat, nat, nat)> {
    match component_at(s, i) {
        Some((a, e1)) => if e1 < s.len() && s[e1] == '.' {
            match component_at(s, e1 + 1) {
                Some((b, e2)) => if e2 < s.len() && s[e2] == '.' {
                    match component_at(s, e2 + 1) {
                        Some((c, _e3)) => Some((a, b, c)),
                        None => None,
                    }
                } else {
                    None
                },
                None => None,
            }
        } else {
            None
        },
        None => None,
    }
}

/// The leftmost `major.minor.patch` at or after position `i`.
pub open spec fn first_triple_from(s: Seq<char>, i: int) -> Option<(nat, nat, nat)>
    decreases s.len() - i,
{
    if i < 0 || i >= s.len() {
        None
    } else if triple_at(s, i) is Some {
        triple_at(s, i)
    } else {
        first_triple_from(s, i + 1)
    }
}

/// The version that a tag name carries: its leftmost `major.minor.patch`,
/// where each component fits in a `usize`.
pub open spec fn tag_version(s: Seq<char>) -> Option<(usize, usize, usize)> {
    narrow(first_triple_from(s, 0))
}

/// A triple whose components all fit in a `usize`, as `usize`s.
pub open spec fn narrow(t: Option<(nat, nat, nat)>) -> Option<(usize, usize, usize)> {
    match t {
        Some((a, b, c)) => if a <= usize::MAX && b <= usize::MAX && c <= usize::MAX {
            Some((a as usize, b as usize, c as usize))
        } else {
            None
        },
        None => None,
    }
}


proof fn lemma_digits_push(s: Seq<char>, i: int, j: int)
    requires
        0 <= i <= j < s.len(),
    ensures
        digits_value(s.subrange(i, j + 1)) == digits_value(s.subrange(i, j)) * 10 + digit_value(
            s[j],
        ),
{
    assert(s.subrange(i, j + 1).drop_last() =~= s.subrange(i, j));
}

/// Reads a version component at `i`. `None`: no component there;
/// `Some((None, e))`: a component that does not fit in a `usize`.
fn parse_component(s: &Vec<char>, i: usize) -> (r: Option<(Option<usize>, usize)>)
    ensures
        match component_at(s@, i as int) {
            None => r is None,
            Some((v, e)) => match r {
                None => false,
                Some((x, e2)) => e2 == e && (x is Some <==> v <= usize::MAX) && (x is Some ==> x->0
                    == v),
            },
        },
{
    if i >= s.len() || !('0' <= s[i] && s[i] <= '9') {
        return None;
    }
    if s[i] == '0' {
        return Some((Some(0), i + 1));
    }
    let mut j: usize = i;
    let mut val: usize = 0;
    let mut over = false;
    while j < s.len() && '0' <= s[j] && s[j] <= '9'
        invariant
            i <= j <= s.len(),
            digit_run_end(s@, i as int) == digit_run_end(s@, j as int),
            !over ==> val == digits_value(s@.subrange(i as int, j as int)),
            over ==> digits_value(s@.subrange(i as int, j as int)) > usize::MAX,
        decreases s.len() - j,
    {
        let d = (s[j] as u32 - '0' as u32) as usize;
        proof {
            lemma_digits_push(s@, i as int, j as int);
        }
        let ghost prev = digits_value(s@.subrange(i as int, j as int));
        if !over {
            if val > (usize::MAX - d) / 10 {
                over = true;
                assert(prev * 10 + d > usize::MAX) by (nonlinear_arith)
                    requires
                        prev == val,
                        val > (usize::MAX - d) / 10,
                        d <= 9,
                ;
            } else {
                assert(val * 10 + d <= usize::MAX) by (nonlinear_arith)
                    requires
                        val <= (usize::MAX - d) / 10,
                        d <= 9,
                ;
                val = val * 10 + d;
            }
        } else {
            assert(prev * 10 + d > usize::MAX) by (nonlinear_arith)
                requires
                    prev > usize::MAX,
                    d <= 9,
            ;
        }
        j = j + 1;
    }
    if over {
        Some((None, j))
    } else {
        Some((Some(val), j))
    }
}


fn parse_triple_at(s: &Vec<char>, i: usize) -> (r: Option<Option<(usize, usize, usize)>>)
    ensures
        r is None <==> triple_at(s@, i as int) is None,
        r is Some ==> r->0 == narrow(triple_at(s@, i as int)),
{
    let (a, e1) = match parse_component(s, i) {
        None => return None,
        Some(p) => p,
    };
    if e1 >= s.len() || s[e1] != '.' {
        return None;
    }
    let (b, e2) = match parse_component(s, e1 + 1) {
        None => return None,
        Some(p) => p,
    };
    if e2 >= s.len() || s[e2] != '.' {
        return None;
    }
    let (c, _e3) = match parse_component(s, e2 + 1) {
        None => return None,
        Some(p) => p,
    };
    match (a, b, c) {
        (Some(a), Some(b), Some(c)) => Some(Some((a, b, c))),
        _ => Some(None),
    }
}

/// The version that the tag name `tag` carries, if any: its leftmost
/// `major.minor.patch`, each component `0` or digits without a leading zero.
pub fn version_of(tag: &str) -> (r: Option<(usize, usize, usize)>)
    ensures
        r == tag_version(tag@),
{
    let s = to_chars(tag);
    let mut i: usize = 0;
    while i < s.len()
        invariant
            s@ == tag@,
            i <= s.len(),
            first_triple_from(s@, 0) == first_triple_from(s@, i as int),
        decreases s.len() - i,
    {
        match parse_triple_at(&s, i) {
            Some(v) => return v,
            None => {},
        }
        i = i + 1;
    }
    None
}


/// Strict lexicographic order of names, character by character.
pub open spec fn name_lt(a: Seq<char>, b: Seq<char>) -> bool
    decreases a.len(),
{
    if a.len() == 0 {
        b.len() > 0
    } else if b.len() == 0 {
        false
    } else if a[0] != b[0] {
        a[0] < b[0]
    } else {
        name_lt(a.drop_first(), b.drop_first())
    }
}

/// Strict order of versions: by major, then minor, then patch.
pub open spec fn version_gt(v: (usize, usize, usize), w: (usize, usize, usize)) -> bool {
    v.0 > w.0 || (v.0 == w.0 && (v.1 > w.1 || (v.1 == w.1 && v.2 > w.2)))
}

/// `x` ranks before `y`: a higher version, or the same version and a
/// smaller name.
pub open spec fn ranks_before(x: (Seq<char>, (usize, usize, usize)), y: (Seq<char>, (usize, usize, usize))) -> bool {
    version_gt(x.1, y.1) || (x.1 == y.1 && name_lt(x.0, y.0))
}

/// A ranked entry as a name and a version.
pub open spec fn entry_view(e: (String, (usize, usize, usize))) -> (Seq<char>, (usize, usize, usize)) {
    (e.0@, e.1)
}

/// Some tag of `tags` has the name `n`.
pub open spec fn has_tag(tags: Seq<String>, n: Seq<char>) -> bool {
    exists|j: int| 0 <= j < tags.len() && #[trigger] tags[j]@ == n
}

/// Some entry of `r` has the name `n`.
pub open spec fn has_entry(r: Seq<(String, (usize, usize, usize))>, n: Seq<char>) -> bool {
    exists|k: int| 0 <= k < r.len() && #[trigger] r[k].0@ == n
}

proof fn lemma_name_lt_irreflexive(a: Seq<char>)
    ensures
        !name_lt(a, a),
    decreases a.len(),
{
    if a.len() > 0 {
        lemma_name_lt_irreflexive(a.drop_first());
    }
}

proof fn lemma_name_lt_transitive(a: Seq<char>, b: Seq<char>, c: Seq<char>)
    requires
        name_lt(a, b),
        name_lt(b, c),
    ensures
        name_lt(a, c),
    decreases a.len(),
{
    if a.len() > 0 && b.len() > 0 && c.len() > 0 && a[0] == b[0] && b[0] == c[0] {
        lemma_name_lt_transitive(a.drop_first(), b.drop_first(), c.drop_first());
    }
}

proof fn lemma_name_lt_total(a: Seq<char>, b: Seq<char>)
    requires
        a != b,
    ensures
        name_lt(a, b) || name_lt(b, a),
    decreases a.len(),
{
    if a.len() > 0 && b.len() > 0 && a[0] == b[0] {
        if a.drop_first() == b.drop_first() {
            assert(a =~= seq![a[0]] + a.drop_first());
            assert(b =~= seq![b[0]] + b.drop_first());
        }
        lemma_name_lt_total(a.drop_first(), b.drop_first());
    } else if a.len() == 0 && b.len() == 0 {
        assert(a =~= b);
    }
}

/// Ranking is a strict total order on entries with distinct names.
proof fn lemma_ranks_before_order(
    x: (Seq<char>, (usize, usize, usize)),
    y: (Seq<char>, (usize, usize, usize)),
    z: (Seq<char>, (usize, usize, usize)),
)
    ensures
        !ranks_before(x, x),
        x.0 != y.0 ==> ranks_before(x, y) || ranks_before(y, x),
        ranks_before(x, y) ==> !ranks_before(y, x),
        ranks_before(x, y) && ranks_before(y, z) ==> ranks_before(x, z),
{
    lemma_name_lt_irreflexive(x.0);
    if x.0 != y.0 {
        lemma_name_lt_total(x.0, y.0);
    }
    if name_lt(x.0, y.0) && name_lt(y.0, x.0) {
        lemma_name_lt_transitive(x.0, y.0, x.0);
    }
    if name_lt(x.0, y.0) && name_lt(y.0, z.0) {
        lemma_name_lt_transitive(x.0, y.0, z.0);
    }
}

fn name_less(a: &Vec<char>, b: &Vec<char>) -> (r: bool)
    ensures
        r == name_lt(a@, b@),
{
    let mut i: usize = 0;
    assert(a@.subrange(0, a.len() as int) =~= a@);
    assert(b@.subrange(0, b.len() as int) =~= b@);
    while i < a.len() && i < b.len() && a[i] == b[i]
        invariant
            i <= a.len(),
            i <= b.len(),
            name_lt(a@, b@) == name_lt(a@.subrange(i as int, a.len() as int), b@.subrange(i as int, b.len() as int)),
        decreases a.len() - i,
    {
        assert(a@.subrange(i as int, a.len() as int).drop_first() =~= a@.subrange(i + 1, a.len() as int));
        assert(b@.subrange(i as int, b.len() as int).drop_first() =~= b@.subrange(i + 1, b.len() as int));
        i = i + 1;
    }
    if i == a.len() {
        i < b.len()
    } else if i == b.len() {
        false
    } else {
        a[i] < b[i]
    }
}

fn version_greater(v: (usize, usize, usize), w: (usize, usize, usize)) -> (r: bool)
    ensures
        r == version_gt(v, w),
{
    v.0 > w.0 || (v.0 == w.0 && (v.1 > w.1 || (v.1 == w.1 && v.2 > w.2)))
}

fn rank_less(a: &String, va: (usize, usize, usize), b: &String, vb: (usize, usize, usize)) -> (r: bool)
    ensures
        r == ranks_before((a@, va), (b@, vb)),
{
    if version_greater(va, vb) {
        true
    } else if va.0 == vb.0 && va.1 == vb.1 && va.2 == vb.2 {
        name_less(&to_chars(a.as_str()), &to_chars(b.as_str()))
    } else {
        false
    }
}


/// The ranked entries are at most two, in ranking order, each a tag of `tags`
/// with the version it carries; every other tag that carries a version ranks
/// after both.
pub open spec fn is_top_two(tags: Seq<String>, r: Seq<(String, (usize, usize, usize))>) -> bool {
    &&& r.len() <= 2
    &&& forall|k: int| 0 <= k < r.len() ==> tag_version(#[trigger] r[k].0@) == Some(r[k].1)
    &&& forall|k: int| 0 <= k < r.len() ==> has_tag(tags, #[trigger] r[k].0@)
    &&& r.len() == 2 ==> ranks_before(entry_view(r[0]), entry_view(r[1]))
    &&& forall|j: int|
        0 <= j < tags.len() && #[trigger] tag_version(tags[j]@) is Some ==> has_entry(r, tags[j]@)
            || (r.len() == 2 && ranks_before(entry_view(r[1]), (tags[j]@, tag_version(tags[j]@)->0)))
}

fn clone_entry(e: &(String, (usize, usize, usize))) -> (r: (String, (usize, usize, usize)))
    ensures
        entry_view(r) == entry_view(*e),
{
    (e.0.clone(), e.1)
}

/// The two highest-ranked tags that carry a version, each with its version:
/// the highest version first, and the smaller name first among equal versions.
/// Tags without a version are left out; a name listed twice counts once.
pub fn semver(tags: &Vec<String>) -> (r: Vec<(String, (usize, usize, usize))>)
    ensures
        is_top_two(tags@, r@),
{
    let mut r: Vec<(String, (usize, usize, usize))> = Vec::new();
    let mut i: usize = 0;
    while i < tags.len()
        invariant
            i <= tags.len(),
            is_top_two(tags@.subrange(0, i as int), r@),
        decreases tags.len() - i,
    {
        let ghost pre = tags@.subrange(0, i as int);
        let ghost next = tags@.subrange(0, i + 1);
        assert(forall|j: int| 0 <= j < i ==> next[j] == pre[j]);
        assert(next[i as int] == tags[i as int]);
        assert forall|k: int| 0 <= k < r.len() implies has_tag(next, #[trigger] r@[k].0@) by {
            let j = choose|j: int| 0 <= j < pre.len() && #[trigger] pre[j]@ == r@[k].0@;
            assert(next[j]@ == r@[k].0@);
        }
        let t = &tags[i];
        match version_of(t.as_str()) {
            None => {},
            Some(v) => {
                let ghost c = (t@, v);
                if r.len() == 0 {
                    r.push((t.clone(), v));
                    assert(r@[0].0@ == t@);
                } else if r.len() == 1 {
                    if *t == r[0].0 {
                        assert(r@[0].0@ == t@);
                    } else if rank_less(t, v, &r[0].0, r[0].1) {
                        let old0 = clone_entry(&r[0]);
                        r = vec![(t.clone(), v), old0];
                        assert(r@[0].0@ == t@);
                    } else {
                        proof {
                            lemma_ranks_before_order(c, entry_view(r@[0]), c);
                        }
                        r.push((t.clone(), v));
                        assert(r@[1].0@ == t@);
                    }
                } else {
                    let ghost e0 = entry_view(r@[0]);
                    let ghost e1 = entry_view(r@[1]);
                    if *t == r[0].0 {
                        assert(r@[0].0@ == t@);
                    } else if *t == r[1].0 {
                        assert(r@[1].0@ == t@);
                    } else if rank_less(t, v, &r[0].0, r[0].1) {
                        let old0 = clone_entry(&r[0]);
                        let ghost old_r = r@;
                        r = vec![(t.clone(), v), old0];
                        assert(r@[0].0@ == t@);
                        assert(r@[1].0@ == e0.0);
                        assert forall|j: int|
                            0 <= j < next.len() && #[trigger] tag_version(next[j]@) is Some implies has_entry(r@, next[j]@)
                                || (r.len() == 2 && ranks_before(entry_view(r@[1]), (next[j]@, tag_version(next[j]@)->0))) by {
                            if j < i {
                                assert(pre[j] == next[j]);
                                let e = (next[j]@, tag_version(next[j]@)->0);
                                if has_entry(old_r, next[j]@) {
                                    let k = choose|k: int| 0 <= k < old_r.len() && #[trigger] old_r[k].0@ == next[j]@;
                                    if k == 1 {
                                        assert(e == e1);
                                    } else {
                                        assert(r@[1].0@ == next[j]@);
                                    }
                                } else {
                                    lemma_ranks_before_order(e0, e1, e);
                                }
                            } else {
                                assert(r@[0].0@ == next[j]@);
                            }
                        }
                    } else if rank_less(t, v, &r[1].0, r[1].1) {
                        let old0 = clone_entry(&r[0]);
                        let ghost old_r = r@;
                        proof {
                            lemma_ranks_before_order(c, e0, c);
                        }
                        r = vec![old0, (t.clone(), v)];
                        assert(r@[1].0@ == t@);
                        assert(r@[0].0@ == e0.0);
                        assert forall|j: int|
                            0 <= j < next.len() && #[trigger] tag_version(next[j]@) is Some implies has_entry(r@, next[j]@)
                                || (r.len() == 2 && ranks_before(entry_view(r@[1]), (next[j]@, tag_version(next[j]@)->0))) by {
                            if j < i {
                                assert(pre[j] == next[j]);
                                let e = (next[j]@, tag_version(next[j]@)->0);
                                if has_entry(old_r, next[j]@) {
                                    let k = choose|k: int| 0 <= k < old_r.len() && #[trigger] old_r[k].0@ == next[j]@;
                                    if k == 1 {
                                        assert(e == e1);
                                    } else {
                                        assert(r@[0].0@ == next[j]@);
                                    }
                                } else {
                                    lemma_ranks_before_order(c, e1, e);
                                }
                            } else {
                                assert(r@[1].0@ == next[j]@);
                            }
                        }
                    } else {
                        proof {
                            lemma_ranks_before_order(c, e1, c);
                        }
                    }
                }
            },
        }
        assert(is_top_two(next, r@));
        i = i + 1;
    }
    assert(tags@.subrange(0, i as int) =~= tags@);
    r
}


/// The tag `v{major}.{minor}.{patch}`.
pub open spec fn version_tag(major: nat, minor: nat, patch: nat) -> Seq<char> {
    seq!['v'] + decimal(major) + seq!['.'] + decimal(minor) + seq!['.'] + decimal(patch)
}

/// The flag set `flags` asks for a major bump.
pub open spec fn wants_major(flags: u8) -> bool {
    flags & MAJOR_BUMP == MAJOR_BUMP
}

/// The flag set `flags` asks for a minor bump, and no major one.
pub open spec fn wants_minor(flags: u8) -> bool {
    !wants_major(flags) && flags & MINOR_BUMP == MINOR_BUMP
}

/// The flag set `flags` asks for a patch bump, and no larger one.
pub open spec fn wants_patch(flags: u8) -> bool {
    !wants_major(flags) && !wants_minor(flags) && flags & PATCH_BUMP == PATCH_BUMP
}

/// The next version tag after `v` for the largest bump that `flags` asks
/// for; empty where it asks for none.
pub open spec fn next_tag(flags: u8, v: (usize, usize, usize)) -> Seq<char> {
    if wants_major(flags) {
        version_tag((v.0 + 1) as nat, 0, 0)
    } else if wants_minor(flags) {
        version_tag(v.0 as nat, (v.1 + 1) as nat, 0)
    } else if wants_patch(flags) {
        version_tag(v.0 as nat, v.1 as nat, (v.2 + 1) as nat)
    } else {
        Seq::empty()
    }
}

/// The incremented component fits in a `usize`.
pub open spec fn bump_fits(flags: u8, v: (usize, usize, usize)) -> bool {
    &&& wants_major(flags) ==> v.0 < usize::MAX
    &&& wants_minor(flags) ==> v.1 < usize::MAX
    &&& wants_patch(flags) ==> v.2 < usize::MAX
}

fn push_version_tag(out: &mut String, major: usize, minor: usize, patch: usize)
    ensures
        final(out)@ == old(out)@ + version_tag(major as nat, minor as nat, patch as nat),
{
    proof {
        reveal_strlit("v");
        reveal_strlit(".");
    }
    out.append("v");
    push_decimal(out, major);
    out.append(".");
    push_decimal(out, minor);
    out.append(".");
    push_decimal(out, patch);
    assert(final(out)@ =~= old(out)@ + version_tag(major as nat, minor as nat, patch as nat));
}

/// The tag of the version that follows `v`: a major bump resets minor and
/// patch, a minor bump resets patch. The largest bump in `flags` applies;
/// with none of the three flags the result is empty.
pub fn bump(flags: u8, v: (usize, usize, usize)) -> (r: String)
    requires
        bump_fits(flags, v),
    ensures
        r@ == next_tag(flags, v),
{
    let mut r = String::new();
    if flags & MAJOR_BUMP == MAJOR_BUMP {
        push_version_tag(&mut r, v.0 + 1, 0, 0);
    } else if flags & MINOR_BUMP == MINOR_BUMP {
        push_version_tag(&mut r, v.0, v.1 + 1, 0);
    } else if flags & PATCH_BUMP == PATCH_BUMP {
        push_version_tag(&mut r, v.0, v.1, v.2 + 1);
    }
    assert(r@ =~= next_tag(flags, v));
    r
}


/// The tag of the version that follows `v`, as `bump` gives it, or `None`
/// where the incremented component would not fit in a `usize`.
pub fn checked_bump(flags: u8, v: (usize, usize, usize)) -> (r: Option<String>)
    ensures
        bump_fits(flags, v) ==> r is Some && r->0@ == next_tag(flags, v),
        !bump_fits(flags, v) ==> r is None,
{
    if flags & MAJOR_BUMP == MAJOR_BUMP {
        if v.0 == usize::MAX {
            return None;
        }
    } else if flags & MINOR_BUMP == MINOR_BUMP {
        if v.1 == usize::MAX {
            return None;
        }
    } else if flags & PATCH_BUMP == PATCH_BUMP {
        if v.2 == usize::MAX {
            return None;
        }
    }
    Some(bump(flags, v))
}

} // verus!
