use vstd::prelude::*;

use crate::config::Config;
use crate::decimal::{decimal, digit_char};
use crate::message::{MessageSection, MessageSectionsMap};
use crate::stack_info::{
    StackPosition, child_links, first_commit_with_pr, pr_link, pr_stack, pr_title_suffix,
    stack_index, stack_info_text, stack_line, stack_line_body, stack_lines, stack_position_of,
    title_suffix,
};

verus! {

/// Each entry of the stack names a commit that carries that PR number.
proof fn lemma_pr_stack_sound(commits: Seq<(Option<u64>, MessageSectionsMap)>)
    requires
        commits.len() <= usize::MAX,
    ensures
        forall|k: int|
            #![trigger pr_stack(commits)[k]]
            0 <= k < pr_stack(commits).len() ==> {
                &&& (pr_stack(commits)[k].0 as int) < commits.len()
                &&& commits[pr_stack(commits)[k].0 as int].0 == Some(pr_stack(commits)[k].1)
            },
        forall|a: int, b: int|
            0 <= a < b < pr_stack(commits).len() ==> #[trigger] pr_stack(commits)[a].0
                < #[trigger] pr_stack(commits)[b].0,
        pr_stack(commits).len() <= commits.len(),
    decreases commits.len(),
{
    if commits.len() > 0 {
        let init = commits.drop_last();
        lemma_pr_stack_sound(init);
        let before = pr_stack(init);
        let stack = pr_stack(commits);
        assert forall|k: int| #![trigger before[k]] 0 <= k < before.len() implies {
            let c = before[k].0 as int;
            commits[c] == init[c]
        } by {}
        match commits.last().0 {
            Some(pr) => {
                assert(stack == before.push(((commits.len() - 1) as usize, pr)));
                assert forall|k: int| 0 <= k < before.len() implies #[trigger] stack[k] == before[k] by {}
            },
            None => {
                assert(stack == before);
            },
        }
    }
}

/// Every commit that carries a PR number has an entry in the stack.
proof fn lemma_pr_stack_complete(commits: Seq<(Option<u64>, MessageSectionsMap)>, i: int)
    requires
        commits.len() <= usize::MAX,
        0 <= i < commits.len(),
        commits[i].0 is Some,
    ensures
        exists|k: int|
            0 <= k < pr_stack(commits).len() && #[trigger] pr_stack(commits)[k].0 == i as usize,
    decreases commits.len(),
{
    let init = commits.drop_last();
    if i == commits.len() - 1 {
        let k = pr_stack(init).len() as int;
        assert(pr_stack(commits)[k].0 == i as usize);
    } else {
        lemma_pr_stack_complete(init, i);
        let k = choose|k: int|
            0 <= k < pr_stack(init).len() && #[trigger] pr_stack(init)[k].0 == i as usize;
        assert(pr_stack(commits)[k] == pr_stack(init)[k]);
    }
}

/// `stack_index` finds an entry with the given index, and finds none only
/// where there is none.
proof fn lemma_stack_index_spec(stack: Seq<(usize, u64)>, index: usize)
    ensures
        match stack_index(stack, index) {
            Some(k) => 0 <= k < stack.len() && stack[k].0 == index,
            None => forall|k: int| 0 <= k < stack.len() ==> #[trigger] stack[k].0 != index,
        },
    decreases stack.len(),
{
    if stack.len() > 0 {
        lemma_stack_index_spec(stack.drop_last(), index);
        if stack_index(stack, index) is None {
            assert forall|k: int| 0 <= k < stack.len() implies #[trigger] stack[k].0 != index by {
                if k < stack.len() - 1 {
                    assert(stack.drop_last()[k] == stack[k]);
                }
            }
        }
    }
}

/// The place in the stack of commit `i`, where `i` carries a PR number.
proof fn lemma_stack_index_of_commit(commits: Seq<(Option<u64>, MessageSectionsMap)>, i: int) -> (k: int)
    requires
        commits.len() <= usize::MAX,
        0 <= i < commits.len(),
        commits[i].0 is Some,
    ensures
        0 <= k < pr_stack(commits).len(),
        pr_stack(commits)[k].0 == i as usize,
        stack_index(pr_stack(commits), i as usize) == Some(k),
{
    let stack = pr_stack(commits);
    lemma_pr_stack_sound(commits);
    lemma_pr_stack_complete(commits, i);
    lemma_stack_index_spec(stack, i as usize);
    let k = choose|k: int| 0 <= k < stack.len() && #[trigger] stack[k].0 == i as usize;
    match stack_index(stack, i as usize) {
        Some(k2) => {
            if k2 < k {
                assert(stack[k2].0 < stack[k].0);
            } else if k < k2 {
                assert(stack[k].0 < stack[k2].0);
            }
        },
        None => {
            assert(stack[k].0 != i as usize);
        },
    }
    k
}

/// The stack text always opens with the separator line `---` and closes with
/// the separator `---`.
pub proof fn law_stack_info_text_framed(
    position: StackPosition,
    config: Config,
    commits: Seq<(Option<u64>, MessageSectionsMap)>,
)
    ensures
        ({
            let t = stack_info_text(position, config, commits);
            &&& "---\n"@.len() + "\n---"@.len() <= t.len()
            &&& t.subrange(0, "---\n"@.len() as int) == "---\n"@
            &&& t.subrange(t.len() - "\n---"@.len(), t.len() as int) == "\n---"@
        }),
{
    let t = stack_info_text(position, config, commits);
    assert(t.subrange(0, "---\n"@.len() as int) =~= "---\n"@);
    assert(t.subrange(t.len() - "\n---"@.len(), t.len() as int) =~= "\n---"@);
}

/// A commit has a stack position exactly when at least two commits carry a PR
/// number and the commit is one of them.
pub proof fn law_stack_position_exists(
    current_index: usize,
    commits: Seq<(Option<u64>, MessageSectionsMap)>,
)
    requires
        commits.len() <= usize::MAX,
    ensures
        stack_position_of(current_index, commits) is Some <==> {
            &&& pr_stack(commits).len() >= 2
            &&& current_index < commits.len()
            &&& commits[current_index as int].0 is Some
        },
{
    let stack = pr_stack(commits);
    lemma_pr_stack_sound(commits);
    lemma_stack_index_spec(stack, current_index);
    if current_index < commits.len() && commits[current_index as int].0 is Some {
        lemma_stack_index_of_commit(commits, current_index as int);
    }
    if let Some(k) = stack_index(stack, current_index) {
        assert(stack[k].0 == current_index);
    }
}

/// The stack lists, in order, exactly the commits that carry a PR number.
pub proof fn law_pr_stack_lists_pr_commits(commits: Seq<(Option<u64>, MessageSectionsMap)>)
    requires
        commits.len() <= usize::MAX,
    ensures
        forall|k: int|
            #![trigger pr_stack(commits)[k]]
            0 <= k < pr_stack(commits).len() ==> {
                &&& (pr_stack(commits)[k].0 as int) < commits.len()
                &&& commits[pr_stack(commits)[k].0 as int].0 == Some(pr_stack(commits)[k].1)
            },
        forall|a: int, b: int|
            0 <= a < b < pr_stack(commits).len() ==> #[trigger] pr_stack(commits)[a].0
                < #[trigger] pr_stack(commits)[b].0,
        forall|i: int|
            0 <= i < commits.len() && (#[trigger] commits[i]).0 is Some ==> exists|k: int|
                0 <= k < pr_stack(commits).len() && #[trigger] pr_stack(commits)[k].0 == i
                    as usize,
{
    lemma_pr_stack_sound(commits);
    assert forall|i: int| 0 <= i < commits.len() && (#[trigger] commits[i]).0 is Some implies exists|
        k: int,
    |
        0 <= k < pr_stack(commits).len() && #[trigger] pr_stack(commits)[k].0 == i as usize by {
        lemma_pr_stack_complete(commits, i);
    }
}

/// A stack position counts from 1 up to the size of the stack; the commit has
/// a parent exactly when it is not the first, and one child for each PR above it.
pub proof fn law_stack_position_shape(
    current_index: usize,
    commits: Seq<(Option<u64>, MessageSectionsMap)>,
)
    requires
        commits.len() <= usize::MAX,
        stack_position_of(current_index, commits) is Some,
    ensures
        ({
            let p = stack_position_of(current_index, commits)->0;
            &&& 1 <= p.current <= p.total
            &&& p.total >= 2
            &&& p.total == pr_stack(commits).len()
            &&& p.child_prs.len() == p.total - p.current
            &&& (p.parent_pr is None <==> p.current == 1)
            &&& current_index < commits.len()
            &&& commits[current_index as int].0 == Some(pr_stack(commits)[p.current - 1].1)
            &&& pr_stack(commits)[p.current - 1].0 == current_index
            &&& p.parent_pr == (if p.current > 1 {
                Some(pr_stack(commits)[p.current - 2].1)
            } else {
                None
            })
            &&& forall|k: int|
                0 <= k < p.child_prs.len() ==> #[trigger] p.child_prs[k] == pr_stack(
                    commits,
                )[p.current + k].1
        }),
{
    let stack = pr_stack(commits);
    lemma_pr_stack_sound(commits);
    lemma_stack_index_spec(stack, current_index);
    let k = stack_index(stack, current_index)->0;
    assert(stack[k].0 == current_index);
}

/// Any two commits of one stack see the same stack: the same size, the later
/// one higher up and among the children of the earlier one; and where no
/// commit between them carries a PR number, the earlier one is the parent of
/// the later one, one place below it.
pub proof fn law_stack_positions_agree(
    commits: Seq<(Option<u64>, MessageSectionsMap)>,
    i: usize,
    j: usize,
)
    requires
        commits.len() <= usize::MAX,
        i < j < commits.len(),
        commits[i as int].0 is Some,
        commits[j as int].0 is Some,
    ensures
        stack_position_of(i, commits) is Some,
        stack_position_of(j, commits) is Some,
        ({
            let pi = stack_position_of(i, commits)->0;
            let pj = stack_position_of(j, commits)->0;
            &&& pi.total == pj.total
            &&& pi.current < pj.current
            &&& pi.child_prs[pj.current - pi.current - 1] == commits[j as int].0->0
            &&& (forall|m: int| i < m < j ==> (#[trigger] commits[m]).0 is None) ==> {
                &&& pj.current == pi.current + 1
                &&& pj.parent_pr == commits[i as int].0
            }
        }),
{
    let stack = pr_stack(commits);
    lemma_pr_stack_sound(commits);
    let ki = lemma_stack_index_of_commit(commits, i as int);
    let kj = lemma_stack_index_of_commit(commits, j as int);
    assert(stack.len() >= 2) by {
        if ki == kj {
            assert(stack[ki].0 == stack[kj].0);
        }
    }
    if kj <= ki {
        if kj < ki {
            assert(stack[kj].0 < stack[ki].0);
        }
        assert(false);
    }
    let pi = stack_position_of(i, commits)->0;
    let pj = stack_position_of(j, commits)->0;
    assert(pi.child_prs[kj - ki - 1] == stack[kj].1);
    if forall|m: int| i < m < j ==> (#[trigger] commits[m]).0 is None {
        if kj > ki + 1 {
            let m = stack[ki + 1].0 as int;
            assert(stack[ki].0 < stack[ki + 1].0);
            assert(stack[ki + 1].0 < stack[kj].0);
            assert(commits[m].0 is Some);
        }
    }
}

/// Where every commit carries a PR number, the stack is the commits themselves.
proof fn lemma_pr_stack_all(commits: Seq<(Option<u64>, MessageSectionsMap)>)
    requires
        commits.len() <= usize::MAX,
        forall|i: int| 0 <= i < commits.len() ==> (#[trigger] commits[i]).0 is Some,
    ensures
        pr_stack(commits).len() == commits.len(),
        forall|k: int|
            0 <= k < commits.len() ==> #[trigger] pr_stack(commits)[k].0 == k as usize,
    decreases commits.len(),
{
    if commits.len() > 0 {
        let init = commits.drop_last();
        assert forall|i: int| 0 <= i < init.len() implies (#[trigger] init[i]).0 is Some by {
            assert(init[i] == commits[i]);
        }
        lemma_pr_stack_all(init);
        assert(commits[commits.len() - 1].0 is Some);
    }
}

/// Where every commit carries a PR number, the full stack marks the line of the
/// commit whose position it is with ` (this PR)`, and no other line.
pub proof fn law_full_stack_marks_current(
    config: Config,
    commits: Seq<(Option<u64>, MessageSectionsMap)>,
    current_index: usize,
    position: StackPosition,
)
    requires
        commits.len() <= usize::MAX,
        forall|i: int| 0 <= i < commits.len() ==> (#[trigger] commits[i]).0 is Some,
        stack_position_of(current_index, commits) == Some(position@),
    ensures
        forall|idx: int|
            0 <= idx < commits.len() ==> #[trigger] stack_line(
                config,
                commits,
                position.current,
                idx,
            ) == stack_line_body(config, commits, idx, commits[idx].0->0) + (if idx
                == current_index {
                " (this PR)"@
            } else {
                Seq::empty()
            }) + "\n"@,
{
    lemma_pr_stack_all(commits);
    let stack = pr_stack(commits);
    lemma_stack_index_spec(stack, current_index);
    let k = stack_index(stack, current_index)->0;
    assert(stack[k].0 == k as usize);
    assert(position.current == k + 1);
    assert forall|idx: int| 0 <= idx < commits.len() implies #[trigger] stack_line(
        config,
        commits,
        position.current,
        idx,
    ) == stack_line_body(config, commits, idx, commits[idx].0->0) + (if idx == current_index {
        " (this PR)"@
    } else {
        Seq::empty()
    }) + "\n"@ by {
        assert(commits[idx].0 is Some);
    }
}


/// Where two commit lists carry the same PR numbers, they have the same stack.
proof fn lemma_pr_stack_same_prs(
    a: Seq<(Option<u64>, MessageSectionsMap)>,
    b: Seq<(Option<u64>, MessageSectionsMap)>,
)
    requires
        a.len() == b.len(),
        forall|j: int| 0 <= j < a.len() ==> (#[trigger] a[j]).0 == b[j].0,
    ensures
        pr_stack(a) == pr_stack(b),
    decreases a.len(),
{
    if a.len() > 0 {
        assert forall|j: int| 0 <= j < a.drop_last().len() implies (#[trigger] a.drop_last()[j]).0
            == b.drop_last()[j].0 by {
            assert(a.drop_last()[j] == a[j]);
            assert(b.drop_last()[j] == b[j]);
        }
        lemma_pr_stack_same_prs(a.drop_last(), b.drop_last());
        assert(a[a.len() - 1].0 == b[b.len() - 1].0);
    }
}

/// The stack position of a commit depends on the PR numbers of the commits
/// alone: changing any commit message leaves it as it is.
pub proof fn law_stack_position_ignores_messages(
    current_index: usize,
    a: Seq<(Option<u64>, MessageSectionsMap)>,
    b: Seq<(Option<u64>, MessageSectionsMap)>,
)
    requires
        a.len() == b.len(),
        forall|j: int| 0 <= j < a.len() ==> (#[trigger] a[j]).0 == b[j].0,
    ensures
        stack_position_of(current_index, a) == stack_position_of(current_index, b),
{
    lemma_pr_stack_same_prs(a, b);
}

/// The index that commit `i` of `base` has once a commit is put in at `q`.
pub open spec fn shifted_index(i: usize, q: int) -> usize {
    if i >= q {
        (i + 1) as usize
    } else {
        i
    }
}

/// `base` with the commit `(None, m)` put in at index `q`.
pub open spec fn with_commit_without_pr(
    base: Seq<(Option<u64>, MessageSectionsMap)>,
    q: int,
    m: MessageSectionsMap,
) -> Seq<(Option<u64>, MessageSectionsMap)> {
    base.take(q).push((None, m)) + base.skip(q)
}

proof fn lemma_pr_stack_insert_none(
    base: Seq<(Option<u64>, MessageSectionsMap)>,
    q: int,
    m: MessageSectionsMap,
)
    requires
        base.len() < usize::MAX,
        0 <= q <= base.len(),
    ensures
        pr_stack(with_commit_without_pr(base, q, m)) == pr_stack(base).map_values(
            |e: (usize, u64)| (shifted_index(e.0, q), e.1),
        ),
    decreases base.len(),
{
    let ins = with_commit_without_pr(base, q, m);
    let stack = pr_stack(base);
    lemma_pr_stack_sound(base);
    if q == base.len() {
        assert(ins =~= base.push((None, m)));
        assert(ins.drop_last() =~= base);
        assert(stack.map_values(|e: (usize, u64)| (shifted_index(e.0, q), e.1)) =~= stack);
    } else {
        let init = base.drop_last();
        assert(ins.drop_last() =~= with_commit_without_pr(init, q, m));
        assert(ins.last() == base.last());
        lemma_pr_stack_insert_none(init, q, m);
        let f = |e: (usize, u64)| (shifted_index(e.0, q), e.1);
        match base.last().0 {
            Some(pr) => {
                assert(stack == pr_stack(init).push(((base.len() - 1) as usize, pr)));
                assert(stack.map_values(f) =~= pr_stack(init).map_values(f).push(
                    (base.len() as usize, pr),
                ));
            },
            None => {},
        }
    }
}

proof fn lemma_stack_index_same_matches(
    s1: Seq<(usize, u64)>,
    i1: usize,
    s2: Seq<(usize, u64)>,
    i2: usize,
)
    requires
        s1.len() == s2.len(),
        forall|k: int| 0 <= k < s1.len() ==> ((#[trigger] s1[k]).0 == i1) == (s2[k].0 == i2),
    ensures
        stack_index(s1, i1) == stack_index(s2, i2),
    decreases s1.len(),
{
    if s1.len() > 0 {
        assert forall|k: int| 0 <= k < s1.drop_last().len() implies ((
        #[trigger] s1.drop_last()[k]).0 == i1) == (s2.drop_last()[k].0 == i2) by {
            assert(s1.drop_last()[k] == s1[k]);
            assert(s2.drop_last()[k] == s2[k]);
        }
        lemma_stack_index_same_matches(s1.drop_last(), i1, s2.drop_last(), i2);
        assert((s1[s1.len() - 1].0 == i1) == (s2[s2.len() - 1].0 == i2));
    }
}

/// Putting in a commit without a PR number changes no stack position: each
/// commit, at its new index, has the position that it had before.
pub proof fn law_stack_position_skips_commit_without_pr(
    base: Seq<(Option<u64>, MessageSectionsMap)>,
    q: int,
    m: MessageSectionsMap,
    i: usize,
)
    requires
        base.len() < usize::MAX,
        0 <= q <= base.len(),
        i < usize::MAX,
    ensures
        stack_position_of(shifted_index(i, q), with_commit_without_pr(base, q, m))
            == stack_position_of(i, base),
{
    let stack = pr_stack(base);
    let f = |e: (usize, u64)| (shifted_index(e.0, q), e.1);
    lemma_pr_stack_insert_none(base, q, m);
    lemma_pr_stack_sound(base);
    let stack2 = pr_stack(with_commit_without_pr(base, q, m));
    assert(stack2 == stack.map_values(f));
    assert forall|k: int| 0 <= k < stack.len() implies ((#[trigger] stack[k]).0 == i) == (
    stack2[k].0 == shifted_index(i, q)) by {
        assert(stack2[k] == f(stack[k]));
    }
    lemma_stack_index_same_matches(stack, i, stack2, shifted_index(i, q));
    if stack.len() > 1 {
        if let Some(k) = stack_index(stack, i) {
            lemma_stack_index_spec(stack, i);
            assert(stack2.skip(k + 1).map_values(|e: (usize, u64)| e.1) =~= stack.skip(
                k + 1,
            ).map_values(|e: (usize, u64)| e.1));
            if k > 0 {
                assert(stack2[k - 1] == f(stack[k - 1]));
            }
        }
    }
}


/// No character of `s` is a closing parenthesis.
pub open spec fn has_no_close_paren(s: Seq<char>) -> bool {
    forall|i: int| 0 <= i < s.len() ==> s[i] != ')'
}

/// `s` holds the marker `(this PR)` starting at index `q`.
pub open spec fn holds_marker_at(s: Seq<char>, q: int) -> bool {
    &&& 0 <= q
    &&& q + "(this PR)"@.len() <= s.len()
    &&& s.subrange(q, q + "(this PR)"@.len()) == "(this PR)"@
}

/// `s` nowhere holds the marker `(this PR)`.
pub open spec fn holds_no_marker(s: Seq<char>) -> bool {
    forall|q: int| !#[trigger] holds_marker_at(s, q)
}

/// No title of a commit in `commits` holds the marker `(this PR)`.
pub open spec fn titles_hold_no_marker(commits: Seq<(Option<u64>, MessageSectionsMap)>) -> bool {
    forall|j: int|
        0 <= j < commits.len() && (#[trigger] commits[j]).1@.contains_key(MessageSection::Title)
            ==> holds_no_marker(commits[j].1@[MessageSection::Title])
}

/// Every `)` of `s` has, among the eight characters before it, one that
/// differs from the character of `(this PR)` at that place: so no marker of a
/// text that holds `s` ends at a `)` of `s`, whatever stands before `s`.
spec fn closes_break_marker(s: Seq<char>) -> bool {
    forall|e: int|
        #![trigger s[e]]
        0 <= e < s.len() && s[e] == ')' ==> exists|i: int|
            #![trigger s[i]]
            0 <= i && e - 8 <= i < e && s[i] != "(this PR)"@[i - e + 8]
}

proof fn lemma_no_close_paren_breaks(s: Seq<char>)
    requires
        has_no_close_paren(s),
    ensures
        closes_break_marker(s),
{
}

proof fn lemma_no_close_paren_add(a: Seq<char>, b: Seq<char>)
    requires
        has_no_close_paren(a),
        has_no_close_paren(b),
    ensures
        has_no_close_paren(a + b),
{
    assert forall|i: int| 0 <= i < (a + b).len() implies (a + b)[i] != ')' by {
        if i < a.len() {
            assert((a + b)[i] == a[i]);
        } else {
            assert((a + b)[i] == b[i - a.len()]);
        }
    }
}

proof fn lemma_closes_break_add(a: Seq<char>, b: Seq<char>)
    requires
        closes_break_marker(a),
        closes_break_marker(b),
    ensures
        closes_break_marker(a + b),
{
    let t = a + b;
    assert forall|e: int| #![trigger t[e]] 0 <= e < t.len() && t[e] == ')' implies exists|i: int|
        #![trigger t[i]]
        0 <= i && e - 8 <= i < e && t[i] != "(this PR)"@[i - e + 8] by {
        if e < a.len() {
            assert(a[e] == t[e]);
            let i = choose|i: int|
                #![trigger a[i]]
                0 <= i && e - 8 <= i < e && a[i] != "(this PR)"@[i - e + 8];
            assert(t[i] == a[i]);
        } else {
            let eb = e - a.len();
            assert(b[eb] == t[e]);
            let ib = choose|i: int|
                #![trigger b[i]]
                0 <= i && eb - 8 <= i < eb && b[i] != "(this PR)"@[i - eb + 8];
            assert(t[ib + a.len()] == b[ib]);
        }
    }
}

proof fn lemma_literals_no_close_paren()
    ensures
        has_no_close_paren("---\n"@),
        has_no_close_paren("**Stack Position: "@),
        has_no_close_paren(" of "@),
        has_no_close_paren("**\n\n"@),
        has_no_close_paren("⬆️ **Depends on:** "@),
        has_no_close_paren("\n"@),
        has_no_close_paren("⬇️ **Required for:**"@),
        has_no_close_paren("\n**Full Stack:**\n"@),
        has_no_close_paren("\n---"@),
        has_no_close_paren("/"@),
        has_no_close_paren("#"@),
        has_no_close_paren(" "@),
        has_no_close_paren(". "@),
{
    reveal_strlit("---\n");
    reveal_strlit("**Stack Position: ");
    reveal_strlit(" of ");
    reveal_strlit("**\n\n");
    reveal_strlit("⬆️ **Depends on:** ");
    reveal_strlit("\n");
    reveal_strlit("⬇️ **Required for:**");
    reveal_strlit("\n**Full Stack:**\n");
    reveal_strlit("\n---");
    reveal_strlit("/");
    reveal_strlit("#");
    reveal_strlit(" ");
    reveal_strlit(". ");
}

proof fn lemma_decimal_no_close_paren(n: nat)
    ensures
        has_no_close_paren(decimal(n)),
    decreases n,
{
    assert(digit_char(n % 10) != ')');
    if n >= 10 {
        lemma_decimal_no_close_paren(n / 10);
    }
}

proof fn lemma_pr_link_no_close_paren(config: Config, pr: u64)
    requires
        has_no_close_paren(config.owner@),
        has_no_close_paren(config.repo@),
    ensures
        has_no_close_paren(pr_link(config, pr)),
{
    lemma_literals_no_close_paren();
    lemma_decimal_no_close_paren(pr as nat);
    lemma_no_close_paren_add(config.owner@, "/"@);
    lemma_no_close_paren_add(config.owner@ + "/"@, config.repo@);
    lemma_no_close_paren_add(config.owner@ + "/"@ + config.repo@, "#"@);
    lemma_no_close_paren_add(config.owner@ + "/"@ + config.repo@ + "#"@, decimal(pr as nat));
}

/// `" - "` and a text without the marker: a `)` of the text either has a
/// mismatch inside the text, or its window reaches back to the `-` or the
/// space before the text.
proof fn lemma_titled_breaks(title: Seq<char>)
    requires
        holds_no_marker(title),
    ensures
        closes_break_marker(" - "@ + title),
{
    reveal_strlit(" - ");
    reveal_strlit("(this PR)");
    let s = " - "@ + title;
    let m = "(this PR)"@;
    assert forall|e: int| #![trigger s[e]] 0 <= e < s.len() && s[e] == ')' implies exists|i: int|
        #![trigger s[i]]
        0 <= i && e - 8 <= i < e && s[i] != m[i - e + 8] by {
        assert(e >= 3);
        if e - 8 <= 1 {
            assert(s[1] == '-');
            assert(s[1] != m[1 - e + 8]);
        } else if e - 8 == 2 {
            assert(s[2] == ' ');
            assert(s[2] != m[0]);
        } else {
            let q = e - 11;
            assert(!holds_marker_at(title, q));
            assert(title.subrange(q, q + 9) != m);
            assert(q + 9 <= title.len());
            if !exists|k: int| 0 <= k < 9 && #[trigger] title[q + k] != m[k] {
                assert forall|k: int| 0 <= k < 9 implies #[trigger] title.subrange(q, q + 9)[k]
                    == m[k] by {
                    assert(title[q + k] == m[k]);
                }
                assert(title.subrange(q, q + 9) =~= m);
            }
            let k = choose|k: int| 0 <= k < 9 && #[trigger] title[q + k] != m[k];
            assert(s[q + k + 3] == title[q + k]);
            assert(s[e - 8 + k] != m[k]);
        }
    }
}

proof fn lemma_title_suffix_breaks(m: Map<MessageSection, Seq<char>>)
    requires
        m.contains_key(MessageSection::Title) ==> holds_no_marker(m[MessageSection::Title]),
    ensures
        closes_break_marker(title_suffix(m)),
{
    if m.contains_key(MessageSection::Title) {
        lemma_titled_breaks(m[MessageSection::Title]);
    }
}

proof fn lemma_first_commit_in_range(commits: Seq<(Option<u64>, MessageSectionsMap)>, pr: u64)
    ensures
        first_commit_with_pr(commits, pr) matches Some(i) ==> 0 <= i < commits.len(),
    decreases commits.len(),
{
    if commits.len() > 0 {
        lemma_first_commit_in_range(commits.drop_last(), pr);
    }
}

proof fn lemma_pr_title_suffix_breaks(commits: Seq<(Option<u64>, MessageSectionsMap)>, pr: u64)
    requires
        titles_hold_no_marker(commits),
    ensures
        closes_break_marker(pr_title_suffix(commits, pr)),
{
    lemma_first_commit_in_range(commits, pr);
    if let Some(i) = first_commit_with_pr(commits, pr) {
        assert(commits[i].1@.contains_key(MessageSection::Title) ==> holds_no_marker(
            commits[i].1@[MessageSection::Title],
        ));
        lemma_title_suffix_breaks(commits[i].1@);
    }
}

/// A link and the title suffix of its PR.
proof fn lemma_link_and_title_breaks(
    config: Config,
    commits: Seq<(Option<u64>, MessageSectionsMap)>,
    pr: u64,
)
    requires
        has_no_close_paren(config.owner@),
        has_no_close_paren(config.repo@),
        titles_hold_no_marker(commits),
    ensures
        closes_break_marker(pr_link(config, pr) + pr_title_suffix(commits, pr)),
{
    lemma_pr_link_no_close_paren(config, pr);
    lemma_no_close_paren_breaks(pr_link(config, pr));
    lemma_pr_title_suffix_breaks(commits, pr);
    lemma_closes_break_add(pr_link(config, pr), pr_title_suffix(commits, pr));
}

proof fn lemma_child_links_breaks(
    config: Config,
    commits: Seq<(Option<u64>, MessageSectionsMap)>,
    children: Seq<u64>,
)
    requires
        has_no_close_paren(config.owner@),
        has_no_close_paren(config.repo@),
        titles_hold_no_marker(commits),
    ensures
        closes_break_marker(child_links(config, commits, children)),
    decreases children.len(),
{
    if children.len() > 0 {
        let c = children.last();
        let before = child_links(config, commits, children.drop_last());
        lemma_child_links_breaks(config, commits, children.drop_last());
        lemma_literals_no_close_paren();
        lemma_no_close_paren_breaks(" "@);
        lemma_closes_break_add(before, " "@);
        lemma_link_and_title_breaks(config, commits, c);
        lemma_closes_break_add(before + " "@, pr_link(config, c) + pr_title_suffix(commits, c));
        assert(child_links(config, commits, children) =~= (before + " "@) + (pr_link(config, c)
            + pr_title_suffix(commits, c)));
    }
}

proof fn lemma_stack_line_body_breaks(
    config: Config,
    commits: Seq<(Option<u64>, MessageSectionsMap)>,
    idx: int,
    pr: u64,
)
    requires
        0 <= idx < commits.len(),
        has_no_close_paren(config.owner@),
        has_no_close_paren(config.repo@),
        titles_hold_no_marker(commits),
    ensures
        closes_break_marker(stack_line_body(config, commits, idx, pr)),
{
    let d = decimal((idx + 1) as nat);
    let suffix = title_suffix(commits[idx].1@);
    lemma_literals_no_close_paren();
    lemma_decimal_no_close_paren((idx + 1) as nat);
    lemma_pr_link_no_close_paren(config, pr);
    lemma_no_close_paren_add(d, ". "@);
    lemma_no_close_paren_add(d + ". "@, pr_link(config, pr));
    lemma_no_close_paren_breaks(d + ". "@ + pr_link(config, pr));
    assert(commits[idx].1@.contains_key(MessageSection::Title) ==> holds_no_marker(
        commits[idx].1@[MessageSection::Title],
    ));
    lemma_title_suffix_breaks(commits[idx].1@);
    lemma_closes_break_add(d + ". "@ + pr_link(config, pr), suffix);
}

/// The first `n` lines of the full stack: without a marker up to the line of
/// commit `ci`; from there on, that line's body, the marker, and a rest
/// without one.
proof fn lemma_stack_lines_marker(
    config: Config,
    commits: Seq<(Option<u64>, MessageSectionsMap)>,
    ci: int,
    n: nat,
) -> (rest: Seq<char>)
    requires
        0 <= ci < commits.len(),
        ci + 1 <= usize::MAX,
        n <= commits.len(),
        forall|i: int| 0 <= i < commits.len() ==> (#[trigger] commits[i]).0 is Some,
        has_no_close_paren(config.owner@),
        has_no_close_paren(config.repo@),
        titles_hold_no_marker(commits),
    ensures
        n <= ci ==> closes_break_marker(stack_lines(config, commits, (ci + 1) as usize, n)),
        n > ci ==> {
            &&& closes_break_marker(rest)
            &&& stack_lines(config, commits, (ci + 1) as usize, n) == stack_lines(
                config,
                commits,
                (ci + 1) as usize,
                ci as nat,
            ) + stack_line_body(config, commits, ci, commits[ci].0->0) + " (this PR)"@ + rest
        },
    decreases n,
{
    lemma_literals_no_close_paren();
    lemma_no_close_paren_breaks("\n"@);
    let current = (ci + 1) as usize;
    if n == 0 {
        Seq::empty()
    } else {
        let idx = n - 1;
        let prev = lemma_stack_lines_marker(config, commits, ci, (n - 1) as nat);
        let before = stack_lines(config, commits, current, (n - 1) as nat);
        let pr = commits[idx].0->0;
        let body = stack_line_body(config, commits, idx, pr);
        lemma_stack_line_body_breaks(config, commits, idx, pr);
        assert(commits[idx].0 is Some);
        if idx < ci {
            let line = stack_line(config, commits, current, idx);
            assert(line =~= body + "\n"@);
            lemma_closes_break_add(body, "\n"@);
            lemma_closes_break_add(before, line);
            Seq::empty()
        } else if idx == ci {
            assert(stack_line(config, commits, current, idx) == body + " (this PR)"@ + "\n"@);
            let rest = "\n"@;
            assert(stack_lines(config, commits, current, n) =~= before + body + " (this PR)"@
                + rest);
            rest
        } else {
            let line = stack_line(config, commits, current, idx);
            assert(line =~= body + "\n"@);
            lemma_closes_break_add(body, "\n"@);
            lemma_closes_break_add(prev, line);
            let rest = prev + line;
            assert(stack_lines(config, commits, current, n) =~= stack_lines(
                config,
                commits,
                current,
                ci as nat,
            ) + stack_line_body(config, commits, ci, commits[ci].0->0) + " (this PR)"@ + rest);
            rest
        }
    }
}

/// In `a + " (this PR)" + b`, where every `)` of `a` and of `b` breaks the
/// marker, `(this PR)` starts at one place only.
proof fn lemma_marker_unique(a: Seq<char>, b: Seq<char>)
    requires
        closes_break_marker(a),
        closes_break_marker(b),
    ensures
        ({
            let t = a + " (this PR)"@ + b;
            &&& a.len() + 1 + "(this PR)"@.len() <= t.len()
            &&& forall|q: int|
                #![trigger t.subrange(q, q + "(this PR)"@.len())]
                0 <= q && q + "(this PR)"@.len() <= t.len() ==> (t.subrange(
                    q,
                    q + "(this PR)"@.len(),
                ) == "(this PR)"@ <==> q == a.len() + 1)
        }),
{
    reveal_strlit(" (this PR)");
    reveal_strlit("(this PR)");
    let lit = " (this PR)"@;
    let t = a + lit + b;
    let m = "(this PR)"@;
    let p: int = a.len() as int + 1;
    assert(t.subrange(p, p + m.len()) =~= m);
    assert forall|q: int|
        #![trigger t.subrange(q, q + m.len())]
        0 <= q && q + m.len() <= t.len() && t.subrange(q, q + m.len()) == m implies q == p by {
        let e = q + 8;
        assert forall|k: int| 0 <= k < 9 implies #[trigger] t[q + k] == m[k] by {
            assert(t.subrange(q, q + m.len())[k] == m[k]);
        }
        assert(t[e] == ')');
        if e < a.len() {
            assert(a[e] == t[e]);
            let i = choose|i: int|
                #![trigger a[i]]
                0 <= i && e - 8 <= i < e && a[i] != m[i - e + 8];
            assert(t[i] == a[i]);
            assert(t[q + (i - q)] == m[i - q]);
        } else if e >= a.len() + 10 {
            let eb = e - a.len() - 10;
            assert(b[eb] == t[e]);
            let ib = choose|i: int|
                #![trigger b[i]]
                0 <= i && eb - 8 <= i < eb && b[i] != m[i - eb + 8];
            let i = ib + a.len() + 10;
            assert(t[i] == b[ib]);
            assert(t[q + (i - q)] == m[i - q]);
        } else {
            assert(t[e] == lit[e - a.len()]);
        }
    }
}

/// The header, parent line and children line break every marker where no
/// owner or repository name holds a `)` and no title holds the marker.
proof fn lemma_head_breaks(
    position: StackPosition,
    config: Config,
    commits: Seq<(Option<u64>, MessageSectionsMap)>,
)
    requires
        has_no_close_paren(config.owner@),
        has_no_close_paren(config.repo@),
        titles_hold_no_marker(commits),
    ensures
        closes_break_marker(
            crate::stack_info::header_text(position) + crate::stack_info::parent_text(
                position,
                config,
                commits,
            ) + crate::stack_info::children_text(position, config, commits),
        ),
{
    lemma_literals_no_close_paren();
    let header = crate::stack_info::header_text(position);
    let parent = crate::stack_info::parent_text(position, config, commits);
    let children = crate::stack_info::children_text(position, config, commits);
    lemma_decimal_no_close_paren(position.current as nat);
    lemma_decimal_no_close_paren(position.total as nat);
    let h1 = "---\n"@ + "**Stack Position: "@;
    let dc = decimal(position.current as nat);
    let dt = decimal(position.total as nat);
    lemma_no_close_paren_add("---\n"@, "**Stack Position: "@);
    lemma_no_close_paren_add(h1, dc);
    lemma_no_close_paren_add(h1 + dc, " of "@);
    lemma_no_close_paren_add(h1 + dc + " of "@, dt);
    lemma_no_close_paren_add(h1 + dc + " of "@ + dt, "**\n\n"@);
    lemma_no_close_paren_breaks(header);
    if let Some(pp) = position.parent_pr {
        let d = "⬆️ **Depends on:** "@;
        let lt = pr_link(config, pp) + pr_title_suffix(commits, pp);
        lemma_no_close_paren_breaks(d);
        lemma_no_close_paren_breaks("\n"@);
        lemma_link_and_title_breaks(config, commits, pp);
        lemma_closes_break_add(d, lt);
        lemma_closes_break_add(d + lt, "\n"@);
        assert(parent =~= d + lt + "\n"@);
    } else {
        lemma_no_close_paren_breaks(parent);
    }
    if position.child_prs@.len() > 0 {
        let r = "⬇️ **Required for:**"@;
        let links = child_links(config, commits, position.child_prs@);
        lemma_no_close_paren_breaks(r);
        lemma_no_close_paren_breaks("\n"@);
        lemma_child_links_breaks(config, commits, position.child_prs@);
        lemma_closes_break_add(r, links);
        lemma_closes_break_add(r + links, "\n"@);
    } else {
        lemma_no_close_paren_breaks(children);
    }
    lemma_closes_break_add(header, parent);
    lemma_closes_break_add(header + parent, children);
}

/// The text of a position where every commit carries a PR number: the part
/// before ` (this PR)`, which ends with the body of the current commit's
/// full-stack line, and the part after it.
proof fn lemma_text_around_marker(
    config: Config,
    commits: Seq<(Option<u64>, MessageSectionsMap)>,
    ci: int,
    position: StackPosition,
) -> (ab: (Seq<char>, Seq<char>))
    requires
        0 <= ci < commits.len(),
        ci + 1 <= usize::MAX,
        commits.len() >= 2,
        position.current == ci + 1,
        position.total == commits.len(),
        forall|i: int| 0 <= i < commits.len() ==> (#[trigger] commits[i]).0 is Some,
        has_no_close_paren(config.owner@),
        has_no_close_paren(config.repo@),
        titles_hold_no_marker(commits),
    ensures
        closes_break_marker(ab.0),
        closes_break_marker(ab.1),
        stack_info_text(position, config, commits) == ab.0 + " (this PR)"@ + ab.1,
        ab.0.len() >= stack_line_body(config, commits, ci, commits[ci].0->0).len(),
        ab.0.subrange(
            ab.0.len() - stack_line_body(config, commits, ci, commits[ci].0->0).len(),
            ab.0.len() as int,
        ) == stack_line_body(config, commits, ci, commits[ci].0->0),
{
    let header = crate::stack_info::header_text(position);
    let parent = crate::stack_info::parent_text(position, config, commits);
    let children = crate::stack_info::children_text(position, config, commits);
    let n = commits.len();
    let lines_before = stack_lines(config, commits, position.current, ci as nat);
    let body = stack_line_body(config, commits, ci, commits[ci].0->0);
    let rest = lemma_stack_lines_marker(config, commits, ci, n);
    lemma_stack_lines_marker(config, commits, ci, ci as nat);
    lemma_stack_line_body_breaks(config, commits, ci, commits[ci].0->0);
    lemma_head_breaks(position, config, commits);
    lemma_literals_no_close_paren();
    let a0 = header + parent + children;
    let fs = "\n**Full Stack:**\n"@;
    lemma_no_close_paren_breaks(fs);
    lemma_no_close_paren_breaks("\n---"@);
    lemma_closes_break_add(a0, fs);
    lemma_closes_break_add(a0 + fs, lines_before);
    lemma_closes_break_add(a0 + fs + lines_before, body);
    let a = a0 + fs + lines_before + body;
    let b = rest + "\n---"@;
    lemma_closes_break_add(rest, "\n---"@);
    let full = crate::stack_info::full_stack_text(position, config, commits);
    assert(full == fs + (lines_before + body + " (this PR)"@ + rest));
    assert(stack_info_text(position, config, commits) =~= a + " (this PR)"@ + b);
    assert(a.subrange(a.len() - body.len(), a.len() as int) =~= body);
    (a, b)
}

/// Where every commit carries a PR number, no owner or repository name holds
/// a `)` and no title holds `(this PR)`, the text of the position that
/// `detect_stack_position` finds for commit `current_index` shows position
/// `current_index + 1` of all the commits, and `(this PR)` stands in it exactly
/// once: right after the body of that commit's full-stack line and a space.
pub proof fn law_marker_once(
    config: Config,
    commits: Seq<(Option<u64>, MessageSectionsMap)>,
    current_index: usize,
    position: StackPosition,
)
    requires
        commits.len() <= usize::MAX,
        forall|i: int| 0 <= i < commits.len() ==> (#[trigger] commits[i]).0 is Some,
        stack_position_of(current_index, commits) == Some(position@),
        has_no_close_paren(config.owner@),
        has_no_close_paren(config.repo@),
        titles_hold_no_marker(commits),
    ensures
        position.current == current_index + 1,
        position.total == commits.len(),
        ({
            let t = stack_info_text(position, config, commits);
            let marker = "(this PR)"@;
            let body = stack_line_body(
                config,
                commits,
                current_index as int,
                commits[current_index as int].0->0,
            );
            exists|p: int|
                #![trigger t.subrange(p, p + marker.len())]
                {
                    &&& 1 + body.len() <= p
                    &&& p + marker.len() <= t.len()
                    &&& t.subrange(p - 1 - body.len(), p - 1) == body
                    &&& forall|q: int|
                        #![trigger t.subrange(q, q + marker.len())]
                        0 <= q && q + marker.len() <= t.len() ==> (t.subrange(q, q + marker.len())
                            == marker <==> q == p)
                }
        }),
{
    lemma_pr_stack_all(commits);
    let stack = pr_stack(commits);
    lemma_stack_index_spec(stack, current_index);
    let k = stack_index(stack, current_index)->0;
    assert(stack[k].0 == k as usize);
    let ci = current_index as int;
    let ab = lemma_text_around_marker(config, commits, ci, position);
    let a = ab.0;
    let b = ab.1;
    let t = stack_info_text(position, config, commits);
    let body = stack_line_body(config, commits, ci, commits[ci].0->0);
    lemma_marker_unique(a, b);
    let p: int = a.len() as int + 1;
    assert(t.subrange(p - 1 - body.len(), p - 1) =~= a.subrange(
        a.len() - body.len(),
        a.len() as int,
    ));
    assert(t.subrange(p, p + "(this PR)"@.len()) == "(this PR)"@);
}

} // verus!
