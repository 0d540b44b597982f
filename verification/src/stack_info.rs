use vstd::prelude::*;

use crate::config::Config;
use crate::decimal::{decimal, push_decimal};
use crate::message::{MessageSection, MessageSectionsMap};

verus! {

/// Represents information about a PR's position in a stack
#[derive(Debug, Clone)]
pub struct StackPosition {
    /// Current position (1-indexed)
    pub current: usize,
    /// Total number of PRs in stack
    pub total: usize,
    /// PR number of the parent (depends on)
    pub parent_pr: Option<u64>,
    /// PR numbers of children (required for)
    pub child_prs: Vec<u64>,
}

/// The mathematical value of a [`StackPosition`].
pub struct StackPositionView {
    pub current: nat,
    pub total: nat,
    pub parent_pr: Option<u64>,
    pub child_prs: Seq<u64>,
}

impl View for StackPosition {
    type V = StackPositionView;

    open spec fn view(&self) -> StackPositionView {
        StackPositionView {
            current: self.current as nat,
            total: self.total as nat,
            parent_pr: self.parent_pr,
            child_prs: self.child_prs@,
        }
    }
}

// ---------------------------------------------------------------------------
// Stack detection
// ---------------------------------------------------------------------------

/// The commits that carry a PR number, in order: each as its index in
/// `commits` and its PR number.
pub open spec fn pr_stack(commits: Seq<(Option<u64>, MessageSectionsMap)>) -> Seq<(usize, u64)>
    decreases commits.len(),
{
    if commits.len() == 0 {
        Seq::empty()
    } else {
        let before = pr_stack(commits.drop_last());
        match commits.last().0 {
            Some(pr) => before.push(((commits.len() - 1) as usize, pr)),
            None => before,
        }
    }
}

/// The first place in `stack` of the commit with index `index`, if any.
pub open spec fn stack_index(stack: Seq<(usize, u64)>, index: usize) -> Option<int>
    decreases stack.len(),
{
    if stack.len() == 0 {
        None
    } else {
        match stack_index(stack.drop_last(), index) {
            Some(k) => Some(k),
            None => if stack.last().0 == index {
                Some(stack.len() - 1)
            } else {
                None
            },
        }
    }
}

/// The position in the stack of the commit with index `current_index`: none
/// unless at least two commits carry a PR number and that commit is one of them.
pub open spec fn stack_position_of(
    current_index: usize,
    commits: Seq<(Option<u64>, MessageSectionsMap)>,
) -> Option<StackPositionView> {
    let stack = pr_stack(commits);
    if stack.len() <= 1 {
        None
    } else {
        match stack_index(stack, current_index) {
            None => None,
            Some(k) => Some(
                StackPositionView {
                    current: (k + 1) as nat,
                    total: stack.len(),
                    parent_pr: if k > 0 {
                        Some(stack[k - 1].1)
                    } else {
                        None
                    },
                    child_prs: stack.skip(k + 1).map_values(|e: (usize, u64)| e.1),
                },
            ),
        }
    }
}

proof fn lemma_pr_stack_step(commits: Seq<(Option<u64>, MessageSectionsMap)>, i: int)
    requires
        0 <= i < commits.len(),
    ensures
        pr_stack(commits.take(i + 1)) == (match commits[i].0 {
            Some(pr) => pr_stack(commits.take(i)).push((i as usize, pr)),
            None => pr_stack(commits.take(i)),
        }),
{
    assert(commits.take(i + 1).drop_last() =~= commits.take(i));
}

proof fn lemma_stack_index_step(stack: Seq<(usize, u64)>, k: int, index: usize)
    requires
        0 <= k < stack.len(),
        stack_index(stack.take(k), index) is None,
    ensures
        stack_index(stack.take(k + 1), index) == (if stack[k].0 == index {
            Some(k)
        } else {
            None::<int>
        }),
{
    assert(stack.take(k + 1).drop_last() =~= stack.take(k));
}

proof fn lemma_stack_index_extend(stack: Seq<(usize, u64)>, j: int, index: usize)
    requires
        0 <= j <= stack.len(),
        stack_index(stack.take(j), index) is Some,
    ensures
        stack_index(stack, index) == stack_index(stack.take(j), index),
    decreases stack.len(),
{
    if j == stack.len() {
        assert(stack.take(j) =~= stack);
    } else {
        assert(stack.drop_last().take(j) =~= stack.take(j));
        lemma_stack_index_extend(stack.drop_last(), j, index);
    }
}

/// The place in `stack` of the commit with index `index`, if any.
fn find_in_stack(stack: &Vec<(usize, u64)>, index: usize) -> (r: Option<usize>)
    ensures
        match r {
            Some(k) => stack_index(stack@, index) == Some(k as int) && k < stack@.len(),
            None => stack_index(stack@, index) is None,
        },
{
    let mut k: usize = 0;
    while k < stack.len()
        invariant
            k <= stack@.len(),
            stack_index(stack@.take(k as int), index) is None,
        decreases stack@.len() - k,
    {
        proof {
            lemma_stack_index_step(stack@, k as int, index);
        }
        if stack[k].0 == index {
            proof {
                lemma_stack_index_extend(stack@, (k + 1) as int, index);
            }
            return Some(k);
        }
        k = k + 1;
    }
    assert(stack@.take(k as int) =~= stack@);
    None
}

/// Detect stack position for a commit within a list of commits
pub fn detect_stack_position(
    current_index: usize,
    all_commits: &[(Option<u64>, MessageSectionsMap)],
) -> (r: Option<StackPosition>)
    ensures
        match r {
            Some(p) => stack_position_of(current_index, all_commits@) == Some(p@),
            None => stack_position_of(current_index, all_commits@) is None,
        },
{
    // Only generate stack info if there are multiple commits with PR numbers
    let mut commits_with_prs: Vec<(usize, u64)> = Vec::new();
    let mut i: usize = 0;
    while i < all_commits.len()
        invariant
            i <= all_commits@.len(),
            commits_with_prs@ == pr_stack(all_commits@.take(i as int)),
        decreases all_commits@.len() - i,
    {
        proof {
            lemma_pr_stack_step(all_commits@, i as int);
        }
        if let Some(pr) = all_commits[i].0 {
            commits_with_prs.push((i, pr));
        }
        i = i + 1;
    }
    assert(all_commits@.take(i as int) =~= all_commits@);
    let ghost stack = commits_with_prs@;

    if commits_with_prs.len() <= 1 {
        return None;
    }
    // Find the current commit's position in the stack

    let stack_position = match find_in_stack(&commits_with_prs, current_index) {
        Some(k) => k,
        None => {
            return None;
        },
    };

    // Get parent PR (previous in stack)
    let parent_pr = if stack_position > 0 {
        Some(commits_with_prs[stack_position - 1].1)
    } else {
        None
    };

    // Get child PRs (all subsequent in stack)
    let mut child_prs: Vec<u64> = Vec::new();
    let mut j: usize = stack_position + 1;
    while j < commits_with_prs.len()
        invariant
            stack == commits_with_prs@,
            stack_position < stack.len(),
            stack_position + 1 <= j <= stack.len(),
            child_prs@ == stack.subrange(stack_position + 1, j as int).map_values(
                |e: (usize, u64)| e.1,
            ),
        decreases stack.len() - j,
    {
        child_prs.push(commits_with_prs[j].1);
        proof {
            assert(stack.subrange(stack_position + 1, j + 1).map_values(|e: (usize, u64)| e.1)
                =~= stack.subrange(stack_position + 1, j as int).map_values(
                |e: (usize, u64)| e.1,
            ).push(stack[j as int].1));
        }
        j = j + 1;
    }
    assert(stack.subrange(stack_position + 1, j as int) =~= stack.skip(stack_position + 1));

    let r = StackPosition {
        current: stack_position + 1,
        total: commits_with_prs.len(),
        parent_pr,
        child_prs,
    };
    assert(r@.child_prs =~= stack.skip(stack_position + 1).map_values(|e: (usize, u64)| e.1));
    Some(r)
}


// ---------------------------------------------------------------------------
// Stack information text
// ---------------------------------------------------------------------------

/// `" - "` and the title of message `m`, or nothing where `m` has no title.
pub open spec fn title_suffix(m: Map<MessageSection, Seq<char>>) -> Seq<char> {
    if m.contains_key(MessageSection::Title) {
        " - "@ + m[MessageSection::Title]
    } else {
        Seq::empty()
    }
}

/// Index of the first commit whose PR number is `pr`, if any.
pub open spec fn first_commit_with_pr(commits: Seq<(Option<u64>, MessageSectionsMap)>, pr: u64) -> Option<int>
    decreases commits.len(),
{
    if commits.len() == 0 {
        None
    } else {
        match first_commit_with_pr(commits.drop_last(), pr) {
            Some(i) => Some(i),
            None => if commits.last().0 == Some(pr) {
                Some(commits.len() - 1)
            } else {
                None
            },
        }
    }
}

/// The title suffix of the first commit whose PR number is `pr`, or nothing
/// where no commit has that PR number.
pub open spec fn pr_title_suffix(commits: Seq<(Option<u64>, MessageSectionsMap)>, pr: u64) -> Seq<char> {
    match first_commit_with_pr(commits, pr) {
        Some(i) => title_suffix(commits[i].1@),
        None => Seq::empty(),
    }
}

/// `owner/repo#pr`.
pub open spec fn pr_link(config: Config, pr: u64) -> Seq<char> {
    config.owner@ + "/"@ + config.repo@ + "#"@ + decimal(pr as nat)
}

/// The separator and the stack position line.
pub open spec fn header_text(position: StackPosition) -> Seq<char> {
    "---\n"@ + "**Stack Position: "@ + decimal(position.current as nat) + " of "@ + decimal(
        position.total as nat,
    ) + "**\n\n"@
}

/// The line that links the parent PR, or nothing where there is no parent.
pub open spec fn parent_text(
    position: StackPosition,
    config: Config,
    commits: Seq<(Option<u64>, MessageSectionsMap)>,
) -> Seq<char> {
    match position.parent_pr {
        Some(p) => "⬆️ **Depends on:** "@ + pr_link(config, p) + pr_title_suffix(commits, p) + "\n"@,
        None => Seq::empty(),
    }
}

/// The links to the PRs `children`, each after a space.
pub open spec fn child_links(
    config: Config,
    commits: Seq<(Option<u64>, MessageSectionsMap)>,
    children: Seq<u64>,
) -> Seq<char>
    decreases children.len(),
{
    if children.len() == 0 {
        Seq::empty()
    } else {
        child_links(config, commits, children.drop_last()) + " "@ + pr_link(config, children.last())
            + pr_title_suffix(commits, children.last())
    }
}

/// The line that links the child PRs, or nothing where there are none.
pub open spec fn children_text(
    position: StackPosition,
    config: Config,
    commits: Seq<(Option<u64>, MessageSectionsMap)>,
) -> Seq<char> {
    if position.child_prs@.len() == 0 {
        Seq::empty()
    } else {
        "⬇️ **Required for:**"@ + child_links(config, commits, position.child_prs@) + "\n"@
    }
}

/// The line of the full stack for commit `idx`, without marker and newline.
pub open spec fn stack_line_body(
    config: Config,
    commits: Seq<(Option<u64>, MessageSectionsMap)>,
    idx: int,
    pr: u64,
) -> Seq<char> {
    decimal((idx + 1) as nat) + ". "@ + pr_link(config, pr) + title_suffix(commits[idx].1@)
}

/// The line of the full stack for commit `idx`: nothing where it has no PR.
pub open spec fn stack_line(
    config: Config,
    commits: Seq<(Option<u64>, MessageSectionsMap)>,
    current: usize,
    idx: int,
) -> Seq<char> {
    match commits[idx].0 {
        Some(pr) => stack_line_body(config, commits, idx, pr) + (if idx + 1 == current {
            " (this PR)"@
        } else {
            Seq::empty()
        }) + "\n"@,
        None => Seq::empty(),
    }
}

/// The lines of the full stack for the first `n` commits.
pub open spec fn stack_lines(
    config: Config,
    commits: Seq<(Option<u64>, MessageSectionsMap)>,
    current: usize,
    n: nat,
) -> Seq<char>
    decreases n,
{
    if n == 0 {
        Seq::empty()
    } else {
        stack_lines(config, commits, current, (n - 1) as nat) + stack_line(
            config,
            commits,
            current,
            n - 1,
        )
    }
}

/// The full stack, or nothing where the stack has a single PR.
pub open spec fn full_stack_text(
    position: StackPosition,
    config: Config,
    commits: Seq<(Option<u64>, MessageSectionsMap)>,
) -> Seq<char> {
    if position.total > 1 {
        "\n**Full Stack:**\n"@ + stack_lines(config, commits, position.current, commits.len())
    } else {
        Seq::empty()
    }
}

/// The stack information text of a PR description.
pub open spec fn stack_info_text(
    position: StackPosition,
    config: Config,
    commits: Seq<(Option<u64>, MessageSectionsMap)>,
) -> Seq<char> {
    header_text(position) + parent_text(position, config, commits) + children_text(
        position,
        config,
        commits,
    ) + full_stack_text(position, config, commits) + "\n---"@
}

/// Appends `usize` value `n` in decimal.
fn push_decimal_usize(s: &mut String, n: usize)
    ensures
        final(s)@ == old(s)@ + decimal(n as nat),
{
    push_decimal(s, n as u64);
}

/// Appends `owner/repo#pr`.
fn push_pr_link(text: &mut String, config: &Config, pr: u64)
    ensures
        final(text)@ == old(text)@ + pr_link(*config, pr),
{
    text.append(config.owner.as_str());
    text.append("/");
    text.append(config.repo.as_str());
    text.append("#");
    push_decimal(text, pr);
    assert(final(text)@ =~= old(text)@ + pr_link(*config, pr));
}

/// Appends the title suffix of message `message`.
fn push_title_suffix(text: &mut String, message: &MessageSectionsMap)
    ensures
        final(text)@ == old(text)@ + title_suffix(message@),
{
    match message.get(&MessageSection::Title) {
        Some(t) => {
            text.append(" - ");
            text.append(t.as_str());
            assert(final(text)@ =~= old(text)@ + title_suffix(message@));
        },
        None => {
            assert(final(text)@ =~= old(text)@ + title_suffix(message@));
        },
    }
}

proof fn lemma_first_commit_step(commits: Seq<(Option<u64>, MessageSectionsMap)>, i: int, pr: u64)
    requires
        0 <= i < commits.len(),
        first_commit_with_pr(commits.take(i), pr) is None,
    ensures
        first_commit_with_pr(commits.take(i + 1), pr) == (if commits[i].0 == Some(pr) {
            Some(i)
        } else {
            None::<int>
        }),
{
    assert(commits.take(i + 1).drop_last() =~= commits.take(i));
}

proof fn lemma_first_commit_extend(commits: Seq<(Option<u64>, MessageSectionsMap)>, j: int, pr: u64)
    requires
        0 <= j <= commits.len(),
        first_commit_with_pr(commits.take(j), pr) is Some,
    ensures
        first_commit_with_pr(commits, pr) == first_commit_with_pr(commits.take(j), pr),
    decreases commits.len(),
{
    if j == commits.len() {
        assert(commits.take(j) =~= commits);
    } else {
        assert(commits.drop_last().take(j) =~= commits.take(j));
        lemma_first_commit_extend(commits.drop_last(), j, pr);
    }
}

/// Appends the title suffix of the first commit whose PR number is `pr`.
fn push_pr_title(text: &mut String, all_commits: &[(Option<u64>, MessageSectionsMap)], pr: u64)
    ensures
        final(text)@ == old(text)@ + pr_title_suffix(all_commits@, pr),
{
    let mut i: usize = 0;
    while i < all_commits.len()
        invariant
            i <= all_commits@.len(),
            first_commit_with_pr(all_commits@.take(i as int), pr) is None,
            *text == *old(text),
        decreases all_commits@.len() - i,
    {
        proof {
            lemma_first_commit_step(all_commits@, i as int, pr);
        }
        let found = match all_commits[i].0 {
            Some(p) => p == pr,
            None => false,
        };
        if found {
            proof {
                lemma_first_commit_extend(all_commits@, (i + 1) as int, pr);
            }
            push_title_suffix(text, &all_commits[i].1);
            return;
        }
        i = i + 1;
    }
    assert(all_commits@.take(i as int) =~= all_commits@);
    assert(final(text)@ =~= old(text)@ + pr_title_suffix(all_commits@, pr));
}

/// Generate stack information text for a PR description
pub fn build_stack_info_text(
    position: &StackPosition,
    config: &Config,
    all_commits: &[(Option<u64>, MessageSectionsMap)],
) -> (text: String)
    ensures
        text@ == stack_info_text(*position, *config, all_commits@),
{
    let mut text = String::new();

    // Add horizontal rule separator
    text.append("---\n");

    // Add stack position
    text.append("**Stack Position: ");
    push_decimal_usize(&mut text, position.current);
    text.append(" of ");
    push_decimal_usize(&mut text, position.total);
    text.append("**\n\n");
    assert(text@ =~= header_text(*position));
    let ghost after_header = text@;

    // Add parent PR link if exists
    if let Some(parent_pr) = position.parent_pr {
        text.append("⬆️ **Depends on:** ");
        push_pr_link(&mut text, config, parent_pr);
        push_pr_title(&mut text, all_commits, parent_pr);
        text.append("\n");
    }
    assert(text@ =~= after_header + parent_text(*position, *config, all_commits@));
    let ghost after_parent = text@;

    // Add child PR links if exist
    if position.child_prs.len() > 0 {
        text.append("⬇️ **Required for:**");
        let ghost before_children = text@;
        let mut c: usize = 0;
        while c < position.child_prs.len()
            invariant
                c <= position.child_prs@.len(),
                text@ == before_children + child_links(
                    *config,
                    all_commits@,
                    position.child_prs@.take(c as int),
                ),
            decreases position.child_prs@.len() - c,
        {
            let child_pr = position.child_prs[c];
            text.append(" ");
            push_pr_link(&mut text, config, child_pr);
            push_pr_title(&mut text, all_commits, child_pr);
            proof {
                let taken = position.child_prs@.take(c + 1);
                assert(taken.drop_last() =~= position.child_prs@.take(c as int));
                assert(text@ =~= before_children + child_links(*config, all_commits@, taken));
            }
            c = c + 1;
        }
        assert(position.child_prs@.take(c as int) =~= position.child_prs@);
        text.append("\n");
    }
    assert(text@ =~= after_parent + children_text(*position, *config, all_commits@));
    let ghost after_children = text@;

    // Add full stack visualization if stack has more than 1 PR
    if position.total > 1 {
        text.append("\n**Full Stack:**\n");
        let ghost before_lines = text@;
        let mut idx: usize = 0;
        while idx < all_commits.len()
            invariant
                idx <= all_commits@.len(),
                text@ == before_lines + stack_lines(
                    *config,
                    all_commits@,
                    position.current,
                    idx as nat,
                ),
            decreases all_commits@.len() - idx,
        {
            let ghost before_line = text@;
            if let Some(pr_num) = all_commits[idx].0 {
                let num = idx + 1;
                push_decimal_usize(&mut text, num);
                text.append(". ");
                push_pr_link(&mut text, config, pr_num);
                push_title_suffix(&mut text, &all_commits[idx].1);
                if num == position.current {
                    text.append(" (this PR)");
                }
                text.append("\n");
            }
            assert(text@ =~= before_line + stack_line(
                *config,
                all_commits@,
                position.current,
                idx as int,
            ));
            idx = idx + 1;
        }
    }
    assert(text@ =~= after_children + full_stack_text(*position, *config, all_commits@));

    text.append("\n---");
    text
}

} // verus!
