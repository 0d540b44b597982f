use vstd::prelude::*;

use crate::config::Config;
use crate::decimal::decimal;
use crate::message::{MessageSection, MessageSectionsMap};
use crate::stack_info::{
    StackPosition, child_links, children_text, first_commit_with_pr, full_stack_text, header_text,
    parent_text, pr_title_suffix, stack_info_text, stack_line, stack_lines, title_suffix,
};

verus! {

// The laws below describe the stack text from the inputs alone, each part in
// its own terms, and prove that the text that `build_stack_info_text` returns
// has that shape.

/// `i` is the index of the first commit that carries PR number `p`.
pub open spec fn is_first_commit_with(
    commits: Seq<(Option<u64>, MessageSectionsMap)>,
    p: u64,
    i: int,
) -> bool {
    &&& 0 <= i < commits.len()
    &&& commits[i].0 == Some(p)
    &&& forall|j: int| 0 <= j < i ==> (#[trigger] commits[j]).0 != Some(p)
}

/// What a message shows as its title: `" - "` and the text of its Title
/// section, whatever other sections it holds; nothing where it has no title.
pub open spec fn shown_title_of(m: Map<MessageSection, Seq<char>>) -> Seq<char> {
    if m.contains_key(MessageSection::Title) {
        " - "@ + m[MessageSection::Title]
    } else {
        Seq::empty()
    }
}

/// The title shown after a link to PR `p`: that of the first commit that
/// carries `p`; nothing where no commit carries `p`.
#[verifier::opaque]
pub open spec fn shown_title(commits: Seq<(Option<u64>, MessageSectionsMap)>, p: u64) -> Seq<char> {
    if exists|i: int| is_first_commit_with(commits, p, i) {
        shown_title_of(commits[choose|i: int| is_first_commit_with(commits, p, i)].1@)
    } else {
        Seq::empty()
    }
}

/// `owner/repo#p`.
pub open spec fn link_to(config: Config, p: u64) -> Seq<char> {
    config.owner@ + "/"@ + config.repo@ + "#"@ + decimal(p as nat)
}

/// The links to the PRs `cs`, first to last, each after a space and followed
/// by its shown title.
pub open spec fn links_in_order(
    config: Config,
    commits: Seq<(Option<u64>, MessageSectionsMap)>,
    cs: Seq<u64>,
) -> Seq<char>
    decreases cs.len(),
{
    if cs.len() == 0 {
        Seq::empty()
    } else {
        " "@ + link_to(config, cs[0]) + shown_title(commits, cs[0]) + links_in_order(
            config,
            commits,
            cs.drop_first(),
        )
    }
}

/// The full-stack line of commit `i`: its number `i + 1`, its link and title,
/// the marker where `i + 1` is the position; nothing for a commit without a PR.
pub open spec fn full_stack_line(
    config: Config,
    commits: Seq<(Option<u64>, MessageSectionsMap)>,
    current: usize,
    i: int,
) -> Seq<char> {
    match commits[i].0 {
        Some(pr) => decimal((i + 1) as nat) + ". "@ + link_to(config, pr) + shown_title_of(
            commits[i].1@,
        ) + (if i + 1 == current {
            " (this PR)"@
        } else {
            Seq::empty()
        }) + "\n"@,
        None => Seq::empty(),
    }
}

/// The full-stack lines of commits `i`, `i + 1`, ... to the last.
pub open spec fn full_stack_lines_from(
    config: Config,
    commits: Seq<(Option<u64>, MessageSectionsMap)>,
    current: usize,
    i: int,
) -> Seq<char>
    decreases commits.len() - i,
{
    if i < 0 || i >= commits.len() {
        Seq::empty()
    } else {
        full_stack_line(config, commits, current, i) + full_stack_lines_from(
            config,
            commits,
            current,
            i + 1,
        )
    }
}

// ---------------------------------------------------------------------------
// Lemmas
// ---------------------------------------------------------------------------

proof fn lemma_first_commit_is_first(commits: Seq<(Option<u64>, MessageSectionsMap)>, p: u64)
    ensures
        match first_commit_with_pr(commits, p) {
            Some(i) => is_first_commit_with(commits, p, i),
            None => forall|j: int| 0 <= j < commits.len() ==> (#[trigger] commits[j]).0 != Some(p),
        },
    decreases commits.len(),
{
    if commits.len() > 0 {
        let init = commits.drop_last();
        lemma_first_commit_is_first(init, p);
        assert forall|j: int| 0 <= j < init.len() implies #[trigger] init[j] == commits[j] by {}
        match first_commit_with_pr(init, p) {
            Some(i) => {
                assert(is_first_commit_with(init, p, i));
                assert forall|j: int| 0 <= j < i implies (#[trigger] commits[j]).0 != Some(p) by {
                    assert(init[j] == commits[j]);
                }
                assert(is_first_commit_with(commits, p, i));
            },
            None => {
                if commits.last().0 == Some(p) {
                    let i = commits.len() - 1;
                    assert forall|j: int| 0 <= j < i implies (#[trigger] commits[j]).0 != Some(p) by {
                        assert(init[j] == commits[j]);
                    }
                    assert(is_first_commit_with(commits, p, i));
                } else {
                    assert forall|j: int| 0 <= j < commits.len() implies (#[trigger] commits[j]).0
                        != Some(p) by {
                        if j < commits.len() - 1 {
                            assert(init[j] == commits[j]);
                        }
                    }
                }
            },
        }
    }
}

proof fn lemma_first_unique(commits: Seq<(Option<u64>, MessageSectionsMap)>, p: u64, i: int, k: int)
    requires
        is_first_commit_with(commits, p, i),
        is_first_commit_with(commits, p, k),
    ensures
        i == k,
{
    if i < k {
        assert(commits[i].0 != Some(p));
    } else if k < i {
        assert(commits[k].0 != Some(p));
    }
}

proof fn lemma_pr_title_suffix_shown(commits: Seq<(Option<u64>, MessageSectionsMap)>, p: u64)
    ensures
        pr_title_suffix(commits, p) == shown_title(commits, p),
{
    reveal(shown_title);
    lemma_first_commit_is_first(commits, p);
    match first_commit_with_pr(commits, p) {
        Some(i) => {
            assert(is_first_commit_with(commits, p, i));
            let k = choose|k: int| is_first_commit_with(commits, p, k);
            lemma_first_unique(commits, p, i, k);
        },
        None => {
            if exists|i: int| is_first_commit_with(commits, p, i) {
                let i = choose|i: int| is_first_commit_with(commits, p, i);
                assert(commits[i].0 == Some(p));
            }
        },
    }
}

proof fn lemma_links_in_order_push(
    config: Config,
    commits: Seq<(Option<u64>, MessageSectionsMap)>,
    cs: Seq<u64>,
    c: u64,
)
    ensures
        links_in_order(config, commits, cs.push(c)) == links_in_order(config, commits, cs) + " "@
            + link_to(config, c) + shown_title(commits, c),
    decreases cs.len(),
{
    let item = " "@ + link_to(config, c) + shown_title(commits, c);
    if cs.len() == 0 {
        assert(cs.push(c).drop_first() =~= Seq::<u64>::empty());
        assert(links_in_order(config, commits, Seq::<u64>::empty()) == Seq::<char>::empty());
        assert(cs.push(c)[0] == c);
        assert(links_in_order(config, commits, cs) == Seq::<char>::empty());
        assert(links_in_order(config, commits, cs.push(c)) == item + Seq::<char>::empty());
        assert(item + Seq::<char>::empty() =~= item);
        assert(Seq::<char>::empty() + item =~= item);
    } else {
        assert(cs.push(c).drop_first() =~= cs.drop_first().push(c));
        lemma_links_in_order_push(config, commits, cs.drop_first(), c);
        let head = " "@ + link_to(config, cs[0]) + shown_title(commits, cs[0]);
        assert(links_in_order(config, commits, cs.push(c)) =~= head + (links_in_order(
            config,
            commits,
            cs.drop_first(),
        ) + item));
    }
}

proof fn lemma_child_links_in_order(
    config: Config,
    commits: Seq<(Option<u64>, MessageSectionsMap)>,
    cs: Seq<u64>,
)
    ensures
        child_links(config, commits, cs) == links_in_order(config, commits, cs),
    decreases cs.len(),
{
    if cs.len() > 0 {
        lemma_child_links_in_order(config, commits, cs.drop_last());
        lemma_links_in_order_push(config, commits, cs.drop_last(), cs.last());
        lemma_pr_title_suffix_shown(commits, cs.last());
        assert(cs.drop_last().push(cs.last()) =~= cs);
    }
}

proof fn lemma_stack_lines_from(
    config: Config,
    commits: Seq<(Option<u64>, MessageSectionsMap)>,
    current: usize,
    n: nat,
)
    requires
        n <= commits.len(),
    ensures
        stack_lines(config, commits, current, n) + full_stack_lines_from(
            config,
            commits,
            current,
            n as int,
        ) == full_stack_lines_from(config, commits, current, 0),
    decreases n,
{
    if n > 0 {
        let m = (n - 1) as nat;
        lemma_stack_lines_from(config, commits, current, m);
        assert(stack_line(config, commits, current, m as int) =~= full_stack_line(
            config,
            commits,
            current,
            m as int,
        ));
        assert(full_stack_lines_from(config, commits, current, m as int) == full_stack_line(
            config,
            commits,
            current,
            m as int,
        ) + full_stack_lines_from(config, commits, current, n as int));
        assert(stack_lines(config, commits, current, n) + full_stack_lines_from(
            config,
            commits,
            current,
            n as int,
        ) =~= stack_lines(config, commits, current, m) + full_stack_lines_from(
            config,
            commits,
            current,
            m as int,
        ));
    } else {
        assert(stack_lines(config, commits, current, 0) =~= Seq::<char>::empty());
        assert(Seq::<char>::empty() + full_stack_lines_from(config, commits, current, 0)
            =~= full_stack_lines_from(config, commits, current, 0));
    }
}

// ---------------------------------------------------------------------------
// Laws of the stack text
// ---------------------------------------------------------------------------

/// The title shown for a message is `" - "` and the text of its Title section,
/// whatever other sections it holds, and nothing where it has no title.
pub proof fn law_title_shown_whatever_other_sections(m: Map<MessageSection, Seq<char>>)
    ensures
        title_suffix(m) == shown_title_of(m),
        m.contains_key(MessageSection::Title) ==> title_suffix(m) == " - "@ + m[MessageSection::Title],
        !m.contains_key(MessageSection::Title) ==> title_suffix(m) == Seq::<char>::empty(),
{
}

/// The title after a link to PR `p` is that of the first commit carrying `p`,
/// whatever PR numbers other commits carry and in whatever order; nothing
/// where no commit carries `p`.
pub proof fn law_linked_title_is_first_commits(
    commits: Seq<(Option<u64>, MessageSectionsMap)>,
    p: u64,
)
    ensures
        forall|i: int|
            is_first_commit_with(commits, p, i) ==> pr_title_suffix(commits, p) == shown_title_of(
                #[trigger] commits[i].1@,
            ),
        (forall|j: int| 0 <= j < commits.len() ==> (#[trigger] commits[j]).0 != Some(p))
            ==> pr_title_suffix(commits, p) == Seq::<char>::empty(),
{
    reveal(shown_title);
    lemma_pr_title_suffix_shown(commits, p);
    assert forall|i: int| is_first_commit_with(commits, p, i) implies pr_title_suffix(commits, p)
        == shown_title_of(#[trigger] commits[i].1@) by {
        let k = choose|k: int| is_first_commit_with(commits, p, k);
        lemma_first_unique(commits, p, i, k);
    }
    if forall|j: int| 0 <= j < commits.len() ==> (#[trigger] commits[j]).0 != Some(p) {
        if exists|i: int| is_first_commit_with(commits, p, i) {
            let i = choose|i: int| is_first_commit_with(commits, p, i);
            assert(commits[i].0 == Some(p));
        }
    }
}

/// The links of a list of children are those of the list without its last
/// entry, followed by the link of the last entry: one link per child, in order.
pub proof fn law_child_links_append(
    config: Config,
    commits: Seq<(Option<u64>, MessageSectionsMap)>,
    cs: Seq<u64>,
    c: u64,
)
    ensures
        links_in_order(config, commits, cs.push(c)) == links_in_order(config, commits, cs) + " "@
            + link_to(config, c) + shown_title(commits, c),
        links_in_order(config, commits, Seq::empty()) == Seq::<char>::empty(),
{
    lemma_links_in_order_push(config, commits, cs, c);
}

/// The layout of the stack text, part by part:
/// - the separator and the line `**Stack Position: current of total**`;
/// - where there is a parent `p`, the line that links `p` itself, with the
///   title of the first commit carrying `p`; no such line where there is none;
/// - where there are children, `⬇️ **Required for:**` with one link per child,
///   in order, each with its title, whatever the position and the parent; no
///   such line where there are none;
/// - where the stack holds more than one PR, the full stack: one line per
///   commit that carries a PR, numbered by its index from 1, with its own
///   title and the marker where its number is the position;
/// - the closing separator.
pub proof fn law_stack_info_text_layout(
    position: StackPosition,
    config: Config,
    commits: Seq<(Option<u64>, MessageSectionsMap)>,
)
    ensures
        stack_info_text(position, config, commits) == "---\n"@ + "**Stack Position: "@ + decimal(
            position.current as nat,
        ) + " of "@ + decimal(position.total as nat) + "**\n\n"@ + (match position.parent_pr {
            Some(p) => "⬆️ **Depends on:** "@ + link_to(config, p) + shown_title(commits, p)
                + "\n"@,
            None => Seq::<char>::empty(),
        }) + (if position.child_prs@.len() == 0 {
            Seq::<char>::empty()
        } else {
            "⬇️ **Required for:**"@ + links_in_order(config, commits, position.child_prs@)
                + "\n"@
        }) + (if position.total > 1 {
            "\n**Full Stack:**\n"@ + full_stack_lines_from(config, commits, position.current, 0)
        } else {
            Seq::<char>::empty()
        }) + "\n---"@,
{
    if let Some(p) = position.parent_pr {
        lemma_pr_title_suffix_shown(commits, p);
        assert(parent_text(position, config, commits) == "⬆️ **Depends on:** "@ + link_to(
            config,
            p,
        ) + shown_title(commits, p) + "\n"@);
    }
    lemma_child_links_in_order(config, commits, position.child_prs@);
    lemma_stack_lines_from(config, commits, position.current, commits.len());
    assert(full_stack_lines_from(config, commits, position.current, commits.len() as int)
        =~= Seq::<char>::empty());
    assert(stack_lines(config, commits, position.current, commits.len()) =~= full_stack_lines_from(
        config,
        commits,
        position.current,
        0,
    ));
}

proof fn lemma_shown_title_same_titles(
    a: Seq<(Option<u64>, MessageSectionsMap)>,
    b: Seq<(Option<u64>, MessageSectionsMap)>,
    p: u64,
)
    requires
        a.len() == b.len(),
        forall|j: int| 0 <= j < a.len() ==> (#[trigger] a[j]).0 == b[j].0,
        forall|j: int| 0 <= j < a.len() ==> shown_title_of((#[trigger] a[j]).1@) == shown_title_of(
            b[j].1@,
        ),
    ensures
        shown_title(a, p) == shown_title(b, p),
{
    reveal(shown_title);
    if exists|i: int| is_first_commit_with(a, p, i) {
        let i = choose|i: int| is_first_commit_with(a, p, i);
        assert forall|j: int| 0 <= j < i implies (#[trigger] b[j]).0 != Some(p) by {
            assert(a[j].0 == b[j].0);
        }
        assert(is_first_commit_with(b, p, i));
        let k = choose|k: int| is_first_commit_with(b, p, k);
        lemma_first_unique(b, p, i, k);
        assert(a[i].0 == b[i].0);
    } else if exists|i: int| is_first_commit_with(b, p, i) {
        let i = choose|i: int| is_first_commit_with(b, p, i);
        assert forall|j: int| 0 <= j < i implies (#[trigger] a[j]).0 != Some(p) by {
            assert(a[j].0 == b[j].0);
        }
        assert(a[i].0 == b[i].0);
        assert(is_first_commit_with(a, p, i));
    }
}

proof fn lemma_links_same_titles(
    config: Config,
    a: Seq<(Option<u64>, MessageSectionsMap)>,
    b: Seq<(Option<u64>, MessageSectionsMap)>,
    cs: Seq<u64>,
)
    requires
        a.len() == b.len(),
        forall|j: int| 0 <= j < a.len() ==> (#[trigger] a[j]).0 == b[j].0,
        forall|j: int| 0 <= j < a.len() ==> shown_title_of((#[trigger] a[j]).1@) == shown_title_of(
            b[j].1@,
        ),
    ensures
        links_in_order(config, a, cs) == links_in_order(config, b, cs),
    decreases cs.len(),
{
    if cs.len() > 0 {
        lemma_shown_title_same_titles(a, b, cs[0]);
        lemma_links_same_titles(config, a, b, cs.drop_first());
    }
}

proof fn lemma_lines_same_titles(
    config: Config,
    a: Seq<(Option<u64>, MessageSectionsMap)>,
    b: Seq<(Option<u64>, MessageSectionsMap)>,
    current: usize,
    i: int,
)
    requires
        a.len() == b.len(),
        forall|j: int| 0 <= j < a.len() ==> (#[trigger] a[j]).0 == b[j].0,
        forall|j: int| 0 <= j < a.len() ==> shown_title_of((#[trigger] a[j]).1@) == shown_title_of(
            b[j].1@,
        ),
    ensures
        full_stack_lines_from(config, a, current, i) == full_stack_lines_from(config, b, current, i),
    decreases a.len() - i,
{
    if 0 <= i < a.len() {
        assert(a[i].0 == b[i].0);
        assert(shown_title_of(a[i].1@) == shown_title_of(b[i].1@));
        assert(full_stack_line(config, a, current, i) == full_stack_line(config, b, current, i));
        lemma_lines_same_titles(config, a, b, current, i + 1);
    }
}

/// The stack text depends on the commit messages only through their titles:
/// two commit lists with the same PR numbers and the same titles (the same
/// commits with and without a Title section) give the same text, whatever
/// other sections their messages hold.
pub proof fn law_text_depends_on_titles_only(
    position: StackPosition,
    config: Config,
    a: Seq<(Option<u64>, MessageSectionsMap)>,
    b: Seq<(Option<u64>, MessageSectionsMap)>,
)
    requires
        a.len() == b.len(),
        forall|j: int| 0 <= j < a.len() ==> (#[trigger] a[j]).0 == b[j].0,
        forall|j: int|
            0 <= j < a.len() ==> (#[trigger] a[j]).1@.contains_key(MessageSection::Title)
                == b[j].1@.contains_key(MessageSection::Title),
        forall|j: int|
            0 <= j < a.len() && (#[trigger] a[j]).1@.contains_key(MessageSection::Title)
                ==> a[j].1@[MessageSection::Title] == b[j].1@[MessageSection::Title],
    ensures
        stack_info_text(position, config, a) == stack_info_text(position, config, b),
{
    assert forall|j: int| 0 <= j < a.len() implies shown_title_of((#[trigger] a[j]).1@)
        == shown_title_of(b[j].1@) by {}
    law_stack_info_text_layout(position, config, a);
    law_stack_info_text_layout(position, config, b);
    if let Some(p) = position.parent_pr {
        lemma_shown_title_same_titles(a, b, p);
    }
    lemma_links_same_titles(config, a, b, position.child_prs@);
    lemma_lines_same_titles(config, a, b, position.current, 0);
}

} // verus!
