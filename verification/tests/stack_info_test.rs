use jj_spr::config::Config;
use jj_spr::message::{MessageSection, MessageSectionsMap};
use jj_spr::stack_info::{build_stack_info_text, detect_stack_position, StackPosition};

fn create_test_commit_snapshot(
    pr_number: Option<u64>,
    title: &str,
) -> (Option<u64>, MessageSectionsMap) {
    let mut message = MessageSectionsMap::new();
    message.insert(MessageSection::Title, title.to_string());
    (pr_number, message)
}

fn test_config() -> Config {
    Config::new(
        "LucioFranco".to_string(),
        "jj-spr".to_string(),
        "origin".to_string(),
        "main".to_string(),
        "spr/".to_string(),
        false,
        false,
    )
}

#[test]
fn test_detect_stack_position_single_commit() {
    let commits = vec![create_test_commit_snapshot(Some(1), "Test PR")];

    let position = detect_stack_position(0, &commits);
    assert!(
        position.is_none(),
        "Single commit should not have stack info"
    );
}

#[test]
fn test_detect_stack_position_first_of_two() {
    let commits = vec![
        create_test_commit_snapshot(Some(1), "First PR"),
        create_test_commit_snapshot(Some(2), "Second PR"),
    ];

    let position = detect_stack_position(0, &commits).unwrap();
    assert_eq!(position.current, 1);
    assert_eq!(position.total, 2);
    assert_eq!(position.parent_pr, None);
    assert_eq!(position.child_prs, vec![2]);
}

#[test]
fn test_detect_stack_position_second_of_two() {
    let commits = vec![
        create_test_commit_snapshot(Some(1), "First PR"),
        create_test_commit_snapshot(Some(2), "Second PR"),
    ];

    let position = detect_stack_position(1, &commits).unwrap();
    assert_eq!(position.current, 2);
    assert_eq!(position.total, 2);
    assert_eq!(position.parent_pr, Some(1));
    assert_eq!(position.child_prs, Vec::<u64>::new());
}

#[test]
fn test_detect_stack_position_middle_of_three() {
    let commits = vec![
        create_test_commit_snapshot(Some(1), "First PR"),
        create_test_commit_snapshot(Some(2), "Second PR"),
        create_test_commit_snapshot(Some(3), "Third PR"),
    ];

    let position = detect_stack_position(1, &commits).unwrap();
    assert_eq!(position.current, 2);
    assert_eq!(position.total, 3);
    assert_eq!(position.parent_pr, Some(1));
    assert_eq!(position.child_prs, vec![3]);
}

#[test]
fn test_detect_stack_position_with_missing_pr() {
    let commits = vec![
        create_test_commit_snapshot(Some(1), "First PR"),
        create_test_commit_snapshot(None, "Not submitted yet"),
        create_test_commit_snapshot(Some(2), "Third PR"),
    ];

    // First commit should see only one other PR
    let position = detect_stack_position(0, &commits).unwrap();
    assert_eq!(position.current, 1);
    assert_eq!(position.total, 2);
    assert_eq!(position.parent_pr, None);
    assert_eq!(position.child_prs, vec![2]);

    // Middle commit has no PR, so no stack position
    let position = detect_stack_position(1, &commits);
    assert!(position.is_none());

    // Third commit should see first as parent
    let position = detect_stack_position(2, &commits).unwrap();
    assert_eq!(position.current, 2);
    assert_eq!(position.total, 2);
    assert_eq!(position.parent_pr, Some(1));
    assert_eq!(position.child_prs, Vec::<u64>::new());
}

#[test]
fn test_build_stack_info_text_format() {
    let commits = vec![
        create_test_commit_snapshot(Some(120), "Add authentication module"),
        create_test_commit_snapshot(Some(121), "Add user session handling"),
        create_test_commit_snapshot(Some(122), "Add user profile endpoints"),
    ];

    let position = StackPosition {
        current: 2,
        total: 3,
        parent_pr: Some(120),
        child_prs: vec![122],
    };

    let config = Config::new(
        "LucioFranco".to_string(),
        "jj-spr".to_string(),
        "origin".to_string(),
        "main".to_string(),
        "spr/".to_string(),
        false,
        false,
    );

    let text = build_stack_info_text(&position, &config, &commits);

    // Check key elements are present
    assert!(text.contains("Stack Position: 2 of 3"));
    assert!(text.contains("⬆️ **Depends on:** LucioFranco/jj-spr#120"));
    assert!(text.contains("Add authentication module"));
    assert!(text.contains("⬇️ **Required for:** LucioFranco/jj-spr#122"));
    assert!(text.contains("Add user profile endpoints"));
    assert!(text.contains("**Full Stack:**"));
    assert!(text.contains("(this PR)"));
    assert!(text.starts_with("---"));
    assert!(text.ends_with("---"));
}

#[test]
fn build_stack_info_text_exact_output() {
    let commits = vec![
        create_test_commit_snapshot(Some(120), "Add authentication module"),
        create_test_commit_snapshot(Some(121), "Add user session handling"),
        create_test_commit_snapshot(Some(122), "Add user profile endpoints"),
    ];
    let position = detect_stack_position(1, &commits).unwrap();
    let text = build_stack_info_text(&position, &test_config(), &commits);
    let expected = "---\n\
        **Stack Position: 2 of 3**\n\n\
        ⬆️ **Depends on:** LucioFranco/jj-spr#120 - Add authentication module\n\
        ⬇️ **Required for:** LucioFranco/jj-spr#122 - Add user profile endpoints\n\
        \n**Full Stack:**\n\
        1. LucioFranco/jj-spr#120 - Add authentication module\n\
        2. LucioFranco/jj-spr#121 - Add user session handling (this PR)\n\
        3. LucioFranco/jj-spr#122 - Add user profile endpoints\n\
        \n---";
    assert_eq!(text, expected);
}

#[test]
fn build_stack_info_text_single_pr_has_no_links() {
    let commits = vec![create_test_commit_snapshot(Some(7), "Only one")];
    let position = StackPosition {
        current: 1,
        total: 1,
        parent_pr: None,
        child_prs: vec![],
    };
    let text = build_stack_info_text(&position, &test_config(), &commits);
    assert_eq!(text, "---\n**Stack Position: 1 of 1**\n\n\n---");
}

#[test]
fn build_stack_info_text_multi_digit_numbers() {
    // Stack position, total and PR numbers of several digits, with a
    // zero digit inside, are written in full decimal.
    let commits = vec![
        create_test_commit_snapshot(Some(10203), "Big"),
        create_test_commit_snapshot(Some(u64::MAX), "Max"),
    ];
    let position = StackPosition {
        current: 105,
        total: 210,
        parent_pr: Some(10203),
        child_prs: vec![u64::MAX, 9],
    };
    let text = build_stack_info_text(&position, &test_config(), &commits);
    let expected = "---\n\
        **Stack Position: 105 of 210**\n\n\
        ⬆️ **Depends on:** LucioFranco/jj-spr#10203 - Big\n\
        ⬇️ **Required for:** LucioFranco/jj-spr#18446744073709551615 - Max LucioFranco/jj-spr#9\n\
        \n**Full Stack:**\n\
        1. LucioFranco/jj-spr#10203 - Big\n\
        2. LucioFranco/jj-spr#18446744073709551615 - Max\n\
        \n---";
    assert_eq!(text, expected);
}

#[test]
fn build_stack_info_text_numbers_lines_by_commit_index() {
    // The full stack numbers its lines by the commit's index in the list and
    // skips commits without a PR; the marker goes to the line whose number is
    // the stack position.
    let commits = vec![
        create_test_commit_snapshot(Some(1), "First PR"),
        create_test_commit_snapshot(None, "Not submitted yet"),
        create_test_commit_snapshot(Some(2), "Third PR"),
    ];
    let position = detect_stack_position(2, &commits).unwrap();
    let text = build_stack_info_text(&position, &test_config(), &commits);
    let expected = "---\n\
        **Stack Position: 2 of 2**\n\n\
        ⬆️ **Depends on:** LucioFranco/jj-spr#1 - First PR\n\
        \n**Full Stack:**\n\
        1. LucioFranco/jj-spr#1 - First PR\n\
        3. LucioFranco/jj-spr#2 - Third PR\n\
        \n---";
    assert_eq!(text, expected);
}

#[test]
fn build_stack_info_text_title_from_first_matching_commit() {
    // The title of a linked PR comes from the first commit with that number;
    // a commit without a title gives no title, and an unknown PR none either.
    let untitled = (Some(5u64), MessageSectionsMap::new());
    let commits = vec![
        untitled,
        create_test_commit_snapshot(Some(5), "Later"),
        create_test_commit_snapshot(Some(6), "Six"),
    ];
    let position = StackPosition {
        current: 3,
        total: 1,
        parent_pr: Some(5),
        child_prs: vec![8],
    };
    let text = build_stack_info_text(&position, &test_config(), &commits);
    let expected = "---\n\
        **Stack Position: 3 of 1**\n\n\
        ⬆️ **Depends on:** LucioFranco/jj-spr#5\n\
        ⬇️ **Required for:** LucioFranco/jj-spr#8\n\
        \n---";
    assert_eq!(text, expected);
}

#[test]
fn detect_stack_position_none_without_two_prs() {
    let commits = vec![
        create_test_commit_snapshot(None, "a"),
        create_test_commit_snapshot(None, "b"),
    ];
    assert!(detect_stack_position(0, &commits).is_none());
    let empty: Vec<(Option<u64>, MessageSectionsMap)> = Vec::new();
    assert!(detect_stack_position(0, &empty).is_none());
}

#[test]
fn detect_stack_position_index_out_of_range() {
    let commits = vec![
        create_test_commit_snapshot(Some(1), "a"),
        create_test_commit_snapshot(Some(2), "b"),
    ];
    assert!(detect_stack_position(2, &commits).is_none());
    assert!(detect_stack_position(usize::MAX, &commits).is_none());
}

#[test]
fn detect_stack_position_bottom_of_four_lists_all_children() {
    let commits = vec![
        create_test_commit_snapshot(Some(11), "a"),
        create_test_commit_snapshot(Some(12), "b"),
        create_test_commit_snapshot(None, "c"),
        create_test_commit_snapshot(Some(14), "d"),
        create_test_commit_snapshot(Some(15), "e"),
    ];
    let position = detect_stack_position(0, &commits).unwrap();
    assert_eq!(position.current, 1);
    assert_eq!(position.total, 4);
    assert_eq!(position.parent_pr, None);
    assert_eq!(position.child_prs, vec![12, 14, 15]);
}

#[test]
fn law_stack_positions_agree_on_example() {
    // Two commits of one stack see the same total; the later is a child of
    // the earlier, and the earlier is the parent of the later where no PR
    // stands between them.
    let commits = vec![
        create_test_commit_snapshot(Some(21), "a"),
        create_test_commit_snapshot(None, "b"),
        create_test_commit_snapshot(Some(23), "c"),
        create_test_commit_snapshot(Some(24), "d"),
    ];
    let first = detect_stack_position(0, &commits).unwrap();
    let third = detect_stack_position(2, &commits).unwrap();
    let fourth = detect_stack_position(3, &commits).unwrap();
    assert_eq!(first.total, third.total);
    assert_eq!(third.total, fourth.total);
    assert!(first.current < third.current && third.current < fourth.current);
    assert_eq!(first.child_prs[third.current - first.current - 1], 23);
    assert_eq!(first.child_prs[fourth.current - first.current - 1], 24);
    assert_eq!(third.parent_pr, Some(21));
    assert_eq!(fourth.parent_pr, Some(23));
    assert_eq!(third.current, first.current + 1);
    assert_eq!(fourth.child_prs.len(), fourth.total - fourth.current);
}

#[test]
fn law_full_stack_marks_current_on_example() {
    let commits = vec![
        create_test_commit_snapshot(Some(31), "a"),
        create_test_commit_snapshot(Some(32), "b"),
        create_test_commit_snapshot(Some(33), "c"),
    ];
    for current_index in 0..3 {
        let position = detect_stack_position(current_index, &commits).unwrap();
        let text = build_stack_info_text(&position, &test_config(), &commits);
        assert_eq!(text.matches("(this PR)").count(), 1);
        let marked = format!("{}. LucioFranco/jj-spr#{}", current_index + 1, 31 + current_index);
        let line = text.lines().find(|l| l.starts_with(&marked)).unwrap();
        assert!(line.ends_with(" (this PR)"));
        assert!(text.starts_with("---\n"));
        assert!(text.ends_with("\n---"));
    }
}

#[test]
fn config_new_keeps_settings() {
    let config = Config::new(
        "o".to_string(),
        "r".to_string(),
        "up".to_string(),
        "trunk".to_string(),
        "p/".to_string(),
        true,
        false,
    );
    assert_eq!(config.owner, "o");
    assert_eq!(config.repo, "r");
    assert_eq!(config.remote_name, "up");
    assert_eq!(config.master_branch, "trunk");
    assert_eq!(config.branch_prefix, "p/");
    assert!(config.require_approval);
    assert!(!config.require_test_plan);
}

#[test]
fn law_stack_position_skips_commit_without_pr_on_example() {
    let base = vec![
        create_test_commit_snapshot(Some(41), "a"),
        create_test_commit_snapshot(Some(42), "b"),
        create_test_commit_snapshot(Some(43), "c"),
    ];
    let mut with_gap = vec![
        create_test_commit_snapshot(Some(41), "a"),
        create_test_commit_snapshot(Some(42), "b"),
        create_test_commit_snapshot(Some(43), "c"),
    ];
    with_gap.insert(1, create_test_commit_snapshot(None, "draft"));
    for i in 0..3usize {
        let shifted = if i >= 1 { i + 1 } else { i };
        let before = detect_stack_position(i, &base).unwrap();
        let after = detect_stack_position(shifted, &with_gap).unwrap();
        assert_eq!(before.current, after.current);
        assert_eq!(before.total, after.total);
        assert_eq!(before.parent_pr, after.parent_pr);
        assert_eq!(before.child_prs, after.child_prs);
    }
    assert!(detect_stack_position(1, &with_gap).is_none());
}

#[test]
fn law_stack_position_ignores_messages_on_example() {
    let a = vec![
        create_test_commit_snapshot(Some(51), "one"),
        create_test_commit_snapshot(None, "two"),
        create_test_commit_snapshot(Some(53), "three"),
    ];
    let b = vec![
        (Some(51), MessageSectionsMap::new()),
        create_test_commit_snapshot(None, "changed"),
        create_test_commit_snapshot(Some(53), "also changed"),
    ];
    for i in 0..4usize {
        let pa = detect_stack_position(i, &a);
        let pb = detect_stack_position(i, &b);
        assert_eq!(pa.is_some(), pb.is_some());
        if let (Some(pa), Some(pb)) = (pa, pb) {
            assert_eq!(pa.current, pb.current);
            assert_eq!(pa.total, pb.total);
            assert_eq!(pa.parent_pr, pb.parent_pr);
            assert_eq!(pa.child_prs, pb.child_prs);
        }
    }
}

#[test]
fn law_marker_once_with_parenthesised_titles() {
    let commits = vec![
        create_test_commit_snapshot(Some(61), "Fix (part 2)"),
        create_test_commit_snapshot(Some(62), "Ends with (this"),
        create_test_commit_snapshot(Some(63), "PR) starts here"),
    ];
    for current_index in 0..3 {
        let position = detect_stack_position(current_index, &commits).unwrap();
        assert_eq!(position.current, current_index + 1);
        assert_eq!(position.total, 3);
        let text = build_stack_info_text(&position, &test_config(), &commits);
        assert!(text.contains(&format!("**Stack Position: {} of 3**", current_index + 1)));
        assert_eq!(text.matches("(this PR)").count(), 1);
        let marked = format!("{}. LucioFranco/jj-spr#{}", current_index + 1, 61 + current_index);
        let line = text.lines().find(|l| l.starts_with(&marked)).unwrap();
        assert!(line.ends_with(" (this PR)"));
    }
}
