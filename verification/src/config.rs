use vstd::prelude::*;

verus! {

/// Settings of the repository that pull requests are sent to.
pub struct Config {
    /// Owner of the GitHub repository.
    pub owner: String,
    /// Name of the GitHub repository.
    pub repo: String,
    /// Name of the git remote that points at the repository.
    pub remote_name: String,
    /// Branch that stacks are based on.
    pub master_branch: String,
    /// Prefix of the branches that pull requests are made from.
    pub branch_prefix: String,
    /// Whether a pull request must be approved before it lands.
    pub require_approval: bool,
    /// Whether a commit message must hold a test plan.
    pub require_test_plan: bool,
}

impl Config {
    /// A configuration with the given settings.
    pub fn new(
        owner: String,
        repo: String,
        remote_name: String,
        master_branch: String,
        branch_prefix: String,
        require_approval: bool,
        require_test_plan: bool,
    ) -> (c: Self)
        ensures
            c.owner == owner,
            c.repo == repo,
            c.remote_name == remote_name,
            c.master_branch == master_branch,
            c.branch_prefix == branch_prefix,
            c.require_approval == require_approval,
            c.require_test_plan == require_test_plan,
    {
        Config {
            owner,
            repo,
            remote_name,
            master_branch,
            branch_prefix,
            require_approval,
            require_test_plan,
        }
    }
}

} // verus!
