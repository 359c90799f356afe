use pull_all_tui::git::{classify_pull_output, PullOutcome};

#[test]
fn test_classify_already_up_to_date() {
    let output = "From github.com:org/repo\nAlready up to date.\n";
    assert_eq!(
        classify_pull_output(output, true),
        PullOutcome::AlreadyUpToDate
    );
}

#[test]
fn test_classify_updated() {
    let output = "Updating abc1234..def5678\nFast-forward\n src/foo.ts | 12 +++\n";
    assert_eq!(classify_pull_output(output, true), PullOutcome::Updated);
}

#[test]
fn test_classify_failed_nonzero_exit() {
    let output = "Already up to date.\n";
    // Even if the text says "up to date", non-zero exit means failed
    assert_eq!(
        classify_pull_output(output, false),
        PullOutcome::Failed
    );
}

#[test]
fn test_classify_failed_exit_error_output() {
    let output = "error: Your local changes would be overwritten by merge.\n";
    assert_eq!(classify_pull_output(output, false), PullOutcome::Failed);
}

#[test]
fn test_classify_no_upstream_is_not_failure() {
    let output = "There is no tracking information for the current branch.\n\
        Please specify which branch you want to merge with.\n";
    assert_eq!(classify_pull_output(output, false), PullOutcome::NoUpstream);
}

#[test]
fn test_classify_deleted_upstream_ref_is_no_upstream() {
    // The tracked remote branch was deleted (e.g. PR merged) — not a hard failure.
    let output = "Your configuration specifies to merge with the ref \
        'refs/heads/chore/FEP-61-remove-actions-doc-workflow'\n\
        from the remote, but no such ref was fetched.\n";
    assert_eq!(classify_pull_output(output, false), PullOutcome::NoUpstream);
}

#[test]
fn test_classify_updated_no_already_up_to_date_text() {
    let output = "From github.com:org/repo\n   abc1234..def5678  dev -> origin/dev\n";
    assert_eq!(classify_pull_output(output, true), PullOutcome::Updated);
}

#[test]
fn test_classify_already_up_to_date_case_sensitive() {
    let output = "already up to date.\n";
    // lowercase → classified as Updated (no exact match)
    assert_eq!(classify_pull_output(output, true), PullOutcome::Updated);
}

#[test]
fn test_classify_table_data() {
    let cases: &[(&str, bool, PullOutcome)] = &[
        ("Already up to date.\n", true, PullOutcome::AlreadyUpToDate),
        ("Already up to date.\n", false, PullOutcome::Failed),
        ("Updating abc..def\nFast-forward\n", true, PullOutcome::Updated),
        ("error: cannot lock ref\n", false, PullOutcome::Failed),
        ("", false, PullOutcome::Failed),
        ("", true, PullOutcome::Updated),
    ];

    for (output, exit_success, expected) in cases {
        assert_eq!(
            classify_pull_output(output, *exit_success),
            *expected,
            "classify_pull_output({output:?}, {exit_success}) should be {expected:?}"
        );
    }
}

#[test]
fn classify_detects_throttling_distinct_from_failure() {
    for output in [
        "fatal: unable to access '...': The requested URL returned error: 429\n",
        "remote: You have exceeded a secondary rate limit.\nfatal: rate limit\n",
        "error: RPC failed; HTTP 429 curl 22\n",
        "kex_exchange_identification: Connection closed by remote host\n",
        "fatal: Could not read from remote repository\nConnection reset by peer\n",
    ] {
        assert_eq!(
            classify_pull_output(output, false),
            PullOutcome::Throttled,
            "should be Throttled: {output:?}"
        );
    }
}

#[test]
fn classify_does_not_mistake_progress_or_plain_failure_for_throttling() {
    // "429 objects" in progress is not throttling.
    assert_eq!(
        classify_pull_output("Receiving objects: 100% (429/429)\n", false),
        PullOutcome::Failed
    );
    assert_eq!(
        classify_pull_output("error: Your local changes would be overwritten\n", false),
        PullOutcome::Failed
    );
    // A throttle marker on a SUCCESSFUL pull is still Updated (exit 0 wins).
    assert_eq!(classify_pull_output("rate limit note\nFast-forward\n", true), PullOutcome::Updated);
}
