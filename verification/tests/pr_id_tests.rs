use doxie::pr_id::extract_pr_id;

fn text(s: &str) -> Vec<u8> {
    s.as_bytes().to_vec()
}

#[test]
fn finds_parenthesized_id() {
    assert_eq!(extract_pr_id(&text("Fix crash in renderer (#1234)")), Some(1234));
}

#[test]
fn finds_merge_commit_id() {
    assert_eq!(
        extract_pr_id(&text("Merge pull request #987 from user/fix-bug")),
        Some(987)
    );
}

#[test]
fn no_id_in_plain_summary() {
    assert_eq!(extract_pr_id(&text("Update README")), None);
}

#[test]
fn empty_summary_has_no_id() {
    assert_eq!(extract_pr_id(&text("")), None);
}

#[test]
fn last_token_wins() {
    assert_eq!(extract_pr_id(&text("Revert (#11) then fix (#22)")), Some(22));
}

#[test]
fn malformed_token_is_passed_over() {
    assert_eq!(extract_pr_id(&text("see (#12a) but really (#77) later")), Some(77));
}

#[test]
fn malformed_only_tokens_yield_nothing() {
    assert_eq!(extract_pr_id(&text("bump #x9 only")), None);
}

#[test]
fn bare_hash_token_found_from_end() {
    assert_eq!(extract_pr_id(&text("Merge #10 into main (#12)")), Some(12));
}

#[test]
fn lone_hash_is_no_id() {
    assert_eq!(extract_pr_id(&text("cherry-pick # now")), None);
}

#[test]
fn oversized_number_is_passed_over() {
    assert_eq!(
        extract_pr_id(&text("huge (#99999999999999999999999999) but #41 works")),
        Some(41)
    );
}

#[test]
fn unterminated_parenthesis_is_a_bare_match() {
    // "(#33" is not the exact parenthesized shape (no closing parenthesis),
    // and it does not start with "#" either, so neither shape matches it.
    assert_eq!(extract_pr_id(&text("open (#33 close")), None);
}
