use agent_block_core::bridge::fs::{
    check_edits, edit, edit_at_version, fingerprint_of, join_lines, read_versioned, same_path,
    split_lines, version_of, EditRefusal, EditRequest, Snapshots,
};

fn lines_of(s: &str) -> Vec<String> {
    split_lines(s).0
}

fn change(start_line: usize, end_line: usize, expect: &str, replace: &str) -> EditRequest {
    EditRequest {
        start_line,
        end_line,
        expect: expect.to_string(),
        replace: replace.to_string(),
    }
}

#[test]
fn split_and_join_round_trip() {
    for s in ["a\nb\nc\n", "a\nb\nc", "", "\n", "single"] {
        let (lines, nl) = split_lines(s);
        assert_eq!(join_lines(&lines, nl), s, "round trip failed for {s:?}");
    }
}

#[test]
fn version_changes_with_content() {
    assert_ne!(version_of("a"), version_of("b"));
    assert_eq!(version_of("a"), version_of("a"));
}

#[test]
fn lines_helper_counts_final_newline_once() {
    assert_eq!(lines_of("a\nb\n").len(), 2);
    assert_eq!(lines_of("a\nb").len(), 2);
}

#[test]
fn a_version_is_the_head_of_the_digest() {
    // SHA-256 of "abc" begins ba7816bf 8f01cfea.
    let v = version_of("abc");
    assert!("ba7816bf8f01cfea414140de5dae2223b00361a396177a9cb410ff61f20015ad".starts_with(&v));
    assert_eq!(v.len(), 16);
    let digest = [0xba, 0x78, 0x16, 0xbf, 0x8f, 0x01, 0xcf, 0xea, 0x41, 0x41, 0x40, 0xde, 0x5d,
        0xae, 0x22, 0x23, 0xb0, 0x03, 0x61, 0xa3, 0x96, 0x17, 0x7a, 0x9c, 0xb4, 0x10, 0xff, 0x61,
        0xf2, 0x00, 0x15, 0xad];
    assert_eq!(fingerprint_of(&digest), v);
}

#[test]
fn a_read_counts_the_lines_and_names_the_version() {
    let r = read_versioned("a\nb\n");
    assert_eq!(r.lines, 2);
    assert_eq!(r.version, version_of("a\nb\n"));
}

#[test]
fn a_batch_is_spliced_whatever_its_order() {
    let edits = [change(3, 3, "c", "C\nC2"), change(1, 1, "a", "")];
    let done = edit("a\nb\nc\n", None, &edits).ok().expect("applied");
    assert_eq!(done.content, "b\nC\nC2\n");
    assert_eq!(done.applied, 2);
    assert_eq!(done.version, version_of("b\nC\nC2\n"));
    let turned = [change(1, 1, "a", ""), change(3, 3, "c", "C\nC2")];
    let again = edit("a\nb\nc\n", None, &turned).ok().expect("applied");
    assert_eq!((again.content, again.version), (done.content, done.version));

    let over = [change(1, 2, "a\nb", "x"), change(2, 3, "b\nc", "y")];
    assert!(edit("a\nb\nc\n", None, &over).is_err());
    let turned = [change(2, 3, "b\nc", "y"), change(1, 2, "a\nb", "x")];
    assert!(edit("a\nb\nc\n", None, &turned).is_err());
}

#[test]
fn the_missing_final_newline_stays_missing() {
    let done = edit("a\nb", None, &[change(2, 2, "b", "B")]).ok().expect("applied");
    assert_eq!(done.content, "a\nB");
}

#[test]
fn putting_the_same_lines_back_changes_nothing() {
    let text = "one\ntwo\nthree\n";
    let done = edit(text, None, &[change(1, 2, "one\ntwo", "one\ntwo")]).ok().expect("applied");
    assert_eq!(done.content, text);
}

#[test]
fn a_stale_base_is_refused_first() {
    let r = edit("a\n", Some("0000"), &[]).err().expect("refused");
    assert_eq!(r.reason(), "stale_base");
    match r {
        EditRefusal::StaleBase { expected_version, actual_version } => {
            assert_eq!(expected_version, "0000");
            assert_eq!(actual_version, version_of("a\n"));
        }
        _ => panic!("another refusal"),
    }
    // The right base, and an empty one, are no obstacle.
    let v = version_of("a\n");
    assert!(edit("a\n", Some(&v), &[change(1, 1, "a", "b")]).is_ok());
    assert!(edit("a\n", Some(""), &[change(1, 1, "a", "b")]).is_ok());
}

#[test]
fn every_refusal_says_what_it_met() {
    let bad = edit("a\nb\n", None, &[change(2, 1, "", "")]).err().expect("refused");
    assert!(matches!(bad, EditRefusal::BadRange { edit_index: 1, start_line: 2, end_line: 1 }));
    assert_eq!(bad.reason(), "bad_range");

    let far = edit("a\nb\n", None, &[change(2, 3, "b\nc", "")]).err().expect("refused");
    assert!(matches!(far, EditRefusal::OutOfRange { edit_index: 1, end_line: 3, file_lines: 2 }));
    assert_eq!(far.reason(), "out_of_range");

    let other = edit("a\nb\n", None, &[change(1, 1, "a", "x"), change(2, 2, "a", "")])
        .err()
        .expect("refused");
    assert_eq!(other.reason(), "expect_mismatch");
    match other {
        EditRefusal::ExpectMismatch { edit_index, actual, .. } => {
            assert_eq!(edit_index, 2);
            assert_eq!(actual, "b");
        }
        _ => panic!("another refusal"),
    }

    let none = edit("a\n", None, &[]).err().expect("refused");
    assert_eq!(none.reason(), "no_edits");

    let twice = edit("a\nb\n", None, &[change(1, 2, "a\nb", "x"), change(2, 2, "b", "y")])
        .err()
        .expect("refused");
    assert_eq!(twice.reason(), "overlapping_edits");
    assert!(matches!(
        twice,
        EditRefusal::OverlappingEdits { edit_index: 1, other_edit_index: 2 }
    ));
}

#[test]
fn edits_are_held_against_the_lines_they_name() {
    let lines = lines_of("a\nb\n");
    assert!(check_edits(&lines, &[change(1, 2, "a\nb", "z")]).is_none());
    assert!(check_edits(&lines, &[change(0, 1, "a", "z")]).is_some());
    let out = edit_at_version("a\nb\n", "v1", Some("v1"), &[change(1, 2, "a\nb", "z")]);
    assert_eq!(out.ok().as_deref(), Some("z\n"));
}

#[test]
fn a_rollback_undoes_the_last_edit_once() {
    let mut s = Snapshots::new();
    assert!(s.rollback("/p/a").is_none());
    s.remember("/p/a", "first");
    s.remember("/p/./a", "second");
    s.remember("/p/b", "other");
    let back = s.rollback("/p//a").expect("a snapshot");
    assert_eq!(back.content, "second");
    assert_eq!(back.version, version_of("second"));
    assert!(s.rollback("/p/a").is_none());
    assert_eq!(s.rollback("/p/b").expect("a snapshot").content, "other");
}

#[test]
fn spellings_of_one_path_are_one_path() {
    assert!(same_path("/p/a", "/p//a/"));
    assert!(!same_path("/p/a", "p/a"));
    assert!(!same_path("/p/a", "/p/b"));
}
