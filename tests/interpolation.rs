use zeta::{BufferSnapshot, Edit, InlineCompletion, InlineCompletionId, UserEdit, chars_of, interpolate};

fn text(s: &str) -> Vec<char> {
    s.chars().collect()
}

fn edit(start: usize, end: usize, s: &str) -> Edit {
    Edit { start, end, text: text(s) }
}

fn user(old_start: usize, old_end: usize, new_start: usize, new_end: usize) -> UserEdit {
    UserEdit { old_start, old_end, new_start, new_end }
}

fn plain(edits: &[Edit]) -> Vec<(std::ops::Range<usize>, String)> {
    edits.iter().map(|e| (e.start..e.end, e.text.iter().collect())).collect()
}

fn completion(buffer: &str, edits: Vec<Edit>) -> InlineCompletion {
    InlineCompletion {
        id: InlineCompletionId(uuid::Uuid::nil()),
        path: Vec::new(),
        edits,
        snapshot: BufferSnapshot::new(1, 0, None, text(buffer)),
    }
}

fn interpolated(c: &InlineCompletion, now: &str, users: &[UserEdit]) -> Option<Vec<(std::ops::Range<usize>, String)>> {
    c.interpolate(&text(now), &users.to_vec()).map(|e| plain(&e))
}

#[test]
fn test_inline_completion_basic_interpolation() {
    let c = completion("Lorem ipsum dolor", vec![edit(2, 5, "REM"), edit(9, 11, "")]);

    assert_eq!(
        interpolated(&c, "Lorem ipsum dolor", &[]).unwrap(),
        vec![(2..5, "REM".to_string()), (9..11, "".to_string())]
    );

    // The user deletes "rem".
    assert_eq!(
        interpolated(&c, "Lo ipsum dolor", &[user(2, 5, 2, 2)]).unwrap(),
        vec![(2..2, "REM".to_string()), (6..8, "".to_string())]
    );

    // Undone: the buffer is as it was.
    assert_eq!(
        interpolated(&c, "Lorem ipsum dolor", &[]).unwrap(),
        vec![(2..5, "REM".to_string()), (9..11, "".to_string())]
    );

    // "rem" becomes "R".
    assert_eq!(
        interpolated(&c, "LoR ipsum dolor", &[user(2, 5, 2, 3)]).unwrap(),
        vec![(3..3, "EM".to_string()), (7..9, "".to_string())]
    );

    // Then "E".
    assert_eq!(
        interpolated(&c, "LoRE ipsum dolor", &[user(2, 5, 2, 4)]).unwrap(),
        vec![(4..4, "M".to_string()), (8..10, "".to_string())]
    );

    // Then "M": the first predicted edit is fully typed.
    assert_eq!(
        interpolated(&c, "LoREM ipsum dolor", &[user(2, 5, 2, 5)]).unwrap(),
        vec![(9..11, "".to_string())]
    );

    // "M" deleted again.
    assert_eq!(
        interpolated(&c, "LoRE ipsum dolor", &[user(2, 5, 2, 4)]).unwrap(),
        vec![(4..4, "M".to_string()), (8..10, "".to_string())]
    );

    // "um" deleted, as predicted.
    assert_eq!(
        interpolated(&c, "LoRE ips dolor", &[user(2, 5, 2, 4), user(9, 11, 8, 8)]).unwrap(),
        vec![(4..4, "M".to_string())]
    );

    // " i" deleted: the user left the prediction.
    assert_eq!(
        interpolated(&c, "LoREps dolor", &[user(2, 7, 2, 4), user(9, 11, 6, 6)]),
        None
    );
}

#[test]
fn interpolation_without_user_edits_is_identity() {
    let edits = vec![edit(0, 1, "x"), edit(3, 3, "yz")];
    let r = interpolate(&text("abcdef"), &vec![], &edits).unwrap();
    assert_eq!(plain(&r), plain(&edits));
}

#[test]
fn interpolation_of_no_edits_is_none() {
    assert!(interpolate(&text("abc"), &vec![], &vec![]).is_none());
}

#[test]
fn interpolation_keeps_texts_and_count_without_user_edits() {
    let edits = vec![edit(1, 2, "Q"), edit(4, 6, ""), edit(7, 7, "tail")];
    let r = interpolate(&text("abcdefgh"), &vec![], &edits).unwrap();
    assert_eq!(r.len(), edits.len());
    for (a, b) in r.iter().zip(edits.iter()) {
        assert_eq!(a.text, b.text);
    }
}

#[test]
fn disjoint_user_edit_invalidates_prediction() {
    let edits = vec![edit(10, 12, "xy")];
    // The user typed "Q" at offset 2, far from the predicted range.
    let r = interpolate(&text("abQcdefghijklmn"), &vec![user(2, 2, 2, 3)], &edits);
    assert!(r.is_none());
}

#[test]
fn predicted_edit_before_user_edit_is_kept_in_place() {
    let edits = vec![edit(1, 2, "B"), edit(5, 6, "F")];
    // The user replaced "f" (5..6) with "F", just as predicted.
    let r = interpolate(&text("abcdeFg"), &vec![user(5, 6, 5, 6)], &edits).unwrap();
    assert_eq!(plain(&r), vec![(1..2, "B".to_string())]);
}

#[test]
fn ill_formed_user_edits_give_none() {
    let c = completion("abc", vec![edit(0, 1, "x")]);
    // A user edit past the end of the old text.
    assert_eq!(interpolated(&c, "abc", &[user(5, 6, 5, 6)]), None);
}

#[test]
fn chars_of_reads_every_character() {
    assert_eq!(chars_of("héllo"), vec!['h', 'é', 'l', 'l', 'o']);
}
