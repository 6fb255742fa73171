use zeta::{
    BufferSnapshot, CurrentInlineCompletion, Edit, HttpStep, InlineCompletion, InlineCompletionId,
    OutlineItem, RequestError, UserEdit, ZedlessSettings, ZetaInlineCompletionProvider,
    collect_diagnostic_groups, event_to_prompt, http_step, prepare_request, prompt_for_events,
    prompt_for_outline, string_of, tokens_for_bytes,
};

fn text(s: &str) -> Vec<char> {
    s.chars().collect()
}

fn string(v: &[char]) -> String {
    v.iter().collect()
}

fn current(buffer_id: u64, buffer: &str, edits: Vec<Edit>) -> CurrentInlineCompletion {
    CurrentInlineCompletion {
        buffer_id,
        completion: InlineCompletion {
            id: InlineCompletionId(uuid::Uuid::from_u128(buffer_id as u128)),
            path: text("a.rs"),
            edits,
            snapshot: BufferSnapshot::new(buffer_id, 0, None, text(buffer)),
        },
    }
}

fn edit(start: usize, end: usize, s: &str) -> Edit {
    Edit { start, end, text: text(s) }
}

#[test]
fn pending_requests_are_capped_at_two_keeping_the_oldest() {
    let mut p = ZetaInlineCompletionProvider::new(0);
    let t = text("abc");
    assert!(!p.is_refreshing());
    assert_eq!(p.refresh(&t, &vec![]), Some(0));
    assert_eq!(p.pending_requests(), vec![0]);
    assert_eq!(p.refresh(&t, &vec![]), Some(1));
    assert_eq!(p.pending_requests(), vec![0, 1]);
    assert_eq!(p.refresh(&t, &vec![]), Some(2));
    assert_eq!(p.pending_requests(), vec![0, 2]);
    assert!(p.is_refreshing());
}

#[test]
fn finished_request_leaves_or_clears_pending() {
    let mut p = ZetaInlineCompletionProvider::new(0);
    let t = text("abc");
    p.refresh(&t, &vec![]);
    p.refresh(&t, &vec![]);
    // The oldest finishes: it leaves.
    assert!(!p.finish_request(0, None, &t, &vec![], &vec![]));
    assert_eq!(p.pending_requests(), vec![1]);
    p.refresh(&t, &vec![]);
    // One that is not the oldest finishes: all are abandoned.
    p.finish_request(2, None, &t, &vec![], &vec![]);
    assert_eq!(p.pending_requests(), Vec::<u64>::new());
}

#[test]
fn first_prediction_is_shown_and_blocks_refresh_while_it_applies() {
    let mut p = ZetaInlineCompletionProvider::new(0);
    let t = text("hello world");
    let id = p.refresh(&t, &vec![]).unwrap();
    let c = current(1, "hello world", vec![edit(5, 5, ",")]);
    assert!(p.finish_request(id, Some(c), &t, &vec![], &vec![]));
    assert!(p.current_completion().is_some());
    // Still applies: no new request.
    assert_eq!(p.refresh(&t, &vec![]), None);
    // The user typed something else at the predicted spot: a new request goes out.
    let typed = text("hello! world");
    let edits = vec![UserEdit { old_start: 5, old_end: 5, new_start: 5, new_end: 6 }];
    assert_eq!(p.refresh(&typed, &edits), Some(1));
}

#[test]
fn new_prediction_replaces_only_when_extending_the_shown_one() {
    let t = text("let x");
    let old = current(1, "let x", vec![edit(5, 5, " =")]);
    let longer = current(1, "let x", vec![edit(5, 5, " = 1;")]);
    let other = current(1, "let x", vec![edit(5, 5, ";")]);
    assert!(longer.should_replace_completion(&old, &t, &vec![], &vec![]));
    assert!(!other.should_replace_completion(&old, &t, &vec![], &vec![]));
    let elsewhere = current(2, "let x", vec![edit(0, 0, "x")]);
    assert!(elsewhere.should_replace_completion(&old, &t, &vec![], &vec![]));
    // One edit each, at different ranges: the new one wins.
    let moved = current(1, "let x", vec![edit(0, 0, "pub ")]);
    assert!(moved.should_replace_completion(&old, &t, &vec![], &vec![]));
    let two = current(1, "let x", vec![edit(0, 0, "pub "), edit(5, 5, ";")]);
    assert!(two.should_replace_completion(&old, &t, &vec![], &vec![]));
}

#[test]
fn accept_and_discard() {
    let mut p = ZetaInlineCompletionProvider::new(0);
    let t = text("abc");
    let id = p.refresh(&t, &vec![]).unwrap();
    p.finish_request(id, Some(current(1, "abc", vec![edit(3, 3, "d")])), &t, &vec![], &vec![]);
    p.refresh(&text("abcx"), &vec![UserEdit { old_start: 3, old_end: 3, new_start: 3, new_end: 4 }]);
    assert!(p.is_refreshing());
    p.accept();
    assert!(!p.is_refreshing());
    assert!(p.current_completion().is_some());
    p.discard();
    assert!(p.current_completion().is_none());
}

#[test]
fn suggestion_is_the_cluster_nearest_the_cursor() {
    let buffer = "l0\nl1\nl2\nl3\nl4\nl5\nl6\n";
    let mut p = ZetaInlineCompletionProvider::new(0);
    let t = text(buffer);
    let id = p.refresh(&t, &vec![]).unwrap();
    // Edits on rows 0, 4, 5 and 6.
    let edits = vec![edit(0, 0, "a"), edit(12, 12, "b"), edit(15, 15, "c"), edit(18, 18, "d")];
    p.finish_request(id, Some(current(9, buffer, edits)), &t, &vec![], &vec![]);
    // Cursor on row 5.
    let s = p.suggest(9, &t, &vec![], 15).unwrap();
    let got: Vec<_> = s.edits.iter().map(|e| (e.start, string(&e.text))).collect();
    assert_eq!(got, vec![(12, "b".to_string()), (15, "c".to_string()), (18, "d".to_string())]);
    // Cursor on row 0.
    let s = p.suggest(9, &t, &vec![], 1).unwrap();
    assert_eq!(s.edits.len(), 1);
    assert_eq!(s.edits[0].start, 0);
    // Another buffer drops the prediction.
    assert!(p.suggest(3, &t, &vec![], 0).is_none());
    assert!(p.current_completion().is_none());
}

#[test]
fn suggestion_cluster_chains_through_neighbours() {
    let buffer = "l0\nl1\nl2\nl3\nl4\n";
    let mut p = ZetaInlineCompletionProvider::new(0);
    let t = text(buffer);
    let id = p.refresh(&t, &vec![]).unwrap();
    // Edits on rows 1, 2 and 3.
    let edits = vec![edit(3, 3, "a"), edit(6, 6, "b"), edit(9, 9, "c")];
    p.finish_request(id, Some(current(9, buffer, edits)), &t, &vec![], &vec![]);
    // Cursor on row 3: row 1 joins through row 2.
    let s = p.suggest(9, &t, &vec![], 10).unwrap();
    let got: Vec<_> = s.edits.iter().map(|e| e.start).collect();
    assert_eq!(got, vec![3, 6, 9]);
}

#[test]
fn throttle_delay_counts_from_the_last_request() {
    let mut p = ZetaInlineCompletionProvider::new(1_000);
    assert_eq!(p.throttle_delay(1_100), 200);
    assert_eq!(p.throttle_delay(1_300), 0);
    assert_eq!(p.throttle_delay(5_000), 0);
    p.request_started(2_000);
    assert_eq!(p.throttle_delay(2_050), 250);
}

#[test]
fn http_steps() {
    assert_eq!(http_step(200, false, false), HttpStep::ReadBody);
    assert_eq!(http_step(204, true, true), HttpStep::ReadBody);
    assert_eq!(http_step(401, true, false), HttpStep::RetryWithFreshToken);
    assert_eq!(http_step(401, true, true), HttpStep::Fail);
    assert_eq!(http_step(500, false, false), HttpStep::Fail);
}

#[test]
fn tokens_are_a_third_of_the_length() {
    assert_eq!(tokens_for_bytes(0), 0);
    assert_eq!(tokens_for_bytes(10), 3);
    assert_eq!(tokens_for_bytes(1500), 500);
}

#[test]
fn events_prompt_takes_newest_within_budget() {
    let a = text(&"a".repeat(30)); // 10 tokens
    let b = text(&"b".repeat(30));
    let c = text(&"c".repeat(30));
    let all = vec![a.clone(), b.clone(), c.clone()];
    assert_eq!(
        string(&prompt_for_events(&all, 500)),
        format!("{}\n\n{}\n\n{}", "a".repeat(30), "b".repeat(30), "c".repeat(30))
    );
    assert_eq!(
        string(&prompt_for_events(&all, 25)),
        format!("{}\n\n{}", "b".repeat(30), "c".repeat(30))
    );
    assert_eq!(string(&prompt_for_events(&all, 9)), "");
    // Thirty two-byte characters cost twenty tokens.
    let e = text(&"é".repeat(30));
    assert_eq!(string(&prompt_for_events(&vec![e.clone()], 19)), "");
    assert_eq!(string(&prompt_for_events(&vec![e], 20)), "é".repeat(30));
}

#[test]
fn event_prompt_mentions_rename_and_diff() {
    let r = event_to_prompt(&Some(text("a.rs")), &Some(text("b.rs")), &text("-x\n+y"));
    assert_eq!(
        string(&r),
        "User renamed \"a.rs\" to \"b.rs\"\n\nUser edited \"b.rs\":\n```diff\n-x\n+y\n```"
    );
    let r = event_to_prompt(&Some(text("a\\b")), &Some(text("c\"d")), &text(""));
    assert_eq!(string(&r), "User renamed \"a\\\\b\" to \"c\\\"d\"\n\n");
    let r = event_to_prompt(&None, &None, &text(""));
    assert_eq!(string(&r), "");
    let r = event_to_prompt(&None, &None, &text("+z"));
    assert_eq!(string(&r), "User edited \"untitled\":\n```diff\n+z\n```");
}

#[test]
fn outline_prompt_indents_by_depth() {
    let items = vec![
        OutlineItem { depth: 0, text: text("fn main") },
        OutlineItem { depth: 2, text: text("let x") },
    ];
    assert_eq!(
        string(&prompt_for_outline(&Some(text("src/a.rs")), &Some(items))),
        "```src/a.rs\nfn main\n  let x\n```\n"
    );
    assert_eq!(string(&prompt_for_outline(&None, &None)), "```untitled\n```\n");
}

#[test]
fn request_needs_a_server_url() {
    let snapshot = BufferSnapshot::new(1, 0, None, text("abc"));
    let none = ZedlessSettings { zeta_url: None, projects_base_path: None };
    assert_eq!(
        prepare_request(&none, &snapshot, &None, 0, &vec![], &None).err(),
        Some(RequestError::ConfigMissing)
    );
    let some = ZedlessSettings { zeta_url: Some("http://localhost:9000".to_string()), projects_base_path: None };
    let r = prepare_request(&some, &snapshot, &None, 1, &vec![text("ev")], &None).unwrap();
    assert_eq!(r.server_url, "http://localhost:9000");
    assert_eq!(string(&r.body.input_events), "ev");
    assert_eq!(string(r.body.outline.as_ref().unwrap()), "```untitled\n```\n");
    assert!(!r.body.can_collect_data);
    assert_eq!((r.editable_start, r.editable_end), (0, 3));
    assert!(string(&r.body.input_excerpt).starts_with("```untitled\n<|start_of_file|>\n"));
}

#[test]
fn diagnostic_groups_are_all_or_nothing() {
    assert_eq!(collect_diagnostic_groups(vec![Some(1), Some(2)]), Some(vec![1, 2]));
    assert_eq!(collect_diagnostic_groups(vec![Some(1), None, Some(3)]), None);
    assert_eq!(collect_diagnostic_groups::<u8>(vec![]), Some(vec![]));
}

#[test]
fn string_of_keeps_every_character() {
    assert_eq!(string_of(&text("añb")), "añb");
    assert_eq!(string_of(&vec![]), "");
}
