use zeta::{
    BufferSnapshot, Edit, InlineCompletionId, ParseError, Zeta, common_prefix,
    excerpt_for_cursor_position, parse_region, process_completion_response,
};

fn text(s: &str) -> Vec<char> {
    s.chars().collect()
}

fn string(v: &[char]) -> String {
    v.iter().collect()
}

fn point(t: &[char], offset: usize) -> (usize, usize) {
    let before = &t[..offset];
    let row = before.iter().filter(|c| **c == '\n').count();
    let col = match before.iter().rposition(|c| *c == '\n') {
        Some(p) => offset - p - 1,
        None => offset,
    };
    (row, col)
}

fn apply(t: &[char], edits: &[Edit]) -> String {
    let mut out = t.to_vec();
    for e in edits.iter().rev() {
        out.splice(e.start..e.end, e.text.iter().cloned());
    }
    string(&out)
}

/// Finds the start of `needle` in `hay`, counted in characters.
fn find(hay: &[char], needle: &str) -> usize {
    let n = text(needle);
    (0..=hay.len() - n.len()).find(|i| hay[*i..*i + n.len()] == n[..]).unwrap()
}

#[test]
fn test_clean_up_diff() {
    let buffer = text("fn main() {\n    let word_1 = \"lorem\";\n    let range = word.len()..word.len();\n}\n");
    let reply = text("<|editable_region_start|>\nfn main() {\n    let word_1 = \"lorem\";\n    let range = word_1.len()..word_1.len();\n}\n\n<|editable_region_end|>\n");
    let cursor = find(&buffer, "    let word_1");
    let excerpt = excerpt_for_cursor_position(cursor, &text("main.rs"), &buffer, 350, 150);
    assert_eq!((excerpt.editable_start, excerpt.editable_end), (0, buffer.len()));
    let new_text = parse_region(&reply).unwrap();
    assert_eq!(
        string(&new_text),
        "fn main() {\n    let word_1 = \"lorem\";\n    let range = word_1.len()..word_1.len();\n}\n"
    );
    // The word diff of the region: each `word` becomes `word_1`.
    let first = find(&buffer, "word.len()");
    let second = find(&buffer, "word.len();");
    let hunks = vec![
        Edit { start: first, end: first + 4, text: text("word_1") },
        Edit { start: second, end: second + 4, text: text("word_1") },
    ];
    let edits = Zeta::compute_edits(&hunks, excerpt.editable_start, &buffer);
    let points: Vec<_> = edits
        .iter()
        .map(|e| (point(&buffer, e.start), point(&buffer, e.end), string(&e.text)))
        .collect();
    assert_eq!(
        points,
        vec![((2, 20), (2, 20), "_1".to_string()), ((2, 32), (2, 32), "_1".to_string())]
    );

    let buffer = text("fn main() {\n    let story = \"the quick\"\n}\n");
    let quick = find(&buffer, "quick");
    let quote = quick + 5;
    // Hunks that repeat text the buffer already has: "quick" and the closing quote.
    let hunks = vec![
        Edit { start: quick, end: quote, text: text("quick brown fox jumps over the lazy dog") },
        Edit { start: quote, end: quote + 1, text: text("\";") },
    ];
    let edits = Zeta::compute_edits(&hunks, 0, &buffer);
    let points: Vec<_> = edits
        .iter()
        .map(|e| (point(&buffer, e.start), point(&buffer, e.end), string(&e.text)))
        .collect();
    assert_eq!(
        points,
        vec![
            ((1, 26), (1, 26), " brown fox jumps over the lazy dog".to_string()),
            ((1, 27), (1, 27), ";".to_string()),
        ]
    );
}

#[test]
fn compute_edits_trims_shared_prefix_and_suffix() {
    let buffer = text("let a = 1;\n");
    // A hunk that rewrites the whole line where only the number changed.
    let hunks = vec![Edit { start: 0, end: 10, text: text("let a = 2;") }];
    let edits = Zeta::compute_edits(&hunks, 0, &buffer);
    assert_eq!(edits.len(), 1);
    assert_eq!((edits[0].start, edits[0].end, string(&edits[0].text)), (8, 9, "2".to_string()));
    // No hunks, no edits.
    assert!(Zeta::compute_edits(&vec![], 0, &buffer).is_empty());
}

#[test]
fn test_inline_completion_end_of_buffer() {
    let buffer = text("lorem\n");
    let reply = text("```animals.js\n<|start_of_file|>\n<|editable_region_start|>\nlorem\nipsum\n<|editable_region_end|>\n```");
    let excerpt = excerpt_for_cursor_position(6, &text("animals.js"), &buffer, 350, 150);
    assert_eq!((excerpt.editable_start, excerpt.editable_end), (0, 6));
    let new_text = parse_region(&reply).unwrap();
    assert_eq!(string(&new_text), "lorem\nipsum");
    // The diff of "lorem\n" and "lorem\nipsum": an insertion at the end.
    let hunks = vec![Edit { start: 6, end: 6, text: text("ipsum") }];
    let edits = Zeta::compute_edits(&hunks, excerpt.editable_start, &buffer);
    let id = InlineCompletionId(uuid::Uuid::parse_str("7e86480f-3536-4d2c-9334-8213e3445d45").unwrap());
    let snapshot = BufferSnapshot::new(1, 1, None, buffer.clone());
    let current = BufferSnapshot::new(1, 1, None, buffer.clone());
    let completion =
        process_completion_response(id, text("animals.js"), edits, snapshot, current, &vec![]).unwrap();
    assert_eq!(completion.id, id);
    assert_eq!(apply(&buffer, &completion.edits), "lorem\nipsum");
}

#[test]
fn parser_rejects_two_end_markers() {
    let reply = text("<|editable_region_start|>\na\n<|editable_region_end|>\n<|editable_region_end|>");
    assert_eq!(parse_region(&reply), Err(ParseError::MarkerCount));
}

#[test]
fn parser_rejects_missing_start_marker() {
    assert_eq!(parse_region(&text("a\n<|editable_region_end|>")), Err(ParseError::MarkerCount));
}

#[test]
fn parser_rejects_two_start_of_file_markers() {
    let reply = text("<|start_of_file|><|start_of_file|>\n<|editable_region_start|>\na\n<|editable_region_end|>");
    assert_eq!(parse_region(&reply), Err(ParseError::MarkerCount));
}

#[test]
fn parser_needs_a_newline_after_the_start_marker() {
    let reply = text("<|editable_region_end|><|editable_region_start|>");
    assert_eq!(parse_region(&reply), Err(ParseError::MissingNewline));
}

#[test]
fn parser_needs_a_newline_before_the_end_marker() {
    let reply = text("<|editable_region_start|>\nabc<|editable_region_end|>");
    assert_eq!(parse_region(&reply), Err(ParseError::MissingEnd));
}

#[test]
fn parser_ignores_cursor_markers() {
    let reply = text("<|editable_region_start|>\nab<|user_cursor_is_here|>c\n<|editable_region_end|>");
    assert_eq!(string(&parse_region(&reply).unwrap()), "abc");
}

#[test]
fn echoed_speculated_output_reads_back_as_the_region() {
    let buffer = text("one\ntwo\nthree\nfour\n");
    let excerpt = excerpt_for_cursor_position(5, &text("f.txt"), &buffer, 350, 150);
    let region = string(&buffer[excerpt.editable_start..excerpt.editable_end]);
    assert_eq!(string(&parse_region(&excerpt.speculated_output).unwrap()), region);
}

#[test]
fn excerpt_prompt_marks_cursor_and_start_of_file() {
    let buffer = text("ab\ncd\n");
    let excerpt = excerpt_for_cursor_position(4, &text("x.rs"), &buffer, 350, 150);
    assert_eq!(
        string(&excerpt.prompt),
        "```x.rs\n<|start_of_file|>\n<|editable_region_start|>\nab\nc<|user_cursor_is_here|>d\n\n<|editable_region_end|>\n```"
    );
    assert_eq!(
        string(&excerpt.speculated_output),
        "<|editable_region_start|>\nab\ncd\n\n<|editable_region_end|>"
    );
}

#[test]
fn excerpt_window_respects_rewrite_budget() {
    // Ten lines of thirty characters: each line costs ten tokens.
    let line = "abcdefghijklmnopqrstuvwxyz0123";
    let mut s = String::new();
    for _ in 0..10 {
        s.push_str(line);
        s.push('\n');
    }
    let buffer = text(&s);
    // Cursor on line 5; twenty tokens of rewrite budget and ten of context.
    let cursor = 5 * 31 + 3;
    let excerpt = excerpt_for_cursor_position(cursor, &text("f"), &buffer, 20, 10);
    // One line above and one below use up the budget.
    assert_eq!((excerpt.editable_start, excerpt.editable_end), (4 * 31, 6 * 31 + 30));
    // One line of context above.
    assert!(string(&excerpt.prompt).starts_with(&format!("```f\n{}\n<|editable_region_start|>", line)));
}

#[test]
fn start_of_file_marker_only_when_region_starts_the_file() {
    let line = "abcdefghijklmnopqrstuvwxyz0123";
    let mut s = String::from("x\n");
    for _ in 0..10 {
        s.push_str(line);
        s.push('\n');
    }
    let buffer = text(&s);
    let cursor = 2 + 5 * 31;
    let excerpt = excerpt_for_cursor_position(cursor, &text("f"), &buffer, 20, 1000);
    assert!(excerpt.editable_start > 0);
    // The context reaches the start of the file, the region does not.
    let prompt = string(&excerpt.prompt);
    assert!(prompt.starts_with("```f\nx\n"));
    assert!(!prompt.contains("<|start_of_file|>"));
}

#[test]
fn excerpt_line_cost_counts_utf8_bytes() {
    // Ten lines of fifteen two-byte characters: each line costs ten tokens.
    let line = "é".repeat(15);
    let mut s = String::new();
    for _ in 0..10 {
        s.push_str(&line);
        s.push('\n');
    }
    let buffer = text(&s);
    let cursor = 5 * 16 + 3;
    let excerpt = excerpt_for_cursor_position(cursor, &text("f"), &buffer, 20, 10);
    assert_eq!((excerpt.editable_start, excerpt.editable_end), (4 * 16, 6 * 16 + 15));
}

#[test]
fn common_prefix_counts_shared_characters() {
    assert_eq!(common_prefix(&text("hello"), &text("help")), 3);
    assert_eq!(common_prefix(&text(""), &text("a")), 0);
    assert_eq!(common_prefix(&text("same"), &text("same")), 4);
    // Counted in UTF-8 bytes.
    assert_eq!(common_prefix(&text("héllo"), &text("hélp")), 4);
    assert_eq!(common_prefix(&text("日本語"), &text("日本")), 6);
}
