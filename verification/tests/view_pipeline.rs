use fresh_view::view_pipeline::{
    should_show_line_number, LineStart, ViewLine, ViewLineIterator, ViewTokenStyle, ViewTokenWire,
    ViewTokenWireKind, TAB_WIDTH,
};

fn make_text_token(text: &str, source_offset: Option<usize>) -> ViewTokenWire {
    ViewTokenWire {
        kind: ViewTokenWireKind::Text(text.to_string()),
        source_offset,
        style: None,
    }
}

fn make_newline_token(source_offset: Option<usize>) -> ViewTokenWire {
    ViewTokenWire {
        kind: ViewTokenWireKind::Newline,
        source_offset,
        style: None,
    }
}

fn make_break_token() -> ViewTokenWire {
    ViewTokenWire {
        kind: ViewTokenWireKind::Break,
        source_offset: None,
        style: None,
    }
}

fn make_space_token(source_offset: Option<usize>) -> ViewTokenWire {
    ViewTokenWire {
        kind: ViewTokenWireKind::Space,
        source_offset,
        style: None,
    }
}

fn lines_of(tokens: &[ViewTokenWire]) -> Vec<ViewLine> {
    ViewLineIterator::new(tokens).collect_lines()
}

#[test]
fn test_simple_source_lines() {
    let tokens = vec![
        make_text_token("Line 1", Some(0)),
        make_newline_token(Some(6)),
        make_text_token("Line 2", Some(7)),
        make_newline_token(Some(13)),
    ];

    let lines = lines_of(&tokens);

    assert_eq!(lines.len(), 2);
    assert_eq!(lines[0].text, "Line 1\n");
    assert_eq!(lines[0].line_start, LineStart::Beginning);
    assert!(should_show_line_number(&lines[0]));

    assert_eq!(lines[1].text, "Line 2\n");
    assert_eq!(lines[1].line_start, LineStart::AfterSourceNewline);
    assert!(should_show_line_number(&lines[1]));
}

#[test]
fn test_wrapped_continuation() {
    let tokens = vec![
        make_text_token("Line 1 start", Some(0)),
        make_break_token(), // Wrapped
        make_text_token("continued", Some(12)),
        make_newline_token(Some(21)),
    ];

    let lines = lines_of(&tokens);

    assert_eq!(lines.len(), 2);
    assert_eq!(lines[0].line_start, LineStart::Beginning);
    assert!(should_show_line_number(&lines[0]));

    assert_eq!(lines[1].line_start, LineStart::AfterBreak);
    assert!(
        !should_show_line_number(&lines[1]),
        "Wrapped continuation should NOT show line number"
    );
}

#[test]
fn test_injected_header_then_source() {
    let tokens = vec![
        make_text_token("== HEADER ==", None),
        make_newline_token(None),
        make_text_token("Line 1", Some(0)),
        make_newline_token(Some(6)),
    ];

    let lines = lines_of(&tokens);

    assert_eq!(lines.len(), 2);

    assert_eq!(lines[0].text, "== HEADER ==\n");
    assert_eq!(lines[0].line_start, LineStart::Beginning);
    assert!(
        !should_show_line_number(&lines[0]),
        "Injected header should NOT show line number"
    );

    assert_eq!(lines[1].text, "Line 1\n");
    assert_eq!(lines[1].line_start, LineStart::AfterInjectedNewline);
    assert!(
        should_show_line_number(&lines[1]),
        "Source line after injected header SHOULD show line number: line_start={:?}, first_char_is_source={}",
        lines[1].line_start,
        lines[1]
            .char_mappings
            .first()
            .map(|m| m.is_some())
            .unwrap_or(false)
    );
}

#[test]
fn test_mixed_scenario() {
    let tokens = vec![
        make_text_token("== Block 1 ==", None),
        make_newline_token(None),
        make_text_token("Line 1", Some(0)),
        make_newline_token(Some(6)),
        make_text_token("Line 2 start", Some(7)),
        make_break_token(),
        make_text_token("wrapped", Some(19)),
        make_newline_token(Some(26)),
        make_text_token("Line 3", Some(27)),
        make_newline_token(Some(33)),
    ];

    let lines = lines_of(&tokens);

    assert_eq!(lines.len(), 5);
    assert!(!should_show_line_number(&lines[0]));
    assert!(should_show_line_number(&lines[1]));
    assert!(should_show_line_number(&lines[2]));
    assert!(!should_show_line_number(&lines[3]));
    assert!(should_show_line_number(&lines[4]));
}

#[test]
fn test_tab_expansion_and_tab_starts() {
    let tokens = vec![make_text_token("a\tb\t", Some(10)), make_newline_token(Some(14))];
    let lines = lines_of(&tokens);
    assert_eq!(lines.len(), 1);
    // 'a' at column 0, tab expands to 7 spaces, 'b' at column 8, tab to 7 spaces.
    assert_eq!(lines[0].text, "a       b       \n");
    assert_eq!(lines[0].char_mappings.len(), 17);
    assert_eq!(lines[0].char_styles.len(), 17);
    assert_eq!(lines[0].char_mappings[0], Some(10));
    assert_eq!(lines[0].char_mappings[1], Some(11));
    assert_eq!(lines[0].char_mappings[7], Some(11));
    assert_eq!(lines[0].char_mappings[8], Some(12));
    assert_eq!(lines[0].char_mappings[9], Some(13));
    assert_eq!(lines[0].char_mappings[16], Some(14));
    let mut starts: Vec<usize> = lines[0].tab_starts.iter().copied().collect();
    starts.sort();
    assert_eq!(starts, vec![1, 9]);
    assert_eq!(TAB_WIDTH, 8);
}

#[test]
fn test_multibyte_offsets_and_tab_start_bytes() {
    // 'é' takes two bytes, '€' three: offsets advance by bytes, tab start is a byte position.
    let tokens = vec![make_text_token("é€\tx", Some(100))];
    let lines = lines_of(&tokens);
    assert_eq!(lines.len(), 1);
    assert_eq!(lines[0].text, "é€      x");
    assert_eq!(lines[0].char_mappings[0], Some(100));
    assert_eq!(lines[0].char_mappings[1], Some(102));
    assert_eq!(lines[0].char_mappings[2], Some(105));
    assert_eq!(lines[0].char_mappings[8], Some(106));
    assert!(!lines[0].ends_with_newline);
    let starts: Vec<usize> = lines[0].tab_starts.iter().copied().collect();
    assert_eq!(starts, vec![5]);
}

#[test]
fn test_space_and_styles_follow_tokens() {
    let style = ViewTokenStyle { fg: Some((1, 2, 3)), bg: None, bold: true, italic: false };
    let tokens = vec![
        ViewTokenWire {
            kind: ViewTokenWireKind::Text("ab".to_string()),
            source_offset: None,
            style: Some(style),
        },
        make_space_token(Some(5)),
        ViewTokenWire { kind: ViewTokenWireKind::Break, source_offset: Some(9), style: Some(style) },
        make_text_token("c", Some(6)),
    ];
    let lines = lines_of(&tokens);
    assert_eq!(lines.len(), 2);
    assert_eq!(lines[0].text, "ab \n");
    assert_eq!(lines[0].char_mappings, vec![None, None, Some(5), None]);
    assert_eq!(lines[0].char_styles, vec![Some(style), Some(style), None, None]);
    assert!(lines[0].ends_with_newline);
    assert_eq!(lines[1].text, "c");
    assert_eq!(lines[1].line_start, LineStart::AfterBreak);
    assert!(!lines[1].ends_with_newline);
    assert!(!should_show_line_number(&lines[0]));
}

#[test]
fn test_trailing_empty_text_gives_no_line() {
    let tokens = vec![make_text_token("x", Some(0)), make_newline_token(Some(1)), make_text_token("", Some(2))];
    let mut it = ViewLineIterator::new(&tokens);
    let first = it.next().unwrap();
    assert_eq!(first.text, "x\n");
    assert!(it.next().is_none());
    assert!(it.next().is_none());
    assert!(lines_of(&[]).is_empty());
}

#[test]
fn test_empty_lines_line_numbers() {
    let tokens = vec![
        make_newline_token(Some(0)),
        make_newline_token(None),
        make_newline_token(Some(1)),
    ];
    let lines = lines_of(&tokens);
    assert_eq!(lines.len(), 3);
    // Each line holds just the newline; first mapping decides.
    assert!(should_show_line_number(&lines[0]));
    assert!(!should_show_line_number(&lines[1]));
    assert_eq!(lines[2].line_start, LineStart::AfterInjectedNewline);
    assert!(should_show_line_number(&lines[2]));
}

#[test]
fn test_should_show_line_number_for_empty_lines() {
    let mk = |start: LineStart| ViewLine {
        text: String::new(),
        char_mappings: Vec::new(),
        char_styles: Vec::new(),
        tab_starts: Default::default(),
        line_start: start,
        ends_with_newline: false,
    };
    assert!(should_show_line_number(&mk(LineStart::Beginning)));
    assert!(should_show_line_number(&mk(LineStart::AfterSourceNewline)));
    assert!(!should_show_line_number(&mk(LineStart::AfterInjectedNewline)));
    assert!(!should_show_line_number(&mk(LineStart::AfterBreak)));
    assert!(LineStart::AfterBreak.is_continuation());
    assert!(!LineStart::Beginning.is_continuation());
}

#[test]
fn test_view_line_clone_keeps_everything() {
    let tokens = vec![make_text_token("a\tb", Some(4)), make_newline_token(Some(7))];
    let lines = ViewLineIterator::new(&tokens).collect_lines();
    let copy = lines[0].clone();
    assert_eq!(copy.text, lines[0].text);
    assert_eq!(copy.char_mappings, lines[0].char_mappings);
    assert_eq!(copy.char_styles, lines[0].char_styles);
    assert_eq!(copy.tab_starts, lines[0].tab_starts);
    assert!(copy.tab_starts.contains(&1));
    assert_eq!(copy.line_start, LineStart::Beginning);
    assert!(copy.ends_with_newline);
}

#[test]
fn test_reads_progress_and_stop() {
    let empty: Vec<ViewTokenWire> = Vec::new();
    assert!(ViewLineIterator::new(&empty).next().is_none());
    let blanks = vec![make_text_token("", Some(0)), make_text_token("", None)];
    let mut it = ViewLineIterator::new(&blanks);
    assert!(it.next().is_none());
    assert!(it.next().is_none());
    let tokens = vec![make_text_token("x", Some(0)), make_break_token(), make_text_token("y", Some(1))];
    let lines = ViewLineIterator::new(&tokens).collect_lines();
    assert!(lines.len() <= tokens.len());
    assert!(lines.iter().all(|l| !l.text.is_empty() && l.text.chars().count() == l.char_mappings.len()));
}
