use kaku::markdown::{
    is_cjk_no_line_start, parse_markdown_blocks, segments_to_plain, tokenize_inline, wrap_segments, DiffKind,
    InlineSpan, InlineStyle, MdBlock,
};

fn span(text: &str, style: InlineStyle) -> InlineSpan {
    InlineSpan { text: text.to_string(), style }
}

#[test]
fn inline_markup_becomes_styled_spans() {
    let spans = tokenize_inline("Hello **bold** and `code` ~~gone~~ *it* [link](http://x)");
    assert_eq!(
        spans,
        vec![
            span("Hello ", InlineStyle::Plain),
            span("bold", InlineStyle::Bold),
            span(" and ", InlineStyle::Plain),
            span("code", InlineStyle::Code),
            span(" gone ", InlineStyle::Plain),
            span("it", InlineStyle::Italic),
            span(" link", InlineStyle::Plain),
        ]
    );
    assert_eq!(segments_to_plain(&spans), "Hello bold and code gone it link");
}

#[test]
fn unclosed_markers_stay_literal() {
    assert_eq!(tokenize_inline("a **b"), vec![span("a **b", InlineStyle::Plain)]);
    assert_eq!(tokenize_inline("* not italic*"), vec![span("* not italic*", InlineStyle::Plain)]);
    assert_eq!(tokenize_inline("__x__"), vec![span("x", InlineStyle::Bold)]);
    assert_eq!(tokenize_inline(""), Vec::<InlineSpan>::new());
}

#[test]
fn blocks_of_a_message() {
    let blocks = parse_markdown_blocks("# Title\n\n- item\n2. second\n> quote\n---\n```Rust\nfn x\n```\ntext");
    assert_eq!(
        blocks,
        vec![
            MdBlock::Heading { level: 1, text: "Title".to_string() },
            MdBlock::Blank,
            MdBlock::ListItem { marker: "• ".to_string(), text: "item".to_string() },
            MdBlock::ListItem { marker: "2. ".to_string(), text: "second".to_string() },
            MdBlock::Quote("quote".to_string()),
            MdBlock::Hr,
            MdBlock::CodeLine { text: "fn x".to_string(), diff: DiffKind::Plain, lang: "rust".to_string() },
            MdBlock::Paragraph("text".to_string()),
        ]
    );
}

#[test]
fn five_or_more_hashes_are_a_level_four_heading() {
    assert_eq!(
        parse_markdown_blocks("##### Deep"),
        vec![MdBlock::Heading { level: 4, text: "Deep".to_string() }]
    );
    assert_eq!(
        parse_markdown_blocks("######## very # deep"),
        vec![MdBlock::Heading { level: 4, text: "very # deep".to_string() }]
    );
    assert_eq!(
        parse_markdown_blocks("#### four"),
        vec![MdBlock::Heading { level: 4, text: "four".to_string() }]
    );
    assert_eq!(
        parse_markdown_blocks("## two"),
        vec![MdBlock::Heading { level: 2, text: "two".to_string() }]
    );
    assert_eq!(parse_markdown_blocks("#####nospace"), vec![MdBlock::Paragraph("#####nospace".to_string())]);
}

#[test]
fn diff_blocks_classify_lines() {
    let blocks = parse_markdown_blocks("```diff\n+add\n-rem\n@@ h\n--- a\n ctx\n```");
    let kinds: Vec<DiffKind> = blocks
        .iter()
        .map(|b| match b {
            MdBlock::CodeLine { diff, .. } => *diff,
            _ => panic!("expected code lines, got {:?}", b),
        })
        .collect();
    assert_eq!(
        kinds,
        vec![DiffKind::Add, DiffKind::Remove, DiffKind::Hunk, DiffKind::Hunk, DiffKind::Plain]
    );
}

#[test]
fn pipe_tables_become_labelled_rows() {
    let blocks = parse_markdown_blocks("| Name | Age |\n|---|---|\n| Bob | 5 |\n");
    assert_eq!(
        blocks,
        vec![
            MdBlock::Paragraph("Bob".to_string()),
            MdBlock::Paragraph("  Age：5".to_string()),
            MdBlock::Blank,
            MdBlock::Blank,
        ]
    );
}

#[test]
fn wrapping_breaks_at_spaces() {
    let lines = wrap_segments(&[span("hello world foo", InlineStyle::Plain)], 11);
    assert_eq!(
        lines,
        vec![vec![span("hello world", InlineStyle::Plain)], vec![span("foo", InlineStyle::Plain)]]
    );
}

#[test]
fn wrapping_keeps_long_tokens_whole() {
    // A token wider than the line stays whole on a line of its own.
    let segs = vec![span("abcdefg", InlineStyle::Plain)];
    assert_eq!(wrap_segments(&segs, 3), vec![segs.clone()]);
    let lines = wrap_segments(&[span("ab abcdefgh cd", InlineStyle::Bold)], 4);
    assert_eq!(
        lines,
        vec![
            vec![span("ab ", InlineStyle::Bold)],
            vec![span("abcdefgh", InlineStyle::Bold)],
            vec![span("cd", InlineStyle::Bold)],
        ]
    );
}

#[test]
fn wrapping_edge_cases() {
    let segs = vec![span("a b", InlineStyle::Plain)];
    assert_eq!(wrap_segments(&segs, 0), vec![segs.clone()]);
    assert_eq!(wrap_segments(&[], 10), vec![Vec::<InlineSpan>::new()]);
    assert_eq!(
        wrap_segments(&[span("   ", InlineStyle::Plain)], 10),
        vec![Vec::<InlineSpan>::new()]
    );
}

#[test]
fn wrapping_keeps_cjk_runs_whole() {
    // "你好。世界" has no space: one token, 10 columns wide, on its own line.
    let lines = wrap_segments(&[span("你好。世界", InlineStyle::Plain)], 4);
    assert_eq!(lines, vec![vec![span("你好。世界", InlineStyle::Plain)]]);
    let lines = wrap_segments(&[span("你好 世界", InlineStyle::Plain)], 4);
    assert_eq!(
        lines,
        vec![vec![span("你好", InlineStyle::Plain)], vec![span("世界", InlineStyle::Plain)]]
    );
}

#[test]
fn closing_punctuation_may_not_start_a_line() {
    assert!(is_cjk_no_line_start("。"));
    assert!(is_cjk_no_line_start("）"));
    assert!(is_cjk_no_line_start("!"));
    assert!(!is_cjk_no_line_start("你"));
    assert!(!is_cjk_no_line_start(""));
}

#[test]
fn wrapping_keeps_visible_text() {
    let spans = vec![
        span("the quick  brown\tfox ", InlineStyle::Plain),
        span("jumps", InlineStyle::Bold),
        span(" over a verylongwordthatcannotfit 你好，世界。", InlineStyle::Plain),
    ];
    let visible = |s: &str| s.chars().filter(|c| *c != ' ' && *c != '\t').collect::<String>();
    for width in [1usize, 3, 5, 8, 13, 40] {
        let lines = wrap_segments(&spans, width);
        let text: String = lines.iter().map(|l| segments_to_plain(l)).collect();
        assert_eq!(visible(&text), visible(&segments_to_plain(&spans)), "width {}", width);
    }
}
