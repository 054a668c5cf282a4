use kaku::markdown::{DiffKind, InlineSpan, InlineStyle};
use kaku::syntax::{fallback, highlight_code_block, regions_to_spans, DefaultSyntax, HighlightRegion};
use syntect::easy::HighlightLines;
use syntect::highlighting::ThemeSet;
use syntect::parsing::SyntaxSet;

fn region(r: u8, text: &str) -> HighlightRegion {
    HighlightRegion { r, g: 0, b: 0, text: text.to_string() }
}

#[test]
fn regions_become_coloured_spans() {
    let spans = regions_to_spans(&[region(1, "let"), region(2, "\n"), region(3, "x\n")]);
    assert_eq!(
        spans,
        vec![
            InlineSpan { text: "let".to_string(), style: InlineStyle::Highlighted(1, 0, 0) },
            InlineSpan { text: "x".to_string(), style: InlineStyle::Highlighted(3, 0, 0) },
        ]
    );
    assert_eq!(
        regions_to_spans(&[region(1, "\n")]),
        vec![InlineSpan { text: String::new(), style: InlineStyle::Code }]
    );
}

#[test]
fn fallback_keeps_lines_as_code() {
    let out = fallback(&[("a b".to_string(), DiffKind::Add)]);
    assert_eq!(
        out,
        vec![(vec![InlineSpan { text: "a b".to_string(), style: InlineStyle::Code }], DiffKind::Add)]
    );
}

#[test]
fn highlighting_keeps_the_text() {
    let defaults = DefaultSyntax::load();
    let lines = vec![
        ("fn main() {}".to_string(), DiffKind::Plain),
        ("+added".to_string(), DiffKind::Add),
    ];
    let out = highlight_code_block(&defaults, &lines, "rs");
    assert_eq!(out.len(), 2);
    let text: String = out[0].0.iter().map(|s| s.text.as_str()).collect();
    assert_eq!(text, "fn main() {}");
    assert!(out[0].0.iter().all(|s| matches!(s.style, InlineStyle::Highlighted(..))));
    assert_eq!(out[1].0, vec![InlineSpan { text: "+added".to_string(), style: InlineStyle::Code }]);
    assert_eq!(out[1].1, DiffKind::Add);
    let unknown = highlight_code_block(&defaults, &lines, "no-such-language");
    assert_eq!(unknown, fallback(&lines));
}

/// Each plain line gets the spans of what syntect gives for it, in the
/// bundled definitions and theme, after the plain lines before it; diff
/// lines are plain code and are not fed to the highlighter.
#[test]
fn plain_lines_get_syntect_colours_in_order() {
    let defaults = DefaultSyntax::load();
    let lines = vec![
        ("/* a comment".to_string(), DiffKind::Plain),
        ("-removed".to_string(), DiffKind::Remove),
        ("still comment */ let x = 1;".to_string(), DiffKind::Plain),
        ("@@ hunk".to_string(), DiffKind::Hunk),
        ("let s = \"str\";".to_string(), DiffKind::Plain),
    ];
    let out = highlight_code_block(&defaults, &lines, "rust");

    let set = SyntaxSet::load_defaults_newlines();
    let theme = ThemeSet::load_defaults().themes.remove("base16-ocean.dark").expect("built-in theme");
    let syntax = set.find_syntax_by_token("rust").expect("rust is bundled");
    let mut h = HighlightLines::new(syntax, &theme);
    for (i, (text, diff)) in lines.iter().enumerate() {
        if *diff != DiffKind::Plain {
            assert_eq!(out[i].0, vec![InlineSpan { text: text.clone(), style: InlineStyle::Code }]);
            continue;
        }
        let with_nl = format!("{}\n", text);
        let regions: Vec<HighlightRegion> = h
            .highlight_line(&with_nl, &set)
            .expect("highlights")
            .into_iter()
            .map(|(style, t)| HighlightRegion {
                r: style.foreground.r,
                g: style.foreground.g,
                b: style.foreground.b,
                text: t.to_string(),
            })
            .collect();
        assert_eq!(out[i].0, regions_to_spans(&regions), "line {}", i);
        assert_eq!(out[i].1, *diff);
    }
    // The comment opened on the first line colours the start of the third
    // differently from code on a line of its own.
    assert_ne!(out[2].0[0].style, out[4].0[0].style);
}
