use piki::gui::rtf::{parse_rtf_document, rtf_paragraphs, try_parse_rtf_document, Style};
use tdoc::Paragraph;

#[test]
fn parses_basic_rtf() {
    let rtf = br#"{\rtf1\ansi{\fonttbl{\f0 Arial;}}\f0\pard Simple {\b bold} and {\i italic}.\par Next line.}"#;
    let document = parse_rtf_document(rtf).unwrap();
    assert_eq!(document.paragraphs.len(), 2);

    let first = &document.paragraphs[0];
    if let Paragraph::Text { content } = first {
        assert_eq!(content.len(), 5);
        assert_eq!(content[0].text, "Simple ");
        assert_eq!(content[1].children[0].text, "bold");
        assert_eq!(content[2].text, " and ");
        assert_eq!(content[3].children[0].text, "italic");
        assert_eq!(content[4].text, ".");
    } else {
        panic!("expected text paragraph");
    }

    let second = &document.paragraphs[1];
    if let Paragraph::Text { content } = second {
        assert_eq!(content[0].text, "Next line.");
    }
}

#[test]
fn repairs_windows_1252_c1_punctuation() {
    let rtf = br#"{\rtf1\ansi\ansicpg1252 It\'92s done\'85 or\'97maybe.\par}"#;
    let document = parse_rtf_document(rtf).unwrap();

    let Paragraph::Text { content } = &document.paragraphs[0] else {
        panic!("expected text paragraph");
    };
    let combined: String = content.iter().map(|span| span.text.as_str()).collect();
    assert_eq!(combined, "It\u{2019}s done\u{2026} or\u{2014}maybe.");
    assert!(
        !combined.chars().any(|ch| ('\u{80}'..='\u{9F}').contains(&ch)),
        "no C1 control characters should survive"
    );
}

#[test]
fn rtf_runs_carry_their_styles_outermost_first() {
    let rtf = br#"{\rtf1\ansi\pard plain {\b\i both}\par}"#;
    let paragraphs = rtf_paragraphs(rtf).unwrap();
    assert_eq!(paragraphs.len(), 1);
    let runs = &paragraphs[0];
    assert_eq!(runs[0].text, "plain ");
    assert!(runs[0].styles.is_empty());
    assert_eq!(runs[1].text, "both");
    assert_eq!(runs[1].styles, vec![Style::Bold, Style::Italic]);
}

#[test]
fn refuses_a_lone_surrogate_escape() {
    assert!(try_parse_rtf_document(br"{\rtf1 \u55296 x}").is_none());
    assert!(try_parse_rtf_document(br"{\rtf1 \u-10240 x}").is_none());
}

#[test]
fn parses_when_no_surrogate_escape() {
    let document = try_parse_rtf_document(br"{\rtf1 \u233 t\par}").unwrap().unwrap();
    assert_eq!(document.paragraphs.len(), 1);
    if let Paragraph::Text { content } = &document.paragraphs[0] {
        assert_eq!(content[0].text, "\u{e9}t");
    } else {
        panic!("expected text paragraph");
    }
}

fn first_text(bytes: &[u8]) -> String {
    let document = try_parse_rtf_document(bytes).unwrap().unwrap();
    let mut text = String::new();
    for paragraph in &document.paragraphs {
        if let Paragraph::Text { content } = paragraph {
            for span in content {
                text.push_str(&span.text);
            }
        }
    }
    text
}

#[test]
fn decodes_paired_surrogate_escapes() {
    assert!(first_text(br"{\rtf1\uc0 \u55357 \u56832 }").contains('\u{1F600}'));
    assert!(first_text(br"{\rtf1 \u-10179\'3f\u-8704\'3f}").contains('\u{1F600}'));
}

#[test]
fn refuses_what_the_parser_panics_on() {
    // The fallback characters stay when `\uc0` is in force, splitting the pair.
    assert!(try_parse_rtf_document(br"{\rtf1\uc0 \u-10179\'3f\u-8704\'3f}").is_none());
    assert!(try_parse_rtf_document(br"{\rtf1 \uc-2\u65 x}").is_none());
    assert!(try_parse_rtf_document(br"{\rtf1 \uc-1\u65 x}").is_none());
    assert!(try_parse_rtf_document(br"{\rtf1 \sl-2147483648 x}").is_none());
    // A negative count that no escape meets is harmless.
    assert!(try_parse_rtf_document(br"{\rtf1 {\uc-2 a}\u65 x}").is_some());
}
