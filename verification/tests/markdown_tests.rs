use tally::markdown::{breadcrumb_for, classify_line, heading_section_range, LineKind};

#[test]
fn test_classify() {
    assert_eq!(classify_line("# Hello", false), LineKind::Heading(1));
    assert_eq!(classify_line("## World", false), LineKind::Heading(2));
    assert_eq!(classify_line("- item", false), LineKind::ListItem(0));
    assert_eq!(classify_line("  - nested", false), LineKind::ListItem(2));
    assert_eq!(classify_line("> quote", false), LineKind::Blockquote);
    assert_eq!(classify_line("```", false), LineKind::CodeFence);
    assert_eq!(classify_line("hello", true), LineKind::CodeContent);
    assert_eq!(classify_line("", false), LineKind::BlankLine);
    assert_eq!(classify_line("plain text", false), LineKind::Paragraph);
}

#[test]
fn test_breadcrumb() {
    let lines: Vec<String> = vec![
        "- Work".to_string(),
        "  - Backend".to_string(),
        "    - Fix bug".to_string(),
    ];
    assert_eq!(breadcrumb_for(&lines, 2), vec!["Work", "Backend"]);
    assert_eq!(breadcrumb_for(&lines, 1), vec!["Work"]);
    assert!(breadcrumb_for(&lines, 0).is_empty());
}

#[test]
fn test_heading_section() {
    let lines: Vec<String> = vec![
        "# A".to_string(),
        "text".to_string(),
        "## B".to_string(),
        "more".to_string(),
        "# C".to_string(),
    ];
    assert_eq!(heading_section_range(&lines, 0), Some((0, 4)));
    assert_eq!(heading_section_range(&lines, 2), Some((2, 4)));
    assert_eq!(heading_section_range(&lines, 4), Some((4, 5)));
}
