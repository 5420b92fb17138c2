use argo_notes::note::Note;
use argo_notes::title::extract_title_str;

#[test]
fn title_derivation_is_pure() {
    let content = "# Some heading\nand a body";
    let first = extract_title_str(content);
    let second = extract_title_str(content);
    assert_eq!(first, second);
    let third = extract_title_str("other");
    assert_eq!(third, "other");
    // unrelated calls in between do not disturb it
    let fourth = extract_title_str(content);
    assert_eq!(first, fourth);
}

#[test]
fn truncation_to_forty_eight_characters() {
    let long_line: String = std::iter::repeat('a').take(60).collect();
    let content = format!("{}\nbody", long_line);
    let title = extract_title_str(&content);
    assert_eq!(title.chars().count(), 48);
    assert!(title.ends_with('\u{2026}'));
    let kept: String = std::iter::repeat('a').take(47).collect();
    assert_eq!(title, format!("{}\u{2026}", kept));
}

#[test]
fn heading_markers_are_stripped() {
    let title = extract_title_str("### Hello World\nbody");
    assert_eq!(title, "Hello World");
}

#[test]
fn blank_content_falls_back_to_untitled() {
    let title = extract_title_str("   \n\n");
    assert_eq!(title, "Untitled");
}

#[test]
fn empty_content_falls_back_to_untitled() {
    assert_eq!(extract_title_str(""), "Untitled");
}

#[test]
fn hashes_only_line_falls_back_to_untitled() {
    assert_eq!(extract_title_str("#####   \nbody"), "Untitled");
}

#[test]
fn indented_heading_keeps_its_markers() {
    // only leading '#' characters are stripped; an indented line keeps them
    assert_eq!(extract_title_str("  # Hi"), "# Hi");
}

#[test]
fn unicode_blanks_count_as_blank() {
    // no-break space and em space count as blanks, like ASCII spaces
    assert_eq!(extract_title_str("\u{00A0}\u{2003}\n\nreal title"), "real title");
    assert_eq!(extract_title_str("\u{00A0}\n"), "Untitled");
}

#[test]
fn first_nonblank_line_wins() {
    assert_eq!(extract_title_str("\n   \nsecond line\nthird"), "second line");
}

#[test]
fn fifty_characters_stay_untouched() {
    let line: String = std::iter::repeat('b').take(50).collect();
    assert_eq!(extract_title_str(&line), line);
}

#[test]
fn fifty_one_characters_are_truncated() {
    let line: String = std::iter::repeat('b').take(51).collect();
    let title = extract_title_str(&line);
    assert_eq!(title.chars().count(), 48);
}

#[test]
fn note_recomputes_title_on_edit() {
    let mut note = Note::new();
    assert_eq!(note.title, "Untitled");
    assert_eq!(note.content, "");
    assert_eq!(note.created_at, note.updated_at);
    assert_eq!(note.id.len(), 36);
    note.content = String::from("## Plans\n- one");
    note.extract_title();
    assert_eq!(note.title, "Plans");
}
