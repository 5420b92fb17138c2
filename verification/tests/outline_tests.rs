use argo_notes::outline::extract_headings;
use argo_notes::quick_switcher::fuzzy_match;

#[test]
fn headings_are_extracted_with_levels_and_lines() {
    let content = "# Top\nbody text\n## Second\n\n   ### Indented\nplain";
    let hs = extract_headings(content);
    assert_eq!(hs.len(), 3);
    assert_eq!((hs[0].level, hs[0].text.as_str(), hs[0].line), (1, "Top", 0));
    assert_eq!((hs[1].level, hs[1].text.as_str(), hs[1].line), (2, "Second", 2));
    assert_eq!((hs[2].level, hs[2].text.as_str(), hs[2].line), (3, "Indented", 4));
}

#[test]
fn deep_or_empty_headings_are_skipped() {
    let content = "####### too deep\n#\n##   \n###### six is fine";
    let hs = extract_headings(content);
    assert_eq!(hs.len(), 1);
    assert_eq!((hs[0].level, hs[0].text.as_str(), hs[0].line), (6, "six is fine", 3));
}

#[test]
fn content_without_headings_yields_nothing() {
    assert!(extract_headings("just text\nmore text").is_empty());
    assert!(extract_headings("").is_empty());
}

#[test]
fn fuzzy_match_finds_characters_in_order() {
    assert!(fuzzy_match("meeting notes", "mtn"));
    assert!(fuzzy_match("meeting notes", ""));
    assert!(fuzzy_match("meeting notes", "meeting notes"));
    assert!(!fuzzy_match("meeting notes", "mtx"));
    assert!(!fuzzy_match("", "a"));
    assert!(!fuzzy_match("abc", "acb"));
}
