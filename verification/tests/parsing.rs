use kindle_clippings::parsing::{parse_clippings, Entry, ParsingError};

fn parse_and_get_first(content: &str) -> Entry {
    let parsed = parse_clippings(content).unwrap();
    assert_eq!(1, parsed.len());
    parsed.into_iter().next().unwrap()
}

#[test]
fn test_parse_entry_without_author() {
    let content = "The Grapes of Wrath \n- Your Highlight on page 12453252 | Added on Friday, 5 July 2024 09:55:52\n\nSmall for convenience.\n";
    let entry = parse_and_get_first(content);
    assert_eq!(None, entry.author());
    assert_eq!("The Grapes of Wrath".to_string(), entry.title());
}

#[test]
fn test_parse_action_line_only_location() {
    let content = "The Grapes of Wrath \n- Your Highlight at location 3867-3869 | Added on Friday, 5 July 2024 09:55:52\n\nSmall for convenience.\n";
    let entry = parse_and_get_first(content);
    assert_eq!(None, entry.page());
    assert_eq!(Some("3867-3869".to_string()), entry.location());
}

#[test]
fn test_parse_action_line_page_and_location() {
    let content = "The Grapes of Wrath \n- Your Highlight on page 14 | location 214-215 | Added on Friday, 5 July 2024 09:55:52\n\nSmall for convenience.\n";
    let entry = parse_and_get_first(content);
    assert_eq!(Some("14".to_string()), entry.page());
    assert_eq!(Some("214-215".to_string()), entry.location());
}

#[test]
fn test_parse_action_line_only_page() {
    let content = "The Grapes of Wrath \n- Your Highlight on page 14 | Added on Friday, 5 July 2024 09:55:52\n\nSmall for convenience.\n";
    let entry = parse_and_get_first(content);
    assert_eq!(Some("14".to_string()), entry.page());
    assert_eq!(None, entry.location());
}

#[test]
fn test_parse_action_line_highlight() {
    let content = "The Grapes of Wrath \n- Your Highlight on page 14 | Added on Friday, 5 July 2024 09:55:52\n\nSmall for convenience.\n";
    let entry = parse_and_get_first(content);
    assert_eq!("Highlight".to_string(), entry.action());
}

#[test]
fn test_parse_action_line_bookmark() {
    let content = "The Grapes of Wrath \n- Your Bookmark on page 14 | Added on Friday, 5 July 2024 09:55:52\n\n";
    let entry = parse_and_get_first(content);
    assert_eq!("Bookmark".to_string(), entry.action());
}

#[test]
fn test_parse_action_line_note() {
    let content = "The Grapes of Wrath \n- Your Note on page 14 | Added on Friday, 5 July 2024 09:55:52\n\nSmall for convenience.\n";
    let entry = parse_and_get_first(content);
    assert_eq!("Note".to_string(), entry.action());
}

#[test]
fn test_parse_content_highlight() {
    let content = "The Grapes of Wrath \n- Your Highlight on page 12453252 | Added on Friday, 5 July 2024 09:55:52\n\nSmall for convenience.\n";
    let entry = parse_and_get_first(content);
    assert_eq!(Some("Small for convenience.".to_string()), entry.content());
}

#[test]
fn test_parse_content_note() {
    let content = "The Grapes of Wrath \n- Your Highlight on page 12453252 | Added on Friday, 5 July 2024 09:55:52\n\nSmall for convenience.\n";
    let entry = parse_and_get_first(content);
    assert_eq!(Some("Small for convenience.".to_string()), entry.content());
}

#[test]
fn test_parse_content_bookmark() {
    let content = "The Grapes of Wrath \n- Your Bookmark on page 12453252 | Added on Friday, 5 July 2024 09:55:52\n\n";
    let entry = parse_and_get_first(content);
    assert_eq!(None, entry.content());
}

#[test]
fn test_parse_full_entry_with_author() {
    let content = "The Grapes of Wrath (John Steinbeck)\n- Your Highlight on page 12453252 | Added on Friday, 5 July 2024 09:55:52\n\nHow can we live...\n";
    let entry = parse_and_get_first(content);
    assert_eq!(Some("John Steinbeck".to_string()), entry.author());
    assert_eq!("The Grapes of Wrath".to_string(), entry.title());
    assert_eq!(Some("12453252".to_string()), entry.page());
    assert_eq!(None, entry.location());
    assert_eq!(Some("How can we live...".to_string()), entry.content());
    assert_eq!("Friday, 5 July 2024 09:55:52".to_string(), entry.date());
}

#[test]
fn test_parse_preserves_block_count_and_order() {
    let content = "\
First Book (A. One)\n\
- Your Highlight on page 1 | Added on Monday, 1 July 2024 08:00:00\n\
\n\
first body\n\
==========\n\
Second Book (B. Two)\n\
- Your Note at location 22-23 | Added on Tuesday, 2 July 2024 09:00:00\n\
\n\
second body\n\
==========\n\
Third Book\n\
- Your Bookmark on page 3 | Added on Wednesday, 3 July 2024 10:00:00\n\
\n\
==========\n";
    let parsed = parse_clippings(content).unwrap();
    assert_eq!(3, parsed.len());
    assert_eq!("First Book".to_string(), parsed[0].title());
    assert_eq!("Second Book".to_string(), parsed[1].title());
    assert_eq!("Third Book".to_string(), parsed[2].title());
}

#[test]
fn test_parse_content_presence_follows_action() {
    let content = "\
First Book (A. One)\n\
- Your Highlight on page 1 | Added on Monday, 1 July 2024 08:00:00\n\
\n\
first body\n\
==========\n\
Second Book (B. Two)\n\
- Your Note at location 22-23 | Added on Tuesday, 2 July 2024 09:00:00\n\
\n\
second body\n\
==========\n\
Third Book\n\
- Your Bookmark on page 3 | Added on Wednesday, 3 July 2024 10:00:00\n\
\n\
==========\n";
    let parsed = parse_clippings(content).unwrap();
    for entry in parsed {
        let has_content = entry.content().is_some();
        let action = entry.action();
        assert_eq!(action == "Highlight" || action == "Note", has_content);
        if action == "Bookmark" {
            assert_eq!(None, entry.content());
        }
    }
}

#[test]
fn test_parse_bookmark_discards_trailing_content_lines() {
    let content = "The Grapes of Wrath (John Steinbeck)\n- Your Bookmark on page 14 | Added on Friday, 5 July 2024 09:55:52\n\nleftover line one\nleftover line two\n==========\n";
    let entry = parse_and_get_first(content);
    assert_eq!(None, entry.content());
}

#[test]
fn test_parse_multiline_content_joined_with_spaces() {
    let content = "The Grapes of Wrath \n- Your Highlight on page 14 | Added on Friday, 5 July 2024 09:55:52\n\nfirst line\nsecond line\n==========\n";
    let entry = parse_and_get_first(content);
    assert_eq!(Some("first line second line".to_string()), entry.content());
}

#[test]
fn test_parse_blank_highlight_body_is_empty_content() {
    let content = "The Grapes of Wrath \n- Your Highlight on page 14 | Added on Friday, 5 July 2024 09:55:52\n\n==========\n";
    let entry = parse_and_get_first(content);
    assert_eq!(Some("".to_string()), entry.content());
}

#[test]
fn test_parse_word_page_token() {
    let content = "The Grapes of Wrath \n- Your Highlight on page xiv | Added on Friday, 5 July 2024 09:55:52\n\nbody\n";
    let entry = parse_and_get_first(content);
    assert_eq!(Some("xiv".to_string()), entry.page());
}

#[test]
fn test_parse_empty_author_suffix() {
    let content = "The Grapes of Wrath ()\n- Your Highlight on page 14 | Added on Friday, 5 July 2024 09:55:52\n\nbody\n";
    let entry = parse_and_get_first(content);
    assert_eq!("The Grapes of Wrath".to_string(), entry.title());
    assert_eq!(Some("".to_string()), entry.author());
}

#[test]
fn test_parse_empty_input_yields_no_entries() {
    assert_eq!(0, parse_clippings("").unwrap().len());
    assert_eq!(0, parse_clippings("==========\n==========\n").unwrap().len());
}

#[test]
fn test_parse_malformed_action_line_is_fatal() {
    let content = "The Grapes of Wrath \n- Your Highlight somewhere | Added on Friday, 5 July 2024 09:55:52\n\nbody\n";
    match parse_clippings(content) {
        Err(ParsingError::MalformedActionLine(line)) => {
            assert_eq!(
                "- Your Highlight somewhere | Added on Friday, 5 July 2024 09:55:52".to_string(),
                line
            );
        }
        other => panic!("expected a malformed action line failure, got {:?}", other),
    }
}

#[test]
fn test_parse_unrecognized_action_keyword_is_rejected() {
    let content = "The Grapes of Wrath \n- Your Underline on page 14 | Added on Friday, 5 July 2024 09:55:52\n\nbody\n";
    assert!(matches!(
        parse_clippings(content),
        Err(ParsingError::MalformedActionLine(_))
    ));
}

#[test]
fn test_parse_truncated_block_is_fatal() {
    let content = "==========\nThe Grapes of Wrath \n";
    assert!(matches!(
        parse_clippings(content),
        Err(ParsingError::TruncatedBlock)
    ));
}

#[test]
fn test_author_contains() {
    let entry = Entry::new(
        "The Grapes of Wrath".to_string(),
        Some("John Steinbeck".to_string()),
        "Highlight".to_string(),
        None,
        None,
        "Friday, 5 July 2024 09:55:52".to_string(),
        Some("body".to_string()),
    );
    assert!(entry.author_contains("Stein"));
    assert!(entry.author_contains(""));
    assert!(!entry.author_contains("Dickens"));

    let anonymous = Entry::new(
        "The Grapes of Wrath".to_string(),
        None,
        "Highlight".to_string(),
        None,
        None,
        "Friday, 5 July 2024 09:55:52".to_string(),
        Some("body".to_string()),
    );
    assert!(!anonymous.author_contains(""));
}
