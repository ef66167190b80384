use kindle_clippings::export::{export_entry, Template};
use kindle_clippings::parsing::Entry;

#[test]
fn test_export() {
    let entry = Entry::new(
        "The Grapes of Wrath".to_string(),
        Some("John Steinbeck".to_string()),
        "Highlight".to_string(),
        None,
        None,
        "Friday, 5 July 2024 09:55:52".to_string(),
        Some("Small for convenience.".to_string()),
    );

    let exported = export_entry(entry);

    assert_eq!(
        "Small for convenience.\n\n*John Steinbeck - The Grapes of Wrath*".to_string(),
        exported
    );
}

#[test]
fn test_export_default_author_and_content() {
    let entry = Entry::new(
        "The Graves of Wraiths".to_string(),
        None,
        "Highlight".to_string(),
        None,
        None,
        "Friday, 5 July 2024 09:55:52".to_string(),
        None,
    );

    let exported = export_entry(entry);

    assert_eq!("\n\n*Unknown author - The Graves of Wraiths*".to_string(), exported);
}

fn sample_entry() -> Entry {
    Entry::new(
        "The Grapes of Wrath".to_string(),
        Some("John Steinbeck".to_string()),
        "Highlight".to_string(),
        Some("14".to_string()),
        None,
        "Friday, 5 July 2024 09:55:52".to_string(),
        Some("Small for convenience.".to_string()),
    )
}

#[test]
fn test_format_default_template() {
    let rendered = Template::default().format(sample_entry());
    assert_eq!(
        "[Highlight] Author: John Steinbeck, Title: The Grapes of Wrath\nSmall for convenience."
            .to_string(),
        rendered
    );
}

#[test]
fn test_template_getter() {
    assert_eq!("{content}\n\n*{author} - {title}*".to_string(), Template::new().template());
    assert_eq!(
        "[{action}] Author: {author}, Title: {title}\n{content}".to_string(),
        Template::default().template()
    );
}

#[test]
fn test_format_without_tokens_returns_template_unchanged() {
    let text = "no tokens here, {unknown} stays as it is";
    let rendered = Template::with_text(text.to_string()).format(sample_entry());
    assert_eq!(text.to_string(), rendered);
}

#[test]
fn test_format_replaces_every_occurrence() {
    let rendered = Template::with_text("{title}/{title}".to_string()).format(sample_entry());
    assert_eq!("The Grapes of Wrath/The Grapes of Wrath".to_string(), rendered);
}

#[test]
fn test_format_does_not_rescan_replacement_text() {
    let entry = Entry::new(
        "{author}".to_string(),
        Some("John Steinbeck".to_string()),
        "Highlight".to_string(),
        None,
        None,
        "Friday, 5 July 2024 09:55:52".to_string(),
        Some("{title}".to_string()),
    );
    let rendered = Template::with_text("{content} and {title}".to_string()).format(entry);
    assert_eq!("{title} and {author}".to_string(), rendered);
}
