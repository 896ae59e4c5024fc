use piki::gui::link_edit::{link_dialog_initial, link_save_action, Hovered, LinkSave};

#[test]
fn dialog_starts_from_hovered_link() {
    let init = link_dialog_initial(
        Hovered::Link { destination: "page.md".to_string(), text: "Page".to_string() },
        Some("ignored".to_string()),
    );
    assert_eq!(init.target, "page.md");
    assert_eq!(init.text, "Page");
    assert!(init.existing_link);
    assert!(!init.selection_mode);
}

#[test]
fn dialog_starts_from_selection_when_nothing_hovered() {
    let init = link_dialog_initial(Hovered::Nothing, Some("words".to_string()));
    assert_eq!(init.target, "");
    assert_eq!(init.text, "words");
    assert!(!init.existing_link);
    assert!(init.selection_mode);
}

#[test]
fn dialog_starts_empty_over_something_else() {
    let init = link_dialog_initial(Hovered::Other, Some("words".to_string()));
    assert_eq!((init.target.as_str(), init.text.as_str()), ("", ""));
    assert!(!init.existing_link && !init.selection_mode);
    let init = link_dialog_initial(Hovered::Nothing, None);
    assert_eq!((init.target.as_str(), init.text.as_str()), ("", ""));
    assert!(!init.existing_link && !init.selection_mode);
}

#[test]
fn saving_picks_the_edit() {
    assert_eq!(link_save_action(true, "", false), LinkSave::EditExisting);
    assert_eq!(link_save_action(false, "", true), LinkSave::Nothing);
    assert_eq!(link_save_action(false, "t", true), LinkSave::ReplaceSelection);
    assert_eq!(link_save_action(false, "t", false), LinkSave::InsertAtCursor);
}
