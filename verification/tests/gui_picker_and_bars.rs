use piki::gui::link_handler::extract_links;
use piki::gui::navigation::{
    check_rename, dialog_origin, format_menu_state, is_untitled, load_effects, name_taken_message,
    note_status_text, paragraph_label_for_block, rename_dialog_initial, rename_enabled,
    scroll_target, untitled_note_name, BlockKind, RenameStep,
};
use piki::gui::on_air_bar;
use piki::gui::page_picker::{abbreviate, cycle_index, escape, fuzzy_score};
use piki::gui::search_bar;
use piki::gui::statusbar::{layout, spinner_angle, NoteLabel, SYNC_GAP, SYNC_INDICATOR_SIZE};

#[test]
fn test_markdown_links() {
    let content = "This is a [test link](target.md) in markdown.";
    let links = extract_links(content);
    assert_eq!(links.len(), 1);
    assert_eq!(links[0].destination, "target.md");
    assert_eq!(links[0].text, "test link");
}

#[test]
fn test_wiki_links() {
    let content = "This is a [[WikiPage]] link.";
    let links = extract_links(content);
    assert_eq!(links.len(), 1);
    assert_eq!(links[0].destination, "WikiPage");
}

#[test]
fn test_mixed_links() {
    let content = "A [markdown](page1) and [[wiki]] link.";
    let links = extract_links(content);
    assert_eq!(links.len(), 2);
}

#[test]
fn mixed_links_come_in_document_order() {
    let content = "[[first]] then [second](two.md)";
    let links = extract_links(content);
    assert_eq!(links.len(), 2);
    assert_eq!(links[0].destination, "first");
    assert_eq!(links[1].destination, "two.md");
    assert!(links[0].start < links[1].start);
}

#[test]
fn cycle_down_steps_and_wraps() {
    assert_eq!(cycle_index(1, 3, false), 2);
    assert_eq!(cycle_index(2, 3, false), 3);
    assert_eq!(cycle_index(3, 3, false), 1);
}

#[test]
fn cycle_up_steps_and_wraps() {
    assert_eq!(cycle_index(3, 3, true), 2);
    assert_eq!(cycle_index(2, 3, true), 1);
    assert_eq!(cycle_index(1, 3, true), 3);
}

#[test]
fn cycle_handles_empty_and_unselected() {
    assert_eq!(cycle_index(0, 0, false), 0);
    assert_eq!(cycle_index(0, 3, false), 2);
    assert_eq!(cycle_index(0, 3, true), 3);
}

#[test]
fn abbreviate_strips_markdown_and_collapses() {
    let md = "# Title\n\nSome **bold** and `code` text.\n\n- item one\n- item two";
    let out = abbreviate(md, 200);
    assert_eq!(out, "Title Some bold and code text. item one item two");
}

#[test]
fn abbreviate_cuts_to_the_character_limit() {
    assert_eq!(abbreviate("alpha beta gamma", 7), "alpha b");
    assert_eq!(abbreviate("", 10), "");
    assert_eq!(abbreviate("héllo wörld", 5), "héllo");
}

#[test]
fn escape_doubles_at_signs_and_strips_tabs() {
    assert_eq!(escape("a@b\tc"), "a@@b c");
}

#[test]
fn fuzzy_score_prefers_prefixes_and_rejects_misses() {
    assert!(fuzzy_score("fro", "frontpage").is_some());
    assert_eq!(fuzzy_score("xyz", "frontpage"), None);
    let prefix = fuzzy_score("fr", "frontpage").unwrap();
    let inner = fuzzy_score("fr", "a-frontpage").unwrap();
    assert!(prefix > inner);
}

#[test]
fn layout_keeps_indicator_at_the_right_end() {
    let l = layout(0, 100, 400, 25);
    let ((note_x, note_w), (save_x, save_w), (ind_x, ind_y, size)) = (l.note, l.save, l.indicator);
    assert_eq!(size, SYNC_INDICATOR_SIZE);
    assert_eq!(ind_x + size, 400 - 5, "indicator ends at the right padding");
    assert!(ind_y > 100 && ind_y + size < 125, "vertically inside the bar");
    assert_eq!(save_x + save_w + SYNC_GAP, ind_x, "save text stops before it");
    assert!(note_x + note_w <= save_x, "halves do not overlap");
}

#[test]
fn layout_of_a_narrow_bar_keeps_the_save_text_ten_wide() {
    let l = layout(0, 0, 40, 25);
    assert_eq!(l.save.1, 10);
    assert_eq!(l.indicator.0, 40 - 5 - 14);
    // A bar lower than the indicator centres it by rounding toward zero.
    let low = layout(0, 0, 400, 9);
    assert_eq!(low.indicator.1, -2);
}

#[test]
fn hover_overlays_the_note_name_and_falls_back_to_it() {
    let mut label = NoteLabel::default();
    label.set_note("Note: frontpage");
    assert_eq!(label.displayed(), "Note: frontpage");

    label.set_hover(Some("recipes"));
    assert_eq!(label.displayed(), "recipes");

    label.set_hover(None);
    assert_eq!(label.displayed(), "Note: frontpage");
}

#[test]
fn navigating_while_hovering_leaves_no_stale_note_name() {
    let mut label = NoteLabel::default();
    label.set_note("Note: frontpage");
    label.set_hover(Some("recipes"));
    label.set_note("Note: recipes");
    assert_eq!(label.displayed(), "Note: recipes");
    label.set_hover(None);
    assert_eq!(label.displayed(), "Note: recipes");
}

#[test]
fn hover_end_after_back_navigation_keeps_the_note_we_went_back_to() {
    let mut label = NoteLabel::default();
    label.set_note("Note: frontpage");
    label.set_hover(Some("recipes"));
    label.set_note("Note: recipes");
    label.set_note("Note: frontpage");
    label.set_hover(Some("notes"));
    assert_eq!(label.displayed(), "notes");
    label.set_hover(None);
    assert_eq!(label.displayed(), "Note: frontpage");
}

#[test]
fn spinner_turns_clockwise_once_per_period() {
    assert_eq!(spinner_angle(0), 360);
    assert_eq!(spinner_angle(300), 270);
    assert_eq!(spinner_angle(1200), 360);
    assert_eq!(spinner_angle(1199), 360 - 359);
}

#[test]
fn search_bar_count_label() {
    assert_eq!(search_bar::match_count_text(None, 0), "No matches");
    assert_eq!(search_bar::match_count_text(Some(0), 0), "No matches");
    assert_eq!(search_bar::match_count_text(Some(2), 5), "3/5");
    assert_eq!(search_bar::match_count_text(None, 12), "12 matches");
}

#[test]
fn search_bar_lays_buttons_out_from_the_right() {
    let l = search_bar::layout(10, 20, 600);
    assert_eq!(l.input, (14, 24, 600 - 176 - 4, 28));
    assert_eq!(l.close_x, 10 + 600 - 4 - 30);
    assert_eq!(l.next_x, l.close_x - 34);
    assert_eq!(l.prev_x, l.next_x - 34);
    assert_eq!(l.count_x, l.prev_x - 74);
    let narrow = search_bar::layout(0, 0, 200);
    assert_eq!(narrow.input.2, 150);
}

#[test]
fn on_air_light_blinks_every_half_second() {
    assert!(on_air_bar::light_is_yellow(0));
    assert!(on_air_bar::light_is_yellow(499));
    assert!(!on_air_bar::light_is_yellow(500));
    assert!(on_air_bar::light_is_yellow(1000));
}

#[test]
fn on_air_bar_layout() {
    let l = on_air_bar::layout(0, 25, 800);
    assert_eq!(l.light, (8, 34, 12));
    assert_eq!(l.label_x, 26);
    assert_eq!(l.link, (92, 800 - 70 - 8 - 6 - 92));
    assert_eq!(l.stop, (800 - 78, 29, 70, 22));
    assert_eq!(on_air_bar::layout(0, 0, 100).link.1, 50);
}

#[test]
fn note_status_labels() {
    assert_eq!(note_status_text("!index", false), "Plugin: index");
    assert_eq!(note_status_text("todo", true), "Note: todo (new)");
    assert_eq!(note_status_text("todo", false), "Note: todo");
}

#[test]
fn scroll_target_prefers_anchor_then_history_then_memory() {
    assert_eq!(scroll_target(Some(5), Some(7), Some(9)), 5);
    assert_eq!(scroll_target(None, Some(7), Some(9)), 7);
    assert_eq!(scroll_target(None, None, Some(9)), 9);
    assert_eq!(scroll_target(None, None, None), 0);
}

#[test]
fn load_effects_of_pages_and_history_steps() {
    let e = load_effects("!index", false);
    assert!(e.read_only && !e.mark_opened && e.push_history);
    let e = load_effects("notes", true);
    assert!(!e.read_only && e.mark_opened && !e.push_history);
}

#[test]
fn rename_checks() {
    assert_eq!(
        check_rename("   ", "a"),
        RenameStep::Refused("Please enter a name.".to_string())
    );
    assert_eq!(check_rename(" a ", "a"), RenameStep::Unchanged);
    assert_eq!(
        check_rename("b", "!index"),
        RenameStep::Refused("This note cannot be renamed.".to_string())
    );
    assert_eq!(check_rename("  new name ", "old"), RenameStep::Proceed("new name".to_string()));
    assert_eq!(name_taken_message("x"), "A note named 'x' already exists.");
}

#[test]
fn untitled_notes() {
    let name = untitled_note_name("2026-07-04_153412");
    assert_eq!(name, "untitled_2026-07-04_153412");
    assert!(is_untitled(&name));
    assert!(!is_untitled("frontpage"));
    assert_eq!(rename_dialog_initial(&name), "");
    assert_eq!(rename_dialog_initial("recipes"), "recipes");
    assert!(!rename_enabled("  \t"));
    assert!(rename_enabled(" x "));
}

#[test]
fn dialog_is_centred_and_kept_on_screen() {
    assert_eq!(dialog_origin(100, 50, 800, 600, 360, 140), (320, 280));
    assert_eq!(dialog_origin(0, 0, 100, 100, 360, 140), (0, 0));
}

#[test]
fn format_menu_follows_the_block() {
    assert_eq!(paragraph_label_for_block(BlockKind::Heading(2)), Some("Format/Heading 2"));
    assert_eq!(paragraph_label_for_block(BlockKind::Heading(4)), None);
    assert_eq!(
        paragraph_label_for_block(BlockKind::ListItem { ordered: false, checkbox: true }),
        Some("Format/_Checklist Item")
    );
    assert_eq!(
        paragraph_label_for_block(BlockKind::ListItem { ordered: true, checkbox: true }),
        Some("Format/Numbered List")
    );
    assert_eq!(paragraph_label_for_block(BlockKind::Table), None);
    assert_eq!(format_menu_state(None), (false, None));
    assert_eq!(
        format_menu_state(Some((Some(BlockKind::Paragraph), true))),
        (false, Some("Format/Text"))
    );
    assert_eq!(format_menu_state(Some((None, false))), (true, None));
}
