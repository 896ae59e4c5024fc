use piki::plugins::{index_page, todo_page, INDEX_PLUGIN, TODO_PLUGIN};

fn names(n: &[&str]) -> Vec<String> {
    n.iter().map(|s| s.to_string()).collect()
}

#[test]
fn index_lists_notes_sorted_as_links() {
    let page = index_page(&names(&["beta", "alpha", "gamma"]));
    assert_eq!(
        page,
        "# Index\n\n- [alpha](<alpha.md>)\n- [beta](<beta.md>)\n- [gamma](<gamma.md>)\n"
    );
}

#[test]
fn index_of_no_notes_is_the_heading() {
    assert_eq!(index_page(&[]), "# Index\n\n");
}

#[test]
fn index_lists_a_repeated_name_once() {
    assert_eq!(
        index_page(&names(&["b", "a", "b"])),
        "# Index\n\n- [a](<a.md>)\n- [b](<b.md>)\n"
    );
}

#[test]
fn todo_keeps_open_items_per_note() {
    let notes = vec![
        (
            "a".to_string(),
            "x\n  - [ ] buy\n* [ ] call\n- [x] done".to_string(),
        ),
        ("b".to_string(), "nothing open".to_string()),
        ("c".to_string(), "- [ ] write".to_string()),
    ];
    assert_eq!(
        todo_page(&notes),
        "# Todo\n\n## [a](<a.md>)\n\n- [ ] buy\n* [ ] call\n\n## [c](<c.md>)\n\n- [ ] write\n\n"
    );
}

#[test]
fn todo_of_notes_without_items_is_the_heading() {
    let notes = vec![("a".to_string(), "- [x] done\ntext".to_string())];
    assert_eq!(todo_page(&notes), "# Todo\n\n");
}

#[test]
fn plugin_names() {
    assert_eq!(INDEX_PLUGIN, "index");
    assert_eq!(TODO_PLUGIN, "todo");
}
