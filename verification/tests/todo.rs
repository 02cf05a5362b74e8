use script_utils::todo::{handle_todo_items, todos_as_i3bar_output, todos_as_waybar_output, Item, Todo};

#[test]
fn parses_headings_and_items() {
    let content = "# Work\n- [ ] write\n- [x] read\n# Home\n- shop\n".to_string();
    let todos = handle_todo_items(content);

    assert_eq!(todos.len(), 2);
    assert_eq!(todos[0].name, "Work");
    assert_eq!(todos[0].items.len(), 2);
    // Item names keep everything after the list marker, spaces included.
    assert_eq!(todos[0].items[0].name, " write");
    assert!(!todos[0].items[0].completed);
    assert_eq!(todos[0].items[1].name, " read");
    assert!(todos[0].items[1].completed);

    assert_eq!(todos[1].name, "Home");
    assert_eq!(todos[1].items.len(), 1);
    assert_eq!(todos[1].items[0].name, " shop");
    assert!(!todos[1].items[0].completed);
}

#[test]
fn ignores_items_before_the_first_heading() {
    let content = "- [ ] stray\nsome text\n# Real\n- [ ] kept".to_string();
    let todos = handle_todo_items(content);

    assert_eq!(todos.len(), 1);
    assert_eq!(todos[0].name, "Real");
    assert_eq!(todos[0].items.len(), 1);
    assert_eq!(todos[0].items[0].name, " kept");
}

#[test]
fn empty_content_yields_no_todos() {
    assert_eq!(handle_todo_items(String::new()).len(), 0);
    assert_eq!(handle_todo_items("\n\n  \n".to_string()).len(), 0);
}

#[test]
fn trims_lines_and_heading_names() {
    let content = "   #   Padded   \n\t- [ ] tabbed".to_string();
    let todos = handle_todo_items(content);

    assert_eq!(todos.len(), 1);
    assert_eq!(todos[0].name, "Padded");
    assert_eq!(todos[0].items[0].name, " tabbed");
}

#[test]
fn unicode_whitespace_is_trimmed() {
    // NO-BREAK SPACE and EN QUAD count as whitespace, as they do for std's
    // trim.
    let content = "\u{a0}\u{2000}# Tidy\u{a0}\n".to_string();
    let todos = handle_todo_items(content);
    assert_eq!(todos.len(), 1);
    assert_eq!(todos[0].name, "Tidy");
    // The library's whitespace table agrees with std.
    for c in ['\u{9}', ' ', '\u{85}', '\u{a0}', '\u{1680}', '\u{2009}', '\u{3000}'] {
        assert!(c.is_whitespace());
    }
    // ZERO WIDTH SPACE is not whitespace; a name holding it is kept whole.
    assert!(!'\u{200b}'.is_whitespace());
    let kept = handle_todo_items("# \u{200b}x\n".to_string());
    assert_eq!(kept[0].name, "\u{200b}x");
}

#[test]
fn empty_checkbox_variant_is_parsed() {
    let content = "# T\n- [] quick".to_string();
    let todos = handle_todo_items(content);

    assert_eq!(todos[0].items[0].name, " quick");
    assert!(!todos[0].items[0].completed);
}

#[test]
fn heading_without_items_is_kept() {
    let content = "# Only".to_string();
    let todos = handle_todo_items(content);

    assert_eq!(todos.len(), 1);
    assert_eq!(todos[0].name, "Only");
    assert_eq!(todos[0].items.len(), 0);
}

#[test]
fn i3bar_output_is_empty() {
    let todos = vec![Todo {
        name: "Work".to_string(),
        items: vec![Item::new("x".to_string(), false)],
    }];
    let out = todos_as_i3bar_output(todos);
    assert_eq!(out.text, "");
    assert_eq!(out.tooltip, "");
}

#[test]
fn waybar_output_counts_todos() {
    let todos = handle_todo_items("# Work\n- [ ] write\n- [x] read\n".to_string());
    let out = todos_as_waybar_output(todos);
    assert_eq!(out.text, "1 todos");
    assert_eq!(
        out.tooltip,
        "\u{f03a} Work\r\u{f1639} write\r\u{e63f} read\r\r"
    );
}

#[test]
fn waybar_output_cheers_when_empty() {
    let out = todos_as_waybar_output(vec![]);
    assert_eq!(out.text, "Neat :3");
    assert_eq!(out.tooltip, "");
}

#[test]
fn constructors_fill_fields() {
    let todo = Todo::new("N".to_string());
    assert_eq!(todo.name, "N");
    assert!(todo.items.is_empty());

    let item = Item::new("I".to_string(), true);
    assert_eq!(item.name, "I");
    assert!(item.completed);
}
