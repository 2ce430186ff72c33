use productivity::model::{completion_mark, FilterCategory, Message, ProductivityApp};
use productivity::persist::{encode_records, flag_str, load_records, records_from_rows};
use productivity::record::TodoItem;
use productivity::store::{TaskError, TaskStore};
use productivity::text::{str_eq, str_lt};

fn item(d: &str, c: bool, cat: &str) -> TodoItem {
    TodoItem::new(d, c, cat)
}

fn triple(t: &TodoItem) -> (String, bool, String) {
    (t.description.clone(), t.completed, t.category.clone())
}

fn contents(s: &TaskStore) -> Vec<(String, bool, String)> {
    s.todos.iter().map(triple).collect()
}

#[test]
fn filtered_view_hides_completed() {
    let s = TaskStore::from_records(vec![
        item("Buy milk", false, "Errands"),
        item("Pay bill", true, "Finance"),
    ]);
    let v = s.filtered_view(false, &None);
    assert_eq!(v, vec![0]);
    let t = s.get(v[0]);
    assert_eq!(t.description, "Buy milk");
    assert_eq!(t.category, "Errands");
}

#[test]
fn filtered_view_by_category_and_completed() {
    let s = TaskStore::from_records(vec![
        item("a", false, "Work"),
        item("b", true, "Work"),
        item("c", false, "Home"),
    ]);
    assert_eq!(s.filtered_view(true, &None), vec![0, 1, 2]);
    assert_eq!(s.filtered_view(true, &Some("Work".to_string())), vec![0, 1]);
    assert_eq!(s.filtered_view(false, &Some("Work".to_string())), vec![0]);
    assert_eq!(s.filtered_view(false, &Some("None".to_string())), Vec::<usize>::new());
}

#[test]
fn add_blank_description_leaves_store_unchanged() {
    let mut s = TaskStore::from_records(vec![item("x", false, "y")]);
    let before = contents(&s);
    assert_eq!(s.add("  ", "Work"), Err(TaskError::RejectedEmpty));
    assert_eq!(contents(&s), before);
    assert_eq!(s.add("\t \n\u{3000}", ""), Err(TaskError::RejectedEmpty));
    assert_eq!(s.add("", "Work"), Err(TaskError::RejectedEmpty));
    assert_eq!(contents(&s), before);
}

#[test]
fn add_blank_through_update_asks_for_no_save() {
    let mut app = ProductivityApp::new(vec![item("x", false, "y")]);
    assert!(!app.update(Message::TodoInputChanged("  ".to_string())));
    assert!(!app.update(Message::CategoryInputChanged("Work".to_string())));
    assert!(!app.update(Message::AddTodo));
    assert_eq!(contents(&app.store), vec![("x".to_string(), false, "y".to_string())]);
    assert_eq!(app.todo_input, "  ");
    assert_eq!(app.category_input, "Work");
}

#[test]
fn add_trims_and_appends_unchecked() {
    let mut s = TaskStore::new();
    assert_eq!(s.add("  Buy milk \n", " Errands "), Ok(()));
    assert_eq!(contents(&s), vec![("Buy milk".to_string(), false, "Errands".to_string())]);
    assert_eq!(s.add("Pay", "   "), Ok(()));
    assert_eq!(s.len(), 2);
    assert_eq!(s.get(1).category, "");
}

#[test]
fn toggle_valid_index_flips_one_record() {
    let mut s = TaskStore::from_records(vec![
        item("a", false, "x"),
        item("b", true, "y"),
        item("c", false, "z"),
    ]);
    assert_eq!(s.toggle_completed(1), Ok(()));
    assert_eq!(
        contents(&s),
        vec![
            ("a".to_string(), false, "x".to_string()),
            ("b".to_string(), false, "y".to_string()),
            ("c".to_string(), false, "z".to_string()),
        ]
    );
    assert_eq!(s.toggle_completed(0), Ok(()));
    assert!(s.get(0).completed);
    assert!(!s.get(2).completed);
}

#[test]
fn toggle_invalid_index_leaves_store_unchanged() {
    let mut s = TaskStore::from_records(vec![item("a", false, "x")]);
    let before = contents(&s);
    assert_eq!(s.toggle_completed(1), Err(TaskError::IndexOutOfRange));
    assert_eq!(s.toggle_completed(usize::MAX), Err(TaskError::IndexOutOfRange));
    assert_eq!(contents(&s), before);
    let mut e = TaskStore::new();
    assert_eq!(e.toggle_completed(0), Err(TaskError::IndexOutOfRange));
}

#[test]
fn distinct_categories_sorted_without_repeats() {
    assert_eq!(TaskStore::new().distinct_categories(), Vec::<String>::new());
    let s = TaskStore::from_records(vec![
        item("a", false, "Work"),
        item("b", true, "Home"),
        item("c", false, "Work"),
        item("d", false, ""),
        item("e", false, "Home"),
    ]);
    assert_eq!(s.distinct_categories(), vec!["", "Home", "Work"]);
}

#[test]
fn sort_by_category_is_stable() {
    let mut s = TaskStore::from_records(vec![
        item("w1", false, "Work"),
        item("h1", false, "Home"),
        item("w2", true, "Work"),
        item("a1", false, "Alpha"),
        item("h2", false, "Home"),
    ]);
    s.sort_by_category();
    let order: Vec<String> = s.todos.iter().map(|t| t.description.clone()).collect();
    assert_eq!(order, vec!["a1", "h1", "h2", "w1", "w2"]);
    assert!(s.get(4).completed);
}

#[test]
fn sort_orders_by_code_point() {
    let mut s = TaskStore::from_records(vec![
        item("1", false, "b"),
        item("2", false, "B"),
        item("3", false, "ab"),
        item("4", false, "a"),
        item("5", false, ""),
    ]);
    s.sort_by_category();
    let cats: Vec<String> = s.todos.iter().map(|t| t.category.clone()).collect();
    assert_eq!(cats, vec!["", "B", "a", "ab", "b"]);
}

#[test]
fn save_and_reload_keeps_quotes() {
    let records = vec![item("Call \"Bob\"", false, "Personal")];
    let text = encode_records(&records);
    assert_eq!(text, "\"Call \"\"Bob\"\"\",false,Personal\n");
    let back = load_records(text.as_bytes());
    assert_eq!(back.len(), 1);
    assert_eq!(back[0].description, "Call \"Bob\"");
    assert!(!back[0].completed);
    assert_eq!(back[0].category, "Personal");
}

#[test]
fn round_trip_with_delimiters_and_line_breaks() {
    let records = vec![
        item("a,b", true, ""),
        item("line\nbreak", false, "x\r\ny"),
        item("\"", true, ","),
        item("plain", false, "Work"),
    ];
    let text = encode_records(&records);
    assert_eq!(
        text,
        "\"a,b\",true,\n\"line\nbreak\",false,\"x\r\ny\"\n\"\"\"\",true,\",\"\nplain,false,Work\n"
    );
    let back = load_records(text.as_bytes());
    let a: Vec<_> = records.iter().map(triple).collect();
    let b: Vec<_> = back.iter().map(triple).collect();
    assert_eq!(a, b);
}

#[test]
fn empty_text_loads_no_records() {
    assert_eq!(encode_records(&Vec::new()), "");
    assert!(load_records(b"").is_empty());
}

#[test]
fn malformed_records_are_skipped() {
    let text = "a,maybe,x\nb,true\nc,true,y\nd,false,z,extra\ne,False,w\nf,false,\n";
    let back: Vec<_> = load_records(text.as_bytes()).iter().map(triple).collect();
    assert_eq!(
        back,
        vec![
            ("c".to_string(), true, "y".to_string()),
            ("f".to_string(), false, "".to_string()),
        ]
    );
}

#[test]
fn records_that_are_not_utf8_are_skipped() {
    let bytes: &[u8] = b"\"a\",\"true\",\"x\"\n\"\xff\",\"false\",\"y\"\n\"c\",\"false\",\"z\"\n";
    let back: Vec<_> = load_records(bytes).iter().map(triple).collect();
    assert_eq!(
        back,
        vec![("a".to_string(), true, "x".to_string()), ("c".to_string(), false, "z".to_string())]
    );
}

#[test]
fn leading_byte_order_mark_in_description_round_trips() {
    let records = vec![item("\u{feff}x", false, "y"), item("\u{feff}z", true, "w")];
    let text = encode_records(&records);
    assert_eq!(text, "\"\u{feff}x\",\"false\",\"y\"\n\"\u{feff}z\",\"true\",\"w\"\n");
    let back: Vec<_> = load_records(text.as_bytes()).iter().map(triple).collect();
    assert_eq!(
        back,
        vec![("\u{feff}x".to_string(), false, "y".to_string()), ("\u{feff}z".to_string(), true, "w".to_string())]
    );
}

#[test]
fn plain_fields_are_written_without_quotes() {
    let records = vec![item("Buy milk", false, "Errands"), item("Pay bill", true, "Finance")];
    let text = encode_records(&records);
    assert_eq!(text, "Buy milk,false,Errands\nPay bill,true,Finance\n");
    let back: Vec<_> = load_records(text.as_bytes()).iter().map(triple).collect();
    assert_eq!(back, records.iter().map(triple).collect::<Vec<_>>());
}

#[test]
fn rows_become_records() {
    let rows = vec![
        Some(vec!["a".to_string(), "true".to_string(), "x".to_string()]),
        None,
        Some(vec!["b".to_string(), "no".to_string(), "y".to_string()]),
        Some(vec!["c".to_string(), "false".to_string(), "z".to_string()]),
    ];
    let r: Vec<_> = records_from_rows(&rows).iter().map(triple).collect();
    assert_eq!(
        r,
        vec![("a".to_string(), true, "x".to_string()), ("c".to_string(), false, "z".to_string())]
    );
}

#[test]
fn flag_tokens() {
    assert_eq!(flag_str(true), "true");
    assert_eq!(flag_str(false), "false");
}

#[test]
fn string_comparisons() {
    assert!(str_lt("", "a"));
    assert!(str_lt("a", "b"));
    assert!(str_lt("ab", "b"));
    assert!(str_lt("a", "ab"));
    assert!(!str_lt("b", "ab"));
    assert!(!str_lt("a", "a"));
    assert!(str_lt("Z", "a"));
    assert!(str_eq("é", "é"));
    assert!(!str_eq("a", "ab"));
}

#[test]
fn categories_come_from_records_only() {
    let mut empty = ProductivityApp::new(Vec::new());
    empty.update(Message::CategoryInputChanged("Garden".to_string()));
    assert_eq!(empty.categories(), Vec::<String>::new());
    assert_eq!(empty.filter_categories().len(), 1);
    let mut app = ProductivityApp::new(vec![item("a", false, "Work"), item("b", false, "Home")]);
    assert_eq!(app.categories(), vec!["Home", "Work"]);
    app.update(Message::CategoryInputChanged("Garden".to_string()));
    assert_eq!(app.categories(), vec!["Home", "Work"]);
    app.update(Message::CategoryInputChanged("   ".to_string()));
    assert_eq!(app.categories(), vec!["Home", "Work"]);
    app.update(Message::CategoryInputChanged("Work".to_string()));
    assert_eq!(app.categories(), vec!["Home", "Work"]);
}

#[test]
fn filter_choices_start_with_all() {
    let app = ProductivityApp::new(vec![item("a", false, "Work"), item("b", false, "Home")]);
    let f = app.filter_categories();
    let labels: Vec<String> = f.iter().map(|c| c.label()).collect();
    assert_eq!(labels, vec!["All", "Home", "Work"]);
    assert!(f[0].0.is_none());
    assert_eq!(FilterCategory(Some("x".to_string())).label(), "x");
}

#[test]
fn update_adds_toggles_and_sorts() {
    let mut app = ProductivityApp::new(Vec::new());
    assert_eq!(app.title(), "Productivity GUI - To-Do & Calendar");
    app.update(Message::TodoInputChanged(" Write report ".to_string()));
    app.update(Message::CategoryInputChanged(" Work ".to_string()));
    assert!(app.update(Message::AddTodo));
    assert_eq!(app.todo_input, "");
    assert_eq!(app.category_input, "");
    app.update(Message::TodoInputChanged("Buy milk".to_string()));
    app.update(Message::CategoryInputChanged("Errands".to_string()));
    assert!(app.update(Message::AddTodo));
    assert_eq!(
        contents(&app.store),
        vec![
            ("Write report".to_string(), false, "Work".to_string()),
            ("Buy milk".to_string(), false, "Errands".to_string()),
        ]
    );
    assert!(app.update(Message::ToggleTodoCompleted(0)));
    assert!(!app.update(Message::ToggleTodoCompleted(7)));
    assert_eq!(app.visible_todos(), vec![1]);
    assert_eq!(app.show_completed_label(), "Show Completed");
    assert!(!app.update(Message::ToggleShowCompleted));
    assert_eq!(app.visible_todos(), vec![0, 1]);
    assert_eq!(app.show_completed_label(), "Hide Completed");
    assert_eq!(app.sort_label(), "Sort by Category");
    assert!(!app.update(Message::SortByCategory));
    assert_eq!(app.sort_label(), "Unsort");
    assert_eq!(app.store.get(0).description, "Buy milk");
    assert!(!app.update(Message::SortByCategory));
    assert_eq!(app.store.get(0).description, "Buy milk");
    assert!(!app.update(Message::FilterCategoryChanged(FilterCategory(Some("Work".to_string())))));
    assert_eq!(app.visible_todos(), vec![1]);
    assert!(!app.update(Message::FilterCategoryChanged(FilterCategory(None))));
    assert_eq!(app.visible_todos(), vec![0, 1]);
}

#[test]
fn completion_marks() {
    assert_eq!(completion_mark(true), "[x]");
    assert_eq!(completion_mark(false), "[ ]");
}
