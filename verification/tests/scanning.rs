use shader_formatter::scan::comparable;
use shader_formatter::scan::formatting_needed;
use shader_formatter::scan::report;
use shader_formatter::scan::scan;
use shader_formatter::scan::show;
use shader_formatter::scan::LineChange;

fn left(text: &str) -> LineChange {
    LineChange::Left(String::from(text))
}

fn right(text: &str) -> LineChange {
    LineChange::Right(String::from(text))
}

fn both(text: &str) -> LineChange {
    LineChange::Both(String::from(text), String::from(text))
}

#[test]
fn equal_texts_need_no_formatting() {
    assert!(comparable("a\nb\n", "a\nb\n"));
    assert_eq!(scan("a\nb\n", "a\nb\n"), None);
    assert_eq!(scan("", ""), None);
    assert_eq!(scan("one line", "one line"), None);
}

#[test]
fn changed_lines_are_reported_in_order() {
    assert_eq!(
        scan("a\nb\n", "a\nc\n"),
        Some(vec![
            String::from(" a"),
            String::from("-b"),
            String::from("+c"),
            String::from(" "),
        ])
    );
    assert_eq!(
        scan("struct Foo{\nint a;\n};", "struct Foo {\n    int a;\n};"),
        Some(vec![
            String::from("-struct Foo{"),
            String::from("-int a;"),
            String::from("+struct Foo {"),
            String::from("+    int a;"),
            String::from(" };"),
        ])
    );
    assert_eq!(scan("a", "a\n"), Some(vec![String::from(" a"), String::from("+")]));
}

#[test]
fn a_report_is_made_of_differences_only() {
    assert_eq!(report(&vec![]), None);
    assert_eq!(report(&vec![both("a"), both("")]), None);
    assert_eq!(
        report(&vec![both("a"), left("b"), right("c")]),
        Some(vec![String::from(" a"), String::from("-b"), String::from("+c")])
    );
    assert!(!formatting_needed(&vec![both("x")]));
    assert!(formatting_needed(&vec![both("x"), right("")]));
    assert!(formatting_needed(&vec![left("y")]));
}

#[test]
fn changes_are_shown_with_their_marks() {
    assert_eq!(show(&left("gone")), "-gone");
    assert_eq!(show(&right("new")), "+new");
    assert_eq!(show(&both("same")), " same");
    assert_eq!(show(&LineChange::Both(String::from("l"), String::from("r"))), " l");
}
