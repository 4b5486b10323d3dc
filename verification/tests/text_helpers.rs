use shader_formatter::config::Config;
use shader_formatter::layout::pass::lay_out;
use shader_formatter::layout::pass::Pass;
use shader_formatter::layout::pass::Stock;
use shader_formatter::text::chars_of;
use shader_formatter::text::join3;
use shader_formatter::text::join5;
use shader_formatter::text::push_all;
use shader_formatter::text::push_decimal;
use shader_formatter::text::same_chars;
use shader_formatter::text::same_text;
use shader_formatter::text::string_of;
use shader_formatter::text::string_of_range;
use shader_formatter::text::utf8_width_of;

#[test]
fn characters_and_strings_convert_both_ways() {
    assert_eq!(chars_of("aé€"), vec!['a', 'é', '€']);
    assert_eq!(chars_of(""), Vec::<char>::new());
    assert_eq!(string_of(&vec!['a', 'é', '€']), "aé€");
    assert_eq!(string_of_range(&vec!['a', 'b', 'c', 'd'], 1, 3), "bc");
    assert_eq!(string_of_range(&vec!['a', 'b'], 2, 2), "");
}

#[test]
fn widths_are_those_of_utf8() {
    assert_eq!(utf8_width_of('a'), 1);
    assert_eq!(utf8_width_of('\u{7f}'), 1);
    assert_eq!(utf8_width_of('\u{80}'), 2);
    assert_eq!(utf8_width_of('\u{7ff}'), 2);
    assert_eq!(utf8_width_of('\u{800}'), 3);
    assert_eq!(utf8_width_of('\u{ffff}'), 3);
    assert_eq!(utf8_width_of('\u{10000}'), 4);
    for c in ['a', 'é', '€', '\u{1F600}'] {
        assert_eq!(utf8_width_of(c), c.len_utf8());
    }
}

#[test]
fn texts_compare_by_their_characters() {
    assert!(same_text("abc", "abc"));
    assert!(!same_text("abc", "abd"));
    assert!(!same_text("abc", "ab"));
    assert!(same_text("", ""));
    assert!(same_chars(&vec!['x'], &vec!['x']));
    assert!(!same_chars(&vec!['x'], &vec![]));
}

#[test]
fn texts_join_in_order() {
    assert_eq!(join3("a", "", "c"), "ac");
    assert_eq!(join5("1", "2", "3", "4", "5"), "12345");
    let mut out = vec!['a'];
    push_all(&mut out, &vec!['b', 'c']);
    assert_eq!(out, vec!['a', 'b', 'c']);
}

#[test]
fn numbers_are_written_in_decimal() {
    for (number, digits) in [(0usize, "0"), (7, "7"), (10, "10"), (909, "909"), (12345, "12345")] {
        let mut out = String::from("#");
        push_decimal(&mut out, number);
        assert_eq!(out, format!("#{}", digits));
    }
    let mut out = String::new();
    push_decimal(&mut out, usize::MAX);
    assert_eq!(out, format!("{}", usize::MAX));
}

#[test]
fn the_pass_can_be_driven_by_hand() {
    let config = Config::default();
    let stock = Stock::new(&config);
    let mut pass = Pass::new();
    for c in "a{\nb".chars() {
        pass.step(c, &stock, &config);
    }
    assert_eq!(string_of(&pass.out), "a {\n    b");
    assert_eq!(pass.nesting, 1);
    assert!(!pass.on_new_line);
    assert_eq!(lay_out("a{\nb", &config).map(|out| string_of(&out)), Ok(String::from("a {\n    b")));
}
