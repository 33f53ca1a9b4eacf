use minigrep::lines::split_lines;

#[test]
fn a_text_without_line_feed_is_one_line() {
    assert_eq!(vec!["one line"], split_lines("one line"));
}

#[test]
fn the_empty_text_has_no_lines() {
    assert_eq!(Vec::<&str>::new(), split_lines(""));
}

#[test]
fn a_final_line_feed_adds_no_empty_line() {
    assert_eq!(vec!["a", "b"], split_lines("a\nb\n"));
    assert_eq!(vec!["a", "b"], split_lines("a\nb"));
    assert_eq!(vec!["a", "b", ""], split_lines("a\nb\n\n"));
    assert_eq!(vec![""], split_lines("\n"));
}

#[test]
fn empty_lines_inside_the_text_are_lines() {
    assert_eq!(vec!["", "a", "", "", "b"], split_lines("\na\n\n\nb"));
}

#[test]
fn a_carriage_return_before_a_line_feed_belongs_to_the_line_end() {
    assert_eq!(vec!["a", "b", "c"], split_lines("a\r\nb\r\nc"));
    assert_eq!(vec!["", ""], split_lines("\r\n\r\n"));
    assert_eq!(vec!["a\r"], split_lines("a\r\r\n"));
}

#[test]
fn a_carriage_return_without_line_feed_belongs_to_the_line() {
    assert_eq!(vec!["a\rb", "c\r"], split_lines("a\rb\nc\r"));
    assert_eq!(vec!["\r"], split_lines("\r"));
}

#[test]
fn lines_borrow_from_the_text() {
    let text = String::from("first\nsecond\r\nthird");
    let lines = split_lines(&text);
    assert_eq!(3, lines.len());
    assert_eq!(text.as_ptr(), lines[0].as_ptr());
    assert_eq!(text[6..].as_ptr(), lines[1].as_ptr());
    assert_eq!(text[14..].as_ptr(), lines[2].as_ptr());
}

#[test]
fn characters_of_several_bytes_are_kept_whole() {
    assert_eq!(
        vec!["žluťoučký", "кінь", "日本語", "🦀 crab"],
        split_lines("žluťoučký\nкінь\r\n日本語\n🦀 crab\n")
    );
}

#[test]
fn lines_agree_with_the_standard_library_on_small_texts() {
    let alphabet = ['a', '\n', '\r', 'é', '\u{10a}', '\u{85}'];
    let mut texts: Vec<String> = vec![String::new()];
    let mut start = 0;
    for _ in 0..6 {
        let end = texts.len();
        for i in start..end {
            for c in alphabet {
                let mut longer = texts[i].clone();
                longer.push(c);
                texts.push(longer);
            }
        }
        start = end;
    }
    for text in &texts {
        let expected: Vec<&str> = text.lines().collect();
        assert_eq!(expected, split_lines(text));
    }
}
