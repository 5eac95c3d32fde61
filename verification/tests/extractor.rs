use leadtok::first_word;

#[test]
fn hello_world_gives_hello() {
    let s = String::from("hello world");
    assert_eq!(first_word(&s), "hello");
}

#[test]
fn single_word_is_returned_whole() {
    let s = String::from("hello");
    assert_eq!(first_word(&s), "hello");
}

#[test]
fn empty_input_gives_empty_output() {
    let s = String::new();
    assert_eq!(first_word(&s), "");
}

#[test]
fn leading_space_gives_empty_output() {
    let s = String::from(" hello");
    assert_eq!(first_word(&s), "");
}

#[test]
fn three_words_give_the_first() {
    let s = String::from("a b c");
    assert_eq!(first_word(&s), "a");
}

#[test]
fn no_space_buffer_is_its_own_token() {
    let s = String::from("unbroken,punctuated;text");
    assert_eq!(first_word(&s), s);
}

#[test]
fn only_a_space_gives_empty_output() {
    let s = String::from(" ");
    assert_eq!(first_word(&s), "");
}

#[test]
fn spaces_inside_the_rest_do_not_matter() {
    let s = String::from("lead tail  with   more");
    assert_eq!(first_word(&s), "lead");
}

#[test]
fn trailing_space_cuts_the_token() {
    let s = String::from("word ");
    assert_eq!(first_word(&s), "word");
}

#[test]
fn extraction_is_idempotent() {
    let s = String::from("alpha beta gamma");
    let once = String::from(first_word(&s));
    let twice = first_word(&once);
    assert_eq!(twice, once);
}

#[test]
fn buffer_is_unchanged_by_the_call() {
    let s = String::from("hello world");
    let w = first_word(&s);
    assert_eq!(w.len(), 5);
    assert_eq!(s, "hello world");
}

#[test]
fn tab_and_newline_are_not_delimiters() {
    let s = String::from("tab\there newline\nthere end");
    assert_eq!(first_word(&s), "tab\there");
}
