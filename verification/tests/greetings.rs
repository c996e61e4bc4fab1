use text_row::greetings::english::{goodbye, hello};

#[test]
fn english_greeting_correct() {
    assert_eq!("hello", hello());
}

#[test]
#[should_panic]
fn english_greeting_incorrect() {
    assert_eq!("asdf", hello());
}

#[test]
fn english_farewell_correct() {
    assert_eq!("goodbye", goodbye());
}
