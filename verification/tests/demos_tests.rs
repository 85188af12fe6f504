use worker_pool::demos::{block, ret_fn, value_in_cents, Coin, Message, Rectangle, UsState};

#[test]
fn ret_fn_returns_its_value() {
    assert_eq!(ret_fn(), 5);
}

#[test]
fn block_binds_the_block_result() {
    assert_eq!(block(), 4);
}

#[test]
fn area_multiplies_the_sides() {
    let r = Rectangle { width: 30, height: 50 };
    assert_eq!(r.area(), 1500);
}

#[test]
fn coins_have_their_face_values() {
    assert_eq!(value_in_cents(Coin::Penny), 1);
    assert_eq!(value_in_cents(Coin::Nickel), 5);
    assert_eq!(value_in_cents(Coin::Dime), 10);
    assert_eq!(value_in_cents(Coin::Quarter(UsState::Alabama)), 25);
    assert_eq!(value_in_cents(Coin::Quarter(UsState::Alaska)), 25);
}

#[test]
fn message_call_surfaces_written_text() {
    assert_eq!(Message::Write(String::from("hello")).call(), Some(String::from("hello")));
    assert_eq!(Message::Quit.call(), None);
    assert_eq!(Message::Move { x: 1, y: 2 }.call(), None);
    assert_eq!(Message::ChangeColor(1, 2, 3).call(), None);
}
