//! Small single-threaded pieces that sit beside the pool: a few plain
//! functions and the struct and enum values whose computations have exact
//! results.

use vstd::prelude::*;

verus! {

/// Returns its fixed value through the implicit final expression.
pub fn ret_fn() -> (r: i32)
    ensures
        r == 5,
{
    5
}

/// The value a block expression binds: one more than the number it names
/// inside.
pub fn block() -> (y: i32)
    ensures
        y == 4,
{
    let x: i32 = 3;
    x + 1
}

/// An axis-aligned rectangle.
#[derive(Clone, Copy, PartialEq, Eq, Structural, Debug)]
pub struct Rectangle {
    pub width: u32,
    pub height: u32,
}

impl Rectangle {
    /// The enclosed area. The caller keeps the product within the type, as
    /// the arithmetic itself demands.
    pub fn area(&self) -> (a: u32)
        requires
            self.width * self.height <= u32::MAX,
        ensures
            a == self.width * self.height,
    {
        self.width * self.height
    }
}

/// A state a quarter may name.
#[derive(Clone, Copy, PartialEq, Eq, Structural, Debug)]
pub enum UsState {
    Alabama,
    Alaska,
}

/// The coins with a face value.
#[derive(Clone, Copy, PartialEq, Eq, Structural, Debug)]
pub enum Coin {
    Penny,
    Nickel,
    Dime,
    Quarter(UsState),
}

/// The face value of a coin in cents.
pub open spec fn cents_of(coin: Coin) -> u8 {
    match coin {
        Coin::Penny => 1,
        Coin::Nickel => 5,
        Coin::Dime => 10,
        Coin::Quarter(_) => 25,
    }
}

pub fn value_in_cents(coin: Coin) -> (v: u8)
    ensures
        v == cents_of(coin),
{
    match coin {
        Coin::Penny => 1,
        Coin::Nickel => 5,
        Coin::Dime => 10,
        Coin::Quarter(_) => 25,
    }
}

/// A message whose call either carries text to show or does not.
pub enum Message {
    Quit,
    Move { x: i32, y: i32 },
    Write(String),
    ChangeColor(i32, i32, i32),
}

impl Message {
    /// The text a call on the message surfaces: the written value for a
    /// written message, nothing for every other kind.
    pub fn call(&self) -> (r: Option<String>)
        ensures
            match self {
                Message::Write(v) => match r {
                    Some(s) => s@ == v@,
                    None => false,
                },
                _ => r is None,
            },
    {
        match self {
            Message::Write(v) => Some(v.clone()),
            _ => None,
        }
    }
}

} // verus!
