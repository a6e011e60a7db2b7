use vstd::prelude::*;

verus! {

/// How much chat a client asks to see.
#[derive(Debug, Clone, Copy, PartialEq, Eq, Structural)]
pub enum ChatVisibility {
    Full,
    System,
    Hidden,
}

impl ChatVisibility {
    pub fn from_i32(val: i32) -> (r: ChatVisibility)
        ensures
            val == 0 ==> r == ChatVisibility::Full,
            val == 1 ==> r == ChatVisibility::System,
            !(val == 0 || val == 1) ==> r == ChatVisibility::Hidden,
    {
        if val == 0 {
            ChatVisibility::Full
        } else if val == 1 {
            ChatVisibility::System
        } else {
            ChatVisibility::Hidden
        }
    }
}

/// The hand a client displays as its main arm.
#[derive(Debug, Clone, Copy, PartialEq, Eq, Structural)]
pub enum Arm {
    Left,
    Right,
}

impl Arm {
    pub fn from_i32(val: i32) -> (r: Arm)
        ensures
            val == 0 ==> r == Arm::Left,
            val != 0 ==> r == Arm::Right,
    {
        if val == 0 {
            Arm::Left
        } else {
            Arm::Right
        }
    }
}

} // verus!
