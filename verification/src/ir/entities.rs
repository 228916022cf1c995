//! Entities: the numbered parts of a function.

use crate::text::{decimal, law_decimal_denotes, law_decimal_is_distinct, push_decimal};
use vstd::prelude::*;
use vstd::string::*;

verus! {

/// A reference to a stack slot.
#[derive(Clone, Copy, Debug, PartialEq, Eq, Structural)]
pub struct StackSlot(pub u32);

/// A reference to an extended basic block.
#[derive(Clone, Copy, Debug, PartialEq, Eq, Structural)]
pub struct Ebb(pub u32);

/// A reference to an SSA value.
#[derive(Clone, Copy, Debug, PartialEq, Eq, Structural)]
pub struct Value(pub u32);

/// A reference to a local variable.
#[derive(Clone, Copy, Debug, PartialEq, Eq, Structural)]
pub struct Local(pub u32);

impl StackSlot {
    /// The text form of a stack slot reference: `ss` and its number.
    pub open spec fn text(self) -> Seq<char> {
        "ss"@ + decimal(self.0 as nat)
    }

    /// Write the reference as text, such as `ss7`.
    pub fn to_string(&self) -> (s: String)
        ensures
            s@ == self.text(),
    {
        let mut s = "ss".to_owned();
        push_decimal(&mut s, self.0);
        s
    }
}

/// Different stack slots have different text forms.
pub proof fn law_stack_slot_text_is_distinct(a: StackSlot, b: StackSlot)
    requires
        a.text() == b.text(),
    ensures
        a == b,
{
    let prefix = "ss"@.len() as int;
    assert(a.text().skip(prefix) =~= decimal(a.0 as nat));
    assert(b.text().skip(prefix) =~= decimal(b.0 as nat));
    law_decimal_is_distinct(a.0 as nat, b.0 as nat);
}

/// The text form of a stack slot is two letters and a number in decimal, which is the number of
/// the slot.
pub proof fn law_stack_slot_text_denotes(ss: StackSlot)
    ensures
        ss.text().len() > 2,
        ss.text()[0] == 's',
        ss.text()[1] == 's',
        forall|i: int|
            2 <= i < ss.text().len() ==> '0' as int <= #[trigger] ss.text()[i] as int
                <= '9' as int,
        ss.text().len() > 3 ==> ss.text()[2] != '0',
        ss.text().skip(2).fold_left(
            0int,
            |value: int, c: char| 10 * value + (c as int - '0' as int),
        ) == ss.0,
{
    reveal_strlit("ss");
    let digits = decimal(ss.0 as nat);
    law_decimal_denotes(ss.0 as nat);
    assert(ss.text().skip(2) =~= digits);
    assert forall|i: int| 2 <= i < ss.text().len() implies '0' as int <= #[trigger] ss.text()[i] as int
        <= '9' as int by {
        assert(ss.text()[i] == digits[i - 2]);
    }
}

} // verus!
