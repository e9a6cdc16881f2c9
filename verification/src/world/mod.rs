use vstd::prelude::*;

pub mod item;
pub mod itemRegistry;
pub mod crafting;
pub mod block;
pub mod blockRegistry;
pub mod chunk;
pub mod biomeGenerator;
pub mod world;
pub mod attributes;
pub mod biomeReader;
pub mod atlas;

verus! {

/// The decimal digits of `n`, most significant first, as `{}` formats an
/// unsigned integer.
pub open spec fn decimal(n: nat) -> Seq<char>
    decreases n,
{
    let digits = seq!['0', '1', '2', '3', '4', '5', '6', '7', '8', '9'];
    if n < 10 {
        seq![digits[n as int]]
    } else {
        decimal(n / 10).push(digits[(n % 10) as int])
    }
}

/// The message for an attribute type name `stateType` that is not accepted.
pub open spec fn state_type_error_text(stateType: Seq<char>) -> Seq<char> {
    "Error! State type string of "@ + stateType + " is invalid!"@
}

/// An error that carries only a message.
#[derive(Debug)]
pub struct GenericError {
    Msg: String,
}

impl GenericError {
    /// The message carried.
    pub closed spec fn message(&self) -> Seq<char> {
        self.Msg@
    }

    pub fn New(msg: String) -> (r: Self)
        ensures
            r.message() == msg@,
    {
        Self { Msg: msg }
    }

    pub fn NewBoxed(msg: String) -> (r: Box<Self>)
        ensures
            r.message() == msg@,
    {
        Box::new(Self { Msg: msg })
    }

    /// The message, as the error is shown.
    pub fn Message(&self) -> (r: &str)
        ensures
            r@ == self.message(),
    {
        self.Msg.as_str()
    }
}

/// The kind of a custom attribute that is given by its type name alone.
#[derive(Debug, Clone, Copy, PartialEq, Eq, Structural)]
pub enum StateKind {
    DynamicContainer,
    Int,
    Float,
    Bool,
}

/// Appends to `msg` the decimal digits of `n`, most significant first.
pub(crate) fn append_decimal(msg: &mut String, n: u32)
    ensures
        final(msg)@ == old(msg)@ + decimal(n as nat),
    decreases n,
{
    if n >= 10 {
        append_decimal(msg, n / 10);
    }
    let d = n % 10;
    let digit: &str = if d == 0 {
        "0"
    } else if d == 1 {
        "1"
    } else if d == 2 {
        "2"
    } else if d == 3 {
        "3"
    } else if d == 4 {
        "4"
    } else if d == 5 {
        "5"
    } else if d == 6 {
        "6"
    } else if d == 7 {
        "7"
    } else if d == 8 {
        "8"
    } else {
        "9"
    };
    proof {
        reveal_strlit("0");
        reveal_strlit("1");
        reveal_strlit("2");
        reveal_strlit("3");
        reveal_strlit("4");
        reveal_strlit("5");
        reveal_strlit("6");
        reveal_strlit("7");
        reveal_strlit("8");
        reveal_strlit("9");
    }
    let ghost before = msg@;
    msg.append(digit);
    proof {
        let digits = seq!['0', '1', '2', '3', '4', '5', '6', '7', '8', '9'];
        assert(digit@ =~= seq![digits[d as int]]);
        if n >= 10 {
            assert(before =~= old(msg)@ + decimal((n / 10) as nat));
            assert(decimal(n as nat) == decimal((n / 10) as nat).push(digits[d as int]));
        }
        assert(msg@ =~= old(msg)@ + decimal(n as nat));
    }
}

/// The message for an unknown attribute type name: the name between a
/// fixed beginning and end.
fn state_type_error(stateType: &str) -> (r: String)
    ensures
        r@ == state_type_error_text(stateType@),
{
    let mut msg = String::from_str("Error! State type string of ");
    msg.append(stateType);
    msg.append(" is invalid!");
    assert(msg@ =~= state_type_error_text(stateType@));
    msg
}

/// The kind of attribute that the type name `stateType` stands for:
/// "Dynamic Container", "Int", "Float" or "Bool"; any other name is refused.
pub fn StateType(stateType: &str) -> (r: Result<StateKind, String>)
    ensures
        match r {
            Ok(kind) => {
                &&& stateType@ == "Dynamic Container"@ ==> kind == StateKind::DynamicContainer
                &&& stateType@ == "Int"@ ==> kind == StateKind::Int
                &&& stateType@ == "Float"@ ==> kind == StateKind::Float
                &&& stateType@ == "Bool"@ ==> kind == StateKind::Bool
                &&& (stateType@ == "Dynamic Container"@ || stateType@ == "Int"@ || stateType@ == "Float"@
                    || stateType@ == "Bool"@)
            },
            Err(msg) => stateType@ != "Dynamic Container"@ && stateType@ != "Int"@ && stateType@ != "Float"@
                && stateType@ != "Bool"@ && msg@ == state_type_error_text(stateType@),
        },
{
    proof {
        reveal_strlit("Dynamic Container");
        reveal_strlit("Int");
        reveal_strlit("Float");
        reveal_strlit("Bool");
        assert("Dynamic Container"@.len() == 17);
        assert("Int"@.len() == 3);
        assert("Float"@.len() == 5);
        assert("Bool"@.len() == 4);
    }
    let name = stateType.to_owned();
    if name == "Dynamic Container".to_owned() {
        Ok(StateKind::DynamicContainer)
    } else if name == "Int".to_owned() {
        Ok(StateKind::Int)
    } else if name == "Float".to_owned() {
        Ok(StateKind::Float)
    } else if name == "Bool".to_owned() {
        Ok(StateKind::Bool)
    } else {
        Err(state_type_error(stateType))
    }
}

} // verus!
