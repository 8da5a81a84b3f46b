//! The action-code enumeration of the wire protocol.

use vstd::prelude::*;
use vstd::string::StringExecFns;

verus! {

/// One operation of the wire protocol.  Every request carries the code of its
/// action; codes outside `1..=8` fall into `Unknown`, which the server answers
/// with a fixed rejection string.
#[derive(Clone, Copy, Debug, PartialEq, Eq, Structural)]
pub enum NetActions {
    Sendposition,
    Newgame,
    Listgames,
    Ready,
    Getworld,
    Joingame,
    Getopponent,
    GetopponentName,
    Unknown,
}

/// The numeric code of each action; `Unknown` maps to `0`.
pub open spec fn spec_action_code(a: NetActions) -> usize {
    match a {
        NetActions::Sendposition => 1,
        NetActions::Newgame => 2,
        NetActions::Listgames => 3,
        NetActions::Ready => 4,
        NetActions::Getworld => 5,
        NetActions::Getopponent => 6,
        NetActions::Joingame => 7,
        NetActions::GetopponentName => 8,
        NetActions::Unknown => 0,
    }
}

/// The action selected by a numeric code; codes outside `1..=8` select `Unknown`.
pub open spec fn spec_action_of_code(n: usize) -> NetActions {
    if n == 1 {
        NetActions::Sendposition
    } else if n == 2 {
        NetActions::Newgame
    } else if n == 3 {
        NetActions::Listgames
    } else if n == 4 {
        NetActions::Ready
    } else if n == 5 {
        NetActions::Getworld
    } else if n == 6 {
        NetActions::Getopponent
    } else if n == 7 {
        NetActions::Joingame
    } else if n == 8 {
        NetActions::GetopponentName
    } else {
        NetActions::Unknown
    }
}

/// The action selected by its lower-case console name; any other text selects
/// `Unknown`.
pub open spec fn spec_action_of_name(s: Seq<char>) -> NetActions {
    if s == "sendposition"@ {
        NetActions::Sendposition
    } else if s == "newgame"@ {
        NetActions::Newgame
    } else if s == "listgames"@ {
        NetActions::Listgames
    } else if s == "ready"@ {
        NetActions::Ready
    } else if s == "getworld"@ {
        NetActions::Getworld
    } else if s == "getopponent"@ {
        NetActions::Getopponent
    } else if s == "joingame"@ {
        NetActions::Joingame
    } else if s == "getopponentname"@ {
        NetActions::GetopponentName
    } else {
        NetActions::Unknown
    }
}

impl NetActions {
    /// Selects the action named by a console command word.
    pub fn from_string(action: String) -> (r: NetActions)
        ensures
            r == spec_action_of_name(action@),
    {
        if action == String::from_str("sendposition") {
            NetActions::Sendposition
        } else if action == String::from_str("newgame") {
            NetActions::Newgame
        } else if action == String::from_str("listgames") {
            NetActions::Listgames
        } else if action == String::from_str("ready") {
            NetActions::Ready
        } else if action == String::from_str("getworld") {
            NetActions::Getworld
        } else if action == String::from_str("getopponent") {
            NetActions::Getopponent
        } else if action == String::from_str("joingame") {
            NetActions::Joingame
        } else if action == String::from_str("getopponentname") {
            NetActions::GetopponentName
        } else {
            NetActions::Unknown
        }
    }

    /// Selects the action of a wire code.
    pub fn from_usize(action: usize) -> (r: NetActions)
        ensures
            r == spec_action_of_code(action),
    {
        if action == 1 {
            NetActions::Sendposition
        } else if action == 2 {
            NetActions::Newgame
        } else if action == 3 {
            NetActions::Listgames
        } else if action == 4 {
            NetActions::Ready
        } else if action == 5 {
            NetActions::Getworld
        } else if action == 6 {
            NetActions::Getopponent
        } else if action == 7 {
            NetActions::Joingame
        } else if action == 8 {
            NetActions::GetopponentName
        } else {
            NetActions::Unknown
        }
    }

    /// The wire code of this action.
    pub fn to_usize(self) -> (r: usize)
        ensures
            r == spec_action_code(self),
    {
        match self {
            NetActions::Sendposition => 1,
            NetActions::Newgame => 2,
            NetActions::Listgames => 3,
            NetActions::Ready => 4,
            NetActions::Getworld => 5,
            NetActions::Getopponent => 6,
            NetActions::Joingame => 7,
            NetActions::GetopponentName => 8,
            NetActions::Unknown => 0,
        }
    }
}

/// Every action other than `Unknown` is recovered from its own code.
pub proof fn lemma_action_code_round_trip(a: NetActions)
    requires
        a != NetActions::Unknown,
    ensures
        spec_action_of_code(spec_action_code(a)) == a,
{
}

/// Every code in `1..=8` is reproduced by the action it selects.
pub proof fn lemma_code_action_round_trip(n: usize)
    requires
        1 <= n <= 8,
    ensures
        spec_action_code(spec_action_of_code(n)) == n,
{
}

} // verus!
