use vstd::prelude::*;

use crate::text::push_str;

verus! {

/// What happens when a rule matches.
#[derive(Clone, Debug, PartialEq, Eq, Hash)]
pub enum Action {
    Alert,
    Pass,
    Drop,
    Reject,
    Rejectsrc,
    Rejectdst,
    Rejectboth,
    Other(String),
}

/// Whether two texts hold the same characters.
pub fn str_eq(a: &str, b: &str) -> (r: bool)
    ensures
        r == (a@ == b@),
{
    let n = a.unicode_len();
    let m = b.unicode_len();
    if n != m {
        return false;
    }
    let mut i: usize = 0;
    while i < n
        invariant
            n == a@.len(),
            m == b@.len(),
            n == m,
            i <= n,
            a@.take(i as int) == b@.take(i as int),
        decreases n - i,
    {
        if a.get_char(i) != b.get_char(i) {
            assert(a@[i as int] != b@[i as int]);
            return false;
        }
        assert(a@.take(i as int + 1) == a@.take(i as int).push(a@[i as int]));
        assert(b@.take(i as int + 1) == b@.take(i as int).push(b@[i as int]));
        i = i + 1;
    }
    assert(a@.take(n as int) == a@);
    assert(b@.take(n as int) == b@);
    true
}

/// The action that the word `s` names.
pub open spec fn action_of(s: Seq<char>) -> Action {
    if s == "alert"@ {
        Action::Alert
    } else if s == "pass"@ {
        Action::Pass
    } else if s == "drop"@ {
        Action::Drop
    } else if s == "reject"@ {
        Action::Reject
    } else if s == "rejectsrc"@ {
        Action::Rejectsrc
    } else if s == "rejectdst"@ {
        Action::Rejectdst
    } else if s == "rejectboth"@ {
        Action::Rejectboth
    } else {
        Action::Other(arbitrary())
    }
}

/// The word written for an action.
pub open spec fn action_text(a: Action) -> Seq<char> {
    match a {
        Action::Alert => "alert"@,
        Action::Pass => "pass"@,
        Action::Drop => "drop"@,
        Action::Reject => "reject"@,
        Action::Rejectsrc => "rejectsrc"@,
        Action::Rejectdst => "rejectdst"@,
        Action::Rejectboth => "rejectboth"@,
        Action::Other(s) => s@,
    }
}

impl Action {
    /// The action that the word `s` names; any other word is kept as `Other`.
    pub fn from_str(s: &str) -> (r: Action)
        ensures
            r matches Action::Other(o) ==> o@ == s@ && action_of(s@) is Other,
            !(r is Other) ==> r == action_of(s@),
    {
        if str_eq(s, "alert") {
            Action::Alert
        } else if str_eq(s, "pass") {
            Action::Pass
        } else if str_eq(s, "drop") {
            Action::Drop
        } else if str_eq(s, "reject") {
            Action::Reject
        } else if str_eq(s, "rejectsrc") {
            Action::Rejectsrc
        } else if str_eq(s, "rejectdst") {
            Action::Rejectdst
        } else if str_eq(s, "rejectboth") {
            Action::Rejectboth
        } else {
            Action::Other(String::from_str(s))
        }
    }

    /// Appends the word written for the action.
    pub fn write_to(&self, out: &mut String)
        ensures
            final(out)@ == old(out)@ + action_text(*self),
    {
        match self {
            Action::Alert => push_str(out, "alert"),
            Action::Pass => push_str(out, "pass"),
            Action::Drop => push_str(out, "drop"),
            Action::Reject => push_str(out, "reject"),
            Action::Rejectsrc => push_str(out, "rejectsrc"),
            Action::Rejectdst => push_str(out, "rejectdst"),
            Action::Rejectboth => push_str(out, "rejectboth"),
            Action::Other(s) => out.append(s.as_str()),
        }
    }

    /// The word written for the action.
    pub fn to_string(&self) -> (r: String)
        ensures
            r@ == action_text(*self),
    {
        let mut out = String::new();
        self.write_to(&mut out);
        out
    }
}

} // verus!
