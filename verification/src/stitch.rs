//! The three things that can be worked into one stitch.

use crate::decimal::{int_text, push_int};
use vstd::prelude::*;

verus! {

/// What is worked into one stitch of a row: several stitches drawn together
/// into one, a plain stitch, or several extra stitches.
#[derive(Debug, Clone, Copy, PartialEq, Eq, Structural)]
pub enum Stitch {
    /// The row loses this many stitches here.
    Decrease(i32),
    /// A plain stitch: the count is unchanged here.
    Single,
    /// The row gains this many stitches here.
    Increase(i32),
}

impl Stitch {
    /// The amount of a decrease or an increase is at least one; no change at
    /// all is always written as `Single`.
    pub open spec fn wf(self) -> bool {
        match self {
            Stitch::Decrease(n) => n >= 1,
            Stitch::Single => true,
            Stitch::Increase(n) => n >= 1,
        }
    }

    /// By how much this stitch changes the row's stitch count.
    pub open spec fn net_effect(self) -> int {
        match self {
            Stitch::Decrease(n) => -n,
            Stitch::Single => 0,
            Stitch::Increase(n) => n as int,
        }
    }

    /// The stitch that changes the count by `amount`.
    pub open spec fn of_change(amount: int) -> Stitch
        recommends
            i32::MIN < amount <= i32::MAX,
    {
        if amount <= -1 {
            Stitch::Decrease((-amount) as i32)
        } else if amount == 0 {
            Stitch::Single
        } else {
            Stitch::Increase(amount as i32)
        }
    }

    /// The short name of this stitch in a written row: `sc` for a plain
    /// stitch, `dec` and `inc` for a change by one, and the same words
    /// followed by the amount for any other change.
    pub open spec fn text(self) -> Seq<char> {
        match self {
            Stitch::Decrease(n) => if n == 1 {
                "dec"@
            } else {
                "dec"@ + int_text(n as int)
            },
            Stitch::Single => "sc"@,
            Stitch::Increase(n) => if n == 1 {
                "inc"@
            } else {
                "inc"@ + int_text(n as int)
            },
        }
    }

    /// The stitch that changes the count by `increase_count`.
    ///
    /// The most negative `i32` is left out: its magnitude has no `i32`.
    pub fn from(increase_count: i32) -> (stitch: Stitch)
        requires
            increase_count > i32::MIN,
        ensures
            stitch == Stitch::of_change(increase_count as int),
            stitch.wf(),
            stitch.net_effect() == increase_count,
    {
        if increase_count <= -1 {
            Stitch::Decrease(-increase_count)
        } else if increase_count == 0 {
            Stitch::Single
        } else {
            Stitch::Increase(increase_count)
        }
    }

    /// Appends the short name of this stitch to `out`.
    pub fn push_text(&self, out: &mut String)
        ensures
            final(out)@ == old(out)@ + self.text(),
    {
        match *self {
            Stitch::Decrease(n) => {
                out.append("dec");
                if n != 1 {
                    push_int(out, n as i64);
                }
            },
            Stitch::Single => {
                out.append("sc");
            },
            Stitch::Increase(n) => {
                out.append("inc");
                if n != 1 {
                    push_int(out, n as i64);
                }
            },
        }
    }

    /// The short name of this stitch.
    pub fn to_string(&self) -> (s: String)
        ensures
            s@ == self.text(),
    {
        let mut s = String::new();
        self.push_text(&mut s);
        s
    }
}

impl From<&Stitch> for String {
    /// The short name of `stitch`.
    fn from(stitch: &Stitch) -> (s: String)
        ensures
            s@ == stitch.text(),
    {
        stitch.to_string()
    }
}

/// A `String` cannot be built from its characters in a specification, so
/// the conversion has no specification of this form; what it returns is
/// stated by `from` itself.
impl vstd::std_specs::convert::FromSpecImpl<&Stitch> for String {
    open spec fn obeys_from_spec() -> bool {
        false
    }

    open spec fn from_spec(stitch: &Stitch) -> String {
        arbitrary()
    }
}

/// Every change that fits has exactly one well-formed stitch, and that
/// stitch gives the change back.
pub proof fn lemma_of_change_inverts_net_effect(amount: int, stitch: Stitch)
    requires
        i32::MIN < amount <= i32::MAX,
    ensures
        Stitch::of_change(amount).wf(),
        Stitch::of_change(amount).net_effect() == amount,
        stitch.wf() && stitch.net_effect() == amount <==> stitch == Stitch::of_change(amount),
{
}

} // verus!
