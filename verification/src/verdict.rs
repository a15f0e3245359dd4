use vstd::prelude::*;

verus! {

/// How a function, or a whole project, is judged.
#[derive(Debug, Clone, Copy, PartialEq, Eq, Structural)]
pub enum Verdict {
    Clean,
    Warn,
    Crappy,
}

/// The lower-case label of a verdict.
pub open spec fn verdict_label(verdict: Verdict) -> Seq<char> {
    match verdict {
        Verdict::Clean => "clean"@,
        Verdict::Warn => "warn"@,
        Verdict::Crappy => "crappy"@,
    }
}

impl Verdict {
    /// The label under which the verdict is printed.
    pub fn as_str(self) -> (label: &'static str)
        ensures
            label@ == verdict_label(self),
    {
        match self {
            Verdict::Clean => "clean",
            Verdict::Warn => "warn",
            Verdict::Crappy => "crappy",
        }
    }
}

} // verus!
