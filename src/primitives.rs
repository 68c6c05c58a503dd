use vstd::prelude::*;

verus! {

/// A channel that notifications are delivered to.
#[derive(Clone, Copy, Debug, PartialEq, Eq, Structural)]
pub enum Target {
    Matrix,
    Nostr,
    Ntfy,
}

impl Target {
    /// The lower-case name of the channel.
    pub open spec fn name(self) -> Seq<char> {
        match self {
            Target::Matrix => "matrix"@,
            Target::Nostr => "nostr"@,
            Target::Ntfy => "ntfy"@,
        }
    }

    pub fn as_str(&self) -> (r: &'static str)
        ensures
            r@ == self.name(),
    {
        match self {
            Target::Matrix => "matrix",
            Target::Nostr => "nostr",
            Target::Ntfy => "ntfy",
        }
    }
}

} // verus!
