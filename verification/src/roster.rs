use vstd::prelude::*;

verus! {

/// The token of the listening socket; no client gets it.
pub const SERVER_TOKEN: usize = 0;

/// Hands out connection tokens: one after another, starting after the
/// listening socket's.
pub struct Roster {
    next: usize,
}

impl Roster {
    /// The token the next client gets.
    pub closed spec fn upcoming(self) -> nat {
        self.next as nat
    }

    /// Tokens are handed out after the listening socket's.
    pub closed spec fn wf(self) -> bool {
        self.next > SERVER_TOKEN
    }

    /// No token handed out yet.
    pub fn new() -> (r: Self)
        ensures
            r.wf(),
            r.upcoming() == SERVER_TOKEN + 1,
    {
        Roster { next: SERVER_TOKEN + 1 }
    }

    /// A token for a newly accepted client: the next one in order, or
    /// `None` once every token has been handed out.
    pub fn enroll(&mut self) -> (t: Option<usize>)
        requires
            old(self).wf(),
        ensures
            final(self).wf(),
            old(self).upcoming() < usize::MAX ==> {
                &&& t == Some(old(self).upcoming() as usize)
                &&& final(self).upcoming() == old(self).upcoming() + 1
            },
            old(self).upcoming() == usize::MAX ==> t is None && final(self).upcoming()
                == old(self).upcoming(),
    {
        if self.next == usize::MAX {
            return None;
        }
        let t = self.next;
        self.next = self.next + 1;
        Some(t)
    }
}

} // verus!
