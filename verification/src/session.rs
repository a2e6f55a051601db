//! Whether a pane's terminal is open: the descriptor its shell is reached
//! by, and whether the pane was closed.
use vstd::prelude::*;

verus! {

/// The link between a pane and its shell. A negative `fd` means none.
#[derive(Clone, Copy, Debug, PartialEq, Eq, Structural)]
pub struct PaneLink {
    pub fd: i32,
    pub closed: bool,
}

impl PaneLink {
    /// A pane whose shell was just started on `fd`.
    pub fn started(fd: i32) -> (p: PaneLink)
        ensures
            p == (PaneLink { fd, closed: false }),
    {
        PaneLink { fd, closed: false }
    }

    /// The link after the pane is closed: no descriptor, closed.
    pub open spec fn closed_link(self) -> PaneLink {
        PaneLink { fd: if self.fd >= 0 { -1i32 } else { self.fd }, closed: true }
    }

    pub open spec fn accepts_spec(self) -> bool {
        self.fd >= 0 && !self.closed
    }

    /// Input and size changes reach the shell only while the pane has a
    /// descriptor and is not closed.
    pub fn accepts_input(&self) -> (r: bool)
        ensures
            r == self.accepts_spec(),
    {
        self.fd >= 0 && !self.closed
    }

    /// Closes the pane. Returns the descriptor to release, if it had one;
    /// the pane is left closed and without a descriptor.
    pub fn close(&mut self) -> (released: Option<i32>)
        ensures
            released == (if old(self).fd >= 0 { Some(old(self).fd) } else { None::<i32> }),
            *final(self) == old(self).closed_link(),
    {
        let released = if self.fd >= 0 {
            let fd = self.fd;
            self.fd = -1;
            Some(fd)
        } else {
            None
        };
        self.closed = true;
        released
    }

    /// The pane's shell was started again on `fd`.
    pub fn restart(&mut self, fd: i32)
        ensures
            *final(self) == (PaneLink { fd, closed: false }),
    {
        self.fd = fd;
        self.closed = false;
    }
}

/// A closed pane takes no input; once restarted on a descriptor it takes
/// input again.
pub proof fn close_and_restart(link: PaneLink, fd: i32)
    requires
        fd >= 0,
    ensures
        !link.closed_link().accepts_spec(),
        (PaneLink { fd, closed: false }).accepts_spec(),
{
}

} // verus!
