//! Packet and byte counts of the baseline receiver.

use vstd::prelude::*;

verus! {

/// What has been received since the last report, and in all.
#[derive(Clone, Copy, Debug, PartialEq, Eq)]
pub struct Window {
    /// Packets since the last report.
    pub count: u64,
    /// Bytes since the last report.
    pub bytes: u64,
    /// Packets in all.
    pub total: u64,
}

impl Window {
    /// One more packet of `len` bytes can be counted.
    pub open spec fn has_room(self, len: u64) -> bool {
        &&& self.count < u64::MAX
        &&& self.bytes + len <= u64::MAX
        &&& self.total < u64::MAX
    }

    /// Nothing received yet.
    pub fn new() -> (r: Self)
        ensures
            r == (Window { count: 0, bytes: 0, total: 0 }),
    {
        Window { count: 0, bytes: 0, total: 0 }
    }

    /// Whether one more packet of `len` bytes can be counted.
    pub fn can_receive(&self, len: u64) -> (r: bool)
        ensures
            r == self.has_room(len),
            r <==> self.count + 1 <= u64::MAX && self.bytes + len <= u64::MAX && self.total + 1
                <= u64::MAX,
    {
        self.count < u64::MAX && self.bytes <= u64::MAX - len && self.total < u64::MAX
    }

    /// Count a packet of `len` bytes.
    pub fn receive(&mut self, len: u64)
        requires
            old(self).has_room(len),
        ensures
            *final(self) == (Window {
                count: (old(self).count + 1) as u64,
                bytes: (old(self).bytes + len) as u64,
                total: (old(self).total + 1) as u64,
            }),
            final(self).count == old(self).count + 1,
            final(self).bytes == old(self).bytes + len,
            final(self).total == old(self).total + 1,
    {
        self.count = self.count + 1;
        self.bytes = self.bytes + len;
        self.total = self.total + 1;
    }

    /// Start a new reporting interval. The overall total goes on.
    pub fn restart(&mut self)
        ensures
            *final(self) == (Window { count: 0, bytes: 0, total: old(self).total }),
    {
        self.count = 0;
        self.bytes = 0;
    }
}

/// A packet can be counted exactly where none of the three numbers would pass the
/// largest value.
pub proof fn law_window_room(window: Window, len: u64)
    ensures
        window.has_room(len) <==> window.count + 1 <= u64::MAX && window.bytes + len <= u64::MAX
            && window.total + 1 <= u64::MAX,
{
}

} // verus!
