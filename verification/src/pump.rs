use vstd::prelude::*;

verus! {

/// What the relay loop must do next with one direction.
#[derive(PartialEq, Eq, Structural, Clone, Copy, Debug)]
pub enum PumpAction {
    /// Forward the bytes just read to the other peer.
    Write,
    /// The peer half-closed: raise the cancel signal once and stop.
    SignalAndStop,
}

/// One direction of the byte relay, tracked by what it has read from its
/// source and what it has written to its sink.
pub struct PumpDirection {
    read_log: Ghost<Seq<u8>>,
    written_log: Ghost<Seq<u8>>,
    finished: bool,
    clean_eof: bool,
    cancel_signalled: bool,
}

impl PumpDirection {
    /// Every byte read so far, in order.
    pub closed spec fn spec_read(&self) -> Seq<u8> {
        self.read_log@
    }

    /// Every byte written so far, in order.
    pub closed spec fn spec_written(&self) -> Seq<u8> {
        self.written_log@
    }

    pub closed spec fn spec_finished(&self) -> bool {
        self.finished
    }

    /// Whether the direction ended by observing the peer's half-close.
    pub closed spec fn spec_clean_eof(&self) -> bool {
        self.clean_eof
    }

    pub closed spec fn spec_cancel_signalled(&self) -> bool {
        self.cancel_signalled
    }

    /// What every state of a direction satisfies: writes trail reads, the
    /// cancel signal is raised only on a clean end-of-file, and a clean
    /// end-of-file means everything read was forwarded.
    pub closed spec fn inv(&self) -> bool {
        &&& self.written_log@.is_prefix_of(self.read_log@)
        &&& (self.clean_eof ==> self.finished && self.written_log@ == self.read_log@)
        &&& (self.cancel_signalled ==> self.clean_eof)
    }

    pub fn new() -> (p: Self)
        ensures
            p.inv(),
            p.spec_read() == Seq::<u8>::empty(),
            p.spec_written() == Seq::<u8>::empty(),
            !p.spec_finished(),
            !p.spec_clean_eof(),
            !p.spec_cancel_signalled(),
    {
        PumpDirection {
            read_log: Ghost(Seq::empty()),
            written_log: Ghost(Seq::empty()),
            finished: false,
            clean_eof: false,
            cancel_signalled: false,
        }
    }

    /// Accounts for one read that delivered `buffer[..n]`. Reading zero
    /// bytes is the peer's half-close: the direction signals the opposite
    /// one, exactly once, and stops; otherwise the bytes must be forwarded
    /// next, in this order, before anything else is read.
    pub fn on_read(&mut self, buffer: &[u8], n: usize) -> (a: PumpAction)
        requires
            old(self).inv(),
            !old(self).spec_finished(),
            n <= buffer@.len(),
            old(self).spec_written() == old(self).spec_read(),
        ensures
            final(self).inv(),
            final(self).spec_written() == old(self).spec_written(),
            final(self).spec_cancel_signalled() == (n == 0),
            n == 0 ==> a == PumpAction::SignalAndStop && final(self).spec_finished() && final(self).spec_clean_eof() && final(self).spec_read() == old(self).spec_read(),
            n > 0 ==> a == PumpAction::Write && !final(self).spec_finished() && !final(self).spec_clean_eof() && final(self).spec_read() == old(self).spec_read()
                + buffer@.subrange(0, n as int),
    {
        if n == 0 {
            self.finished = true;
            self.clean_eof = true;
            self.cancel_signalled = true;
            PumpAction::SignalAndStop
        } else {
            self.read_log = Ghost(self.read_log@ + buffer@.subrange(0, n as int));
            proof {
                assert(self.written_log@.is_prefix_of(self.read_log@));
            }
            PumpAction::Write
        }
    }

    /// Accounts for the write that forwarded the outstanding `buffer[..n]`
    /// in full; the direction is caught up again.
    pub fn on_write_complete(&mut self, buffer: &[u8], n: usize)
        requires
            old(self).inv(),
            !old(self).spec_finished(),
            n <= buffer@.len(),
            old(self).spec_read() == old(self).spec_written() + buffer@.subrange(0, n as int),
        ensures
            final(self).inv(),
            final(self).spec_read() == old(self).spec_read(),
            final(self).spec_written() == final(self).spec_read(),
            !final(self).spec_finished(),
            !final(self).spec_cancel_signalled(),
    {
        self.written_log = Ghost(self.read_log@);
    }

    /// Ends the direction for any reason other than the peer's half-close:
    /// a failed read, a failed write, the idle timeout, or the opposite
    /// direction's cancel signal. No signal of its own is raised.
    pub fn stop(&mut self)
        requires
            old(self).inv(),
            !old(self).spec_finished(),
        ensures
            final(self).inv(),
            final(self).spec_finished(),
            !final(self).spec_clean_eof(),
            final(self).spec_read() == old(self).spec_read(),
            final(self).spec_written() == old(self).spec_written(),
            final(self).spec_cancel_signalled() == old(self).spec_cancel_signalled(),
    {
        self.finished = true;
    }

    pub fn is_finished(&self) -> (r: bool)
        ensures
            r == self.spec_finished(),
    {
        self.finished
    }

    pub fn ended_with_eof(&self) -> (r: bool)
        ensures
            r == self.spec_clean_eof(),
    {
        self.clean_eof
    }
}

/// Bytes written on a direction are at all times a prefix of the bytes
/// read on it, and the two are equal when it ended at a clean end-of-file.
pub proof fn lemma_pump_prefix(p: &PumpDirection)
    requires
        p.inv(),
    ensures
        p.spec_written().is_prefix_of(p.spec_read()),
        p.spec_clean_eof() ==> p.spec_written() == p.spec_read(),
{
}

} // verus!
