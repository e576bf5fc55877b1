//! A vector of level-sensitive interrupt lines.
//!
//! The vector decides; its owner acts. A send marks the line pending and
//! says whether the line's listener is to be invoked.

use crate::error::Error;
use vstd::prelude::*;

verus! {

/// A token for raising one line of an `IrqVec`.
#[derive(Clone, Copy, Debug, PartialEq, Eq, Structural)]
pub struct IrqVecSender {
    pub line: usize,
}

/// The lines of an interrupt vector, each with its enable bit and its
/// pending bit.
pub struct IrqVec {
    enabled: Vec<bool>,
    pending: Vec<bool>,
}

impl IrqVec {
    /// The enable bits of the lines.
    pub closed spec fn enabled(&self) -> Seq<bool> {
        self.enabled@
    }

    /// The pending bits of the lines.
    pub closed spec fn pending(&self) -> Seq<bool> {
        self.pending@
    }

    /// Every line has both bits.
    pub open spec fn wf(&self) -> bool {
        self.enabled().len() == self.pending().len()
    }

    /// The number of lines.
    pub open spec fn lines(&self) -> nat {
        self.enabled().len()
    }

    /// A vector of `n` lines, all of them disabled and none pending.
    pub fn new(n: usize) -> (v: IrqVec)
        ensures
            v.wf(),
            v.enabled() == Seq::new(n as nat, |i: int| false),
            v.pending() == Seq::new(n as nat, |i: int| false),
    {
        let enabled = vec![false; n];
        let pending = vec![false; n];
        assert(enabled@ =~= Seq::new(n as nat, |i: int| false));
        assert(pending@ =~= Seq::new(n as nat, |i: int| false));
        IrqVec { enabled, pending }
    }

    /// The number of lines.
    pub fn len(&self) -> (n: usize)
        ensures
            n == self.lines(),
    {
        self.enabled.len()
    }

    /// A token for line `line`. Fails with `OutOfRange` when the vector has
    /// no such line.
    pub fn sender(&self, line: usize) -> (r: Result<IrqVecSender, Error>)
        ensures
            line < self.lines() ==> r == Ok::<IrqVecSender, Error>(IrqVecSender { line }),
            line >= self.lines() ==> r == Err::<IrqVecSender, Error>(Error::OutOfRange),
    {
        if line < self.enabled.len() {
            Ok(IrqVecSender { line })
        } else {
            Err(Error::OutOfRange)
        }
    }

    /// Sets the enable bit of line `line`. Fails with `OutOfRange` when the
    /// vector has no such line, and then changes nothing.
    pub fn set_enable(&mut self, line: usize, enable: bool) -> (r: Result<(), Error>)
        requires
            old(self).wf(),
        ensures
            final(self).wf(),
            final(self).pending() == old(self).pending(),
            line < old(self).lines() ==> r is Ok && final(self).enabled() == old(self).enabled().update(
                line as int,
                enable,
            ),
            line >= old(self).lines() ==> r == Err::<(), Error>(Error::OutOfRange)
                && final(self).enabled() == old(self).enabled(),
    {
        if line < self.enabled.len() {
            self.set_enable_uncheck(line, enable);
            Ok(())
        } else {
            Err(Error::OutOfRange)
        }
    }

    /// Sets the enable bit of a line that the vector has.
    pub fn set_enable_uncheck(&mut self, line: usize, enable: bool)
        requires
            old(self).wf(),
            line < old(self).lines(),
        ensures
            final(self).wf(),
            final(self).pending() == old(self).pending(),
            final(self).enabled() == old(self).enabled().update(line as int, enable),
    {
        self.enabled[line] = enable;
    }

    /// Marks the sender's line pending and says whether its listener is to
    /// be invoked, once: that is, whether the line is enabled. Fails with
    /// `OutOfRange` when the vector has no such line, and then changes
    /// nothing.
    pub fn send(&mut self, sender: IrqVecSender) -> (r: Result<bool, Error>)
        requires
            old(self).wf(),
        ensures
            final(self).wf(),
            final(self).enabled() == old(self).enabled(),
            sender.line < old(self).lines() ==> r == Ok::<bool, Error>(
                old(self).enabled()[sender.line as int],
            ) && final(self).pending() == old(self).pending().update(sender.line as int, true),
            sender.line >= old(self).lines() ==> r == Err::<bool, Error>(Error::OutOfRange)
                && final(self).pending() == old(self).pending(),
    {
        if sender.line < self.enabled.len() {
            Ok(self.send_uncheck(sender))
        } else {
            Err(Error::OutOfRange)
        }
    }

    /// Marks a line that the vector has pending and says whether its
    /// listener is to be invoked.
    pub fn send_uncheck(&mut self, sender: IrqVecSender) -> (invoke: bool)
        requires
            old(self).wf(),
            sender.line < old(self).lines(),
        ensures
            final(self).wf(),
            final(self).enabled() == old(self).enabled(),
            final(self).pending() == old(self).pending().update(sender.line as int, true),
            invoke == old(self).enabled()[sender.line as int],
    {
        self.pending[sender.line] = true;
        self.enabled[sender.line]
    }

    /// Whether line `line` is pending. Fails with `OutOfRange` when the
    /// vector has no such line.
    pub fn pending_at(&self, line: usize) -> (r: Result<bool, Error>)
        requires
            self.wf(),
        ensures
            line < self.lines() ==> r == Ok::<bool, Error>(self.pending()[line as int]),
            line >= self.lines() ==> r == Err::<bool, Error>(Error::OutOfRange),
    {
        if line < self.pending.len() {
            Ok(self.pending[line])
        } else {
            Err(Error::OutOfRange)
        }
    }

    /// Whether line `line` is enabled. Fails with `OutOfRange` when the
    /// vector has no such line.
    pub fn enable_at(&self, line: usize) -> (r: Result<bool, Error>)
        requires
            self.wf(),
        ensures
            line < self.lines() ==> r == Ok::<bool, Error>(self.enabled()[line as int]),
            line >= self.lines() ==> r == Err::<bool, Error>(Error::OutOfRange),
    {
        if line < self.enabled.len() {
            Ok(self.enabled[line])
        } else {
            Err(Error::OutOfRange)
        }
    }

    /// Clears the pending bit of line `line`. Fails with `OutOfRange` when
    /// the vector has no such line, and then changes nothing.
    pub fn clear_pending(&mut self, line: usize) -> (r: Result<(), Error>)
        requires
            old(self).wf(),
        ensures
            final(self).wf(),
            final(self).enabled() == old(self).enabled(),
            line < old(self).lines() ==> r is Ok && final(self).pending() == old(self).pending().update(
                line as int,
                false,
            ),
            line >= old(self).lines() ==> r == Err::<(), Error>(Error::OutOfRange)
                && final(self).pending() == old(self).pending(),
    {
        if line < self.pending.len() {
            self.pending[line] = false;
            Ok(())
        } else {
            Err(Error::OutOfRange)
        }
    }
}

} // verus!
