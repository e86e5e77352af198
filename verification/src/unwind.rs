//! Walking a suspended thread's call stack. A cursor starts from the
//! thread's current instruction pointer and chases saved frame pointers
//! outward, one frame per pull; it is finite, forward-only, and once it has
//! signalled the end it never yields again.

use vstd::prelude::*;

use crate::error::Error;
use crate::memory::ProcessMemory;
use crate::process::{Pid, Process, Thread, Tid};

verus! {

/// The most frames one cursor will walk; a stack deeper than this comes back
/// truncated rather than looping forever on a corrupt frame chain.
pub const FRAME_LIMIT: usize = 128;

/// Relies on `nix::sys::ptrace::getregs`: the stopped thread's instruction
/// pointer, stack pointer and frame pointer, in that order.
#[verifier::external_body]
fn thread_registers(tid: Tid) -> (r: Result<(u64, u64, u64), Error>) {
    match nix::sys::ptrace::getregs(nix::unistd::Pid::from_raw(tid)) {
        Ok(regs) => Ok((regs.rip, regs.rsp, regs.rbp)),
        Err(e) => Err(Error::NixError(e)),
    }
}

/// A stack walker bound to one process. It reads the suspended thread's
/// registers and then steps through stack memory; the frame layout it
/// assumes is the 64-bit frame-pointer convention (return address one word
/// above the saved frame pointer).
pub struct Unwinder {
    /// The process whose threads this unwinder walks.
    pub pid: Pid,
}

impl Process {
    /// An unwinder bound to this process.
    pub fn unwinder(&self) -> (r: Result<Unwinder, Error>)
        ensures
            r matches Ok(u) && u.pid == self.pid,
    {
        Ok(Unwinder { pid: self.pid })
    }
}

/// Per-walk iteration state over one thread's stack: transient, finite,
/// forward-only, not restartable. Each pull yields one return address or
/// signals the end; the end is final.
pub struct UnwindCursor {
    /// The address the next pull will yield, when one is pending.
    pub ip: u64,
    /// The stack pointer at the time the cursor was made.
    pub sp: u64,
    /// The frame pointer of the frame the cursor stands in.
    pub bp: u64,
    /// How many more frames this cursor is still willing to yield.
    pub remaining: usize,
    /// Whether the first frame (the instruction pointer itself) went out.
    pub started: bool,
    /// Whether the walk has ended; once set, every pull returns nothing.
    pub done: bool,
}

impl Unwinder {
    /// Begin a walk over `thread`'s stack from its current registers. The
    /// caller must hold the thread's lock for the walk to see a consistent
    /// stack; the lock stays the caller's, the cursor only reads.
    pub fn cursor(&self, thread: &Thread) -> (r: Result<UnwindCursor, Error>)
        ensures
            r matches Ok(c) ==> !c.done && !c.started && c.remaining == FRAME_LIMIT,
    {
        let (ip, sp, bp) = match thread_registers(thread.tid) {
            Ok(t) => t,
            Err(e) => { return Err(e); },
        };
        Ok(UnwindCursor { ip, sp, bp, remaining: FRAME_LIMIT, started: false, done: false })
    }
}

impl UnwindCursor {
    /// Pull the next return address, reading stack memory through `mem`.
    /// `None` signals the end of the walk, and the end is final: a finished
    /// cursor never yields again, and a frame whose chain simply ends ends
    /// the sequence (a truncated trace is not an error). A failing read of
    /// stack memory surfaces once as an `Err` item and finishes the walk.
    /// Every address yielded spends one unit of the cursor's frame budget,
    /// so a walk yields at most [`FRAME_LIMIT`] addresses.
    pub fn next<M: ProcessMemory>(&mut self, mem: &M) -> (r: Option<Result<u64, Error>>)
        ensures
            old(self).done ==> r is None && *final(self) == *old(self),
            r is None ==> final(self).done,
            r matches Some(item) ==> !old(self).done && (item is Ok ==> final(self).remaining
                < old(self).remaining) && (item is Err ==> final(self).done),
            final(self).remaining <= old(self).remaining,
            !old(self).done && !old(self).started && old(self).remaining > 0 ==> (match r {
                Some(Ok(a)) => a == old(self).ip && final(self).started,
                _ => false,
            }),
            !old(self).done && old(self).remaining == 0 ==> r is None,
            (match r {
                Some(Ok(a)) => final(self).ip == a,
                _ => true,
            }),
    {
        if self.done {
            return None;
        }
        if self.remaining == 0 {
            self.done = true;
            return None;
        }
        if !self.started {
            self.started = true;
            self.remaining = self.remaining - 1;
            return Some(Ok(self.ip));
        }
        // The frame chain ends at a null or implausible frame pointer.
        if self.bp == 0 || self.bp < self.sp || self.bp > u64::MAX - 8 {
            self.done = true;
            return None;
        }
        if self.bp + 8 > usize::MAX as u64 {
            self.done = true;
            return None;
        }
        let ret_addr: u64 = match mem.copy_struct::<u64>((self.bp + 8) as usize) {
            Ok(v) => v,
            Err(e) => {
                self.done = true;
                return Some(Err(e));
            },
        };
        let saved_bp: u64 = match mem.copy_struct::<u64>(self.bp as usize) {
            Ok(v) => v,
            Err(e) => {
                self.done = true;
                return Some(Err(e));
            },
        };
        if ret_addr == 0 {
            self.done = true;
            return None;
        }
        self.ip = ret_addr;
        self.bp = saved_bp;
        self.remaining = self.remaining - 1;
        Some(Ok(ret_addr))
    }
}

} // verus!
