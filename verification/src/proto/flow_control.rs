//! Flow-control windows.

use crate::error::FrameError;
use crate::frame;
use vstd::prelude::*;
use vstd::string::*;

verus! {

/// A flow-control window. It shrinks as data is charged to it and grows by
/// WINDOW_UPDATE frames; a change of the initial size moves it and can make it
/// negative.
#[derive(Clone, Copy, Debug, PartialEq, Eq, Structural)]
pub struct FlowControl {
    /// What may still be sent, or received.
    pub window: i32,
    /// The size that the window started with, or was last set to start with.
    pub initial: i32,
}

/// The window that a connection starts with, and streams unless agreed otherwise.
pub const DEFAULT_WINDOW_SIZE: i32 = 65_535;

/// An unsigned number read as a signed one of the same 32 bits.
pub open spec fn signed(n: u32) -> i32 {
    (if n <= frame::MAX_31_BIT {
        n as int
    } else {
        n - 0x1_0000_0000
    }) as i32
}

/// An unsigned number read as a signed one of the same 32 bits.
pub fn to_signed(n: u32) -> (r: i32)
    ensures
        r == signed(n),
{
    if n <= frame::MAX_31_BIT {
        n as i32
    } else {
        (n as i64 - 0x1_0000_0000) as i32
    }
}

/// Half of a window, rounded towards zero, read as an unsigned number of the same
/// 32 bits.
pub open spec fn half(n: i32) -> u32 {
    (if n >= 0 {
        n as int / 2
    } else {
        (0x1_0000_0000 - (-(n as int)) / 2) % 0x1_0000_0000
    }) as u32
}

/// Half of a window, rounded towards zero, read as an unsigned number of the same
/// 32 bits.
pub fn half_of(n: i32) -> (r: u32)
    ensures
        r == half(n),
{
    if n >= 0 {
        n as u32 / 2
    } else {
        let m: u64 = (-(n as i64)) as u64 / 2;
        ((0x1_0000_0000u64 - m) % 0x1_0000_0000u64) as u32
    }
}

impl FlowControl {
    /// A window of `size`.
    pub open spec fn of(size: i32) -> FlowControl {
        FlowControl { window: size, initial: size }
    }

    /// What may be charged now.
    pub open spec fn spec_available(self) -> u32 {
        if self.window > 0 {
            self.window as u32
        } else {
            0
        }
    }

    /// The window after `n` bytes were charged; `None` where it does not hold them.
    pub open spec fn consumed(self, n: u32) -> Option<FlowControl> {
        if n <= self.spec_available() {
            Some(FlowControl { window: (self.window - n) as i32, ..self })
        } else {
            None
        }
    }

    /// The window after `n` bytes were charged, however many they are; `None` where it does
    /// not hold them.
    pub open spec fn charged(self, n: nat) -> Option<FlowControl> {
        if n <= self.spec_available() {
            self.consumed(n as u32)
        } else {
            None
        }
    }

    /// The window after it grew by `n`; `None` where it would become too large.
    pub open spec fn grown(self, n: u32) -> Option<FlowControl> {
        if self.window + n <= frame::MAX_31_BIT {
            Some(FlowControl { window: (self.window + n) as i32, ..self })
        } else {
            None
        }
    }

    /// The window after the initial size became `size`: it moves by the difference.
    /// `None` where it would leave the range of windows.
    pub open spec fn resized(self, size: i32) -> Option<FlowControl> {
        let window = self.window + (size - self.initial);
        if i32::MIN <= window <= i32::MAX {
            Some(FlowControl { window: window as i32, initial: size })
        } else {
            None
        }
    }

    /// Whether `r` and the window after the call are what `next` says: the new window
    /// and success, or the window unchanged and an error.
    pub open spec fn follows(
        self,
        after: FlowControl,
        r: Result<(), FrameError>,
        next: Option<FlowControl>,
    ) -> bool {
        match next {
            Some(f) => r is Ok && after == f,
            None => r matches Err(e) && e is FlowControlError && after == self,
        }
    }

    /// A window of `size`.
    pub fn new(size: i32) -> (f: FlowControl)
        ensures
            f == FlowControl::of(size),
    {
        FlowControl { window: size, initial: size }
    }

    /// What may be charged now.
    pub fn available(&self) -> (n: u32)
        ensures
            n == self.spec_available(),
    {
        if self.window > 0 {
            self.window as u32
        } else {
            0
        }
    }

    /// The window, which may be negative.
    pub fn window_size(&self) -> (n: i32)
        ensures
            n == self.window,
    {
        self.window
    }

    /// The size that the window started with.
    pub fn initial_window_size(&self) -> (n: i32)
        ensures
            n == self.initial,
    {
        self.initial
    }

    /// Charges `n` bytes. It is an error to charge more than is available.
    pub fn consume(&mut self, n: u32) -> (r: Result<(), FrameError>)
        ensures
            old(self).follows(*final(self), r, old(self).consumed(n)),
    {
        if n > self.available() {
            return Err(FrameError::FlowControlError("window exceeded".to_owned()));
        }
        self.window = (self.window as i64 - n as i64) as i32;
        Ok(())
    }

    /// Charges `n` bytes, however many they are. It is an error to charge more than is
    /// available.
    pub fn charge(&mut self, n: u128) -> (r: Result<(), FrameError>)
        ensures
            old(self).follows(*final(self), r, old(self).charged(n as nat)),
    {
        if n > self.available() as u128 {
            return Err(FrameError::FlowControlError("window exceeded".to_owned()));
        }
        self.consume(n as u32)
    }

    /// Gives back `n` bytes. It is an error to grow beyond the largest window.
    pub fn release(&mut self, n: u32) -> (r: Result<(), FrameError>)
        ensures
            old(self).follows(*final(self), r, old(self).grown(n)),
    {
        let window: i64 = self.window as i64 + n as i64;
        if window > 0x7fff_ffff {
            return Err(FrameError::FlowControlError("window overflow".to_owned()));
        }
        self.window = window as i32;
        Ok(())
    }

    /// Lets the window grow as the peer's WINDOW_UPDATE says. It is an error to grow
    /// beyond the largest window.
    pub fn apply_window_update(&mut self, increment: u32) -> (r: Result<(), FrameError>)
        ensures
            old(self).follows(*final(self), r, old(self).grown(increment)),
    {
        self.release(increment)
    }

    /// Changes the initial size: the window moves by the difference, and may become
    /// negative. It is an error to leave the range of windows.
    pub fn update_initial_window_size(&mut self, size: i32) -> (r: Result<(), FrameError>)
        ensures
            old(self).follows(*final(self), r, old(self).resized(size)),
    {
        let window: i64 = self.window as i64 + (size as i64 - self.initial as i64);
        if window > 0x7fff_ffff || window < -0x8000_0000 {
            return Err(FrameError::FlowControlError("window overflow".to_owned()));
        }
        self.window = window as i32;
        self.initial = size;
        Ok(())
    }
}

impl Default for FlowControl {
    fn default() -> (f: FlowControl)
        ensures
            f == FlowControl::of(DEFAULT_WINDOW_SIZE),
    {
        FlowControl::new(DEFAULT_WINDOW_SIZE)
    }
}

/// What was charged and given back again leaves the window as it was.
pub proof fn lemma_consume_then_release(f: FlowControl, n: u32)
    requires
        f.consumed(n) is Some,
    ensures
        f.consumed(n)->0.grown(n) == Some(f),
{
}

/// A charge in two parts leaves the same window as one charge of the sum.
pub proof fn lemma_consume_adds_up(f: FlowControl, a: u32, b: u32)
    requires
        a + b <= f.spec_available(),
    ensures
        f.consumed(a) is Some,
        f.consumed(a)->0.consumed(b) == f.consumed((a + b) as u32),
{
}

/// A change of the initial size is undone by changing it back.
pub proof fn lemma_resize_back(f: FlowControl, size: i32)
    requires
        f.resized(size) is Some,
    ensures
        f.resized(size)->0.resized(f.initial) == Some(f),
{
}

/// Windows move by exactly what is said, or not at all: charging takes away what the window
/// holds, and fails beyond that; giving back adds, up to the largest window there can be; a new
/// initial size moves the window by the difference to the old one.
pub proof fn lemma_windows_move_exactly(f: FlowControl, n: u32, m: nat, size: i32)
    ensures
        n == 0 || n <= f.window ==> (f.consumed(n) matches Some(after) && after.window == f.window
            - n && after.initial == f.initial),
        n > 0 && n > f.window ==> f.consumed(n) is None,
        m == 0 || m <= f.window ==> (f.charged(m) matches Some(after) && after.window == f.window
            - m && after.initial == f.initial),
        m > 0 && m > f.window ==> f.charged(m) is None,
        f.window + n <= 0x7fff_ffff ==> (f.grown(n) matches Some(after) && after.window
            == f.window + n && after.initial == f.initial),
        f.window + n > 0x7fff_ffff ==> f.grown(n) is None,
        f.resized(size) matches Some(after) ==> after.initial == size && after.window - f.window
            == size - f.initial,
        f.resized(size) is None <==> !(i32::MIN <= f.window + (size - f.initial) <= i32::MAX),
        f.spec_available() == if f.window > 0 {
            f.window as int
        } else {
            0
        },
        f.initial >= 0 ==> half(f.initial) == f.initial / 2,
        n <= 0x7fff_ffff ==> signed(n) == n,
{
}

/// An operation on a window that succeeds leaves what it should, and one that fails leaves the
/// window as it was.
pub proof fn lemma_failure_leaves_the_window(
    f: FlowControl,
    after: FlowControl,
    r: Result<(), FrameError>,
    next: Option<FlowControl>,
)
    requires
        f.follows(after, r, next),
    ensures
        next matches Some(g) ==> r is Ok && after == g,
        next is None ==> r is Err && after == f,
{
}

} // verus!
