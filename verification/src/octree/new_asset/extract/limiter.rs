//! A per-frame budget for the bytes uploaded from CPU to GPU.
use vstd::prelude::*;

verus! {

/// The number of bytes allowed to be uploaded each frame (`None`: no limit).
#[derive(Clone, Copy, Debug, Default)]
pub struct RenderOctreeNodesBytesPerFrame {
    pub max_bytes: Option<usize>,
}

impl RenderOctreeNodesBytesPerFrame {
    /// A limit of `max_bytes` bytes per frame.
    ///
    /// This is a soft limit: only whole nodes are uploaded, and uploading stops after the
    /// first node that exceeds the limit.
    pub fn new(max_bytes: usize) -> (r: Self)
        ensures
            r.max_bytes == Some(max_bytes),
    {
        RenderOctreeNodesBytesPerFrame { max_bytes: Some(max_bytes) }
    }
}

/// The render-world side of the per-frame upload budget: the limit, and the bytes
/// written this frame (counted modulo `usize::MAX + 1`).
#[derive(Clone, Copy, Debug, Default)]
pub struct RenderOctreeNodesBytesPerFrameLimiter {
    pub max_bytes: Option<usize>,
    pub bytes_written: usize,
}

/// `a + b` modulo `usize::MAX + 1`.
pub open spec fn wrapping_sum(a: usize, b: usize) -> usize {
    if a + b > usize::MAX {
        (a + b - usize::MAX - 1) as usize
    } else {
        (a + b) as usize
    }
}

/// The bytes that `available_bytes` grants for `required_bytes`, given the bytes written
/// before the request: the request, less what it would overshoot the limit by; nothing
/// once the limit is reached.
pub open spec fn granted_bytes(max_bytes: Option<usize>, written: usize, required_bytes: usize) -> usize {
    match max_bytes {
        Some(max) => if written >= max {
            0
        } else if required_bytes <= max - written {
            required_bytes
        } else {
            (max - written) as usize
        },
        None => required_bytes,
    }
}

impl RenderOctreeNodesBytesPerFrameLimiter {
    /// Whether the budget of this frame is used up.
    pub open spec fn is_exhausted(&self) -> bool {
        match self.max_bytes {
            Some(max_bytes) => self.bytes_written >= max_bytes,
            None => false,
        }
    }

    /// The limiter after `reset`.
    pub open spec fn after_reset(&self) -> Self {
        RenderOctreeNodesBytesPerFrameLimiter {
            max_bytes: self.max_bytes,
            bytes_written: if self.max_bytes is None {
                self.bytes_written
            } else {
                0
            },
        }
    }

    /// The limiter after `write_bytes(bytes)`.
    pub open spec fn after_write(&self, bytes: usize) -> Self {
        RenderOctreeNodesBytesPerFrameLimiter {
            max_bytes: self.max_bytes,
            bytes_written: if self.max_bytes is Some && bytes > 0 {
                wrapping_sum(self.bytes_written, bytes)
            } else {
                self.bytes_written
            },
        }
    }

    /// Takes the limit from the main world's setting.
    pub fn set_max_bytes(&mut self, bpf: &RenderOctreeNodesBytesPerFrame)
        ensures
            final(self).max_bytes == bpf.max_bytes,
            final(self).bytes_written == old(self).bytes_written,
    {
        self.max_bytes = bpf.max_bytes;
    }

    /// Starts a new frame: nothing written yet (left as is when there is no limit).
    pub fn reset(&mut self)
        ensures
            final(self).max_bytes == old(self).max_bytes,
            final(self).bytes_written == (if old(self).max_bytes is None {
                old(self).bytes_written
            } else {
                0
            }),
            *final(self) == old(self).after_reset(),
    {
        if self.max_bytes.is_none() {
            return;
        }
        self.bytes_written = 0;
    }

    /// Counts `required_bytes` as written and returns how many of them are available: the
    /// request less the amount by which it overshoots the limit, at least nothing.
    pub fn available_bytes(&mut self, required_bytes: usize) -> (r: usize)
        ensures
            final(self).max_bytes == old(self).max_bytes,
            r == granted_bytes(old(self).max_bytes, old(self).bytes_written, required_bytes),
            final(self).bytes_written == (if old(self).max_bytes is Some {
                wrapping_sum(old(self).bytes_written, required_bytes)
            } else {
                old(self).bytes_written
            }),
    {
        if let Some(max_bytes) = self.max_bytes {
            let total_bytes = self.bytes_written;
            self.bytes_written = self.bytes_written.wrapping_add(required_bytes);
            if total_bytes >= max_bytes {
                0
            } else {
                let left = max_bytes - total_bytes;
                if required_bytes <= left {
                    required_bytes
                } else {
                    left
                }
            }
        } else {
            required_bytes
        }
    }

    /// Counts `bytes` as written this frame (when there is a limit).
    pub fn write_bytes(&mut self, bytes: usize)
        ensures
            final(self).max_bytes == old(self).max_bytes,
            final(self).bytes_written == (if old(self).max_bytes is Some && bytes > 0 {
                wrapping_sum(old(self).bytes_written, bytes)
            } else {
                old(self).bytes_written
            }),
            *final(self) == old(self).after_write(bytes),
    {
        if self.max_bytes.is_some() && bytes > 0 {
            self.bytes_written = self.bytes_written.wrapping_add(bytes);
        }
    }

    /// Whether the budget of this frame is used up.
    pub fn exhausted(&self) -> (b: bool)
        ensures
            b == (match self.max_bytes {
                Some(max_bytes) => self.bytes_written >= max_bytes,
                None => false,
            }),
            b == self.is_exhausted(),
    {
        if let Some(max_bytes) = self.max_bytes {
            self.bytes_written >= max_bytes
        } else {
            false
        }
    }
}

/// A new frame starts with budget left, unless the limit is zero bytes.
pub proof fn law_reset_restores_budget(l: RenderOctreeNodesBytesPerFrameLimiter)
    ensures
        l.after_reset().is_exhausted() <==> l.max_bytes == Some(0usize),
{
}

/// Writing bytes uses the budget up exactly when all bytes written this frame reach the
/// limit (while the count does not wrap).
pub proof fn law_write_uses_budget(l: RenderOctreeNodesBytesPerFrameLimiter, bytes: usize, max: usize)
    requires
        l.max_bytes == Some(max),
        bytes > 0,
        l.bytes_written + bytes <= usize::MAX,
    ensures
        l.after_write(bytes).is_exhausted() <==> l.bytes_written + bytes >= max,
{
}

/// The bytes granted never exceed the request, and with a limit they never take the
/// bytes written past it: nothing is granted once the limit is reached, and the whole
/// request only when it fits.
pub proof fn law_granted_within_budget(max: usize, written: usize, required_bytes: usize)
    ensures
        granted_bytes(None, written, required_bytes) == required_bytes,
        granted_bytes(Some(max), written, required_bytes) <= required_bytes,
        written >= max ==> granted_bytes(Some(max), written, required_bytes) == 0,
        written < max ==> written + granted_bytes(Some(max), written, required_bytes) <= max,
        written + required_bytes <= max ==> granted_bytes(Some(max), written, required_bytes) == required_bytes,
{
}

} // verus!
