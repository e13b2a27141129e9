//! The frame assembler: finds the frames in a stream of bytes.
//!
//! The assembler is either idle or in a frame. A start marker opens a frame
//! from either state; if one was open, it is dropped, which resynchronizes
//! the assembler on a stream that lost an end marker. An end marker closes
//! the open frame and hands out its payload. Each byte is looked at once.

use vstd::prelude::*;
use crate::diagnostic::Framing;
use crate::wire::{ETX, STX};

verus! {

/// The state of an assembler.
pub enum FrameState {
    /// No frame is open. Bytes other than a start marker are passed over.
    Idle,
    /// A frame is open, and these bytes of its payload have arrived.
    InFrame(Seq<u8>),
}

/// What a byte made of the stream.
#[derive(Clone, Debug, PartialEq, Eq)]
pub enum Assembled {
    /// Nothing to hand out yet.
    Pending,
    /// The end marker closed a frame with this payload.
    Frame(Vec<u8>),
    /// The markers did not pair.
    Fault(Framing),
}

/// The mathematical model of an [`Assembled`].
pub enum AssembledView {
    Pending,
    Frame(Seq<u8>),
    Fault(Framing),
}

impl View for Assembled {
    type V = AssembledView;

    open spec fn view(&self) -> AssembledView {
        match self {
            Assembled::Pending => AssembledView::Pending,
            Assembled::Frame(payload) => AssembledView::Frame(payload@),
            Assembled::Fault(f) => AssembledView::Fault(*f),
        }
    }
}

/// The state after `byte` arrived in state `s`.
pub open spec fn next_state(s: FrameState, byte: u8) -> FrameState {
    if byte == STX {
        FrameState::InFrame(Seq::empty())
    } else if byte == ETX {
        FrameState::Idle
    } else {
        match s {
            FrameState::Idle => FrameState::Idle,
            FrameState::InFrame(payload) => FrameState::InFrame(payload.push(byte)),
        }
    }
}

/// What is handed out when `byte` arrives in state `s`.
pub open spec fn assembled(s: FrameState, byte: u8) -> AssembledView {
    if byte == STX {
        match s {
            FrameState::Idle => AssembledView::Pending,
            FrameState::InFrame(_) => AssembledView::Fault(Framing::Interrupted),
        }
    } else if byte == ETX {
        match s {
            FrameState::Idle => AssembledView::Fault(Framing::StrayEnd),
            FrameState::InFrame(payload) => AssembledView::Frame(payload),
        }
    } else {
        AssembledView::Pending
    }
}

/// Assembles frames from the bytes of one stream.
///
/// Each stream gets an assembler of its own, which owns its buffer.
#[derive(Debug)]
pub struct FrameAssembler {
    in_frame: bool,
    buffer: Vec<u8>,
}

impl View for FrameAssembler {
    type V = FrameState;

    closed spec fn view(&self) -> FrameState {
        if self.in_frame {
            FrameState::InFrame(self.buffer@)
        } else {
            FrameState::Idle
        }
    }
}

impl FrameAssembler {
    /// An idle assembler.
    pub fn new() -> (a: FrameAssembler)
        ensures
            a@ == FrameState::Idle,
    {
        FrameAssembler { in_frame: false, buffer: Vec::new() }
    }

    /// Whether a frame is open.
    pub fn in_frame(&self) -> (r: bool)
        ensures
            r == (self@ is InFrame),
    {
        self.in_frame
    }

    /// Takes in one byte of the stream.
    pub fn push(&mut self, byte: u8) -> (r: Assembled)
        ensures
            final(self)@ == next_state(old(self)@, byte),
            r@ == assembled(old(self)@, byte),
    {
        if byte == STX {
            let interrupted = self.in_frame;
            self.buffer.clear();
            self.in_frame = true;
            if interrupted {
                Assembled::Fault(Framing::Interrupted)
            } else {
                Assembled::Pending
            }
        } else if byte == ETX {
            if self.in_frame {
                let mut payload: Vec<u8> = Vec::new();
                core::mem::swap(&mut self.buffer, &mut payload);
                self.in_frame = false;
                Assembled::Frame(payload)
            } else {
                Assembled::Fault(Framing::StrayEnd)
            }
        } else {
            if self.in_frame {
                self.buffer.push(byte);
            }
            Assembled::Pending
        }
    }

    /// Drops the frame that is open, if any, without a diagnostic: it was
    /// never complete.
    pub fn reset(&mut self)
        ensures
            final(self)@ == FrameState::Idle,
    {
        self.buffer.clear();
        self.in_frame = false;
    }
}

} // verus!
