//! Captured frames and the slot that holds the newest one.

use crate::color::{nv12_readable, nv12_rgb, nv12_to_rgb};
use crate::shared::share;
use std::sync::Arc;
use vstd::prelude::*;

verus! {

/// One frame from the capture device. The data payload is one of:
///   - Rgb: tightly packed RGB8, length = width * height * 3
///   - Nv12: Y plane followed by interleaved UV plane, length = width * height * 3 / 2
pub struct Frame {
    pub width: u32,
    pub height: u32,
    pub data: FrameData,
    /// Monotonic counter, increments each time the capture thread publishes.
    pub seq: u64,
}

pub enum FrameData {
    Rgb(Arc<Vec<u8>>),
    Nv12(Arc<Vec<u8>>),
}

/// Event sent from background threads to wake the event loop. Just a "new
/// frame ready" signal so far; an enum so that more can be added.
#[derive(Debug, Clone, Copy)]
pub enum UiEvent {
    FrameReady,
}

impl Clone for FrameData {
    fn clone(&self) -> (r: Self)
        ensures
            r == *self,
    {
        match self {
            FrameData::Rgb(b) => FrameData::Rgb(share(b)),
            FrameData::Nv12(b) => FrameData::Nv12(share(b)),
        }
    }
}

impl Clone for Frame {
    fn clone(&self) -> (r: Self)
        ensures
            r == *self,
    {
        Frame { width: self.width, height: self.height, data: self.data.clone(), seq: self.seq }
    }
}

/// Latest-frame slot. The capture thread overwrites; readers always see the
/// newest frame and never queue up. The threads share it behind a lock.
pub struct SharedFrame {
    inner: Option<Frame>,
}

impl View for SharedFrame {
    type V = Option<Frame>;

    closed spec fn view(&self) -> Option<Frame> {
        self.inner
    }
}

impl SharedFrame {
    /// An empty slot.
    pub fn new() -> (r: Self)
        ensures
            r@ is None,
    {
        SharedFrame { inner: None }
    }

    /// Replaces whatever the slot holds.
    pub fn publish(&mut self, frame: Frame)
        ensures
            final(self)@ == Some(frame),
    {
        self.inner = Some(frame);
    }

    /// The newest frame. It stays in the slot.
    pub fn get(&self) -> (r: Option<Frame>)
        ensures
            r == self@,
    {
        match &self.inner {
            None => None,
            Some(f) => Some(f.clone()),
        }
    }
}

/// Whether the payload of a picture of this size can be turned into RGB.
pub open spec fn data_convertible(data: FrameData, w: u32, h: u32) -> bool {
    match data {
        FrameData::Rgb(_) => true,
        FrameData::Nv12(b) => w * h * 3 <= usize::MAX && nv12_readable(
            b@.len() as int,
            w as int,
            h as int,
        ),
    }
}

/// The payload as packed RGB.
pub open spec fn data_rgb(data: FrameData, w: u32, h: u32) -> Seq<u8> {
    match data {
        FrameData::Rgb(b) => b@,
        FrameData::Nv12(b) => nv12_rgb(b@, w as int, h as int),
    }
}

/// Turns a frame's payload into packed RGB; RGB is copied as it is.
pub fn frame_to_rgb(data: &FrameData, w: u32, h: u32) -> (r: Vec<u8>)
    requires
        data_convertible(*data, w, h),
    ensures
        r@ == data_rgb(*data, w, h),
{
    match data {
        FrameData::Rgb(b) => vstd::slice::slice_to_vec(b.as_slice()),
        FrameData::Nv12(b) => nv12_to_rgb(b.as_slice(), w, h),
    }
}

/// Whether `frame_to_rgb` can convert the payload.
pub fn can_convert_data(data: &FrameData, w: u32, h: u32) -> (r: bool)
    ensures
        r == data_convertible(*data, w, h),
{
    match data {
        FrameData::Rgb(_) => true,
        FrameData::Nv12(b) => crate::color::can_convert(b.len(), w, h),
    }
}

/// Whether a frame's payload has the length that its size asks for, so that
/// it can be encoded.
pub open spec fn encodable(frame: Frame) -> bool {
    &&& data_convertible(frame.data, frame.width, frame.height)
    &&& frame.data matches FrameData::Rgb(b) ==> b@.len() == frame.width * frame.height * 3
}

/// Tells whether a frame can be encoded.
pub fn can_encode(frame: &Frame) -> (r: bool)
    ensures
        r == encodable(*frame),
{
    if !can_convert_data(&frame.data, frame.width, frame.height) {
        return false;
    }
    match &frame.data {
        FrameData::Nv12(_) => true,
        FrameData::Rgb(b) => {
            assert(frame.width * frame.height * 3 <= u128::MAX) by (nonlinear_arith)
                requires
                    frame.width <= u32::MAX,
                    frame.height <= u32::MAX,
            ;
            assert(0 <= frame.width * frame.height <= frame.width * frame.height * 3)
                by (nonlinear_arith)
                requires
                    frame.width >= 0,
                    frame.height >= 0,
            ;
            b.len() as u128 == frame.width as u128 * frame.height as u128 * 3
        },
    }
}

} // verus!
