//! Messages as the relay sees them: data frames carry a payload and are
//! eligible for fan-out, control frames are connection lifecycle signals and
//! are never forwarded.

use vstd::prelude::*;

verus! {

/// One message on a connection. `Text` and `Binary` are data frames; `Control`
/// stands for any lifecycle signal (ping, pong, close), which the relay reads
/// but never fans out.
#[derive(Debug, PartialEq, Eq)]
pub enum Frame {
    Text(String),
    Binary(Vec<u8>),
    Control,
}

/// The mathematical value of a [`Frame`]: the payload as a sequence.
pub enum FrameView {
    Text(Seq<char>),
    Binary(Seq<u8>),
    Control,
}

impl View for Frame {
    type V = FrameView;

    open spec fn view(&self) -> FrameView {
        match self {
            Frame::Text(s) => FrameView::Text(s@),
            Frame::Binary(b) => FrameView::Binary(b@),
            Frame::Control => FrameView::Control,
        }
    }
}

impl FrameView {
    /// Data frames are fanned out; control frames are not.
    pub open spec fn is_data(self) -> bool {
        match self {
            FrameView::Text(_) => true,
            FrameView::Binary(_) => true,
            FrameView::Control => false,
        }
    }
}

impl Frame {
    /// Whether this frame is a data frame (text or binary payload).
    pub fn is_data(&self) -> (r: bool)
        ensures
            r == self@.is_data(),
    {
        match self {
            Frame::Text(_) => true,
            Frame::Binary(_) => true,
            Frame::Control => false,
        }
    }
}

impl Clone for Frame {
    /// Fan-out duplicates a frame for each receiving peer; the copy carries
    /// the same payload.
    fn clone(&self) -> (r: Self)
        ensures
            r@ == self@,
    {
        match self {
            Frame::Text(s) => Frame::Text(s.clone()),
            Frame::Binary(b) => {
                let mut c: Vec<u8> = Vec::new();
                let mut i: usize = 0;
                while i < b.len()
                    invariant
                        i <= b.len(),
                        c@ == b@.take(i as int),
                    decreases b.len() - i,
                {
                    c.push(b[i]);
                    proof {
                        assert(c@ =~= b@.take(i as int + 1));
                    }
                    i += 1;
                }
                proof {
                    assert(b@.take(b@.len() as int) =~= b@);
                }
                Frame::Binary(c)
            },
            Frame::Control => Frame::Control,
        }
    }
}

} // verus!
