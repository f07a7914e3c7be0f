//! Frames as they go to the wire: real payloads and cover, brought to one size.
use crate::clumping::Packet;
use crate::rng::{Draw, RngState, SeededRng};
use vstd::prelude::*;

verus! {

/// A frame: a real payload or cover.
#[derive(Debug, PartialEq, Eq)]
pub enum MixedFrame {
    Real(Packet),
    Dummy(Vec<u8>),
}

/// What a frame holds.
pub enum FrameView {
    Real(Seq<u8>),
    Dummy(Seq<u8>),
}

impl View for MixedFrame {
    type V = FrameView;

    open spec fn view(&self) -> FrameView {
        match self {
            MixedFrame::Real(packet) => FrameView::Real(packet@),
            MixedFrame::Dummy(bytes) => FrameView::Dummy(bytes@),
        }
    }
}

impl Clone for MixedFrame {
    fn clone(&self) -> (f: MixedFrame)
        ensures
            f@ == self@,
    {
        match self {
            MixedFrame::Real(packet) => MixedFrame::Real(packet.clone()),
            MixedFrame::Dummy(bytes) => {
                let copy = bytes.clone();
                assert(copy@ =~= bytes@);
                MixedFrame::Dummy(copy)
            },
        }
    }
}

impl FrameView {
    /// The frame's bytes.
    pub open spec fn bytes(self) -> Seq<u8> {
        match self {
            FrameView::Real(bytes) => bytes,
            FrameView::Dummy(bytes) => bytes,
        }
    }
}

/// The views of a sequence of frames.
pub open spec fn frame_views(frames: Seq<MixedFrame>) -> Seq<FrameView> {
    frames.map_values(|f: MixedFrame| f@)
}

impl MixedFrame {
    /// Bytes in the frame.
    pub fn len(&self) -> (n: usize)
        ensures
            n == self@.bytes().len(),
    {
        match self {
            MixedFrame::Real(packet) => packet.len(),
            MixedFrame::Dummy(bytes) => bytes.len(),
        }
    }

    /// Whether the frame has no bytes.
    pub fn is_empty(&self) -> (b: bool)
        ensures
            b == (self@.bytes().len() == 0),
    {
        self.len() == 0
    }

    /// Whether the frame carries a real payload.
    pub fn is_real(&self) -> (b: bool)
        ensures
            b == (self@ is Real),
    {
        matches!(self, MixedFrame::Real(_))
    }

    /// Whether the frame is cover.
    pub fn is_dummy(&self) -> (b: bool)
        ensures
            b == (self@ is Dummy),
    {
        matches!(self, MixedFrame::Dummy(_))
    }
}

/// `data` brought to `cell` bytes: random bytes follow what is too short, and
/// what is too long is cut.
pub open spec fn fitted(data: Seq<u8>, cell: nat, rng: RngState) -> Seq<u8> {
    if data.len() < cell {
        data + rng.bytes((cell - data.len()) as nat)
    } else {
        data.take(cell as int)
    }
}

/// The generator once data of `len` bytes has been brought to `cell` bytes.
pub open spec fn fit_drawn(len: nat, cell: nat, rng: RngState) -> RngState {
    if len < cell {
        rng.then_draw(Draw::Bytes { len: (cell - len) as nat })
    } else {
        rng
    }
}

/// Brings `data` to `cell` bytes.
pub fn fit_to_cell(data: Vec<u8>, cell: usize, rng: &mut SeededRng) -> (out: Vec<u8>)
    ensures
        out@ == fitted(data@, cell as nat, old(rng)@),
        out@.len() == cell,
        final(rng)@ == fit_drawn(data@.len(), cell as nat, old(rng)@),
{
    let mut out = data;
    if out.len() < cell {
        let mut padding = rng.bytes(cell - out.len());
        out.append(&mut padding);
        assert(out@ =~= fitted(data@, cell as nat, old(rng)@));
    } else if out.len() > cell {
        out.truncate(cell);
        assert(out@ =~= data@.take(cell as int));
    } else {
        assert(out@ =~= data@.take(cell as int));
    }
    out
}

/// A payload that fits into a cell is found unchanged at the cell's front.
pub proof fn law_fitting_keeps_what_fits(data: Seq<u8>, cell: nat, rng: RngState)
    requires
        data.len() <= cell,
    ensures
        fitted(data, cell, rng).take(data.len() as int) == data,
{
    assert(fitted(data, cell, rng).take(data.len() as int) =~= data);
}

/// Cells are full: whatever it holds, data is brought to the size of a cell. As
/// much of it as fits stands at the front, random bytes follow, and these are
/// drawn only where there is room.
pub proof fn law_cells_are_full(data: Seq<u8>, cell: nat, rng: RngState, i: int)
    requires
        0 <= i < cell,
    ensures
        fitted(data, cell, rng).len() == cell,
        i < data.len() ==> fitted(data, cell, rng)[i] == data[i],
        i >= data.len() ==> fitted(data, cell, rng)[i] == rng.bytes(
            (cell - data.len()) as nat,
        )[i - data.len()],
        data.len() >= cell ==> fit_drawn(data.len(), cell, rng) == rng,
        data.len() < cell ==> fit_drawn(data.len(), cell, rng).log == rng.log.push(
            Draw::Bytes { len: (cell - data.len()) as nat },
        ),
{
}

} // verus!
