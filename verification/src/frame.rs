//! Grayscale frames, and the differencer that turns a stream of them into
//! change frames.

use vstd::prelude::*;

verus! {

/// What a frame is, mathematically: its geometry and its pixels row by row.
#[verifier::ext_equal]
pub struct FrameView {
    pub width: nat,
    pub height: nat,
    pub pixels: Seq<u8>,
}

impl FrameView {
    /// There is one pixel for each place.
    pub open spec fn wf(self) -> bool {
        self.pixels.len() == self.width * self.height
    }

    /// The pixel in column `x` of row `y`.
    pub open spec fn pixel(self, x: int, y: int) -> u8
        recommends
            0 <= x < self.width,
            0 <= y < self.height,
    {
        self.pixels[y * self.width + x]
    }
}

/// Place `(x, y)` of a frame of the given width lies inside its pixels.
pub proof fn lemma_place_in_frame(width: nat, height: nat, x: int, y: int)
    by (nonlinear_arith)
    requires
        0 <= x < width,
        0 <= y < height,
    ensures
        0 <= y * width + x < width * height,
{
}

/// A grayscale frame of 8-bit intensities.
pub struct Frame {
    width: u32,
    height: u32,
    pixels: Vec<u8>,
}

impl View for Frame {
    type V = FrameView;

    closed spec fn view(&self) -> FrameView {
        FrameView {
            width: self.width as nat,
            height: self.height as nat,
            pixels: self.pixels@,
        }
    }
}

impl Frame {
    /// The invariant of the type: see [`FrameView::wf`].
    pub open spec fn wf(&self) -> bool {
        self@.wf()
    }

    /// The frame of the given geometry with the given pixels, row by row;
    /// none unless there is exactly one pixel for each place.
    pub fn from_raw(width: u32, height: u32, pixels: Vec<u8>) -> (frame: Option<Frame>)
        ensures
            frame is Some <==> pixels@.len() == width * height,
            frame matches Some(f) ==> f.wf() && f@ == (FrameView {
                width: width as nat,
                height: height as nat,
                pixels: pixels@,
            }),
    {
        assert(width as int * height as int <= 0xffff_ffff * 0xffff_ffff) by (nonlinear_arith)
            requires
                0 <= width <= 0xffff_ffff,
                0 <= height <= 0xffff_ffff,
        ;
        if pixels.len() as u64 == width as u64 * height as u64 {
            Some(Frame { width, height, pixels })
        } else {
            None
        }
    }

    /// Number of columns.
    pub fn width(&self) -> (width: u32)
        ensures
            width == self@.width,
    {
        self.width
    }

    /// Number of rows.
    pub fn height(&self) -> (height: u32)
        ensures
            height == self@.height,
    {
        self.height
    }

    /// The pixels, row by row.
    pub fn as_raw(&self) -> (pixels: &Vec<u8>)
        ensures
            pixels@ == self@.pixels,
    {
        &self.pixels
    }

    /// The pixel in column `x` of row `y`.
    pub fn pixel(&self, x: u32, y: u32) -> (value: u8)
        requires
            self.wf(),
            x < self@.width,
            y < self@.height,
        ensures
            value == self@.pixel(x as int, y as int),
    {
        proof {
            lemma_place_in_frame(self@.width, self@.height, x as int, y as int);
        }
        assert(y as int * self.width as int <= 0xffff_ffff * 0xffff_ffff) by (nonlinear_arith)
            requires
                0 <= y <= 0xffff_ffff,
                0 <= self.width <= 0xffff_ffff,
        ;
        let place: u64 = y as u64 * self.width as u64 + x as u64;
        let len: usize = self.pixels.len();
        assert(place == y as int * self@.width as int + x as int);
        assert(place < len);
        self.pixels[place as usize]
    }
}

/// The change frame of `current` against `previous`: a pixel that is as it was
/// becomes 0, and a pixel that changed keeps its new value.
pub open spec fn change_map(previous: Seq<u8>, current: Seq<u8>) -> Seq<u8> {
    Seq::new(
        current.len(),
        |i: int|
            if previous[i] == current[i] {
                0u8
            } else {
                current[i]
            },
    )
}

/// The change frames that a stream of frames gives: one for each frame but
/// the first, against the frame before it.
pub open spec fn differences(frames: Seq<Seq<u8>>) -> Seq<Seq<u8>> {
    Seq::new(
        if frames.len() == 0 {
            0
        } else {
            (frames.len() - 1) as nat
        },
        |i: int| change_map(frames[i], frames[i + 1]),
    )
}

/// Where all frames of a stream are the same, every pixel of every change
/// frame is zero.
pub proof fn lemma_static_video_is_blank(frames: Seq<Seq<u8>>)
    requires
        forall|i: int| 0 <= i < frames.len() ==> #[trigger] frames[i] == frames[0],
    ensures
        forall|i: int, k: int|
            0 <= i < differences(frames).len() && 0 <= k < differences(frames)[i].len()
                ==> #[trigger] differences(frames)[i][k] == 0,
        differences(frames).len() + 1 == frames.len() || frames.len() == 0,
{
}

/// A frame whose geometry is not the one agreed on.
#[derive(Clone, Copy, Debug, PartialEq, Eq, Structural)]
pub struct GeometryMismatch {
    pub expected_width: u32,
    pub expected_height: u32,
    pub found_width: u32,
    pub found_height: u32,
}

/// What a differencer is, mathematically: the geometry agreed on and the
/// pixels of the last frame it was given.
#[verifier::ext_equal]
pub struct DifferencerView {
    pub width: nat,
    pub height: nat,
    pub previous: Option<Seq<u8>>,
}

/// Maps consecutive frames to change frames.
pub struct FrameDifferencer {
    width: u32,
    height: u32,
    previous: Option<Vec<u8>>,
}

impl View for FrameDifferencer {
    type V = DifferencerView;

    closed spec fn view(&self) -> DifferencerView {
        DifferencerView {
            width: self.width as nat,
            height: self.height as nat,
            previous: match self.previous {
                Some(pixels) => Some(pixels@),
                None => None,
            },
        }
    }
}

impl FrameDifferencer {
    /// The invariant of the type: the frame kept has the geometry agreed on.
    pub open spec fn wf(&self) -> bool {
        self@.previous matches Some(pixels) ==> pixels.len() == self@.width * self@.height
    }

    /// A differencer for frames of the given geometry that has seen none.
    pub fn new(width: u32, height: u32) -> (differencer: FrameDifferencer)
        ensures
            differencer.wf(),
            differencer@ == (DifferencerView {
                width: width as nat,
                height: height as nat,
                previous: None,
            }),
    {
        FrameDifferencer { width, height, previous: None }
    }

    /// Takes the next frame of the stream and gives its change frame against
    /// the frame before it; for the first frame there is none. The frame given
    /// is kept for the next call. A frame of another geometry is refused, and
    /// nothing changes.
    pub fn push(&mut self, frame: &Frame) -> (changes: Result<Option<Frame>, GeometryMismatch>)
        requires
            old(self).wf(),
            frame.wf(),
        ensures
            final(self).wf(),
            final(self)@.width == old(self)@.width,
            final(self)@.height == old(self)@.height,
            changes is Err <==> frame@.width != old(self)@.width
                || frame@.height != old(self)@.height,
            changes matches Err(e) ==> final(self)@ == old(self)@ && e == (GeometryMismatch {
                expected_width: old(self)@.width as u32,
                expected_height: old(self)@.height as u32,
                found_width: frame@.width as u32,
                found_height: frame@.height as u32,
            }),
            changes is Ok ==> final(self)@.previous == Some(frame@.pixels),
            changes matches Ok(None) ==> old(self)@.previous is None,
            changes matches Ok(Some(out)) ==> old(self)@.previous is Some && out.wf() && out@ == (
            FrameView {
                width: frame@.width,
                height: frame@.height,
                pixels: change_map(old(self)@.previous->Some_0, frame@.pixels),
            }),
    {
        if frame.width != self.width || frame.height != self.height {
            return Err(
                GeometryMismatch {
                    expected_width: self.width,
                    expected_height: self.height,
                    found_width: frame.width,
                    found_height: frame.height,
                },
            );
        }
        let len: usize = frame.pixels.len();
        let mut kept: Vec<u8> = Vec::new();
        let mut out: Vec<u8> = Vec::new();
        let changes = match &self.previous {
            None => {
                let mut i: usize = 0;
                while i < len
                    invariant
                        i <= len,
                        len == frame.pixels.len(),
                        kept@ == frame.pixels@.take(i as int),
                    decreases len - i,
                {
                    kept.push(frame.pixels[i]);
                    i = i + 1;
                }
                None
            },
            Some(previous) => {
                let mut i: usize = 0;
                while i < len
                    invariant
                        i <= len,
                        len == frame.pixels.len(),
                        len == previous.len(),
                        kept@ == frame.pixels@.take(i as int),
                        out@ == change_map(previous@, frame.pixels@).take(i as int),
                    decreases len - i,
                {
                    let p: u8 = frame.pixels[i];
                    kept.push(p);
                    out.push(
                        if previous[i] == p {
                            0
                        } else {
                            p
                        },
                    );
                    i = i + 1;
                }
                Some(Frame { width: frame.width, height: frame.height, pixels: out })
            },
        };
        assert(kept@ == frame.pixels@);
        self.previous = Some(kept);
        Ok(changes)
    }
}

} // verus!
