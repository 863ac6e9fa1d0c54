//! Sprite-sheet metadata as exported by Aseprite: frames with their
//! rectangles and durations, and named frame-range tags.

use vstd::prelude::*;

verus! {

/// A rectangle in the sheet image.
#[derive(Clone, Copy, Debug, PartialEq, Eq, Structural)]
pub struct SpriteRect {
    pub x: i32,
    pub y: i32,
    pub w: u32,
    pub h: u32,
}

/// A width and height.
#[derive(Clone, Copy, Debug, PartialEq, Eq, Structural)]
pub struct SpriteSheetSize {
    pub w: usize,
    pub h: usize,
}

/// One animation frame: where it sits in the sheet, how long it shows (in
/// milliseconds) and the size of the source image it was cut from.
pub struct FrameInfo {
    pub filename: String,
    pub frame: SpriteRect,
    pub duration: u64,
    pub source_size: SpriteSheetSize,
}

/// A named range of frames `[from, to)`.
pub struct Tags {
    pub name: String,
    pub from: usize,
    pub to: usize,
    pub direction: String,
}

/// Sheet-wide metadata.
pub struct MetaInfo {
    pub size: SpriteSheetSize,
    pub frame_tags: Vec<Tags>,
}

/// A whole sprite sheet description.
pub struct AsepriteJSON {
    pub frames: Vec<FrameInfo>,
    pub meta: MetaInfo,
}

/// Longest frame duration in milliseconds whose microsecond count fits in
/// a `u64`.
pub const MAX_FRAME_MILLIS: u64 = 18_446_744_073_709_551;

impl AsepriteJSON {
    /// The frame durations in milliseconds.
    pub open spec fn durations(&self) -> Seq<u64> {
        self.frames@.map_values(|f: FrameInfo| f.duration)
    }

    /// At least one frame, durations measurable in microseconds, and every
    /// tag a range of existing frames starting at an existing frame (a tag
    /// with `from == to` shows frame `from` alone).
    pub open spec fn valid(&self) -> bool {
        &&& self.frames@.len() > 0
        &&& forall|i: int|
            0 <= i < self.frames@.len() ==> #[trigger] self.frames@[i].duration <= MAX_FRAME_MILLIS
        &&& forall|k: int|
            0 <= k < self.meta.frame_tags@.len() ==> {
                let t = #[trigger] self.meta.frame_tags@[k];
                t.from <= t.to && t.from < self.frames@.len() && t.to <= self.frames@.len()
            }
    }

    /// Whether the sheet is `valid`.
    pub fn is_valid(&self) -> (r: bool)
        ensures
            r == self.valid(),
    {
        if self.frames.len() == 0 {
            return false;
        }
        let mut i: usize = 0;
        while i < self.frames.len()
            invariant
                i <= self.frames@.len(),
                forall|j: int| 0 <= j < i ==> #[trigger] self.frames@[j].duration <= MAX_FRAME_MILLIS,
            decreases self.frames@.len() - i,
        {
            if self.frames[i].duration > MAX_FRAME_MILLIS {
                return false;
            }
            i = i + 1;
        }
        let mut k: usize = 0;
        while k < self.meta.frame_tags.len()
            invariant
                k <= self.meta.frame_tags@.len(),
                forall|j: int|
                    0 <= j < k ==> {
                        let t = #[trigger] self.meta.frame_tags@[j];
                        t.from <= t.to && t.from < self.frames@.len() && t.to <= self.frames@.len()
                    },
            decreases self.meta.frame_tags@.len() - k,
        {
            let t = &self.meta.frame_tags[k];
            if !(t.from <= t.to && t.from < self.frames.len() && t.to <= self.frames.len()) {
                return false;
            }
            k = k + 1;
        }
        true
    }
}

} // verus!
