//! Region capture: the layout of the regions in one readback texture, and what
//! is read back from it.
//!
//! All regions are laid side by side in one texture, so that each frame is read
//! back in one piece. Two textures take turns: a frame is copied into one while
//! the frame before is read back from the other.

use vstd::prelude::*;

use crate::config::{CaptureRegion, Config};
use crate::num;

verus! {

/// Error code of a capture call for which no new frame has come.
pub const DXGI_ERROR_WAIT_TIMEOUT: i32 = -2005270489;

/// Error code of a capture call whose session is lost.
pub const DXGI_ERROR_ACCESS_LOST: i32 = -2005270490;

/// Source region to capture (screen coordinates).
#[derive(Debug, Clone, Copy, PartialEq, Eq, Structural)]
pub struct RegionRect {
    pub x: u32,
    pub y: u32,
    pub w: u32,
    pub h: u32,
}

/// The captured data of one region: rows of four bytes for each pixel, without
/// padding.
pub struct RegionFrame<'a> {
    pub data: &'a [u8],
    pub w: u32,
    pub h: u32,
}

/// The buffer of one region, and where the region lies in the texture.
pub struct RegionSlot {
    pub cpu: Vec<u8>,
    pub w: u32,
    pub h: u32,
    /// Horizontal offset in the texture (pixels)
    pub x_offset: u32,
}

/// The state of the readback.
pub struct Staging {
    /// Size of the textures
    pub w: u32,
    pub h: u32,
    /// Number of frames copied since the textures were made
    pub acquired_seq: u64,
    pub slots: Vec<RegionSlot>,
}

/// What a frame asks of the textures.
#[derive(Debug, Clone, Copy, PartialEq, Eq, Structural)]
pub enum StagingPlan {
    /// The regions are empty
    Nothing,
    /// The textures are large enough
    Keep,
    /// Textures of this size are to be made
    Create(u32, u32),
}

/// What the result of a capture call says.
#[derive(Debug, Clone, Copy, PartialEq, Eq, Structural)]
pub enum AcquireOutcome {
    /// The desktop has not changed
    Unchanged,
    /// The session is lost and is to be made anew
    Lost,
    /// The call failed
    Failed,
}

/// What the error code of a capture call says.
pub fn acquire_outcome(code: i32) -> (r: AcquireOutcome)
    ensures
        r == (if code == DXGI_ERROR_WAIT_TIMEOUT {
            AcquireOutcome::Unchanged
        } else if code == DXGI_ERROR_ACCESS_LOST {
            AcquireOutcome::Lost
        } else {
            AcquireOutcome::Failed
        }),
{
    if code == DXGI_ERROR_WAIT_TIMEOUT {
        AcquireOutcome::Unchanged
    } else if code == DXGI_ERROR_ACCESS_LOST {
        AcquireOutcome::Lost
    } else {
        AcquireOutcome::Failed
    }
}

/// How long the program waits before it opens a lost session anew, in
/// milliseconds.
pub const REBUILD_WAIT_MS: u64 = 200;

/// How long it waits where that failed.
pub const REBUILD_PAUSE_MS: u64 = 1000;

/// Whether so many losses of the session are told: every tenth time.
pub fn tells_losses(n: u32) -> (r: bool)
    ensures
        r == (n % 10 == 0),
{
    n % 10 == 0
}

// ===== Layout =====

/// The width of the regions side by side.
pub open spec fn total_width(regions: Seq<RegionRect>) -> int
    decreases regions.len(),
{
    if regions.len() == 0 {
        0
    } else {
        total_width(regions.drop_last()) + regions.last().w
    }
}

/// The height of the highest region.
pub open spec fn max_height(regions: Seq<RegionRect>) -> int
    decreases regions.len(),
{
    if regions.len() == 0 {
        0
    } else {
        num::int_max(max_height(regions.drop_last()), regions.last().h as int)
    }
}

/// Where region `i` begins in the texture.
pub open spec fn offset_of(regions: Seq<RegionRect>, i: int) -> int {
    total_width(regions.take(i))
}

/// The size of a region in bytes.
pub open spec fn region_bytes(r: RegionRect) -> int {
    r.w * r.h * 4
}

proof fn lemma_total_width_step(regions: Seq<RegionRect>, i: int)
    requires
        0 <= i < regions.len(),
    ensures
        offset_of(regions, i + 1) == offset_of(regions, i) + regions[i].w,
{
    assert(regions.take(i + 1).drop_last() =~= regions.take(i));
    assert(regions.take(i + 1).last() == regions[i]);
}

proof fn lemma_offsets_ascend(regions: Seq<RegionRect>, i: int, j: int)
    requires
        0 <= i <= j <= regions.len(),
    ensures
        0 <= offset_of(regions, i) <= offset_of(regions, j),
    decreases j,
{
    if j > 0 {
        lemma_total_width_step(regions, j - 1);
        if i < j {
            lemma_offsets_ascend(regions, i, j - 1);
        } else {
            lemma_offsets_ascend(regions, j - 1, j - 1);
        }
    }
}

/// The regions lie side by side: each ends before the next begins, and all lie
/// inside the total width.
pub proof fn law_regions_do_not_overlap(regions: Seq<RegionRect>, i: int, j: int)
    requires
        0 <= i < j < regions.len(),
    ensures
        0 <= offset_of(regions, i),
        offset_of(regions, i) + regions[i].w <= offset_of(regions, j),
        offset_of(regions, j) + regions[j].w <= total_width(regions),
{
    lemma_total_width_step(regions, i);
    lemma_offsets_ascend(regions, i, i);
    lemma_offsets_ascend(regions, i + 1, j);
    lemma_total_width_step(regions, j);
    lemma_offsets_ascend(regions, j + 1, regions.len() as int);
    assert(regions.take(regions.len() as int) =~= regions);
}

/// The part of the screen that a region covers: (left, top, right, bottom).
pub open spec fn visible_part(r: RegionRect, width: u32, height: u32) -> Option<
    (int, int, int, int),
> {
    let right = num::int_min(r.x + r.w, width as int);
    let bottom = num::int_min(r.y + r.h, height as int);
    if r.x < right && r.y < bottom {
        Some((r.x as int, r.y as int, right, bottom))
    } else {
        None
    }
}

/// The part of the screen that a region covers, or `None` where it lies outside
/// of the screen.
pub fn source_box(r: &RegionRect, width: u32, height: u32) -> (b: Option<(u32, u32, u32, u32)>)
    ensures
        match b {
            Some(v) => visible_part(*r, width, height) == Some(
                (v.0 as int, v.1 as int, v.2 as int, v.3 as int),
            ),
            None => visible_part(*r, width, height) is None,
        },
{
    let right: u64 = r.x as u64 + r.w as u64;
    let bottom: u64 = r.y as u64 + r.h as u64;
    let right: u32 = if right < width as u64 { right as u32 } else { width };
    let bottom: u32 = if bottom < height as u64 { bottom as u32 } else { height };
    if r.x < right && r.y < bottom {
        Some((r.x, r.y, right, bottom))
    } else {
        None
    }
}

/// A part of the screen that is copied lies on the screen and inside its region.
pub proof fn law_visible_part_is_inside(r: RegionRect, width: u32, height: u32)
    ensures
        match visible_part(r, width, height) {
            Some(b) => r.x <= b.0 < b.2 <= width && r.y <= b.1 < b.3 <= height && b.2 <= r.x + r.w
                && b.3 <= r.y + r.h,
            None => r.w == 0 || r.h == 0 || r.x >= width || r.y >= height,
        },
{
}

/// A buffer of zeros.
pub open spec fn zeros(n: int) -> Seq<u8> {
    Seq::new(n as nat, |i: int| 0u8)
}

/// The buffer of region `i`: that of the slot before where its size fits, else a
/// new one.
pub open spec fn synced_buffer(before: Seq<RegionSlot>, r: RegionRect, i: int) -> Seq<u8> {
    if i < before.len() && before[i].w == r.w && before[i].h == r.h {
        before[i].cpu@
    } else {
        zeros(region_bytes(r))
    }
}

fn zero_buffer(n: usize) -> (r: Vec<u8>)
    ensures
        r@ == zeros(n as int),
{
    let mut r: Vec<u8> = Vec::new();
    for i in 0..n
        invariant
            r@ == zeros(i as int),
    {
        r.push(0);
        assert(r@ =~= zeros(i + 1));
    }
    r
}

/// The texture that a frame is copied into after `n` frames.
pub open spec fn written_to(n: int) -> int {
    n % 2
}

/// The texture that is read while that frame is copied.
pub open spec fn read_from(n: int) -> int {
    (n + 1) % 2
}

impl Staging {
    /// The buffers have the sizes of their regions.
    pub open spec fn wf(self) -> bool {
        forall|i: int|
            0 <= i < self.slots@.len() ==> (#[trigger] self.slots@[i]).cpu@.len()
                == self.slots@[i].w * self.slots@[i].h * 4
    }

    /// The regions of the slots lie in the texture.
    pub open spec fn fits(self) -> bool {
        forall|i: int|
            0 <= i < self.slots@.len() ==> (#[trigger] self.slots@[i]).x_offset + self.slots@[i].w
                <= self.w && self.slots@[i].h <= self.h
    }

    /// No textures yet.
    pub fn new() -> (r: Staging)
        ensures
            r.w == 0,
            r.h == 0,
            r.acquired_seq == 0,
            r.slots@.len() == 0,
            r.wf(),
            r.fits(),
    {
        Staging { w: 0, h: 0, acquired_seq: 0, slots: Vec::new() }
    }

    /// Whether new textures are needed for the regions.
    pub open spec fn plan_for(self, regions: Seq<RegionRect>) -> StagingPlan {
        let w = total_width(regions);
        let h = max_height(regions);
        if w == 0 || h == 0 {
            StagingPlan::Nothing
        } else if self.w < w || self.h < h {
            StagingPlan::Create(w as u32, h as u32)
        } else {
            StagingPlan::Keep
        }
    }

    /// Whether new textures are needed for the regions.
    pub fn plan(&self, regions: &Vec<RegionRect>) -> (r: StagingPlan)
        requires
            total_width(regions@) <= u32::MAX,
        ensures
            r == self.plan_for(regions@),
    {
        let mut total_w: u32 = 0;
        let mut max_h: u32 = 0;
        for i in 0..regions.len()
            invariant
                total_width(regions@) <= u32::MAX,
                total_w == offset_of(regions@, i as int),
                max_h == max_height(regions@.take(i as int)),
        {
            proof {
                lemma_total_width_step(regions@, i as int);
                lemma_offsets_ascend(regions@, i + 1, regions@.len() as int);
                assert(regions@.take(regions@.len() as int) =~= regions@);
                assert(regions@.take(i + 1).drop_last() =~= regions@.take(i as int));
            }
            total_w = total_w + regions[i].w;
            if regions[i].h > max_h {
                max_h = regions[i].h;
            }
        }
        assert(regions@.take(regions@.len() as int) =~= regions@);
        if total_w == 0 || max_h == 0 {
            StagingPlan::Nothing
        } else if self.w < total_w || self.h < max_h {
            StagingPlan::Create(total_w, max_h)
        } else {
            StagingPlan::Keep
        }
    }

    /// Brings the state in line with the regions, once the textures that the
    /// plan asks for are made. New textures start with no frame copied.
    pub fn ensure_staging(&mut self, regions: &Vec<RegionRect>)
        requires
            old(self).wf(),
            total_width(regions@) <= u32::MAX,
            forall|i: int|
                0 <= i < regions@.len() ==> region_bytes(#[trigger] regions@[i]) <= u32::MAX,
        ensures
            final(self).wf(),
            match old(self).plan_for(regions@) {
                StagingPlan::Nothing => *final(self) == *old(self),
                StagingPlan::Keep => final(self).w == old(self).w && final(self).h == old(self).h
                    && final(self).acquired_seq == old(self).acquired_seq,
                StagingPlan::Create(w, h) => final(self).w == w && final(self).h == h
                    && final(self).acquired_seq == 0,
            },
            old(self).plan_for(regions@) != StagingPlan::Nothing ==> {
                &&& final(self).fits()
                &&& final(self).slots@.len() == regions@.len()
                &&& forall|i: int|
                    0 <= i < regions@.len() ==> {
                        &&& (#[trigger] final(self).slots@[i]).x_offset == offset_of(regions@, i)
                        &&& final(self).slots@[i].w == regions@[i].w
                        &&& final(self).slots@[i].h == regions@[i].h
                        &&& final(self).slots@[i].cpu@ == synced_buffer(
                            old(self).slots@,
                            regions@[i],
                            i,
                        )
                    }
            },
    {
        match self.plan(regions) {
            StagingPlan::Nothing => {
                return;
            },
            StagingPlan::Keep => {},
            StagingPlan::Create(w, h) => {
                self.w = w;
                self.h = h;
                self.acquired_seq = 0;
            },
        }
        proof {
            lemma_max_height_bound(regions@);
            lemma_offsets_ascend(regions@, 0, regions@.len() as int);
            assert(regions@.take(regions@.len() as int) =~= regions@);
        }
        let ghost before = old(self).slots@;
        self.slots.truncate(regions.len());
        let ghost kept = self.slots@.len();
        while self.slots.len() < regions.len()
            invariant
                kept <= self.slots@.len() <= regions@.len(),
                kept <= before.len(),
                kept == num::int_min(before.len() as int, regions@.len() as int),
                forall|i: int| 0 <= i < kept ==> #[trigger] self.slots@[i] == before[i],
                forall|i: int|
                    kept <= i < self.slots@.len() ==> (#[trigger] self.slots@[i]).w == 0
                        && self.slots@[i].h == 0 && self.slots@[i].cpu@ == Seq::<u8>::empty(),
                self.w >= total_width(regions@),
                self.h >= max_height(regions@),
                match old(self).plan_for(regions@) {
                    StagingPlan::Nothing => false,
                    StagingPlan::Keep => self.w == old(self).w && self.h == old(self).h
                        && self.acquired_seq == old(self).acquired_seq,
                    StagingPlan::Create(w, h) => self.w == w && self.h == h && self.acquired_seq
                        == 0,
                },
            decreases regions@.len() - self.slots@.len(),
        {
            self.slots.push(RegionSlot { cpu: Vec::new(), w: 0, h: 0, x_offset: 0 });
        }
        let ghost mid = self.slots@;
        let mut x_off: u32 = 0;
        for i in 0..regions.len()
            invariant
                self.slots@.len() == regions@.len(),
                mid.len() == regions@.len(),
                old(self).wf(),
                before == old(self).slots@,
                kept == num::int_min(before.len() as int, regions@.len() as int),
                forall|j: int| 0 <= j < kept ==> #[trigger] mid[j] == before[j],
                forall|j: int|
                    kept <= j < mid.len() ==> (#[trigger] mid[j]).w == 0 && mid[j].h == 0
                        && mid[j].cpu@ == Seq::<u8>::empty(),
                total_width(regions@) <= u32::MAX,
                forall|j: int|
                    0 <= j < regions@.len() ==> region_bytes(#[trigger] regions@[j]) <= u32::MAX,
                x_off == offset_of(regions@, i as int),
                self.w >= total_width(regions@),
                self.h >= max_height(regions@),
                match old(self).plan_for(regions@) {
                    StagingPlan::Nothing => false,
                    StagingPlan::Keep => self.w == old(self).w && self.h == old(self).h
                        && self.acquired_seq == old(self).acquired_seq,
                    StagingPlan::Create(w, h) => self.w == w && self.h == h && self.acquired_seq
                        == 0,
                },
                forall|j: int| i <= j < mid.len() ==> #[trigger] self.slots@[j] == mid[j],
                forall|j: int|
                    0 <= j < i ==> {
                        &&& (#[trigger] self.slots@[j]).x_offset == offset_of(regions@, j)
                        &&& self.slots@[j].w == regions@[j].w
                        &&& self.slots@[j].h == regions@[j].h
                        &&& self.slots@[j].cpu@ == synced_buffer(before, regions@[j], j)
                        &&& self.slots@[j].cpu@.len() == region_bytes(regions@[j])
                    },
        {
            let r: RegionRect = regions[i];
            proof {
                lemma_total_width_step(regions@, i as int);
                lemma_offsets_ascend(regions@, i + 1, regions@.len() as int);
                assert(regions@.take(regions@.len() as int) =~= regions@);
                assert(self.slots@[i as int] == mid[i as int]);
                assert(region_bytes(regions@[i as int]) <= u32::MAX);
                assert(r.w * r.h >= 0) by (nonlinear_arith)
                    requires
                        r.w >= 0,
                        r.h >= 0,
                ;
                if i < kept {
                    assert(mid[i as int] == before[i as int]);
                } else {
                    assert(r.w == 0 && r.h == 0 ==> r.w * r.h == 0) by (nonlinear_arith);
                    assert(zeros(0) =~= Seq::<u8>::empty());
                }
            }
            self.slots[i].x_offset = x_off;
            if self.slots[i].w != r.w || self.slots[i].h != r.h {
                self.slots[i].w = r.w;
                self.slots[i].h = r.h;
                let fresh: Vec<u8> = zero_buffer((r.w * r.h * 4) as usize);
                self.slots[i].cpu = fresh;
            }
            x_off = x_off + r.w;
        }
        proof {
            assert forall|i: int| 0 <= i < self.slots@.len() implies (#[trigger] self.slots@[
                i
            ]).x_offset + self.slots@[i].w <= self.w && self.slots@[i].h <= self.h by {
                lemma_total_width_step(regions@, i);
                lemma_offsets_ascend(regions@, i + 1, regions@.len() as int);
                assert(regions@.take(regions@.len() as int) =~= regions@);
                lemma_max_height(regions@, i);
            }
        }
    }

    /// The textures that the next frame is copied into and that the frame before
    /// is read from.
    pub fn buffer_indices(&self) -> (r: (usize, usize))
        requires
            self.acquired_seq < u64::MAX,
        ensures
            r.0 == written_to(self.acquired_seq as int),
            r.1 == read_from(self.acquired_seq as int),
    {
        ((self.acquired_seq % 2) as usize, ((self.acquired_seq + 1) % 2) as usize)
    }

    /// Counts a frame that was copied; returns whether there is a frame before
    /// it to read back.
    pub fn frame_copied(&mut self) -> (r: bool)
        requires
            old(self).acquired_seq < u64::MAX,
        ensures
            *final(self) == (Staging {
                acquired_seq: (old(self).acquired_seq + 1) as u64,
                slots: final(self).slots,
                ..*old(self)
            }),
            final(self).slots == old(self).slots,
            r == (old(self).acquired_seq >= 1),
    {
        self.acquired_seq = self.acquired_seq + 1;
        self.acquired_seq > 1
    }

    /// Forgets textures and buffers, after the session was made anew.
    pub fn reset(&mut self)
        ensures
            final(self).w == 0,
            final(self).h == 0,
            final(self).acquired_seq == 0,
            final(self).slots@.len() == 0,
            final(self).wf(),
            final(self).fits(),
    {
        self.w = 0;
        self.h = 0;
        self.acquired_seq = 0;
        self.slots = Vec::new();
    }

    /// Copies the regions out of the texture. `mapped` holds the rows of the
    /// texture, each `row_pitch` bytes after the one before.
    pub fn read_back(&mut self, mapped: &[u8], row_pitch: usize)
        requires
            old(self).wf(),
            old(self).fits(),
            row_pitch >= old(self).w * 4,
            old(self).h * row_pitch <= mapped@.len(),
        ensures
            final(self).wf(),
            final(self).fits(),
            final(self).w == old(self).w,
            final(self).h == old(self).h,
            final(self).acquired_seq == old(self).acquired_seq,
            final(self).slots@.len() == old(self).slots@.len(),
            forall|i: int|
                0 <= i < old(self).slots@.len() ==> {
                    &&& (#[trigger] final(self).slots@[i]).w == old(self).slots@[i].w
                    &&& final(self).slots@[i].h == old(self).slots@[i].h
                    &&& final(self).slots@[i].x_offset == old(self).slots@[i].x_offset
                    &&& final(self).slots@[i].cpu@ == cut_out(
                        mapped@,
                        row_pitch as int,
                        old(self).slots@[i].x_offset as int,
                        old(self).slots@[i].w as int,
                        old(self).slots@[i].h as int,
                    )
                },
    {
        let n: usize = self.slots.len();
        for i in 0..n
            invariant
                n == self.slots@.len(),
                n == old(self).slots@.len(),
                old(self).wf(),
                old(self).fits(),
                row_pitch >= old(self).w * 4,
                old(self).h * row_pitch <= mapped@.len(),
                self.w == old(self).w,
                self.h == old(self).h,
                self.acquired_seq == old(self).acquired_seq,
                forall|j: int| i <= j < n ==> #[trigger] self.slots@[j] == old(self).slots@[j],
                forall|j: int|
                    0 <= j < i ==> {
                        &&& (#[trigger] self.slots@[j]).w == old(self).slots@[j].w
                        &&& self.slots@[j].h == old(self).slots@[j].h
                        &&& self.slots@[j].x_offset == old(self).slots@[j].x_offset
                        &&& self.slots@[j].cpu@ == cut_out(
                            mapped@,
                            row_pitch as int,
                            old(self).slots@[j].x_offset as int,
                            old(self).slots@[j].w as int,
                            old(self).slots@[j].h as int,
                        )
                    },
        {
            assert(self.slots@[i as int] == old(self).slots@[i as int]);
            let buf: Vec<u8> = cut_rows(
                mapped,
                row_pitch,
                self.slots[i].x_offset,
                self.slots[i].w,
                self.slots[i].h,
                Ghost(self.w as int),
                Ghost(self.h as int),
            );
            self.slots[i].cpu = buf;
        }
        proof {
            assert forall|i: int| 0 <= i < self.slots@.len() implies (#[trigger] self.slots@[
                i
            ]).cpu@.len() == self.slots@[i].w * self.slots@[i].h * 4 by {
                let s = old(self).slots@[i];
                assert(s.h * row_pitch <= self.h * row_pitch) by (nonlinear_arith)
                    requires
                        s.h <= self.h,
                        row_pitch >= 0,
                ;
                lemma_cut_len(mapped@, row_pitch as int, s.x_offset as int, s.w as int, s.h as int);
            }
        }
    }

    /// The data of the regions.
    pub fn frames(&self) -> (r: Vec<RegionFrame<'_>>)
        ensures
            r@.len() == self.slots@.len(),
            forall|i: int|
                0 <= i < r@.len() ==> (#[trigger] r@[i]).data@ == self.slots@[i].cpu@ && r@[i].w
                    == self.slots@[i].w && r@[i].h == self.slots@[i].h,
    {
        let mut r: Vec<RegionFrame<'_>> = Vec::new();
        for i in 0..self.slots.len()
            invariant
                r@.len() == i,
                forall|j: int|
                    0 <= j < i ==> (#[trigger] r@[j]).data@ == self.slots@[j].cpu@ && r@[j].w
                        == self.slots@[j].w && r@[j].h == self.slots@[j].h,
        {
            r.push(
                RegionFrame {
                    data: self.slots[i].cpu.as_slice(),
                    w: self.slots[i].w,
                    h: self.slots[i].h,
                },
            );
        }
        r
    }
}

proof fn lemma_max_height_bound(regions: Seq<RegionRect>)
    ensures
        0 <= max_height(regions) <= u32::MAX,
    decreases regions.len(),
{
    if regions.len() > 0 {
        lemma_max_height_bound(regions.drop_last());
    }
}

proof fn lemma_max_height(regions: Seq<RegionRect>, i: int)
    requires
        0 <= i < regions.len(),
    ensures
        regions[i].h <= max_height(regions),
    decreases regions.len(),
{
    if i < regions.len() - 1 {
        lemma_max_height(regions.drop_last(), i);
        assert(regions.drop_last()[i] == regions[i]);
    }
}

/// The first `h` rows of the region of width `w` that begins at `x` in a texture
/// with rows of `pitch` bytes.
pub open spec fn cut_out(mapped: Seq<u8>, pitch: int, x: int, w: int, h: int) -> Seq<u8>
    decreases h,
{
    if h <= 0 {
        Seq::empty()
    } else {
        cut_out(mapped, pitch, x, w, h - 1) + mapped.subrange(
            (h - 1) * pitch + x * 4,
            (h - 1) * pitch + x * 4 + w * 4,
        )
    }
}

proof fn lemma_cut_len(mapped: Seq<u8>, pitch: int, x: int, w: int, h: int)
    requires
        0 <= w,
        0 <= h,
        0 <= x,
        x * 4 + w * 4 <= pitch,
        h * pitch <= mapped.len(),
    ensures
        cut_out(mapped, pitch, x, w, h).len() == w * h * 4,
    decreases h,
{
    if h > 0 {
        assert(h * pitch == (h - 1) * pitch + pitch && 0 <= (h - 1) * pitch) by (nonlinear_arith)
            requires
                h >= 1,
                pitch >= 0,
        ;
        lemma_cut_len(mapped, pitch, x, w, h - 1);
        assert(w * h * 4 == w * (h - 1) * 4 + w * 4) by (nonlinear_arith);
    } else {
        assert(w * h == 0) by (nonlinear_arith)
            requires
                h == 0,
        ;
    }
}

fn cut_rows(
    mapped: &[u8],
    pitch: usize,
    x: u32,
    w: u32,
    h: u32,
    Ghost(tw): Ghost<int>,
    Ghost(th): Ghost<int>,
) -> (r: Vec<u8>)
    requires
        x + w <= tw,
        h <= th,
        pitch >= tw * 4,
        th * pitch <= mapped@.len(),
    ensures
        r@ == cut_out(mapped@, pitch as int, x as int, w as int, h as int),
{
    let mut r: Vec<u8> = Vec::new();
    let total: usize = mapped.len();
    let mut row: u32 = 0;
    while row < h
        invariant
            x + w <= tw,
            h <= th,
            pitch >= tw * 4,
            th * pitch <= mapped@.len(),
            total == mapped@.len(),
            row <= h,
            r@ == cut_out(mapped@, pitch as int, x as int, w as int, row as int),
        decreases h - row,
    {
        proof {
            assert(0 <= row * pitch && row * pitch + pitch <= th * pitch) by (nonlinear_arith)
                requires
                    0 <= row,
                    row + 1 <= th,
                    0 <= pitch,
            ;
        }
        let base: usize = row as usize * pitch + x as usize * 4;
        let n: usize = w as usize * 4;
        let ghost before = r@;
        for k in 0..n
            invariant
                n == w * 4,
                base + n <= mapped@.len(),
                total == mapped@.len(),
                r@ == before + mapped@.subrange(base as int, base + k),
        {
            r.push(mapped[base + k]);
            assert(r@ =~= before + mapped@.subrange(base as int, base + k + 1));
        }
        row = row + 1;
    }
    r
}

/// While a frame is copied into one texture, the frame before is read from the
/// one that it was copied into.
pub proof fn law_read_what_was_written(n: int)
    requires
        n >= 1,
    ensures
        read_from(n) == written_to(n - 1),
        read_from(n) != written_to(n),
{
}

// ===== Regions of several configs =====

/// The source regions of a config.
pub open spec fn source_rects(regions: Seq<CaptureRegion>) -> Seq<RegionRect> {
    regions.map_values(
        |r: CaptureRegion|
            RegionRect { x: r.source.x, y: r.source.y, w: r.source.width, h: r.source.height },
    )
}

/// Appends the source regions of a config; returns where they begin.
pub fn append_regions(all: &mut Vec<RegionRect>, cfg: &Config) -> (r: usize)
    ensures
        r == old(all)@.len(),
        final(all)@ == old(all)@ + source_rects(cfg.capture_regions@),
{
    let start: usize = all.len();
    let ghost add = source_rects(cfg.capture_regions@);
    assert(all@ =~= old(all)@ + add.take(0));
    for i in 0..cfg.capture_regions.len()
        invariant
            add == source_rects(cfg.capture_regions@),
            all@ == old(all)@ + add.take(i as int),
    {
        let s = cfg.capture_regions[i].source;
        all.push(RegionRect { x: s.x, y: s.y, w: s.width, h: s.height });
        assert(all@ =~= old(all)@ + add.take(i + 1));
    }
    assert(add.take(add.len() as int) =~= add);
    start
}

/// The range of frames that belongs to config `i`: `offsets` says where the
/// frames of each config begin.
pub fn frame_range(offsets: &Vec<usize>, total: usize, i: usize) -> (r: (usize, usize))
    requires
        i < offsets@.len(),
    ensures
        r.0 == offsets@[i as int],
        r.1 == (if i + 1 < offsets@.len() { offsets@[i + 1] } else { total }),
{
    let n: usize = offsets.len();
    (offsets[i], if i + 1 < n { offsets[i + 1] } else { total })
}

// ===== Refresh rates =====

/// A display mode: width, height, and the refresh rate as a fraction.
pub type Mode = (u32, u32, u32, u32);

/// Whether a mode has the given size and a refresh rate.
pub open spec fn is_candidate(m: Mode, w: u32, h: u32) -> bool {
    m.0 == w && m.1 == h && m.3 != 0
}

/// Whether the refresh rate of `a` is higher than that of `b`.
pub open spec fn is_faster(a: (u32, u32), b: (u32, u32)) -> bool {
    a.0 * b.1 > b.0 * a.1
}

/// Whether mode `k` is the fastest of the given size: no other is faster, and
/// those before it are slower.
pub open spec fn is_fastest(modes: Seq<Mode>, w: u32, h: u32, k: int) -> bool {
    &&& is_candidate(modes[k], w, h)
    &&& forall|j: int|
        0 <= j < modes.len() && is_candidate(#[trigger] modes[j], w, h) ==> !is_faster(
            (modes[j].2, modes[j].3),
            (modes[k].2, modes[k].3),
        )
    &&& forall|j: int|
        0 <= j < k && is_candidate(#[trigger] modes[j], w, h) ==> is_faster(
            (modes[k].2, modes[k].3),
            (modes[j].2, modes[j].3),
        )
}

/// The highest refresh rate among the modes of the given size, as the first mode
/// that has it writes it.
pub fn best_refresh(modes: &Vec<(u32, u32, u32, u32)>, w: u32, h: u32) -> (r: Option<(u32, u32)>)
    ensures
        match r {
            Some(b) => exists|k: int|
                0 <= k < modes@.len() && #[trigger] is_fastest(modes@, w, h, k) && (
                modes@[k].2,
                modes@[k].3,
            ) == b,
            None => forall|k: int|
                0 <= k < modes@.len() ==> !is_candidate(#[trigger] modes@[k], w, h),
        },
{
    let mut best: Option<usize> = None;
    for i in 0..modes.len()
        invariant
            match best {
                Some(k) => k < i && is_fastest(modes@.take(i as int), w, h, k as int),
                None => forall|k: int| 0 <= k < i ==> !is_candidate(#[trigger] modes@[k], w, h),
            },
    {
        let m: (u32, u32, u32, u32) = modes[i];
        let ghost s = modes@.take(i as int);
        let ghost t = modes@.take(i + 1);
        proof {
            assert forall|j: int| 0 <= j < i implies #[trigger] t[j] == s[j] by {}
        }
        if m.0 == w && m.1 == h && m.3 != 0 {
            let better: bool = match best {
                None => true,
                Some(k) => {
                    let b: (u32, u32, u32, u32) = modes[k];
                    proof {
                        lemma_product(m.2 as int, b.3 as int);
                        lemma_product(b.2 as int, m.3 as int);
                    }
                    m.2 as u64 * b.3 as u64 > b.2 as u64 * m.3 as u64
                },
            };
            if better {
                proof {
                    assert(t[i as int] == m);
                    assert forall|j: int|
                        0 <= j < t.len() && is_candidate(#[trigger] t[j], w, h) implies !is_faster(
                        (t[j].2, t[j].3),
                        (m.2, m.3),
                    ) && (j < i ==> is_faster((m.2, m.3), (t[j].2, t[j].3))) by {
                        if j < i {
                            assert(is_candidate(s[j], w, h));
                            assert(is_candidate(modes@[j], w, h));
                            if let Some(k) = best {
                                lemma_faster_transitive(
                                    (t[j].2, t[j].3),
                                    (s[k as int].2, s[k as int].3),
                                    (m.2, m.3),
                                );
                            }
                        }
                    }
                }
                best = Some(i);
            } else {
                proof {
                    if let Some(k) = best {
                        assert(is_fastest(t, w, h, k as int));
                    }
                }
            }
        } else {
            proof {
                if let Some(k) = best {
                    assert(!is_candidate(t[i as int], w, h));
                    assert(is_fastest(t, w, h, k as int));
                }
            }
        }
    }
    assert(modes@.take(modes@.len() as int) =~= modes@);
    match best {
        Some(k) => Some((modes[k].2, modes[k].3)),
        None => None,
    }
}

proof fn lemma_product(a: int, b: int)
    requires
        0 <= a <= 0xffff_ffff,
        0 <= b <= 0xffff_ffff,
    ensures
        0 <= a * b <= 0xffff_ffff * 0xffff_ffff,
{
    assert(0 <= a * b <= 0xffff_ffff * 0xffff_ffff) by (nonlinear_arith)
        requires
            0 <= a <= 0xffff_ffff,
            0 <= b <= 0xffff_ffff,
    ;
}

proof fn lemma_faster_transitive(a: (u32, u32), b: (u32, u32), c: (u32, u32))
    requires
        !is_faster(a, b),
        is_faster(c, b),
        a.1 != 0,
        b.1 != 0,
        c.1 != 0,
    ensures
        !is_faster(a, c),
        is_faster(c, a),
{
    let (an, ad, bn, bd, cn, cd) = (
        a.0 as int,
        a.1 as int,
        b.0 as int,
        b.1 as int,
        c.0 as int,
        c.1 as int,
    );
    assert(an * cd < cn * ad) by (nonlinear_arith)
        requires
            an * bd <= bn * ad,
            bn * cd < cn * bd,
            ad > 0,
            bd > 0,
            cd > 0,
            an >= 0,
            bn >= 0,
            cn >= 0,
    {
        assert((an * bd) * cd <= (bn * ad) * cd);
        assert((bn * cd) * ad < (cn * bd) * ad);
        assert(bd * (an * cd) < bd * (cn * ad));
    }
}

// ===== Laws of the layout =====

/// The regions lie side by side without a gap: the first begins at zero, each
/// next where the one before ends, and the total width ends the last. The height
/// is that of the highest.
pub proof fn law_regions_touch(regions: Seq<RegionRect>, r: RegionRect, i: int)
    requires
        0 <= i < regions.len(),
    ensures
        offset_of(regions, 0) == 0,
        offset_of(regions, i + 1) == offset_of(regions, i) + regions[i].w,
        offset_of(regions, regions.len() as int) == total_width(regions),
        total_width(regions.push(r)) == total_width(regions) + r.w,
        regions[i].h <= max_height(regions),
        max_height(regions.push(r)) == r.h || max_height(regions.push(r)) == max_height(regions),
        max_height(Seq::empty()) == 0,
{
    lemma_total_width_step(regions, i);
    lemma_max_height(regions, i);
    assert(regions.take(regions.len() as int) =~= regions);
    assert(regions.take(0) =~= Seq::<RegionRect>::empty());
    assert(regions.push(r).drop_last() =~= regions);
}

/// All of a region that lies on the screen is copied: the part begins at its
/// corner and ends where the region does, or where the screen does.
pub proof fn law_visible_part_is_all(r: RegionRect, width: u32, height: u32)
    ensures
        match visible_part(r, width, height) {
            Some(b) => {
                &&& b.0 == r.x && b.1 == r.y
                &&& r.x + r.w <= width ==> b.2 == r.x + r.w
                &&& r.x + r.w > width ==> b.2 == width
                &&& r.y + r.h <= height ==> b.3 == r.y + r.h
                &&& r.y + r.h > height ==> b.3 == height
            },
            None => true,
        },
        r.w > 0 && r.h > 0 && r.x < width && r.y < height ==> visible_part(r, width, height) is Some,
{
}

/// A buffer of the right size is kept with what it holds; any other is made anew,
/// four zero bytes for each pixel.
pub proof fn law_buffers_are_kept(before: Seq<RegionSlot>, r: RegionRect, i: int, b: int)
    requires
        0 <= i,
        0 <= b < r.w * r.h * 4,
    ensures
        i < before.len() && before[i].w == r.w && before[i].h == r.h ==> synced_buffer(before, r, i)
            == before[i].cpu@,
        i >= before.len() || before[i].w != r.w || before[i].h != r.h ==> synced_buffer(
            before,
            r,
            i,
        ).len() == r.w * r.h * 4 && synced_buffer(before, r, i)[b] == 0,
{
}

/// The two textures take turns.
pub proof fn law_textures_take_turns(n: int)
    requires
        n >= 0,
    ensures
        0 <= written_to(n) < 2,
        0 <= read_from(n) < 2,
        written_to(n + 2) == written_to(n),
        written_to(n + 1) == read_from(n),
        written_to(0) == 0,
{
}

/// Textures are made only where there is something to capture that does not fit
/// into those that there are, and then just as large as it takes.
pub proof fn law_textures_fit(s: Staging, regions: Seq<RegionRect>)
    requires
        total_width(regions) <= u32::MAX,
    ensures
        match s.plan_for(regions) {
            StagingPlan::Nothing => total_width(regions) == 0 || max_height(regions) == 0,
            StagingPlan::Keep => total_width(regions) > 0 && max_height(regions) > 0 && s.w
                >= total_width(regions) && s.h >= max_height(regions),
            StagingPlan::Create(w, h) => w == total_width(regions) && h == max_height(regions) && w
                > 0 && h > 0 && (s.w < w || s.h < h),
        },
{
    lemma_max_height_bound(regions);
    lemma_offsets_ascend(regions, 0, regions.len() as int);
    assert(regions.take(regions.len() as int) =~= regions);
    assert(regions.take(0) =~= Seq::<RegionRect>::empty());
}

/// Reading a region back takes its pixels out of the texture row by row: byte
/// `b` of row `y` of the region is the one that lies `b` behind the beginning of
/// the region in that row of the texture.
pub proof fn law_cut_takes_the_region(
    mapped: Seq<u8>,
    pitch: int,
    x: int,
    w: int,
    h: int,
    y: int,
    b: int,
)
    requires
        0 <= x,
        x * 4 + w * 4 <= pitch,
        h * pitch <= mapped.len(),
        0 <= y < h,
        0 <= b < w * 4,
    ensures
        cut_out(mapped, pitch, x, w, h).len() == w * h * 4,
        cut_out(mapped, pitch, x, w, h)[y * w * 4 + b] == mapped[y * pitch + x * 4 + b],
    decreases h,
{
    lemma_cut_len(mapped, pitch, x, w, h);
    assert((h - 1) * pitch <= h * pitch) by (nonlinear_arith)
        requires
            pitch >= 0,
            h >= 1,
    ;
    assert((h - 1) * pitch + pitch == h * pitch) by (nonlinear_arith);
    assert(0 <= (h - 1) * pitch) by (nonlinear_arith)
        requires
            h >= 1,
            pitch >= 0,
    ;
    lemma_cut_len(mapped, pitch, x, w, h - 1);
    let before = cut_out(mapped, pitch, x, w, h - 1);
    assert(w * (h - 1) * 4 == (h - 1) * w * 4) by (nonlinear_arith);
    if y < h - 1 {
        assert(y * w * 4 + w * 4 <= (h - 1) * w * 4) by (nonlinear_arith)
            requires
                y + 1 <= h - 1,
                w >= 0,
        ;
        assert(0 <= y * w * 4) by (nonlinear_arith)
            requires
                y >= 0,
                w >= 0,
        ;
        law_cut_takes_the_region(mapped, pitch, x, w, h - 1, y, b);
        assert(cut_out(mapped, pitch, x, w, h)[y * w * 4 + b] == before[y * w * 4 + b]);
    } else {
        assert(cut_out(mapped, pitch, x, w, h)[y * w * 4 + b] == mapped.subrange(
            (h - 1) * pitch + x * 4,
            (h - 1) * pitch + x * 4 + w * 4,
        )[b]);
    }
}

/// Rates are compared as fractions, and only modes of the size that have a rate
/// are.
pub proof fn law_rates_are_fractions(m: Mode, w: u32, h: u32, a: (u32, u32), b: (u32, u32))
    ensures
        is_candidate(m, w, h) == (m.0 == w && m.1 == h && m.3 > 0),
        is_faster(a, b) == (a.0 * b.1 > b.0 * a.1),
        is_faster(a, b) ==> !is_faster(b, a),
{
}

/// The source regions of a config are those of its regions, one for one.
pub proof fn law_source_regions(regions: Seq<CaptureRegion>, i: int)
    requires
        0 <= i < regions.len(),
    ensures
        source_rects(regions).len() == regions.len(),
        source_rects(regions)[i].x == regions[i].source.x,
        source_rects(regions)[i].y == regions[i].source.y,
        source_rects(regions)[i].w == regions[i].source.width,
        source_rects(regions)[i].h == regions[i].source.height,
{
}

} // verus!
