//! Hardware-encoder adapter: frame-object pooling, presentation-timestamp
//! derivation, and packet draining.
//!
//! The adapter prepares one pooled frame object per submission: it copies the
//! raw bytes into the object's single plane (the pixel format matches the
//! capture format bit for bit, so no conversion happens here) and derives the
//! presentation timestamp from a fixed-rate frame-index counter, which keeps
//! timestamps strictly monotone where rescaling a wall clock could not. The
//! encoder itself runs outside; the caller pushes the prepared object to it,
//! reports when the encoder releases an object, and hands drained packets
//! back for concatenation.

use vstd::prelude::*;

verus! {

/// Numerator of the encoder time base.
pub const TIME_BASE_NUM: u32 = 1;

/// Denominator of the encoder time base: ticks per second.
pub const TIME_BASE_DEN: u32 = 90000;

/// Target frame cadence, frames per second.
pub const FRAME_RATE: u32 = 30;

/// Encoder ticks between two consecutive frames.
pub const TICKS_PER_FRAME: u64 = 3000;

/// Bytes per pixel of the packed capture format.
pub const BYTES_PER_PIXEL: u32 = 4;

/// Largest frame index whose timestamp still fits the encoder's signed
/// 64-bit tick count.
pub const FRAME_INDEX_LIMIT: u64 = 3074457345618258;

/// Fixed encoder configuration, chosen at construction and passed through
/// opaquely to the encoder.
pub struct EncoderConfig {
    pub codec: String,
    pub pixel_format: String,
    pub width: u32,
    pub height: u32,
    pub time_base_num: u32,
    pub time_base_den: u32,
    pub options: Vec<(String, String)>,
}

/// The configuration the pipeline runs with: H.264 on the GPU vendor's
/// encoder, packed BGRA pass-through, and low-latency tuning with per-frame
/// output.
pub fn default_config(width: u32, height: u32) -> (r: EncoderConfig)
    ensures
        r.codec@ == "h264_nvenc"@,
        r.pixel_format@ == "bgr0"@,
        r.width == width,
        r.height == height,
        r.time_base_num == TIME_BASE_NUM,
        r.time_base_den == TIME_BASE_DEN,
        r.options@.len() == 5,
        r.options@[0].0@ == "profile"@ && r.options@[0].1@ == "baseline"@,
        r.options@[1].0@ == "preset"@ && r.options@[1].1@ == "p7"@,
        r.options@[2].0@ == "tune"@ && r.options@[2].1@ == "ll"@,
        r.options@[3].0@ == "zerolatency"@ && r.options@[3].1@ == "true"@,
        r.options@[4].0@ == "forced-idr"@ && r.options@[4].1@ == "true"@,
{
    let mut options: Vec<(String, String)> = Vec::new();
    options.push((String::from_str("profile"), String::from_str("baseline")));
    options.push((String::from_str("preset"), String::from_str("p7")));
    options.push((String::from_str("tune"), String::from_str("ll")));
    options.push((String::from_str("zerolatency"), String::from_str("true")));
    options.push((String::from_str("forced-idr"), String::from_str("true")));
    EncoderConfig {
        codec: String::from_str("h264_nvenc"),
        pixel_format: String::from_str("bgr0"),
        width,
        height,
        time_base_num: TIME_BASE_NUM,
        time_base_den: TIME_BASE_DEN,
        options,
    }
}

/// Availability of one pooled frame object.
#[derive(Clone, Copy, PartialEq, Eq, Structural, Debug)]
pub enum SlotState {
    /// In the pool, free to be reused.
    Free,
    /// Exclusively held by the encoder since its submission.
    InFlight,
}

/// Arena of reusable frame buffers, indexed by availability. An object moves
/// to `InFlight` when handed to the encoder and back to `Free` only on the
/// encoder's completion signal.
pub struct FramePool {
    planes: Vec<Vec<u8>>,
    states: Vec<SlotState>,
    frame_size: usize,
}

impl FramePool {
    /// Byte length of every plane in this pool.
    pub closed spec fn frame_size(&self) -> nat {
        self.frame_size as nat
    }

    /// Number of pooled objects.
    pub closed spec fn size(&self) -> nat {
        self.planes@.len()
    }

    /// Availability of the object at `i`.
    pub closed spec fn slot_state(&self, i: int) -> SlotState {
        self.states@[i]
    }

    /// Plane contents of the object at `i`.
    pub closed spec fn plane(&self, i: int) -> Seq<u8> {
        self.planes@[i]@
    }

    /// Each object has one availability state and a plane of the pool's
    /// frame size.
    pub closed spec fn wf(&self) -> bool {
        &&& self.states@.len() == self.planes@.len()
        &&& forall|i: int|
            0 <= i < self.planes@.len() ==> (#[trigger] self.planes@[i])@.len()
                == self.frame_size as nat
    }

    /// An empty pool for planes of `frame_size` bytes.
    pub fn new(frame_size: usize) -> (r: Self)
        ensures
            r.wf(),
            r.size() == 0,
            r.frame_size() == frame_size,
    {
        FramePool { planes: Vec::new(), states: Vec::new(), frame_size }
    }

    /// Number of pooled objects, as a count.
    pub fn slot_count(&self) -> (r: usize)
        ensures
            r == self.size(),
    {
        self.planes.len()
    }

    /// Whether the object at `idx` is free for reuse.
    pub fn slot_free(&self, idx: usize) -> (r: bool)
        requires
            self.wf(),
            (idx as int) < self.size(),
        ensures
            r == (self.slot_state(idx as int) == SlotState::Free),
    {
        match self.states[idx] {
            SlotState::Free => true,
            SlotState::InFlight => false,
        }
    }

    /// A copy of the plane bytes of the object at `idx`.
    pub fn plane_copy(&self, idx: usize) -> (r: Vec<u8>)
        requires
            self.wf(),
            (idx as int) < self.size(),
        ensures
            r@ == self.plane(idx as int),
    {
        vstd::slice::slice_to_vec(self.planes[idx].as_slice())
    }

    /// Takes an object for the next frame: a free one when the pool holds
    /// one, else a fresh blank object. Never an object the encoder still
    /// holds: the result was free or is new.
    pub fn acquire(&mut self) -> (idx: usize)
        requires
            old(self).wf(),
        ensures
            final(self).wf(),
            final(self).frame_size() == old(self).frame_size(),
            (idx as int) < final(self).size(),
            (idx as int) < old(self).size() ==> {
                &&& old(self).slot_state(idx as int) == SlotState::Free
                &&& final(self).size() == old(self).size()
                &&& final(self).plane(idx as int) == old(self).plane(idx as int)
            },
            (idx as int) >= old(self).size() ==> {
                &&& idx as int == old(self).size()
                &&& final(self).size() == old(self).size() + 1
                &&& final(self).plane(idx as int) =~= Seq::new(
                    old(self).frame_size(),
                    |j: int| 0u8,
                )
            },
            final(self).slot_state(idx as int) == SlotState::InFlight,
            forall|i: int|
                0 <= i < old(self).size() && i != idx ==> final(self).slot_state(i) == old(
                    self,
                ).slot_state(i) && final(self).plane(i) == old(self).plane(i),
    {
        let n: usize = self.states.len();
        let mut k: usize = 0;
        while k < n
            invariant
                k <= n,
                n == self.states@.len(),
                old(self).wf(),
                self == old(self),
            decreases n - k,
        {
            let free: bool = match self.states[k] {
                SlotState::Free => true,
                SlotState::InFlight => false,
            };
            if free {
                self.states[k] = SlotState::InFlight;
                return k;
            }
            k = k + 1;
        }
        let fs: usize = self.frame_size;
        let mut blank: Vec<u8> = Vec::new();
        let mut j: usize = 0;
        while j < fs
            invariant
                j <= fs,
                blank@ =~= Seq::new(j as nat, |q: int| 0u8),
            decreases fs - j,
        {
            blank.push(0u8);
            proof {
                assert(blank@ =~= Seq::new((j + 1) as nat, |q: int| 0u8));
            }
            j = j + 1;
        }
        self.planes.push(blank);
        self.states.push(SlotState::InFlight);
        n
    }

    /// Overwrites the plane of the object at `idx` with the raw frame bytes.
    pub fn write_plane(&mut self, idx: usize, data: &[u8])
        requires
            old(self).wf(),
            (idx as int) < old(self).size(),
            data@.len() == old(self).frame_size(),
        ensures
            final(self).wf(),
            final(self).frame_size() == old(self).frame_size(),
            final(self).size() == old(self).size(),
            final(self).plane(idx as int) == data@,
            forall|i: int|
                0 <= i < old(self).size() ==> final(self).slot_state(i) == old(self).slot_state(i),
            forall|i: int|
                0 <= i < old(self).size() && i != idx ==> final(self).plane(i) == old(self).plane(
                    i,
                ),
    {
        let buf: Vec<u8> = vstd::slice::slice_to_vec(data);
        self.planes[idx] = buf;
    }

    /// The encoder's completion signal for the object at `idx`: it returns
    /// to the pool for reuse.
    pub fn release(&mut self, idx: usize)
        requires
            old(self).wf(),
            (idx as int) < old(self).size(),
            old(self).slot_state(idx as int) == SlotState::InFlight,
        ensures
            final(self).wf(),
            final(self).frame_size() == old(self).frame_size(),
            final(self).size() == old(self).size(),
            final(self).slot_state(idx as int) == SlotState::Free,
            forall|i: int| 0 <= i < old(self).size() ==> final(self).plane(i) == old(self).plane(i),
            forall|i: int|
                0 <= i < old(self).size() && i != idx ==> final(self).slot_state(i) == old(
                    self,
                ).slot_state(i),
    {
        self.states[idx] = SlotState::Free;
    }
}

/// The timestamps the fixed-rate scheme issues for the first `n` frames.
pub open spec fn issued_ticks(n: nat) -> Seq<i64> {
    Seq::new(n, |i: int| (i * TICKS_PER_FRAME) as i64)
}

/// Encoder adapter state: the pool and the frame-index counter the
/// presentation timestamps derive from.
pub struct EncoderAdapter {
    pool: FramePool,
    frame_index: u64,
}

impl EncoderAdapter {
    /// Frame index of the next submission.
    pub closed spec fn frame_index(&self) -> u64 {
        self.frame_index
    }

    /// Every timestamp issued so far, in submission order.
    pub open spec fn issued(&self) -> Seq<i64> {
        issued_ticks(self.frame_index() as nat)
    }

    /// Byte length of one raw frame.
    pub closed spec fn frame_size(&self) -> nat {
        self.pool.frame_size()
    }

    /// Number of pooled frame objects.
    pub closed spec fn pool_size(&self) -> nat {
        self.pool.size()
    }

    /// Availability of the pooled object at `i`.
    pub closed spec fn slot_state(&self, i: int) -> SlotState {
        self.pool.slot_state(i)
    }

    /// Plane contents of the pooled object at `i`.
    pub closed spec fn plane(&self, i: int) -> Seq<u8> {
        self.pool.plane(i)
    }

    /// The pool is consistent and the frame counter has room for a
    /// timestamp in the encoder's tick range.
    pub closed spec fn wf(&self) -> bool {
        &&& self.pool.wf()
        &&& self.frame_index <= FRAME_INDEX_LIMIT
    }

    /// A fresh adapter for `width` by `height` frames of the packed capture
    /// format.
    pub fn new(width: u32, height: u32) -> (r: Self)
        requires
            width * height * BYTES_PER_PIXEL <= usize::MAX,
        ensures
            r.wf(),
            r.frame_index() == 0,
            r.issued() =~= Seq::<i64>::empty(),
            r.pool_size() == 0,
            r.frame_size() == width * height * BYTES_PER_PIXEL,
    {
        let frame_size: usize = (width as usize) * (height as usize) * (BYTES_PER_PIXEL as usize);
        EncoderAdapter { pool: FramePool::new(frame_size), frame_index: 0 }
    }

    /// Prepares the next frame for the encoder: takes a pooled object that
    /// the encoder does not hold, overwrites its plane with the raw bytes,
    /// and stamps it with the fixed-rate timestamp, strictly above every
    /// timestamp issued before.
    pub fn submit_frame(&mut self, data: &[u8]) -> (r: (usize, i64))
        requires
            old(self).wf(),
            data@.len() == old(self).frame_size(),
            old(self).frame_index() < FRAME_INDEX_LIMIT,
        ensures
            final(self).wf(),
            final(self).frame_size() == old(self).frame_size(),
            r.1 == old(self).frame_index() * TICKS_PER_FRAME,
            final(self).frame_index() == old(self).frame_index() + 1,
            final(self).issued() =~= old(self).issued().push(r.1),
            forall|i: int| 0 <= i < old(self).issued().len() ==> old(self).issued()[i] < r.1,
            (r.0 as int) < final(self).pool_size(),
            (r.0 as int) < old(self).pool_size() ==> old(self).slot_state(r.0 as int)
                == SlotState::Free && final(self).pool_size() == old(self).pool_size(),
            (r.0 as int) >= old(self).pool_size() ==> r.0 as int == old(self).pool_size()
                && final(self).pool_size() == old(self).pool_size() + 1,
            final(self).slot_state(r.0 as int) == SlotState::InFlight,
            final(self).plane(r.0 as int) == data@,
            forall|i: int|
                0 <= i < old(self).pool_size() && i != r.0 ==> final(self).slot_state(i) == old(
                    self,
                ).slot_state(i) && final(self).plane(i) == old(self).plane(i),
    {
        let idx: usize = self.pool.acquire();
        self.pool.write_plane(idx, data);
        let pts: i64 = (self.frame_index * TICKS_PER_FRAME) as i64;
        self.frame_index = self.frame_index + 1;
        proof {
            assert(self.issued() =~= old(self).issued().push(pts));
        }
        (idx, pts)
    }

    /// Number of pooled frame objects.
    pub fn pool_slots(&self) -> (r: usize)
        ensures
            r == self.pool_size(),
    {
        self.pool.slot_count()
    }

    /// Whether the pooled object at `idx` is free for reuse.
    pub fn slot_free(&self, idx: usize) -> (r: bool)
        requires
            self.wf(),
            (idx as int) < self.pool_size(),
        ensures
            r == (self.slot_state(idx as int) == SlotState::Free),
    {
        self.pool.slot_free(idx)
    }

    /// A copy of the plane bytes of the pooled object at `idx`.
    pub fn plane_copy(&self, idx: usize) -> (r: Vec<u8>)
        requires
            self.wf(),
            (idx as int) < self.pool_size(),
        ensures
            r@ == self.plane(idx as int),
    {
        self.pool.plane_copy(idx)
    }

    /// The encoder's completion signal for the object at `idx`.
    pub fn release_frame(&mut self, idx: usize)
        requires
            old(self).wf(),
            (idx as int) < old(self).pool_size(),
            old(self).slot_state(idx as int) == SlotState::InFlight,
        ensures
            final(self).wf(),
            final(self).frame_index() == old(self).frame_index(),
            final(self).issued() =~= old(self).issued(),
            final(self).frame_size() == old(self).frame_size(),
            final(self).pool_size() == old(self).pool_size(),
            final(self).slot_state(idx as int) == SlotState::Free,
            forall|i: int|
                0 <= i < old(self).pool_size() && i != idx ==> final(self).slot_state(i) == old(
                    self,
                ).slot_state(i),
    {
        self.pool.release(idx);
    }
}

/// Timestamps are strictly increasing across the lifetime of one adapter:
/// every earlier submission's timestamp lies strictly below every later
/// one's.
pub proof fn lemma_pts_strictly_increasing(e: &EncoderAdapter)
    requires
        e.wf(),
    ensures
        forall|i: int, j: int|
            0 <= i < j < e.issued().len() ==> e.issued()[i] < e.issued()[j],
{
    assert forall|i: int, j: int|
        0 <= i < j < e.issued().len() implies e.issued()[i] < e.issued()[j] by {
        assert(j < FRAME_INDEX_LIMIT + 1);
        assert(i * TICKS_PER_FRAME < j * TICKS_PER_FRAME);
        assert(j * TICKS_PER_FRAME <= FRAME_INDEX_LIMIT * TICKS_PER_FRAME);
    }
}

/// Concatenation of a packet sequence, in drain order.
pub open spec fn concat_all(ps: Seq<Seq<u8>>) -> Seq<u8>
    decreases ps.len(),
{
    if ps.len() == 0 {
        Seq::empty()
    } else {
        ps[0] + concat_all(ps.skip(1))
    }
}

/// Concatenation distributes over extension by one packet.
pub proof fn lemma_concat_all_push(ps: Seq<Seq<u8>>, p: Seq<u8>)
    ensures
        concat_all(ps.push(p)) =~= concat_all(ps) + p,
    decreases ps.len(),
{
    if ps.len() == 0 {
        assert(ps.push(p)[0] == p);
        assert(ps.push(p).skip(1) =~= Seq::<Seq<u8>>::empty());
        assert(concat_all(Seq::<Seq<u8>>::empty()) =~= Seq::<u8>::empty());
        assert(concat_all(ps) =~= Seq::<u8>::empty());
        assert(concat_all(ps.push(p)) =~= ps.push(p)[0] + concat_all(ps.push(p).skip(1)));
    } else {
        assert(ps.push(p)[0] == ps[0]);
        assert(ps.push(p).skip(1) =~= ps.skip(1).push(p));
        lemma_concat_all_push(ps.skip(1), p);
        assert(concat_all(ps.push(p)) =~= ps[0] + concat_all(ps.skip(1).push(p)));
        assert(concat_all(ps) =~= ps[0] + concat_all(ps.skip(1)));
        assert(ps[0] + (concat_all(ps.skip(1)) + p) =~= (ps[0] + concat_all(ps.skip(1))) + p);
    }
}

/// Joins the packets drained after one submission into the byte stream
/// handed to the sink, in drain order.
pub fn packet_bytes(packets: &Vec<Vec<u8>>) -> (r: Vec<u8>)
    ensures
        r@ =~= concat_all(packets.deep_view()),
{
    let mut out: Vec<u8> = Vec::new();
    let n: usize = packets.len();
    let mut i: usize = 0;
    while i < n
        invariant
            i <= n,
            n == packets@.len(),
            out@ =~= concat_all(packets.deep_view().take(i as int)),
        decreases n - i,
    {
        let mut chunk: Vec<u8> = vstd::slice::slice_to_vec(packets[i].as_slice());
        out.append(&mut chunk);
        proof {
            assert(packets.deep_view().take(i + 1) =~= packets.deep_view().take(i as int).push(
                packets.deep_view()[i as int],
            ));
            lemma_concat_all_push(packets.deep_view().take(i as int), packets.deep_view()[i as int]);
        }
        i = i + 1;
    }
    proof {
        assert(packets.deep_view().take(n as int) =~= packets.deep_view());
    }
    out
}

} // verus!
