//! Where a position of a mixed key/value cache lives. The first `sink_len`
//! positions stay in the sink. Every later position first enters the recent
//! window, which fills slot by slot; the position that would overflow it
//! evicts the whole window as one quantized block of the bulk region.

use vstd::prelude::*;

verus! {

/// A mixed cache's bookkeeping. Blocks evicted so far follow from where the
/// window starts.
#[derive(Debug, Clone, Copy, PartialEq, Eq, Structural)]
pub struct MixedLayout {
    sink_len: u32,
    window_len: u32,
    window_base: u32,
}

/// What a [`MixedLayout`] knows.
#[verifier::ext_equal]
pub struct LayoutModel {
    pub sink_len: int,
    pub window_len: int,
    pub window_base: int,
}

impl LayoutModel {
    /// The window starts at a whole number of blocks past the sink.
    pub open spec fn valid(self) -> bool {
        &&& 0 <= self.sink_len <= self.window_base
        &&& 1 <= self.window_len
        &&& (self.window_base - self.sink_len) % self.window_len == 0
    }

    /// Blocks in the bulk region.
    pub open spec fn blocks(self) -> int {
        (self.window_base - self.sink_len) / self.window_len
    }

    /// First position past the window.
    pub open spec fn window_end(self) -> int {
        self.window_base + self.window_len
    }

    /// The window moved past what it held.
    pub open spec fn slid(self) -> LayoutModel {
        LayoutModel { window_base: self.window_end(), ..self }
    }

    /// `pos` is the next position to append: in the sink, in the window, or
    /// the one that overflows it.
    pub open spec fn is_next(self, pos: int) -> bool {
        if pos < self.sink_len {
            0 <= pos && self.window_base == self.sink_len
        } else {
            self.window_base <= pos <= self.window_end()
        }
    }
}

impl View for MixedLayout {
    type V = LayoutModel;

    closed spec fn view(&self) -> LayoutModel {
        LayoutModel {
            sink_len: self.sink_len as int,
            window_len: self.window_len as int,
            window_base: self.window_base as int,
        }
    }
}

/// One write to a mixed cache. Rows count the appended positions.
pub enum CacheWrite {
    /// A row goes to its own position in the sink.
    Sink { pos: int, row: int },
    /// A row goes to a slot of the window.
    Window { slot: int, row: int },
    /// The whole window is quantized into a block of the bulk region.
    Evict { block: int },
}

/// The layout after one position was appended.
pub open spec fn appended(l: LayoutModel, pos: int) -> LayoutModel {
    if pos >= l.sink_len && pos == l.window_end() {
        l.slid()
    } else {
        l
    }
}

/// What appending one position writes, in order.
pub open spec fn append_writes(l: LayoutModel, pos: int, row: int) -> Seq<CacheWrite> {
    if pos < l.sink_len {
        seq![CacheWrite::Sink { pos, row }]
    } else if pos == l.window_end() {
        seq![CacheWrite::Evict { block: l.blocks() }, CacheWrite::Window { slot: 0, row }]
    } else {
        seq![CacheWrite::Window { slot: pos - l.window_base, row }]
    }
}

/// The layout after `n` positions were appended one at a time.
pub open spec fn appended_each(l: LayoutModel, pos: int, n: nat) -> LayoutModel
    decreases n,
{
    if n == 0 {
        l
    } else {
        appended_each(appended(l, pos), pos + 1, (n - 1) as nat)
    }
}

/// What appending `n` positions one at a time writes, in order.
pub open spec fn append_each_writes(l: LayoutModel, pos: int, row: int, n: nat) -> Seq<CacheWrite>
    decreases n,
{
    if n == 0 {
        Seq::empty()
    } else {
        append_writes(l, pos, row) + append_each_writes(
            appended(l, pos),
            pos + 1,
            row + 1,
            (n - 1) as nat,
        )
    }
}

/// A run of a chunk's rows that enters the window in one go, and the
/// eviction that follows it, if one does.
#[derive(Debug, Clone, Copy, PartialEq, Eq, Structural)]
pub struct ChunkSegment {
    pub chunk_row_start: u32,
    /// Zero when the window was already full before the chunk.
    pub len: u32,
    pub window_slot_start: u32,
    pub evict_after: Option<u32>,
}

/// Rows of a chunk that fall into the sink.
pub open spec fn sink_rows(l: LayoutModel, pos: int, n: int) -> int {
    if pos >= l.sink_len {
        0
    } else if n <= l.sink_len - pos {
        n
    } else {
        l.sink_len - pos
    }
}

/// The window segments of `n` rows from `row` on, at positions from `pos` on.
pub open spec fn segments(l: LayoutModel, pos: int, row: int, n: int) -> Seq<ChunkSegment>
    decreases n, (if pos < l.window_end() { 0int } else { 1int }),
    when 1 <= l.window_len && 0 <= n && pos <= l.window_end()
{
    if n == 0 {
        Seq::empty()
    } else {
        let room = l.window_end() - pos;
        if n <= room {
            seq![
                ChunkSegment {
                    chunk_row_start: row as u32,
                    len: n as u32,
                    window_slot_start: (pos - l.window_base) as u32,
                    evict_after: None,
                },
            ]
        } else {
            seq![
                ChunkSegment {
                    chunk_row_start: row as u32,
                    len: room as u32,
                    window_slot_start: (pos - l.window_base) as u32,
                    evict_after: Some(l.blocks() as u32),
                },
            ] + segments(l.slid(), pos + room, row + room, n - room)
        }
    }
}

/// What one segment writes, in order.
pub open spec fn segment_writes(s: ChunkSegment) -> Seq<CacheWrite> {
    window_writes(s.window_slot_start as int, s.chunk_row_start as int, s.len as nat) + (
    match s.evict_after {
        None => Seq::empty(),
        Some(block) => seq![CacheWrite::Evict { block: block as int }],
    })
}

/// `n` rows into consecutive slots of the window.
pub open spec fn window_writes(slot: int, row: int, n: nat) -> Seq<CacheWrite> {
    Seq::new(n, |i: int| CacheWrite::Window { slot: slot + i, row: row + i })
}

/// What a run of segments writes, in order.
pub open spec fn segments_writes(s: Seq<ChunkSegment>) -> Seq<CacheWrite>
    decreases s.len(),
{
    if s.len() == 0 {
        Seq::empty()
    } else {
        segment_writes(s[0]) + segments_writes(s.drop_first())
    }
}

/// `n` rows into consecutive positions of the sink.
pub open spec fn sink_writes(pos: int, n: nat) -> Seq<CacheWrite> {
    Seq::new(n, |i: int| CacheWrite::Sink { pos: pos + i, row: i })
}

/// What a chunk plan writes, in order: the sink rows, then the segments.
pub open spec fn chunk_writes(pos: int, sink: u32, s: Seq<ChunkSegment>) -> Seq<CacheWrite> {
    sink_writes(pos, sink as nat) + segments_writes(s)
}

/// Moving the window on adds one block.
pub proof fn lemma_slid_valid(l: LayoutModel)
    requires
        l.valid(),
    ensures
        l.slid().valid(),
        l.slid().blocks() == l.blocks() + 1,
{
    let d = l.window_base - l.sink_len;
    vstd::arithmetic::div_mod::lemma_mod_add_multiples_vanish(d, l.window_len);
    vstd::arithmetic::div_mod::lemma_div_plus_one(d, l.window_len);
    assert(l.window_len + d == l.slid().window_base - l.sink_len);
}

/// After a position was appended, the one after it is next.
pub proof fn lemma_appended_next(l: LayoutModel, pos: int)
    requires
        l.valid(),
        l.is_next(pos),
    ensures
        appended(l, pos).valid(),
        appended(l, pos).is_next(pos + 1),
        appended(l, pos).sink_len == l.sink_len,
        appended(l, pos).window_len == l.window_len,
{
    lemma_slid_valid(l);
}

/// After `n` positions were appended, the one after them is next.
pub proof fn lemma_appended_each_next(l: LayoutModel, pos: int, n: nat)
    requires
        l.valid(),
        l.is_next(pos),
    ensures
        appended_each(l, pos, n).valid(),
        appended_each(l, pos, n).is_next(pos + n),
        appended_each(l, pos, n).sink_len == l.sink_len,
        appended_each(l, pos, n).window_len == l.window_len,
    decreases n,
{
    if n > 0 {
        lemma_appended_next(l, pos);
        lemma_appended_each_next(appended(l, pos), pos + 1, (n - 1) as nat);
    }
}

/// Sink rows are written one by one without touching the layout.
proof fn lemma_sink_run(l: LayoutModel, pos: int, row: int, k: nat, n: nat)
    requires
        l.valid(),
        k <= n,
        0 <= pos,
        k > 0 ==> pos + k <= l.sink_len,
    ensures
        appended_each(l, pos, n) == appended_each(l, pos + k, (n - k) as nat),
        append_each_writes(l, pos, row, n) == Seq::new(
            k,
            |i: int| CacheWrite::Sink { pos: pos + i, row: row + i },
        ) + append_each_writes(l, pos + k, row + k, (n - k) as nat),
    decreases k,
{
    let head = Seq::new(k, |i: int| CacheWrite::Sink { pos: pos + i, row: row + i });
    if k == 0 {
        assert(head =~= Seq::empty());
        assert(head + append_each_writes(l, pos, row, n) =~= append_each_writes(l, pos, row, n));
    } else {
        lemma_sink_run(l, pos + 1, row + 1, (k - 1) as nat, (n - 1) as nat);
        let rest = Seq::new(
            (k - 1) as nat,
            |i: int| CacheWrite::Sink { pos: pos + 1 + i, row: row + 1 + i },
        );
        assert(head =~= seq![CacheWrite::Sink { pos, row }] + rest);
        let tail = append_each_writes(l, pos + k, row + k, (n - k) as nat);
        assert((seq![CacheWrite::Sink { pos, row }] + rest) + tail =~= seq![
            CacheWrite::Sink { pos, row },
        ] + (rest + tail));
    }
}

/// Rows that fit the window are written one by one without touching the
/// layout.
proof fn lemma_window_run(l: LayoutModel, pos: int, row: int, k: nat, n: nat)
    requires
        l.valid(),
        k <= n,
        l.window_base <= pos,
        pos + k <= l.window_end(),
    ensures
        appended_each(l, pos, n) == appended_each(l, pos + k, (n - k) as nat),
        append_each_writes(l, pos, row, n) == window_writes(pos - l.window_base, row, k)
            + append_each_writes(l, pos + k, row + k, (n - k) as nat),
    decreases k,
{
    let slot = pos - l.window_base;
    let head = window_writes(slot, row, k);
    if k == 0 {
        assert(head =~= Seq::empty());
        assert(head + append_each_writes(l, pos, row, n) =~= append_each_writes(l, pos, row, n));
    } else {
        lemma_window_run(l, pos + 1, row + 1, (k - 1) as nat, (n - 1) as nat);
        let rest = window_writes(slot + 1, row + 1, (k - 1) as nat);
        assert(head =~= seq![CacheWrite::Window { slot, row }] + rest);
        let tail = append_each_writes(l, pos + k, row + k, (n - k) as nat);
        assert((seq![CacheWrite::Window { slot, row }] + rest) + tail =~= seq![
            CacheWrite::Window { slot, row },
        ] + (rest + tail));
    }
}

/// Appending to a full window is an eviction followed by appending to the
/// window moved on.
proof fn lemma_full_window(l: LayoutModel, row: int, n: nat)
    requires
        l.valid(),
        n > 0,
    ensures
        appended_each(l, l.window_end(), n) == appended_each(l.slid(), l.window_end(), n),
        append_each_writes(l, l.window_end(), row, n) == seq![
            CacheWrite::Evict { block: l.blocks() },
        ] + append_each_writes(l.slid(), l.window_end(), row, n),
{
    let pos = l.window_end();
    let w = seq![CacheWrite::Window { slot: 0, row }];
    let e = seq![CacheWrite::Evict { block: l.blocks() }];
    assert(append_writes(l, pos, row) =~= e + w);
    assert(append_writes(l.slid(), pos, row) =~= w);
    assert(appended(l.slid(), pos) == l.slid());
    let tail = append_each_writes(l.slid(), pos + 1, row + 1, (n - 1) as nat);
    assert((e + w) + tail =~= e + (w + tail));
}

/// The segments write what appending their rows one at a time writes, and
/// leave the same layout.
proof fn lemma_segments_write_the_same(l: LayoutModel, pos: int, row: int, n: int)
    requires
        l.valid(),
        0 <= n,
        0 <= row,
        row + n <= u32::MAX,
        l.window_base <= pos <= l.window_end(),
        pos + n <= u32::MAX,
    ensures
        segments_writes(segments(l, pos, row, n)) == append_each_writes(l, pos, row, n as nat),
    decreases n, (if pos < l.window_end() { 0int } else { 1int }),
{
    let segs = segments(l, pos, row, n);
    if n == 0 {
    } else {
        let room = l.window_end() - pos;
        let slot = pos - l.window_base;
        assert(0 <= l.blocks() <= l.window_base) by {
            let d = l.window_base - l.sink_len;
            vstd::arithmetic::div_mod::lemma_div_pos_is_pos(d, l.window_len);
            vstd::arithmetic::div_mod::lemma_div_is_ordered_by_denominator(d, 1, l.window_len);
            vstd::arithmetic::div_mod::lemma_div_basics_2(d);
        }
        if n <= room {
            lemma_window_run(l, pos, row, n as nat, n as nat);
            let tail = append_each_writes(l, pos + n, row + n, 0);
            assert(segs.drop_first() =~= Seq::empty());
            assert(segment_writes(segs[0]) =~= window_writes(slot, row, n as nat));
            assert(segments_writes(segs.drop_first()) =~= Seq::empty());
            assert(segments_writes(segs) =~= window_writes(slot, row, n as nat));
            assert(window_writes(slot, row, n as nat) + tail =~= window_writes(
                slot,
                row,
                n as nat,
            ));
        } else {
            lemma_slid_valid(l);
            lemma_window_run(l, pos, row, room as nat, n as nat);
            lemma_full_window(l, row + room, (n - room) as nat);
            lemma_segments_write_the_same(l.slid(), pos + room, row + room, n - room);
            let rest = segments(l.slid(), pos + room, row + room, n - room);
            assert(segs.drop_first() =~= rest);
            let run = window_writes(slot, row, room as nat);
            let evict = seq![CacheWrite::Evict { block: l.blocks() }];
            assert(segment_writes(segs[0]) =~= run + evict);
            let tail = append_each_writes(
                l.slid(),
                l.window_end(),
                row + room,
                (n - room) as nat,
            );
            assert((run + evict) + tail =~= run + (evict + tail));
        }
    }
}

/// A chunk plan writes exactly what appending the chunk's positions one at a
/// time writes, in the same order.
pub proof fn law_chunk_append_is_serial_append(l: LayoutModel, pos: int, n: int)
    requires
        l.valid(),
        0 <= n <= u32::MAX,
        l.is_next(pos),
        pos + n <= u32::MAX,
    ensures
        chunk_writes(
            pos,
            sink_rows(l, pos, n) as u32,
            segments(l, pos + sink_rows(l, pos, n), sink_rows(l, pos, n), n - sink_rows(l, pos, n)),
        ) == append_each_writes(l, pos, 0, n as nat),
{
    let s = sink_rows(l, pos, n);
    lemma_sink_run(l, pos, 0, s as nat, n as nat);
    assert(sink_writes(pos, s as nat) =~= Seq::new(
        s as nat,
        |i: int| CacheWrite::Sink { pos: pos + i, row: 0 + i },
    ));
    if s < n {
        lemma_segments_write_the_same(l, pos + s, s, n - s);
    } else {
        assert(append_each_writes(l, pos + s, s, 0) =~= Seq::empty());
        assert(segments(l, pos + s, s, 0) =~= Seq::empty());
    }
}

impl MixedLayout {
    /// The window starts at a whole number of blocks past the sink.
    pub open spec fn wf(&self) -> bool {
        self@.valid()
    }

    /// The layout of an empty cache.
    pub fn with_lens(sink_len: u32, window_len: u32) -> (r: Self)
        requires
            window_len >= 1,
        ensures
            r.wf(),
            r@ == (LayoutModel {
                sink_len: sink_len as int,
                window_len: window_len as int,
                window_base: sink_len as int,
            }),
    {
        proof {
            vstd::arithmetic::div_mod::lemma_small_mod(0, window_len as nat);
        }
        MixedLayout { sink_len, window_len, window_base: sink_len }
    }

    /// The layout whose window starts at `window_base`, if there is one.
    pub fn from_window_base_with_lens(window_base: u32, sink_len: u32, window_len: u32) -> (r: Option<
        Self,
    >)
        requires
            window_len >= 1,
        ensures
            match r {
                Some(l) => l.wf() && l@ == (LayoutModel {
                    sink_len: sink_len as int,
                    window_len: window_len as int,
                    window_base: window_base as int,
                }),
                None => window_base < sink_len || (window_base - sink_len) % (window_len as int)
                    != 0,
            },
    {
        if window_base < sink_len || (window_base - sink_len) % window_len != 0 {
            None
        } else {
            Some(MixedLayout { sink_len, window_len, window_base })
        }
    }

    /// Length of the sink.
    pub fn sink_len(&self) -> (r: u32)
        ensures
            r == self@.sink_len,
    {
        self.sink_len
    }

    /// Length of the window.
    pub fn window_len(&self) -> (r: u32)
        ensures
            r == self@.window_len,
    {
        self.window_len
    }

    /// Position the window starts at.
    pub fn window_base(&self) -> (r: u32)
        ensures
            r == self@.window_base,
    {
        self.window_base
    }

    /// Whether `pos` is the next position to append.
    pub fn is_next(&self, pos: u32) -> (r: bool)
        ensures
            r == self@.is_next(pos as int),
    {
        if pos < self.sink_len {
            self.window_base == self.sink_len
        } else {
            self.window_base <= pos && pos - self.window_base <= self.window_len
        }
    }

    /// Blocks in the bulk region.
    pub fn evicted_blocks(&self) -> (r: u32)
        requires
            self.wf(),
        ensures
            r == self@.blocks(),
    {
        (self.window_base - self.sink_len) / self.window_len
    }

    /// Gives the position after the sink a slot in the window. A full window
    /// is evicted first, as the block returned.
    pub fn prepare_append(&mut self, pos: u32) -> (r: (u32, Option<u32>))
        requires
            old(self).wf(),
            old(self)@.sink_len <= pos,
            old(self)@.is_next(pos as int),
            pos < u32::MAX,
        ensures
            final(self).wf(),
            final(self)@ == appended(old(self)@, pos as int),
            r.0 == pos - final(self)@.window_base,
            r.0 < final(self)@.window_len,
            r.1 == (if pos == old(self)@.window_end() {
                Some(old(self)@.blocks() as u32)
            } else {
                None::<u32>
            }),
    {
        proof {
            lemma_slid_valid(self@);
        }
        let used: u32 = pos - self.window_base;
        if used < self.window_len {
            return (used, None);
        }
        let block: u32 = self.evicted_blocks();
        self.window_base = pos;
        (0, Some(block))
    }

    /// Plans the appending of a chunk at positions from `pos_base` on: how
    /// many rows go to the sink, and the window segments of the rest.
    pub fn plan_chunk_append(&mut self, pos_base: u32, chunk_len: u32) -> (r: (
        u32,
        Vec<ChunkSegment>,
    ))
        requires
            old(self).wf(),
            old(self)@.is_next(pos_base as int),
            pos_base + chunk_len <= u32::MAX,
        ensures
            final(self).wf(),
            final(self)@ == appended_each(old(self)@, pos_base as int, chunk_len as nat),
            r.0 == sink_rows(old(self)@, pos_base as int, chunk_len as int),
            r.1@ == segments(old(self)@, pos_base + r.0, r.0 as int, chunk_len - r.0),
            chunk_writes(pos_base as int, r.0, r.1@) == append_each_writes(
                old(self)@,
                pos_base as int,
                0,
                chunk_len as nat,
            ),
    {
        let ghost start = self@;
        let sink: u32 = if pos_base >= self.sink_len {
            0
        } else if chunk_len <= self.sink_len - pos_base {
            chunk_len
        } else {
            self.sink_len - pos_base
        };
        let mut segs: Vec<ChunkSegment> = Vec::new();
        let mut row: u32 = sink;
        proof {
            law_chunk_append_is_serial_append(start, pos_base as int, chunk_len as int);
            lemma_sink_run(start, pos_base as int, 0, sink as nat, chunk_len as nat);
        }
        let ghost all = segments(start, pos_base + sink, sink as int, chunk_len - sink);
        proof {
            assert(segs@ + segments(self@, pos_base + row, row as int, chunk_len - row) =~= all);
        }
        while row < chunk_len
            invariant
                self.wf(),
                row <= chunk_len,
                pos_base + chunk_len <= u32::MAX,
                row < chunk_len ==> self@.window_base <= pos_base + row,
                pos_base + row <= self@.window_end(),
                segs@ + segments(self@, pos_base + row, row as int, chunk_len - row) == all,
                appended_each(self@, pos_base + row, (chunk_len - row) as nat) == appended_each(
                    start,
                    pos_base as int,
                    chunk_len as nat,
                ),
            decreases
                    chunk_len - row,
                    (if pos_base + row < self@.window_end() {
                        0int
                    } else {
                        1int
                    }),
        {
            let ghost before = self@;
            let ghost done = segs@;
            let used: u32 = pos_base + row - self.window_base;
            let room: u32 = self.window_len - used;
            let left: u32 = chunk_len - row;
            let n: u32 = if left <= room {
                left
            } else {
                room
            };
            proof {
                lemma_window_run(before, pos_base + row, row as int, n as nat, left as nat);
            }
            if left <= room {
                segs.push(
                    ChunkSegment {
                        chunk_row_start: row,
                        len: left,
                        window_slot_start: used,
                        evict_after: None,
                    },
                );
                proof {
                    let s = segments(before, pos_base + row, row as int, left as int);
                    assert(done + s =~= segs@);
                    assert(segments(before, pos_base + chunk_len, chunk_len as int, 0)
                        =~= Seq::empty());
                }
                row = chunk_len;
            } else {
                let block: u32 = self.evicted_blocks();
                segs.push(
                    ChunkSegment {
                        chunk_row_start: row,
                        len: room,
                        window_slot_start: used,
                        evict_after: Some(block),
                    },
                );
                self.window_base = pos_base + row + room;
                proof {
                    assert(self@ == before.slid());
                    lemma_slid_valid(before);
                    lemma_full_window(before, row + room, (left - room) as nat);
                    let s = segments(before, pos_base + row, row as int, left as int);
                    let rest = segments(
                        before.slid(),
                        pos_base + row + room,
                        row + room,
                        left - room,
                    );
                    assert(s =~= seq![segs@.last()] + rest);
                    assert(done + s =~= segs@ + rest);
                }
                row = row + room;
            }
        }
        proof {
            assert(segments(self@, pos_base + row, row as int, 0) =~= Seq::empty());
            assert(segs@ =~= all);
        }
        (sink, segs)
    }
}

} // verus!
