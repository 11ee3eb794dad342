//! Splitting a fragmented-MP4 byte stream into an init segment (everything
//! in front of the first `moof`) and media segments (a `moof` and what
//! follows it up to the end of its `mdat`).

use crate::bytes::{be32, copy_range, from_be32, lemma_be32_round_trip, push_all, read_be32};
use vstd::prelude::*;

verus! {

pub open spec fn moof() -> Seq<u8> {
    seq![0x6Du8, 0x6F, 0x6F, 0x66]
}

pub open spec fn mdat() -> Seq<u8> {
    seq![0x6Du8, 0x64, 0x61, 0x74]
}

/// The size field of the box at `pos`.
pub open spec fn box_size(buf: Seq<u8>, pos: int) -> int {
    from_be32(buf.subrange(pos, pos + 4))
}

/// The type of the box at `pos`.
pub open spec fn box_kind(buf: Seq<u8>, pos: int) -> Seq<u8> {
    buf.subrange(pos + 4, pos + 8)
}

/// A whole box starts at `pos`. A size below eight is malformed or extended;
/// neither occurs in the streams read here.
pub open spec fn whole_box(buf: Seq<u8>, pos: int) -> bool {
    pos + 8 <= buf.len() && box_size(buf, pos) >= 8 && pos + box_size(buf, pos) <= buf.len()
}

/// Where the first `moof` stands among the whole boxes from `pos` on.
pub open spec fn first_moof(buf: Seq<u8>, pos: int) -> Option<int>
    decreases buf.len() - pos,
{
    if !whole_box(buf, pos) {
        None
    } else if box_kind(buf, pos) == moof() {
        Some(pos)
    } else {
        first_moof(buf, pos + box_size(buf, pos))
    }
}

/// Where the segment ends that a `moof` in front of `pos` has started: behind
/// the next `mdat`. Another `moof` also ends it, once the init segment is
/// out.
pub open spec fn segment_end(buf: Seq<u8>, pos: int, init_done: bool) -> Option<int>
    decreases buf.len() - pos,
{
    if !whole_box(buf, pos) {
        None
    } else if box_kind(buf, pos) == moof() {
        if init_done {
            Some(pos)
        } else {
            None
        }
    } else if box_kind(buf, pos) == mdat() {
        Some(pos + box_size(buf, pos))
    } else {
        segment_end(buf, pos + box_size(buf, pos), init_done)
    }
}

/// The first complete media segment in `buf`, as its start and its end.
pub open spec fn split(buf: Seq<u8>, init_done: bool) -> Option<(int, int)> {
    match first_moof(buf, 0) {
        None => None,
        Some(m) => match segment_end(buf, m + box_size(buf, m), init_done) {
            None => None,
            Some(e) => Some((m, e)),
        },
    }
}

fn is_kind(buf: &[u8], pos: usize, a: u8, b: u8, c: u8, d: u8) -> (r: bool)
    requires
        pos + 8 <= buf.len(),
    ensures
        r == (box_kind(buf@, pos as int) == seq![a, b, c, d]),
{
    let r = buf[pos + 4] == a && buf[pos + 5] == b && buf[pos + 6] == c && buf[pos + 7] == d;
    proof {
        let k = box_kind(buf@, pos as int);
        let want = seq![a, b, c, d];
        if r {
            assert(k =~= want);
        } else {
            assert(k[0] == buf@[pos + 4] && k[1] == buf@[pos + 5] && k[2] == buf@[pos + 6] && k[3]
                == buf@[pos + 7]);
            assert(want[0] == a && want[1] == b && want[2] == c && want[3] == d);
        }
    }
    r
}

/// Identifies the start of the next moof and the end of the segment that
/// follows it. Returns the two offsets when a complete segment is present in
/// `buf`; None when more bytes are needed.
pub fn next_segment_split(buf: &[u8], init_done: bool) -> (r: Option<(usize, usize)>)
    ensures
        match r {
            None => split(buf@, init_done) is None,
            Some((m, e)) => split(buf@, init_done) == Some((m as int, e as int)) && m < e
                <= buf@.len(),
        },
{
    let mut pos: usize = 0;
    let mut moof_start: Option<usize> = None;
    while buf.len() - pos >= 8
        invariant
            pos <= buf@.len(),
            match moof_start {
                None => first_moof(buf@, 0) == first_moof(buf@, pos as int),
                Some(m) => m < pos && first_moof(buf@, 0) == Some(m as int) && segment_end(
                    buf@,
                    m + box_size(buf@, m as int),
                    init_done,
                ) == segment_end(buf@, pos as int, init_done),
            },
        decreases buf@.len() - pos,
    {
        let size: u32 = read_be32(buf, pos);
        if size < 8 {
            // Malformed or extended box.
            return None;
        }
        if size as u64 > (buf.len() - pos) as u64 {
            // Incomplete box; more bytes are needed.
            return None;
        }
        let end: usize = pos + size as usize;
        if is_kind(buf, pos, 0x6D, 0x6F, 0x6F, 0x66) {
            if let Some(m) = moof_start {
                // The next moof while an mdat is still expected.
                if !init_done {
                    return None;
                }
                return Some((m, pos));
            }
            moof_start = Some(pos);
        } else if is_kind(buf, pos, 0x6D, 0x64, 0x61, 0x74) {
            if let Some(m) = moof_start {
                return Some((m, end));
            }
        }
        pos = end;
    }
    None
}

/// A segment as a client receives it: the init segment in front of the first
/// one only.
pub struct SegmentView {
    pub init: Option<Seq<u8>>,
    pub media: Seq<u8>,
}

/// What a run of splits takes out of `buf`.
pub struct Drained {
    pub segments: Seq<SegmentView>,
    pub rest: Seq<u8>,
    pub init_done: bool,
}

proof fn lemma_first_moof_bounds(buf: Seq<u8>, pos: int)
    requires
        0 <= pos <= buf.len(),
    ensures
        first_moof(buf, pos) matches Some(m) ==> pos <= m && whole_box(buf, m) && box_kind(buf, m)
            == moof(),
    decreases buf.len() - pos,
{
    if whole_box(buf, pos) && box_kind(buf, pos) != moof() {
        lemma_first_moof_bounds(buf, pos + box_size(buf, pos));
    }
}

proof fn lemma_segment_end_bounds(buf: Seq<u8>, pos: int, init_done: bool)
    requires
        0 <= pos <= buf.len(),
    ensures
        segment_end(buf, pos, init_done) matches Some(e) ==> pos <= e <= buf.len(),
    decreases buf.len() - pos,
{
    if whole_box(buf, pos) && box_kind(buf, pos) != moof() && box_kind(buf, pos) != mdat() {
        lemma_segment_end_bounds(buf, pos + box_size(buf, pos), init_done);
    }
}

/// A segment lies in the buffer and holds at least its `moof`.
pub proof fn lemma_split_bounds(buf: Seq<u8>, init_done: bool)
    ensures
        split(buf, init_done) matches Some((m, e)) ==> 0 <= m && m + 8 <= e <= buf.len()
            && box_kind(buf, m) == moof(),
{
    lemma_first_moof_bounds(buf, 0);
    if let Some(m) = first_moof(buf, 0) {
        lemma_segment_end_bounds(buf, m + box_size(buf, m), init_done);
    }
}

/// Every complete segment of `buf`, in order, and the bytes that are left.
/// What stands between two segments is skipped.
pub open spec fn drain(buf: Seq<u8>, init_done: bool) -> Drained
    decreases buf.len(),
{
    match split(buf, init_done) {
        None => Drained { segments: Seq::empty(), rest: buf, init_done },
        Some((m, e)) => {
            if 0 <= m < e <= buf.len() {
                let first = SegmentView {
                    init: if init_done {
                        None
                    } else {
                        Some(buf.take(m))
                    },
                    media: buf.subrange(m, e),
                };
                let later = drain(buf.skip(e), true);
                Drained { segments: seq![first] + later.segments, ..later }
            } else {
                Drained { segments: Seq::empty(), rest: buf, init_done }
            }
        },
    }
}

/// One complete segment.
pub struct Segment {
    /// The bytes in front of the first `moof`, with the first segment only.
    pub init: Option<Vec<u8>>,
    pub media: Vec<u8>,
}

impl View for Segment {
    type V = SegmentView;

    open spec fn view(&self) -> SegmentView {
        SegmentView {
            init: match self.init {
                None => None,
                Some(v) => Some(v@),
            },
            media: self.media@,
        }
    }
}

/// The views of a list of segments.
pub open spec fn segment_views(s: Seq<Segment>) -> Seq<SegmentView> {
    Seq::new(s.len(), |i: int| s[i]@)
}

/// Reads the container bytes of a running encoder, in pieces of any size.
pub struct SegmentReader {
    /// Bytes that belong to no complete segment yet.
    pub pending: Vec<u8>,
    /// Whether the init segment is out.
    pub init_done: bool,
}

impl SegmentReader {
    /// A reader that has seen nothing yet.
    pub fn new() -> (r: Self)
        ensures
            r.pending@.len() == 0,
            !r.init_done,
    {
        SegmentReader { pending: Vec::new(), init_done: false }
    }

    /// Takes the next piece of the stream and returns every segment that it
    /// completes, in order.
    pub fn feed(&mut self, piece: &[u8]) -> (r: Vec<Segment>)
        ensures
            ({
                let d = drain(old(self).pending@ + piece@, old(self).init_done);
                &&& segment_views(r@) == d.segments
                &&& final(self).pending@ == d.rest
                &&& final(self).init_done == d.init_done
            }),
    {
        push_all(&mut self.pending, piece);
        let ghost whole = drain(self.pending@, self.init_done);
        let mut out: Vec<Segment> = Vec::new();
        assert(segment_views(out@) + whole.segments =~= whole.segments);
        loop
            invariant_except_break
                whole.segments == segment_views(out@) + drain(
                    self.pending@,
                    self.init_done,
                ).segments,
                whole.rest == drain(self.pending@, self.init_done).rest,
                whole.init_done == drain(self.pending@, self.init_done).init_done,
            ensures
                whole.segments == segment_views(out@),
                whole.rest == self.pending@,
                whole.init_done == self.init_done,
            decreases self.pending@.len(),
        {
            let ghost here = drain(self.pending@, self.init_done);
            let ghost before = out@;
            match next_segment_split(self.pending.as_slice(), self.init_done) {
                None => {
                    assert(segment_views(out@) + here.segments =~= segment_views(out@));
                    break;
                },
                Some((start, end)) => {
                    let init: Option<Vec<u8>> = if self.init_done {
                        None
                    } else {
                        Some(copy_range(self.pending.as_slice(), 0, start))
                    };
                    let media = copy_range(self.pending.as_slice(), start, end);
                    let seg = Segment { init, media };
                    let rest = self.pending.split_off(end);
                    proof {
                        let later = drain(rest@, true);
                        assert(here.segments == seq![seg@] + later.segments);
                        assert(segment_views(before.push(seg)) =~= segment_views(before).push(
                            seg@,
                        ));
                        assert(segment_views(before) + (seq![seg@] + later.segments)
                            =~= segment_views(before).push(seg@) + later.segments);
                    }
                    out.push(seg);
                    self.pending = rest;
                    self.init_done = true;
                },
            }
        }
        out
    }
}

// ---------------------------------------------------------------------
// Laws
// ---------------------------------------------------------------------

/// The boxes of a buffer stay where they are when bytes follow it.
proof fn lemma_whole_box_extends(buf: Seq<u8>, more: Seq<u8>, pos: int)
    requires
        0 <= pos,
        whole_box(buf, pos),
    ensures
        whole_box(buf + more, pos),
        box_size(buf + more, pos) == box_size(buf, pos),
        box_kind(buf + more, pos) == box_kind(buf, pos),
{
    assert((buf + more).subrange(pos, pos + 4) =~= buf.subrange(pos, pos + 4));
    assert((buf + more).subrange(pos + 4, pos + 8) =~= buf.subrange(pos + 4, pos + 8));
}

proof fn lemma_first_moof_extends(buf: Seq<u8>, more: Seq<u8>, pos: int)
    requires
        0 <= pos <= buf.len(),
        first_moof(buf, pos) is Some,
    ensures
        first_moof(buf + more, pos) == first_moof(buf, pos),
    decreases buf.len() - pos,
{
    lemma_whole_box_extends(buf, more, pos);
    if box_kind(buf, pos) != moof() {
        lemma_first_moof_extends(buf, more, pos + box_size(buf, pos));
    }
}

proof fn lemma_segment_end_extends(buf: Seq<u8>, more: Seq<u8>, pos: int, init_done: bool)
    requires
        0 <= pos <= buf.len(),
        segment_end(buf, pos, init_done) is Some,
    ensures
        segment_end(buf + more, pos, init_done) == segment_end(buf, pos, init_done),
    decreases buf.len() - pos,
{
    lemma_whole_box_extends(buf, more, pos);
    if box_kind(buf, pos) != moof() && box_kind(buf, pos) != mdat() {
        lemma_segment_end_extends(buf, more, pos + box_size(buf, pos), init_done);
    }
}

/// A segment that is complete stays the same when more bytes arrive.
pub proof fn lemma_split_extends(buf: Seq<u8>, more: Seq<u8>, init_done: bool)
    requires
        split(buf, init_done) is Some,
    ensures
        split(buf + more, init_done) == split(buf, init_done),
{
    lemma_first_moof_extends(buf, more, 0);
    lemma_first_moof_bounds(buf, 0);
    let m = first_moof(buf, 0)->0;
    lemma_whole_box_extends(buf, more, m);
    lemma_segment_end_extends(buf, more, m + box_size(buf, m), init_done);
}

/// How the stream is cut into pieces does not matter: two pieces in a row
/// give the segments, and leave the reader, as the two joined would.
pub proof fn lemma_pieces_do_not_matter(buf: Seq<u8>, more: Seq<u8>, init_done: bool)
    ensures
        ({
            let a = drain(buf, init_done);
            let b = drain(a.rest + more, a.init_done);
            let ab = drain(buf + more, init_done);
            &&& ab.segments == a.segments + b.segments
            &&& ab.rest == b.rest
            &&& ab.init_done == b.init_done
        }),
    decreases buf.len(),
{
    lemma_split_bounds(buf, init_done);
    let a = drain(buf, init_done);
    let b = drain(a.rest + more, a.init_done);
    let ab = drain(buf + more, init_done);
    match split(buf, init_done) {
        None => {
            assert(a.segments + b.segments =~= b.segments);
        },
        Some((m, e)) => {
            lemma_split_extends(buf, more, init_done);
            lemma_pieces_do_not_matter(buf.skip(e), more, true);
            assert((buf + more).skip(e) =~= buf.skip(e) + more);
            assert((buf + more).take(m) =~= buf.take(m));
            assert((buf + more).subrange(m, e) =~= buf.subrange(m, e));
            assert(ab.segments =~= a.segments + b.segments);
        },
    }
}

/// The init segment comes with the first segment and with no other, and no
/// byte is lost in front of the second one.
pub proof fn lemma_init_comes_once(buf: Seq<u8>, init_done: bool)
    ensures
        ({
            let d = drain(buf, init_done);
            &&& forall|i: int|
                0 <= i < d.segments.len() ==> ((#[trigger] d.segments[i]).init is Some <==> (i == 0
                    && !init_done))
            &&& d.init_done == (init_done || d.segments.len() > 0)
            &&& !init_done && d.segments.len() > 0 ==> (d.segments[0].init->0
                + d.segments[0].media).is_prefix_of(buf)
        }),
    decreases buf.len(),
{
    lemma_split_bounds(buf, init_done);
    if let Some((m, e)) = split(buf, init_done) {
        lemma_init_comes_once(buf.skip(e), true);
        assert(buf.take(m) + buf.subrange(m, e) =~= buf.take(e));
    }
}

/// Every media segment starts with a `moof`.
pub proof fn lemma_media_starts_with_moof(buf: Seq<u8>, init_done: bool)
    ensures
        ({
            let d = drain(buf, init_done);
            forall|i: int|
                0 <= i < d.segments.len() ==> (#[trigger] d.segments[i]).media.len() >= 8
                    && box_kind(d.segments[i].media, 0) == moof()
        }),
    decreases buf.len(),
{
    lemma_split_bounds(buf, init_done);
    if let Some((m, e)) = split(buf, init_done) {
        lemma_media_starts_with_moof(buf.skip(e), true);
        assert(buf.subrange(m, e).subrange(4, 8) =~= buf.subrange(m + 4, m + 8));
    }
}

/// A box: its size, its type, its body.
pub open spec fn mp4_box(kind: Seq<u8>, body: Seq<u8>) -> Seq<u8> {
    be32((body.len() + 8) as u32) + kind + body
}

/// The bodies of one fragment's two boxes.
pub struct Fragment {
    pub moof: Seq<u8>,
    pub mdat: Seq<u8>,
}

/// A fragment whose boxes fit their size fields.
pub open spec fn fragment_fits(f: Fragment) -> bool {
    f.moof.len() + 8 <= u32::MAX && f.mdat.len() + 8 <= u32::MAX
}

/// A fragment as an encoder writes it.
pub open spec fn fragment_bytes(f: Fragment) -> Seq<u8> {
    mp4_box(moof(), f.moof) + mp4_box(mdat(), f.mdat)
}

/// Fragments in a row.
pub open spec fn fragments_bytes(fs: Seq<Fragment>) -> Seq<u8>
    decreases fs.len(),
{
    if fs.len() == 0 {
        Seq::empty()
    } else {
        fragment_bytes(fs[0]) + fragments_bytes(fs.skip(1))
    }
}

/// Whole boxes up to the end of the buffer, no `moof` among them: what an
/// encoder writes in front of its fragments.
pub open spec fn header_boxes(buf: Seq<u8>, pos: int) -> bool
    decreases buf.len() - pos,
{
    pos == buf.len() || (whole_box(buf, pos) && box_kind(buf, pos) != moof() && header_boxes(
        buf,
        pos + box_size(buf, pos),
    ))
}

/// A box that starts `pos` bytes into a buffer reads as what was written.
proof fn lemma_box_reads(front: Seq<u8>, kind: Seq<u8>, body: Seq<u8>, back: Seq<u8>)
    requires
        kind.len() == 4,
        body.len() + 8 <= u32::MAX,
    ensures
        ({
            let buf = front + mp4_box(kind, body) + back;
            let pos = front.len() as int;
            &&& whole_box(buf, pos)
            &&& box_size(buf, pos) == body.len() + 8
            &&& box_kind(buf, pos) == kind
        }),
{
    let buf = front + mp4_box(kind, body) + back;
    let pos = front.len() as int;
    let n = (body.len() + 8) as u32;
    lemma_be32_round_trip(n);
    assert(buf.subrange(pos, pos + 4) =~= be32(n));
    assert(buf.subrange(pos + 4, pos + 8) =~= kind);
}

proof fn lemma_header_then_moof(header: Seq<u8>, rest: Seq<u8>, pos: int)
    requires
        0 <= pos <= header.len(),
        header_boxes(header, pos),
        whole_box(header + rest, header.len() as int),
        box_kind(header + rest, header.len() as int) == moof(),
    ensures
        first_moof(header + rest, pos) == Some(header.len() as int),
    decreases header.len() - pos,
{
    if pos != header.len() {
        lemma_whole_box_extends(header, rest, pos);
        lemma_header_then_moof(header, rest, pos + box_size(header, pos));
    }
}

/// Whole boxes up to the end of the buffer, neither a `moof` nor an `mdat`
/// among them.
pub open spec fn other_boxes(buf: Seq<u8>, pos: int) -> bool
    decreases buf.len() - pos,
{
    pos == buf.len() || (whole_box(buf, pos) && box_kind(buf, pos) != moof() && box_kind(buf, pos)
        != mdat() && other_boxes(buf, pos + box_size(buf, pos)))
}

proof fn lemma_others_then_mdat(
    front: Seq<u8>,
    others: Seq<u8>,
    rest: Seq<u8>,
    pos: int,
    done: bool,
)
    requires
        0 <= pos <= others.len(),
        other_boxes(others, pos),
        whole_box(front + others + rest, (front.len() + others.len()) as int),
        box_kind(front + others + rest, (front.len() + others.len()) as int) == mdat(),
    ensures
        ({
            let buf = front + others + rest;
            let at = (front.len() + others.len()) as int;
            segment_end(buf, front.len() + pos, done) == Some(at + box_size(buf, at))
        }),
    decreases others.len() - pos,
{
    let buf = front + others + rest;
    assert(moof()[1] != mdat()[1]);
    if pos != others.len() {
        let at = front.len() + pos;
        assert(buf.subrange(at, at + 4) =~= others.subrange(pos, pos + 4));
        assert(buf.subrange(at + 4, at + 8) =~= others.subrange(pos + 4, pos + 8));
        lemma_others_then_mdat(front, others, rest, pos + box_size(others, pos), done);
    }
}

proof fn lemma_box_len(kind: Seq<u8>, body: Seq<u8>)
    requires
        kind.len() == 4,
    ensures
        mp4_box(kind, body).len() == body.len() + 8,
{
}

proof fn lemma_moof_found(buf: Seq<u8>, header: Seq<u8>, body: Seq<u8>, tail: Seq<u8>)
    requires
        buf == header + mp4_box(moof(), body) + tail,
        header_boxes(header, 0),
        body.len() + 8 <= u32::MAX,
    ensures
        first_moof(buf, 0) == Some(header.len() as int),
        box_size(buf, header.len() as int) == body.len() + 8,
{
    lemma_box_reads(header, moof(), body, tail);
    assert(header + (mp4_box(moof(), body) + tail) =~= buf);
    lemma_header_then_moof(header, mp4_box(moof(), body) + tail, 0);
}

proof fn lemma_mdat_ends(
    buf: Seq<u8>,
    front: Seq<u8>,
    others: Seq<u8>,
    body: Seq<u8>,
    rest: Seq<u8>,
    done: bool,
)
    requires
        buf == front + others + mp4_box(mdat(), body) + rest,
        other_boxes(others, 0),
        body.len() + 8 <= u32::MAX,
    ensures
        segment_end(buf, front.len() as int, done) == Some(
            (front.len() + others.len() + body.len() + 8) as int,
        ),
{
    lemma_box_reads(front + others, mdat(), body, rest);
    assert(front + others + (mp4_box(mdat(), body) + rest) =~= buf);
    lemma_others_then_mdat(front, others, mp4_box(mdat(), body) + rest, 0, done);
}

proof fn lemma_regroup(h: Seq<u8>, a: Seq<u8>, o: Seq<u8>, b: Seq<u8>, r: Seq<u8>)
    ensures
        h + (a + o + b) + r == h + a + (o + b + r),
        h + (a + o + b) + r == (h + a) + o + b + r,
{
    assert(h + (a + o + b) + r =~= h + a + (o + b + r));
    assert(h + (a + o + b) + r =~= (h + a) + o + b + r);
}

/// Boxes of other kinds belong where they stand: in front of the `moof` they
/// are no part of the segment, between the `moof` and its `mdat` they are, and
/// the segment ends with the `mdat`.
pub proof fn lemma_other_boxes(
    header: Seq<u8>,
    f: Fragment,
    others: Seq<u8>,
    rest: Seq<u8>,
    init_done: bool,
)
    requires
        header_boxes(header, 0),
        other_boxes(others, 0),
        fragment_fits(f),
    ensures
        ({
            let segment = mp4_box(moof(), f.moof) + others + mp4_box(mdat(), f.mdat);
            split(header + segment + rest, init_done) == Some(
                (header.len() as int, (header.len() + segment.len()) as int),
            )
        }),
{
    let a = mp4_box(moof(), f.moof);
    let b = mp4_box(mdat(), f.mdat);
    let buf = header + (a + others + b) + rest;
    lemma_box_len(moof(), f.moof);
    lemma_box_len(mdat(), f.mdat);
    lemma_regroup(header, a, others, b, rest);
    lemma_moof_found(buf, header, f.moof, others + b + rest);
    lemma_mdat_ends(buf, header + a, others, f.mdat, rest, init_done);
}

/// Behind a header, the first segment is the first fragment.
proof fn lemma_split_fragment(header: Seq<u8>, f: Fragment, rest: Seq<u8>, init_done: bool)
    requires
        header_boxes(header, 0),
        fragment_fits(f),
    ensures
        split(header + (fragment_bytes(f) + rest), init_done) == Some(
            (header.len() as int, (header.len() + fragment_bytes(f).len()) as int),
        ),
{
    let none = Seq::<u8>::empty();
    let (a, b) = (mp4_box(moof(), f.moof), mp4_box(mdat(), f.mdat));
    lemma_other_boxes(header, f, none, rest, init_done);
    assert(a + none + b =~= fragment_bytes(f));
    assert(header + fragment_bytes(f) + rest =~= header + (fragment_bytes(f) + rest));
}

/// What an encoder writes comes out again: header boxes and fragments, fed to
/// a fresh reader, come back as the init segment and one media segment per
/// fragment, byte for byte and in order, with nothing left over.
pub proof fn lemma_stream_round_trip(header: Seq<u8>, fs: Seq<Fragment>)
    requires
        header_boxes(header, 0),
        fs.len() > 0,
        forall|i: int| 0 <= i < fs.len() ==> fragment_fits(#[trigger] fs[i]),
    ensures
        ({
            let d = drain(header + fragments_bytes(fs), false);
            &&& d.segments.len() == fs.len()
            &&& d.segments[0].init == Some(header)
            &&& forall|i: int|
                0 <= i < fs.len() ==> (#[trigger] d.segments[i]).media == fragment_bytes(fs[i])
            &&& d.rest.len() == 0
            &&& d.init_done
        }),
{
    let f = fs[0];
    let rest = fragments_bytes(fs.skip(1));
    let buf = header + fragments_bytes(fs);
    lemma_split_fragment(header, f, rest, false);
    let e = header.len() + fragment_bytes(f).len();
    assert(buf.take(header.len() as int) =~= header);
    assert(buf.subrange(header.len() as int, e as int) =~= fragment_bytes(f));
    assert(buf.skip(e as int) =~= rest);
    assert(fragment_bytes(f).len() > 0);
    lemma_fragments_drain(fs.skip(1));
    let d = drain(buf, false);
    let later = drain(rest, true);
    assert(d.segments == seq![d.segments[0]] + later.segments);
    assert forall|i: int| 0 <= i < fs.len() implies (#[trigger] d.segments[i]).media
        == fragment_bytes(fs[i]) by {
        if i > 0 {
            assert(d.segments[i] == later.segments[i - 1]);
            assert(fs.skip(1)[i - 1] == fs[i]);
        }
    }
}

proof fn lemma_fragments_drain(fs: Seq<Fragment>)
    requires
        forall|i: int| 0 <= i < fs.len() ==> fragment_fits(#[trigger] fs[i]),
    ensures
        ({
            let d = drain(fragments_bytes(fs), true);
            &&& d.segments.len() == fs.len()
            &&& forall|i: int|
                0 <= i < fs.len() ==> (#[trigger] d.segments[i]).media == fragment_bytes(fs[i])
            &&& d.rest.len() == 0
            &&& d.init_done
        }),
    decreases fs.len(),
{
    let buf = fragments_bytes(fs);
    if fs.len() > 0 {
        let f = fs[0];
        let rest = fragments_bytes(fs.skip(1));
        let none = Seq::<u8>::empty();
        lemma_split_fragment(none, f, rest, true);
        assert(none + (fragment_bytes(f) + rest) =~= buf);
        let e = fragment_bytes(f).len() as int;
        assert(buf.subrange(0, e) =~= fragment_bytes(f));
        assert(buf.skip(e) =~= rest);
        lemma_fragments_drain(fs.skip(1));
        let d = drain(buf, true);
        let later = drain(rest, true);
        assert(d.segments == seq![d.segments[0]] + later.segments);
        assert forall|i: int| 0 <= i < fs.len() implies (#[trigger] d.segments[i]).media
            == fragment_bytes(fs[i]) by {
            if i > 0 {
                assert(d.segments[i] == later.segments[i - 1]);
                assert(fs.skip(1)[i - 1] == fs[i]);
            }
        }
    }
}

/// An empty fragment, a `moof` with another `moof` behind it, is a segment of
/// its own once the init segment is out; before that more bytes are awaited.
pub proof fn lemma_empty_fragment(header: Seq<u8>, x: Seq<u8>, y: Seq<u8>, rest: Seq<u8>)
    requires
        header_boxes(header, 0),
        x.len() + 8 <= u32::MAX,
        y.len() + 8 <= u32::MAX,
    ensures
        ({
            let buf = header + mp4_box(moof(), x) + mp4_box(moof(), y) + rest;
            &&& split(buf, true) == Some(
                (header.len() as int, (header.len() + x.len() + 8) as int),
            )
            &&& split(buf, false) is None
        }),
{
    let (a, b) = (mp4_box(moof(), x), mp4_box(moof(), y));
    let buf = header + a + b + rest;
    lemma_box_len(moof(), x);
    assert(buf =~= header + a + (b + rest));
    lemma_moof_found(buf, header, x, b + rest);
    lemma_box_reads(header + a, moof(), y, rest);
}

/// Nothing is found in a buffer whose first box is malformed or incomplete.
pub proof fn lemma_broken_box(buf: Seq<u8>, init_done: bool)
    requires
        buf.len() < 8 || box_size(buf, 0) < 8 || box_size(buf, 0) > buf.len(),
    ensures
        split(buf, init_done) is None,
{
}

} // verus!
