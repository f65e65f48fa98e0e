//! Cutting complete JPEG images out of an accumulating byte buffer.
//!
//! An image is delimited by content alone: it starts at the first
//! start-of-image marker `FF D8` and ends with the first end-of-image marker
//! `FF D9` that begins at least two bytes later.

use vstd::prelude::*;

verus! {

/// Second byte of the start-of-image marker.
pub const SOI: u8 = 0xD8;

/// Second byte of the end-of-image marker.
pub const EOI: u8 = 0xD9;

/// The two-byte marker `FF second` stands at offset `i` of `buf`.
pub open spec fn marker_at(buf: Seq<u8>, i: int, second: u8) -> bool {
    &&& 0 <= i
    &&& i + 1 < buf.len()
    &&& buf[i] == 0xFF
    &&& buf[i + 1] == second
}

/// `i` is the least offset at or after `from` at which the marker stands.
pub open spec fn is_first_marker(buf: Seq<u8>, from: int, second: u8, i: int) -> bool {
    &&& from <= i
    &&& marker_at(buf, i, second)
    &&& forall|k: int| from <= k < i ==> !marker_at(buf, k, second)
}

/// The least offset at or after `from` at which the marker stands, if any.
pub open spec fn first_marker(buf: Seq<u8>, from: int, second: u8) -> Option<int> {
    if exists|i: int| is_first_marker(buf, from, second, i) {
        Some(choose|i: int| is_first_marker(buf, from, second, i))
    } else {
        None
    }
}

/// A least offset, once exhibited, is the value of `first_marker`.
pub proof fn lemma_first_marker_is(buf: Seq<u8>, from: int, second: u8, i: int)
    requires
        is_first_marker(buf, from, second, i),
    ensures
        first_marker(buf, from, second) == Some(i),
{
    let j = choose|j: int| is_first_marker(buf, from, second, j);
    assert(is_first_marker(buf, from, second, j));
    if j < i {
        assert(!marker_at(buf, j, second));
    }
    if i < j {
        assert(!marker_at(buf, i, second));
    }
}

/// Where the marker stands nowhere at or after `from`, there is no first one.
pub proof fn lemma_first_marker_none(buf: Seq<u8>, from: int, second: u8)
    requires
        forall|k: int| from <= k ==> !marker_at(buf, k, second),
    ensures
        first_marker(buf, from, second) is None,
{
}

/// Scans `buffer` from offset `from` for the marker `FF second`.
fn scan_marker(buffer: &[u8], from: usize, second: u8) -> (found: Option<usize>)
    ensures
        match found {
            Some(i) => is_first_marker(buffer@, from as int, second, i as int),
            None => forall|k: int| from <= k ==> !marker_at(buffer@, k, second),
        },
        match found {
            Some(i) => first_marker(buffer@, from as int, second) == Some(i as int),
            None => first_marker(buffer@, from as int, second) is None,
        },
{
    let len = buffer.len();
    let mut i: usize = from;
    while i < len && len - i >= 2
        invariant
            from <= i,
            len == buffer@.len(),
            forall|k: int| from <= k < i ==> !marker_at(buffer@, k, second),
        decreases len - i,
    {
        if buffer[i] == 0xFF && buffer[i + 1] == second {
            proof {
                lemma_first_marker_is(buffer@, from as int, second, i as int);
            }
            return Some(i);
        }
        i += 1;
    }
    proof {
        lemma_first_marker_none(buffer@, from as int, second);
    }
    None
}

/// Offset of the first start-of-image marker in `buffer`: the marker stands
/// there and nowhere in front of it. `None` exactly when it stands nowhere.
pub fn find_jpeg_start(buffer: &[u8]) -> (start: Option<usize>)
    ensures
        match start {
            Some(s) => is_first_marker(buffer@, 0, SOI, s as int),
            None => forall|k: int| !marker_at(buffer@, k, SOI),
        },
        match start {
            Some(s) => first_marker(buffer@, 0, SOI) == Some(s as int),
            None => first_marker(buffer@, 0, SOI) is None,
        },
{
    scan_marker(buffer, 0, SOI)
}

/// Offset of the last byte of the first end-of-image marker that begins at
/// least two bytes after `start_pos`. `None` exactly when no end-of-image
/// marker begins there or later.
pub fn find_jpeg_end(buffer: &[u8], start_pos: usize) -> (end: Option<usize>)
    ensures
        match end {
            Some(e) => is_first_marker(buffer@, start_pos + 2, EOI, e - 1),
            None => forall|k: int| start_pos + 2 <= k ==> !marker_at(buffer@, k, EOI),
        },
        match end {
            Some(e) => first_marker(buffer@, start_pos + 2, EOI) == Some(e - 1),
            None => first_marker(buffer@, start_pos + 2, EOI) is None,
        },
{
    let len = buffer.len();
    if start_pos >= len || len - start_pos <= 2 {
        proof {
            lemma_first_marker_none(buffer@, start_pos + 2, EOI);
        }
        return None;
    }
    match scan_marker(buffer, start_pos + 2, EOI) {
        Some(i) => Some(i + 1),
        None => None,
    }
}

/// The offsets of one complete image in a buffer, both inclusive: `start` is
/// where its start-of-image marker begins, `end` is the last byte of its
/// end-of-image marker.
#[derive(Clone, Copy, Debug, PartialEq, Eq, Structural)]
pub struct FrameBoundary {
    pub start: usize,
    pub end: usize,
}

/// The first complete image in `buf` as `(start, end)`, both inclusive: the
/// first start-of-image marker, and the first end-of-image marker that begins
/// at least two bytes after it. `None` while either marker is missing.
pub open spec fn next_boundary(buf: Seq<u8>) -> Option<(int, int)> {
    match first_marker(buf, 0, SOI) {
        Some(s) => match first_marker(buf, s + 2, EOI) {
            Some(e) => Some((s, e + 1)),
            None => None,
        },
        None => None,
    }
}

/// A boundary that `next_boundary` reports lies within the buffer, spans at
/// least four bytes, and has a marker at each end.
pub proof fn lemma_next_boundary_valid(buf: Seq<u8>)
    ensures
        match next_boundary(buf) {
            Some((s, e)) => {
                &&& 0 <= s
                &&& s + 3 <= e < buf.len()
                &&& marker_at(buf, s, SOI)
                &&& marker_at(buf, e - 1, EOI)
            },
            None => true,
        },
{
}

/// Finds the first complete image in `buffer`.
pub fn find_frame_boundary(buffer: &[u8]) -> (found: Option<FrameBoundary>)
    ensures
        match found {
            Some(b) => next_boundary(buffer@) == Some((b.start as int, b.end as int)),
            None => next_boundary(buffer@) is None,
        },
{
    match find_jpeg_start(buffer) {
        Some(start) => match find_jpeg_end(buffer, start) {
            Some(end) => Some(FrameBoundary { start, end }),
            None => None,
        },
        None => None,
    }
}

/// The bytes of the first complete image in `buf`, markers included.
pub open spec fn next_frame(buf: Seq<u8>) -> Option<Seq<u8>> {
    match next_boundary(buf) {
        Some((s, e)) => Some(buf.subrange(s, e + 1)),
        None => None,
    }
}

/// What is left of `buf` once its first complete image has been taken out:
/// everything behind the image. Bytes in front of the image are discarded
/// with it. Without a complete image nothing is removed.
pub open spec fn after_next_frame(buf: Seq<u8>) -> Seq<u8> {
    match next_boundary(buf) {
        Some((s, e)) => buf.subrange(e + 1, buf.len() as int),
        None => buf,
    }
}

/// Takes the first complete image out of `buffer`, together with every byte
/// in front of it. While no complete image is present the buffer is left as
/// it is, so that later bytes can complete a partial image.
pub fn extract_next_jpeg(buffer: &mut Vec<u8>) -> (jpeg: Option<Vec<u8>>)
    ensures
        match jpeg {
            Some(data) => next_frame(old(buffer)@) == Some(data@),
            None => next_frame(old(buffer)@) is None,
        },
        final(buffer)@ == after_next_frame(old(buffer)@),
{
    let len = buffer.len();
    let boundary = find_frame_boundary(buffer.as_slice());
    match boundary {
        Some(b) => {
            proof {
                lemma_next_boundary_valid(buffer@);
            }
            assert(b.end < len);
            let rest = buffer.split_off(b.end + 1);
            let jpeg = buffer.split_off(b.start);
            *buffer = rest;
            assert(jpeg@ =~= old(buffer)@.subrange(b.start as int, b.end + 1));
            Some(jpeg)
        },
        None => None,
    }
}

/// Every complete image of `buf`, in stream order, as extraction repeated
/// from the head of what is left yields them.
pub open spec fn frames_in(buf: Seq<u8>) -> Seq<Seq<u8>>
    decreases buf.len(),
{
    match next_frame(buf) {
        Some(frame) => seq![frame] + frames_in(after_next_frame(buf)),
        None => Seq::empty(),
    }
}

/// What is left of `buf` when no complete image remains in it.
pub open spec fn residue(buf: Seq<u8>) -> Seq<u8>
    decreases buf.len(),
{
    match next_frame(buf) {
        Some(frame) => residue(after_next_frame(buf)),
        None => buf,
    }
}

/// The byte sequences that a list of byte vectors holds, in order.
pub open spec fn byte_views(list: Seq<Vec<u8>>) -> Seq<Seq<u8>> {
    list.map_values(|bytes: Vec<u8>| bytes@)
}

/// Extracts images from `buffer` until none is complete.
pub fn extract_all_jpegs(buffer: &mut Vec<u8>) -> (frames: Vec<Vec<u8>>)
    ensures
        byte_views(frames@) == frames_in(old(buffer)@),
        final(buffer)@ == residue(old(buffer)@),
{
    let mut frames: Vec<Vec<u8>> = Vec::new();
    loop
        invariant
            byte_views(frames@) + frames_in(buffer@) == frames_in(old(buffer)@),
            residue(buffer@) == residue(old(buffer)@),
        ensures
            byte_views(frames@) == frames_in(old(buffer)@),
            buffer@ == residue(old(buffer)@),
        decreases buffer@.len(),
    {
        let ghost before = buffer@;
        let ghost taken = byte_views(frames@);
        proof {
            lemma_next_boundary_valid(before);
        }
        match extract_next_jpeg(buffer) {
            Some(jpeg) => {
                frames.push(jpeg);
                assert(byte_views(frames@) =~= taken.push(jpeg@));
                assert(taken.push(jpeg@) + frames_in(buffer@) =~= taken + frames_in(before));
            },
            None => {
                assert(byte_views(frames@) + Seq::<Seq<u8>>::empty() =~= byte_views(frames@));
                break ;
            },
        }
    }
    frames
}

/// Nothing is left of a buffer's residue to extract.
pub proof fn lemma_residue_is_drained(buf: Seq<u8>)
    ensures
        next_frame(residue(buf)) is None,
        residue(buf).len() <= buf.len(),
    decreases buf.len(),
{
    if next_frame(buf) is Some {
        lemma_next_boundary_valid(buf);
        lemma_residue_is_drained(after_next_frame(buf));
    }
}

/// The definition of `first_marker` is complete: it is `None` exactly when
/// the marker stands nowhere at or after `from`, and otherwise it is the
/// least such offset.
pub proof fn lemma_first_marker_total(buf: Seq<u8>, from: int, second: u8)
    ensures
        match first_marker(buf, from, second) {
            Some(i) => is_first_marker(buf, from, second, i),
            None => forall|k: int| from <= k ==> !marker_at(buf, k, second),
        },
{
    if first_marker(buf, from, second) is None {
        assert forall|k: int| from <= k implies !marker_at(buf, k, second) by {
            if marker_at(buf, k, second) {
                lemma_least_marker_exists(buf, from, second, k);
            }
        }
    }
}

/// Below any offset at which the marker stands there is a least one.
proof fn lemma_least_marker_exists(buf: Seq<u8>, from: int, second: u8, k: int)
    requires
        from <= k,
        marker_at(buf, k, second),
    ensures
        exists|i: int| is_first_marker(buf, from, second, i),
    decreases k - from,
{
    if exists|j: int| from <= j < k && marker_at(buf, j, second) {
        let j = choose|j: int| from <= j < k && marker_at(buf, j, second);
        lemma_least_marker_exists(buf, from, second, j);
    } else {
        assert(is_first_marker(buf, from, second, k));
    }
}

/// A marker that has been found stays the first one when bytes are appended.
pub proof fn lemma_first_marker_survives_appending(
    buf: Seq<u8>,
    more: Seq<u8>,
    from: int,
    second: u8,
)
    requires
        first_marker(buf, from, second) is Some,
    ensures
        first_marker(buf + more, from, second) == first_marker(buf, from, second),
{
    lemma_first_marker_total(buf, from, second);
    let at = first_marker(buf, from, second)->0;
    let longer = buf + more;
    assert(longer[at] == buf[at] && longer[at + 1] == buf[at + 1]);
    assert forall|k: int| from <= k < at implies !marker_at(longer, k, second) by {
        if 0 <= k {
            assert(longer[k] == buf[k] && longer[k + 1] == buf[k + 1]);
        }
        assert(!marker_at(buf, k, second));
    }
    lemma_first_marker_is(longer, from, second, at);
}

/// It does not matter how the stream is cut into chunks: extracting from
/// `head`, and then from what that left together with `more`, yields the same
/// images in the same order, and leaves the same bytes, as extracting from
/// `head + more` at once.
pub proof fn lemma_chunking_does_not_matter(head: Seq<u8>, more: Seq<u8>)
    ensures
        frames_in(head + more) == frames_in(head) + frames_in(residue(head) + more),
        residue(head + more) == residue(residue(head) + more),
    decreases head.len(),
{
    match next_boundary(head) {
        Some((s, e)) => {
            lemma_next_boundary_valid(head);
            lemma_first_marker_survives_appending(head, more, 0, SOI);
            lemma_first_marker_survives_appending(head, more, s + 2, EOI);
            let whole = head + more;
            assert(next_boundary(whole) == Some((s, e)));
            assert(whole.subrange(s, e + 1) =~= head.subrange(s, e + 1));
            assert(after_next_frame(whole) =~= after_next_frame(head) + more);
            lemma_chunking_does_not_matter(after_next_frame(head), more);
            let frame = head.subrange(s, e + 1);
            assert(seq![frame] + (frames_in(after_next_frame(head)) + frames_in(
                residue(head) + more,
            )) =~= (seq![frame] + frames_in(after_next_frame(head))) + frames_in(
                residue(head) + more,
            ));
        },
        None => {
            assert(Seq::<Seq<u8>>::empty() + frames_in(head + more) =~= frames_in(head + more));
        },
    }
}

/// A complete image as extraction reads it: it begins with the start-of-image
/// marker, ends with the end-of-image marker, and no other end-of-image marker
/// begins at its offset 2 or later.
pub open spec fn is_whole_frame(frame: Seq<u8>) -> bool {
    &&& marker_at(frame, 0, SOI)
    &&& is_first_marker(frame, 2, EOI, frame.len() - 2)
}

/// A partial image at the end of `buf`: the first start-of-image marker is at
/// `start`, and no end-of-image marker begins two bytes after it or later.
pub open spec fn is_partial_frame(buf: Seq<u8>, start: int) -> bool {
    &&& is_first_marker(buf, 0, SOI, start)
    &&& forall|k: int| start + 2 <= k ==> !marker_at(buf, k, EOI)
}

/// Bytes in front of an image are discarded with it: where `garbage` holds no
/// start-of-image marker and `frame` is a complete image, extraction from
/// `garbage + frame + tail` yields exactly `frame` and leaves exactly `tail`.
pub proof fn lemma_leading_garbage_is_discarded(
    garbage: Seq<u8>,
    frame: Seq<u8>,
    tail: Seq<u8>,
)
    requires
        forall|k: int| !marker_at(garbage, k, SOI),
        is_whole_frame(frame),
    ensures
        next_frame(garbage + frame + tail) == Some(frame),
        after_next_frame(garbage + frame + tail) == tail,
        frames_in(garbage + frame + tail) == seq![frame] + frames_in(tail),
        residue(garbage + frame + tail) == residue(tail),
{
    let buf = garbage + frame + tail;
    let s = garbage.len() as int;
    let e = s + frame.len() - 2;
    assert forall|k: int| 0 <= k < s implies !marker_at(buf, k, SOI) by {
        if k + 1 < s {
            assert(buf[k] == garbage[k] && buf[k + 1] == garbage[k + 1]);
            assert(!marker_at(garbage, k, SOI));
        } else {
            assert(buf[k + 1] == frame[0]);
        }
    }
    assert(buf[s] == frame[0] && buf[s + 1] == frame[1]);
    lemma_first_marker_is(buf, 0, SOI, s);
    assert forall|k: int| s + 2 <= k < e implies !marker_at(buf, k, EOI) by {
        assert(buf[k] == frame[k - s] && buf[k + 1] == frame[k - s + 1]);
        assert(!marker_at(frame, k - s, EOI));
    }
    assert(buf[e] == frame[e - s] && buf[e + 1] == frame[e - s + 1]);
    lemma_first_marker_is(buf, s + 2, EOI, e);
    assert(next_boundary(buf) == Some((s, e + 1)));
    assert(buf.subrange(s, e + 2) =~= frame);
    assert(buf.subrange(e + 2, buf.len() as int) =~= tail);
}

/// Back-to-back images come out one by one: where every element of `frames`
/// is a complete image, extraction run to exhaustion on their concatenation
/// yields exactly these images, in their order, and leaves nothing.
pub proof fn lemma_back_to_back_frames(frames: Seq<Seq<u8>>)
    requires
        forall|i: int| 0 <= i < frames.len() ==> is_whole_frame(#[trigger] frames[i]),
    ensures
        frames_in(frames.flatten()) == frames,
        residue(frames.flatten()) == Seq::<u8>::empty(),
    decreases frames.len(),
{
    if frames.len() == 0 {
        lemma_first_marker_none(Seq::<u8>::empty(), 0, SOI);
        assert(frames =~= Seq::<Seq<u8>>::empty());
    } else {
        let first = frames.first();
        let others = frames.drop_first();
        assert forall|i: int| 0 <= i < others.len() implies is_whole_frame(
            #[trigger] others[i],
        ) by {
            assert(others[i] == frames[i + 1]);
        }
        lemma_back_to_back_frames(others);
        lemma_first_marker_none(Seq::<u8>::empty(), 0, SOI);
        lemma_leading_garbage_is_discarded(Seq::<u8>::empty(), first, others.flatten());
        assert(Seq::<u8>::empty() + first + others.flatten() =~= frames.flatten());
        assert(seq![first] + others =~= frames);
    }
}

/// A partial image waits for its end: extraction yields nothing and changes
/// nothing while the end-of-image marker is missing, and once the two marker
/// bytes are appended it yields exactly one image, from the start-of-image
/// marker to the end of the buffer, and leaves nothing.
pub proof fn lemma_partial_frame_completes(buf: Seq<u8>, start: int)
    requires
        is_partial_frame(buf, start),
    ensures
        next_frame(buf) is None,
        after_next_frame(buf) == buf,
        frames_in(buf) == Seq::<Seq<u8>>::empty(),
        residue(buf) == buf,
        frames_in(buf + seq![0xFFu8, EOI]) == seq![(buf + seq![0xFFu8, EOI]).skip(start)],
        residue(buf + seq![0xFFu8, EOI]) == Seq::<u8>::empty(),
{
    lemma_first_marker_is(buf, 0, SOI, start);
    lemma_first_marker_none(buf, start + 2, EOI);
    let done = buf + seq![0xFFu8, EOI];
    let e = buf.len() as int;
    assert forall|k: int| 0 <= k < start implies !marker_at(done, k, SOI) by {
        assert(done[k] == buf[k] && done[k + 1] == buf[k + 1]);
        assert(!marker_at(buf, k, SOI));
    }
    assert(done[start] == buf[start] && done[start + 1] == buf[start + 1]);
    lemma_first_marker_is(done, 0, SOI, start);
    assert forall|k: int| start + 2 <= k < e implies !marker_at(done, k, EOI) by {
        if k + 1 < e {
            assert(done[k] == buf[k] && done[k + 1] == buf[k + 1]);
            assert(!marker_at(buf, k, EOI));
        } else {
            assert(done[k + 1] == 0xFF);
        }
    }
    assert(done[e] == 0xFF && done[e + 1] == EOI);
    lemma_first_marker_is(done, start + 2, EOI, e);
    assert(next_boundary(done) == Some((start, e + 1)));
    let nothing = Seq::<u8>::empty();
    assert(after_next_frame(done) =~= nothing);
    lemma_first_marker_none(nothing, 0, SOI);
    assert(frames_in(nothing) == Seq::<Seq<u8>>::empty());
    assert(residue(nothing) == nothing);
    assert(frames_in(done) == seq![done.subrange(start, e + 2)] + frames_in(nothing));
    assert(residue(done) == residue(nothing));
    assert(done.subrange(start, e + 2) =~= done.skip(start));
    assert(seq![done.skip(start)] + Seq::<Seq<u8>>::empty() =~= seq![done.skip(start)]);
}

} // verus!
