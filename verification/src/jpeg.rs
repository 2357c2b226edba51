//! JPEG files as the decoder meets them: the marker segments before the picture
//! data, and which files it reads to the end or refuses without a panic.
use vstd::prelude::*;

verus! {

/// The marker of a segment of quantization tables.
pub const QUANTIZATION: u8 = 0xdb;

/// The marker of a segment of Huffman tables.
pub const HUFFMAN: u8 = 0xc4;

/// The marker of a scan header, behind which the picture data begins.
pub const SCAN: u8 = 0xda;

/// The marker of the frame header of a progressive picture.
pub const PROGRESSIVE: u8 = 0xc2;

/// The marker of the segment that JFIF writes first.
pub const JFIF: u8 = 0xe0;

/// The marker of the segment in which Adobe notes the colors.
pub const ADOBE: u8 = 0xee;

/// The sampling of a component with one block in each unit, across and down.
pub const PLAIN: u8 = 0x11;

/// The widest difference between two mean values of neighboring blocks, in bits.
pub const MEAN_BITS: u8 = 11;

/// The largest mean value of a block, quantized, to which the decoder can still
/// add its rounding.
pub const MEAN_LIMIT: u64 = 0x7fff_fbfb;

/// A marker segment: its marker, and where its content stands.
#[derive(Clone, Copy, Debug)]
pub struct Segment {
    pub marker: u8,
    pub start: usize,
    pub end: usize,
}

impl Segment {
    /// A frame header of a picture that the decoder can read.
    pub open spec fn is_frame(self) -> bool {
        0xc0 <= self.marker <= PROGRESSIVE
    }

    /// The content lies within the bytes.
    pub open spec fn lies_in(self, bytes: Seq<u8>) -> bool {
        self.start <= self.end <= bytes.len()
    }

    /// The decoder reads one byte too many of a JFIF segment of this length.
    pub open spec fn is_misread(self) -> bool {
        self.marker == JFIF && self.end - self.start == 4
    }
}

/// Two bytes as a number, the higher one first.
pub open spec fn word_at(bytes: Seq<u8>, at: int) -> int {
    bytes[at] * 256 + bytes[at + 1]
}

/// A marker begins here, as far as the bytes go.
pub open spec fn marker_at(bytes: Seq<u8>, at: int) -> bool {
    &&& at < bytes.len() ==> bytes[at] == 0xff
    &&& at + 1 < bytes.len() ==> bytes[at + 1] != 0 && bytes[at + 1] != 0xff
}

/// The segment that begins here, nothing where none does or the bytes end in it.
pub open spec fn segment_at(bytes: Seq<u8>, at: int) -> Option<Segment> {
    if 0 <= at && at + 4 <= bytes.len() <= u32::MAX && marker_at(bytes, at) && 2 <= word_at(
        bytes,
        at + 2,
    ) <= bytes.len() - at - 2 {
        Some(
            Segment {
                marker: bytes[at + 1],
                start: (at + 4) as usize,
                end: (at + 2 + word_at(bytes, at + 2)) as usize,
            },
        )
    } else {
        None
    }
}

/// The segments from here on, up to the first scan header.
pub open spec fn headers(bytes: Seq<u8>, at: int) -> Seq<Segment>
    decreases bytes.len() - at,
{
    match segment_at(bytes, at) {
        Some(segment) => if segment.marker == SCAN {
            seq![segment]
        } else {
            seq![segment] + headers(bytes, segment.end as int)
        },
        None => Seq::empty(),
    }
}

/// The bytes begin as a JPEG file does.
pub open spec fn is_jpeg(bytes: Seq<u8>) -> bool {
    bytes.len() >= 3 && bytes[0] == 0xff && bytes[1] == 0xd8 && bytes[2] == 0xff
}

/// The segments lead up to picture data.
pub open spec fn reach_scan(segments: Seq<Segment>) -> bool {
    segments.len() > 0 && segments.last().marker == SCAN
}

/// Where the segments of a file end.
pub open spec fn headers_end(segments: Seq<Segment>) -> int {
    if segments.len() > 0 {
        segments.last().end as int
    } else {
        2
    }
}

/// The height of the picture, as its frame header gives it.
pub open spec fn frame_height(bytes: Seq<u8>, frame: Segment) -> int {
    word_at(bytes, frame.start + 1)
}

/// The width of the picture, as its frame header gives it.
pub open spec fn frame_width(bytes: Seq<u8>, frame: Segment) -> int {
    word_at(bytes, frame.start + 3)
}

/// The number of the picture's components, as its frame header gives it.
pub open spec fn frame_components(bytes: Seq<u8>, frame: Segment) -> u8 {
    bytes[frame.start + 5]
}

/// How a component is sampled: across in the upper four bits, down in the lower.
pub open spec fn sampling(bytes: Seq<u8>, frame: Segment, component: int) -> u8 {
    bytes[frame.start + 7 + 3 * component]
}

/// A component has one, two or four blocks in each unit across, and one to four
/// down.
pub open spec fn is_sampling(sampling: u8) -> bool {
    &&& sampling / 16 == 1 || sampling / 16 == 2 || sampling / 16 == 4
    &&& 1 <= sampling % 16 <= 4
}

/// A frame header that the decoder refuses.
pub open spec fn is_refused(bytes: Seq<u8>, frame: Segment) -> bool {
    ||| frame.end - frame.start < 6
    ||| bytes[frame.start as int] != 8
    ||| frame_height(bytes, frame) == 0
    ||| frame_width(bytes, frame) == 0
    ||| frame_components(bytes, frame) == 0
    ||| frame_components(bytes, frame) > 4
    ||| frame.end - frame.start != 6 + 3 * frame_components(bytes, frame)
    ||| exists|i: int|
        0 <= i < frame_components(bytes, frame) && !is_sampling(#[trigger] sampling(bytes, frame, i))
}

/// A later component has as many blocks in each unit as the first, or one, both
/// across and down.
pub open spec fn follows(first: u8, later: u8) -> bool {
    &&& later / 16 == 1 || later / 16 == first / 16
    &&& later % 16 == 1 || later % 16 == first % 16
}

/// One component, in a picture that can be rounded up to whole blocks unless it
/// is sampled once; three components of which the later ones follow the first;
/// or four that are sampled once.
pub open spec fn is_sampled_evenly(bytes: Seq<u8>, frame: Segment) -> bool {
    let first = sampling(bytes, frame, 0);
    if frame_components(bytes, frame) == 1 {
        first == PLAIN || (frame_width(bytes, frame) <= 0xfff8 && frame_height(bytes, frame)
            <= 0xfff8)
    } else if frame_components(bytes, frame) == 3 {
        follows(first, sampling(bytes, frame, 1)) && follows(first, sampling(bytes, frame, 2))
    } else {
        &&& frame_components(bytes, frame) == 4
        &&& first == PLAIN
        &&& sampling(bytes, frame, 1) == PLAIN
        &&& sampling(bytes, frame, 2) == PLAIN
        &&& sampling(bytes, frame, 3) == PLAIN
    }
}

/// How many blocks of a size cover a length.
pub open spec fn blocks_along(length: int, size: int) -> int {
    (length + 8 * size - 1) / (8 * size) * size
}

/// The number of blocks in the first component of a picture.
pub open spec fn block_count(bytes: Seq<u8>, frame: Segment) -> int {
    blocks_along(frame_width(bytes, frame), sampling(bytes, frame, 0) as int / 16) * blocks_along(
        frame_height(bytes, frame),
        sampling(bytes, frame, 0) as int % 16,
    )
}

/// The mean values of this many blocks, each as far as can be from the one
/// before, stay within the limit once they are multiplied by `step`.
pub open spec fn means_fit(blocks: int, step: int) -> bool {
    blocks * 2047 * step <= MEAN_LIMIT
}

/// A quantization table of bytes in whose steps the mean values fit.
pub open spec fn table_fits(bytes: Seq<u8>, start: int, table: int, blocks: int) -> bool {
    &&& bytes[start + 65 * table] < 16
    &&& means_fit(blocks, bytes[start + 65 * table + 1] as int)
}

/// Quantization tables of bytes, in whose steps the mean values fit.
pub open spec fn tables_fit(bytes: Seq<u8>, segment: Segment, blocks: int) -> bool {
    &&& (segment.end - segment.start) % 65 == 0
    &&& forall|table: int|
        0 <= table < (segment.end - segment.start) / 65 ==> #[trigger] table_fits(
            bytes,
            segment.start as int,
            table,
            blocks,
        )
}

/// The sum of some bytes.
pub open spec fn byte_sum(bytes: Seq<u8>, at: int, count: int) -> int
    decreases count,
{
    if count <= 0 {
        0
    } else {
        byte_sum(bytes, at, count - 1) + bytes[at + count - 1]
    }
}

/// The Huffman tables for mean values, up to one that does not fit in the
/// segment, hold no difference that is too wide.
pub open spec fn means_are_narrow(bytes: Seq<u8>, at: int, end: int) -> bool
    decreases end - at,
{
    let symbols = at + 17;
    let next = symbols + byte_sum(bytes, at + 1, 16);
    if end < symbols || end < next || next < symbols {
        true
    } else {
        &&& bytes[at] < 16 ==> forall|i: int|
            symbols <= i < next ==> #[trigger] bytes[i] <= MEAN_BITS
        &&& means_are_narrow(bytes, next, end)
    }
}

/// Picture data in which no marker but restarts comes before the end of the
/// picture.
pub open spec fn holds_restarts_only(bytes: Seq<u8>, at: int) -> bool
    decreases bytes.len() - at,
{
    if at + 1 >= bytes.len() {
        true
    } else if bytes[at] != 0xff {
        holds_restarts_only(bytes, at + 1)
    } else if bytes[at + 1] == 0xd9 {
        true
    } else {
        &&& bytes[at + 1] == 0 || bytes[at + 1] == 0xff || 0xd0 <= bytes[at + 1] <= 0xd7
        &&& holds_restarts_only(bytes, at + 1)
    }
}

/// A picture in one scan of all its components, whose mean values stay within
/// the limit.
pub open spec fn is_simple_scan(bytes: Seq<u8>, segments: Seq<Segment>, frame: Segment) -> bool {
    let scan = segments.last();
    &&& scan.start < scan.end
    &&& bytes[scan.start as int] == frame_components(bytes, frame)
    &&& forall|i: int|
        0 <= i < segments.len() && (#[trigger] segments[i]).marker == HUFFMAN ==> means_are_narrow(
            bytes,
            segments[i].start as int,
            segments[i].end as int,
        )
    &&& forall|i: int|
        0 <= i < segments.len() && (#[trigger] segments[i]).marker == QUANTIZATION ==> tables_fit(
            bytes,
            segments[i],
            block_count(bytes, frame),
        )
    &&& holds_restarts_only(bytes, scan.end as int)
}

/// A frame header that the decoder refuses, or behind which it can read whatever
/// the picture data holds.
pub open spec fn frame_fits(bytes: Seq<u8>, segments: Seq<Segment>, at: int) -> bool {
    let frame = segments[at];
    ||| is_refused(bytes, frame)
    ||| {
        &&& is_sampled_evenly(bytes, frame)
        &&& frame_components(bytes, frame) == 1 ==> forall|i: int|
            at < i < segments.len() ==> (#[trigger] segments[i]).marker != ADOBE
        &&& frame.marker == PROGRESSIVE || is_simple_scan(bytes, segments, frame)
    }
}

/// The decoder reads these bytes to the end, or refuses them, and does not panic.
/// That holds of bytes that are no JPEG file; of a file that is cut off before
/// its picture data; of one whose frame it refuses; and of one whose segments
/// follow each other without a gap, whose components are sampled evenly, and
/// whose picture is in progressive scans or in one scan that no marker
/// interrupts, in which no value can overflow.
pub open spec fn decodes_safely(bytes: Seq<u8>) -> bool {
    let segments = headers(bytes, 2);
    ||| !is_jpeg(bytes)
    ||| {
        &&& bytes.len() <= u32::MAX
        &&& forall|i: int| 0 <= i < segments.len() ==> !(#[trigger] segments[i]).is_misread()
        &&& if reach_scan(segments) {
            forall|i: int|
                0 <= i < segments.len() && segments[i].is_frame() ==> #[trigger] frame_fits(
                    bytes,
                    segments,
                    i,
                )
        } else {
            marker_at(bytes, headers_end(segments))
        }
    }
}

fn read_word(bytes: &[u8], at: usize) -> (word: usize)
    requires
        at + 1 < bytes@.len(),
    ensures
        word == word_at(bytes@, at as int),
        word <= 0xffff,
{
    bytes[at] as usize * 256 + bytes[at + 1] as usize
}

fn is_marker(bytes: &[u8], at: usize) -> (is: bool)
    requires
        at <= bytes@.len(),
    ensures
        is == marker_at(bytes@, at as int),
{
    if at >= bytes.len() {
        true
    } else if bytes[at] != 0xff {
        false
    } else if bytes.len() - at < 2 {
        true
    } else {
        bytes[at + 1] != 0 && bytes[at + 1] != 0xff
    }
}

fn read_segment(bytes: &[u8], at: usize) -> (segment: Option<Segment>)
    requires
        at <= bytes@.len() <= u32::MAX,
    ensures
        segment == segment_at(bytes@, at as int),
{
    if bytes.len() - at < 4 || !is_marker(bytes, at) {
        return None;
    }
    let length: usize = read_word(bytes, at + 2);
    if length < 2 || length > bytes.len() - at - 2 {
        return None;
    }
    Some(Segment { marker: bytes[at + 1], start: at + 4, end: at + 2 + length })
}

/// The segments of a file up to its first scan header.
fn read_headers(bytes: &[u8]) -> (segments: Vec<Segment>)
    requires
        2 <= bytes@.len() <= u32::MAX,
    ensures
        segments@ == headers(bytes@, 2),
        forall|i: int| 0 <= i < segments@.len() ==> (#[trigger] segments@[i]).lies_in(bytes@),
{
    let mut segments: Vec<Segment> = Vec::new();
    let mut at: usize = 2;
    loop
        invariant
            at <= bytes@.len() <= u32::MAX,
            segments@ + headers(bytes@, at as int) == headers(bytes@, 2),
            forall|i: int| 0 <= i < segments@.len() ==> (#[trigger] segments@[i]).lies_in(bytes@),
        decreases bytes@.len() - at,
    {
        let ghost before = segments@;
        match read_segment(bytes, at) {
            Some(segment) => {
                segments.push(segment);
                if segment.marker == SCAN {
                    assert(segments@ == before + headers(bytes@, at as int));
                    return segments;
                }
                at = segment.end;
                assert(segments@ + headers(bytes@, at as int) == before + (seq![segment] + headers(
                    bytes@,
                    at as int,
                )));
            },
            None => {
                assert(segments@ == segments@ + headers(bytes@, at as int));
                return segments;
            },
        }
    }
}

fn samples(sampling: u8) -> (is: bool)
    ensures
        is == is_sampling(sampling),
{
    let across: u8 = sampling / 16;
    let down: u8 = sampling % 16;
    (across == 1 || across == 2 || across == 4) && 1 <= down && down <= 4
}

fn refuses(bytes: &[u8], frame: Segment) -> (refused: bool)
    requires
        frame.lies_in(bytes@),
    ensures
        refused == is_refused(bytes@, frame),
{
    let start: usize = frame.start;
    if frame.end - start < 6 || bytes[start] != 8 {
        return true;
    }
    let components: u8 = bytes[start + 5];
    if read_word(bytes, start + 1) == 0 || read_word(bytes, start + 3) == 0 || components == 0
        || components > 4 || frame.end - start != 6 + 3 * components as usize {
        return true;
    }
    let mut i: usize = 0;
    while i < components as usize
        invariant
            i <= components <= 4,
            components == frame_components(bytes@, frame),
            start == frame.start,
            frame.lies_in(bytes@),
            frame.end - frame.start == 6 + 3 * components,
            forall|j: int| 0 <= j < i ==> is_sampling(#[trigger] sampling(bytes@, frame, j)),
        decreases components - i,
    {
        if !samples(bytes[start + 7 + 3 * i]) {
            assert(!is_sampling(sampling(bytes@, frame, i as int)));
            return true;
        }
        i = i + 1;
    }
    false
}

fn is_follower(first: u8, later: u8) -> (is: bool)
    ensures
        is == follows(first, later),
{
    (later / 16 == 1 || later / 16 == first / 16) && (later % 16 == 1 || later % 16 == first % 16)
}

fn samples_evenly(bytes: &[u8], frame: Segment) -> (evenly: bool)
    requires
        frame.lies_in(bytes@),
        !is_refused(bytes@, frame),
    ensures
        evenly == is_sampled_evenly(bytes@, frame),
{
    let start: usize = frame.start;
    let first: u8 = bytes[start + 7];
    if bytes[start + 5] == 1 {
        first == PLAIN || (read_word(bytes, start + 3) <= 0xfff8 && read_word(bytes, start + 1)
            <= 0xfff8)
    } else if bytes[start + 5] == 3 {
        is_follower(first, bytes[start + 10]) && is_follower(first, bytes[start + 13])
    } else {
        bytes[start + 5] == 4 && first == PLAIN && bytes[start + 10] == PLAIN && bytes[start + 13]
            == PLAIN && bytes[start + 16] == PLAIN
    }
}

fn count_along(length: usize, size: usize) -> (blocks: u64)
    requires
        length <= 0xffff,
        1 <= size <= 4,
    ensures
        blocks == blocks_along(length as int, size as int),
        blocks <= 0x4000,
{
    let blocks: usize = if size == 1 {
        (length + 7) / 8
    } else if size == 2 {
        (length + 15) / 16 * 2
    } else if size == 3 {
        (length + 23) / 24 * 3
    } else {
        (length + 31) / 32 * 4
    };
    blocks as u64
}

fn count_blocks(bytes: &[u8], frame: Segment) -> (blocks: u64)
    requires
        frame.lies_in(bytes@),
        !is_refused(bytes@, frame),
        is_sampled_evenly(bytes@, frame),
    ensures
        blocks == block_count(bytes@, frame),
        blocks <= 0x1000_0000,
{
    let first: usize = bytes[frame.start + 7] as usize;
    assert(is_sampling(sampling(bytes@, frame, 0)));
    let width: usize = read_word(bytes, frame.start + 3);
    let height: usize = read_word(bytes, frame.start + 1);
    let across: u64 = count_along(width, first / 16);
    let down: u64 = count_along(height, first % 16);
    proof {
        assert(across * down <= 0x4000 * 0x4000) by (nonlinear_arith)
            requires
                across <= 0x4000,
                down <= 0x4000,
        ;
    }
    across * down
}

fn fits_tables(bytes: &[u8], segment: Segment, blocks: u64) -> (fit: bool)
    requires
        segment.lies_in(bytes@),
        blocks <= 0x1000_0000,
    ensures
        fit == tables_fit(bytes@, segment, blocks as int),
{
    let length: usize = segment.end - segment.start;
    if length % 65 != 0 {
        return false;
    }
    let tables: usize = length / 65;
    let mut table: usize = 0;
    while table < tables
        invariant
            table <= tables,
            length == 65 * tables,
            length == segment.end - segment.start,
            segment.lies_in(bytes@),
            blocks <= 0x1000_0000,
            forall|i: int|
                0 <= i < table ==> #[trigger] table_fits(
                    bytes@,
                    segment.start as int,
                    i,
                    blocks as int,
                ),
        decreases tables - table,
    {
        let at: usize = segment.start + 65 * table;
        let step: u64 = bytes[at + 1] as u64;
        proof {
            assert(blocks * 2047 * step <= 0x1000_0000 * 2047 * 255) by (nonlinear_arith)
                requires
                    blocks <= 0x1000_0000,
                    step <= 255,
            ;
            assert(bytes@[segment.start + 65 * table as int] == bytes@[at as int]);
        }
        if bytes[at] >= 16 || blocks * 2047 * step > MEAN_LIMIT {
            assert(!table_fits(bytes@, segment.start as int, table as int, blocks as int));
            return false;
        }
        assert(table_fits(bytes@, segment.start as int, table as int, blocks as int));
        table = table + 1;
    }
    true
}

fn sum_counts(bytes: &[u8], at: usize) -> (sum: usize)
    requires
        at + 16 <= bytes@.len(),
        at + 16 <= usize::MAX,
    ensures
        sum == byte_sum(bytes@, at as int, 16),
        sum <= 16 * 255,
{
    let mut sum: usize = 0;
    let mut i: usize = 0;
    while i < 16
        invariant
            i <= 16,
            at + 16 <= bytes@.len(),
            at + 16 <= usize::MAX,
            sum == byte_sum(bytes@, at as int, i as int),
            sum <= i * 255,
        decreases 16 - i,
    {
        sum = sum + bytes[at + i] as usize;
        i = i + 1;
    }
    sum
}

fn symbols_are_narrow(bytes: &[u8], start: usize, end: usize) -> (narrow: bool)
    requires
        start <= end <= bytes@.len(),
    ensures
        narrow == forall|i: int| start <= i < end ==> #[trigger] bytes@[i] <= MEAN_BITS,
{
    let mut i: usize = start;
    while i < end
        invariant
            start <= i <= end <= bytes@.len(),
            forall|j: int| start <= j < i ==> #[trigger] bytes@[j] <= MEAN_BITS,
        decreases end - i,
    {
        if bytes[i] > MEAN_BITS {
            return false;
        }
        i = i + 1;
    }
    true
}

fn has_narrow_means(bytes: &[u8], segment: Segment) -> (narrow: bool)
    requires
        segment.lies_in(bytes@),
    ensures
        narrow == means_are_narrow(bytes@, segment.start as int, segment.end as int),
{
    let end: usize = segment.end;
    let mut at: usize = segment.start;
    while end - at >= 17
        invariant
            at <= end <= bytes@.len(),
            end == segment.end,
            means_are_narrow(bytes@, segment.start as int, end as int) == means_are_narrow(
                bytes@,
                at as int,
                end as int,
            ),
        decreases end - at,
    {
        let count: usize = sum_counts(bytes, at + 1);
        let symbols: usize = at + 17;
        if count > end - symbols {
            return true;
        }
        if bytes[at] < 16 && !symbols_are_narrow(bytes, symbols, symbols + count) {
            return false;
        }
        at = symbols + count;
    }
    true
}

fn has_restarts_only(bytes: &[u8], start: usize) -> (only: bool)
    requires
        start <= bytes@.len(),
    ensures
        only == holds_restarts_only(bytes@, start as int),
{
    let mut at: usize = start;
    while bytes.len() - at > 1
        invariant
            at <= bytes@.len(),
            holds_restarts_only(bytes@, start as int) == holds_restarts_only(bytes@, at as int),
        decreases bytes@.len() - at,
    {
        if bytes[at] == 0xff {
            let marker: u8 = bytes[at + 1];
            if marker == 0xd9 {
                return true;
            }
            if marker != 0 && marker != 0xff && (marker < 0xd0 || marker > 0xd7) {
                return false;
            }
        }
        at = at + 1;
    }
    true
}

fn scans_simply(bytes: &[u8], segments: &Vec<Segment>, frame: Segment) -> (simply: bool)
    requires
        bytes@.len() <= u32::MAX,
        segments@.len() > 0,
        forall|i: int| 0 <= i < segments@.len() ==> (#[trigger] segments@[i]).lies_in(bytes@),
        frame.lies_in(bytes@),
        !is_refused(bytes@, frame),
        is_sampled_evenly(bytes@, frame),
    ensures
        simply == is_simple_scan(bytes@, segments@, frame),
{
    let scan: Segment = segments[segments.len() - 1];
    if scan.start >= scan.end || bytes[scan.start] != bytes[frame.start + 5] {
        return false;
    }
    let blocks: u64 = count_blocks(bytes, frame);
    let mut i: usize = 0;
    while i < segments.len()
        invariant
            i <= segments@.len(),
            forall|j: int| 0 <= j < segments@.len() ==> (#[trigger] segments@[j]).lies_in(bytes@),
            blocks == block_count(bytes@, frame),
            blocks <= 0x1000_0000,
            forall|j: int|
                0 <= j < i && (#[trigger] segments@[j]).marker == HUFFMAN ==> means_are_narrow(
                    bytes@,
                    segments@[j].start as int,
                    segments@[j].end as int,
                ),
            forall|j: int|
                0 <= j < i && (#[trigger] segments@[j]).marker == QUANTIZATION ==> tables_fit(
                    bytes@,
                    segments@[j],
                    block_count(bytes@, frame),
                ),
        decreases segments@.len() - i,
    {
        let segment: Segment = segments[i];
        assert(segment.lies_in(bytes@));
        if segment.marker == HUFFMAN && !has_narrow_means(bytes, segment) {
            return false;
        }
        if segment.marker == QUANTIZATION && !fits_tables(bytes, segment, blocks) {
            return false;
        }
        i = i + 1;
    }
    has_restarts_only(bytes, scan.end)
}

fn has_adobe_after(segments: &Vec<Segment>, at: usize) -> (has: bool)
    requires
        at < segments@.len(),
    ensures
        has == !forall|i: int|
            at < i < segments@.len() ==> (#[trigger] segments@[i]).marker != ADOBE,
{
    let count: usize = segments.len();
    let mut i: usize = at + 1;
    while i < count
        invariant
            count == segments@.len(),
            at < i <= count,
            forall|j: int| at < j < i ==> (#[trigger] segments@[j]).marker != ADOBE,
        decreases count - i,
    {
        if segments[i].marker == ADOBE {
            return true;
        }
        i = i + 1;
    }
    false
}

fn fits_frame(bytes: &[u8], segments: &Vec<Segment>, at: usize) -> (fits: bool)
    requires
        bytes@.len() <= u32::MAX,
        at < segments@.len(),
        forall|i: int| 0 <= i < segments@.len() ==> (#[trigger] segments@[i]).lies_in(bytes@),
    ensures
        fits == frame_fits(bytes@, segments@, at as int),
{
    let frame: Segment = segments[at];
    assert(frame.lies_in(bytes@));
    if refuses(bytes, frame) {
        true
    } else if !samples_evenly(bytes, frame) {
        false
    } else if bytes[frame.start + 5] == 1 && has_adobe_after(segments, at) {
        false
    } else {
        frame.marker == PROGRESSIVE || scans_simply(bytes, segments, frame)
    }
}

/// Whether the decoder reads these bytes to the end, or refuses them, and does
/// not panic.
pub fn can_decode(bytes: &[u8]) -> (can: bool)
    ensures
        can == decodes_safely(bytes@),
{
    if bytes.len() < 3 || bytes[0] != 0xff || bytes[1] != 0xd8 || bytes[2] != 0xff {
        return true;
    }
    if bytes.len() as u64 > u32::MAX as u64 {
        return false;
    }
    let segments: Vec<Segment> = read_headers(bytes);
    let reaches: bool = segments.len() > 0 && segments[segments.len() - 1].marker == SCAN;
    let mut i: usize = 0;
    while i < segments.len()
        invariant
            i <= segments@.len(),
            bytes@.len() <= u32::MAX,
            reaches == reach_scan(segments@),
            segments@ == headers(bytes@, 2),
            is_jpeg(bytes@),
            forall|j: int| 0 <= j < segments@.len() ==> (#[trigger] segments@[j]).lies_in(bytes@),
            forall|j: int| 0 <= j < i ==> !(#[trigger] segments@[j]).is_misread(),
            reaches ==> forall|j: int|
                0 <= j < i && segments@[j].is_frame() ==> #[trigger] frame_fits(
                    bytes@,
                    segments@,
                    j,
                ),
        decreases segments@.len() - i,
    {
        let segment: Segment = segments[i];
        assert(segment.lies_in(bytes@));
        if segment.marker == JFIF && segment.end - segment.start == 4 {
            assert(segments@[i as int].is_misread());
            return false;
        }
        if reaches && 0xc0 <= segment.marker && segment.marker <= PROGRESSIVE && !fits_frame(
            bytes,
            &segments,
            i,
        ) {
            assert(segments@[i as int].is_frame());
            return false;
        }
        i = i + 1;
    }
    if reaches {
        true
    } else if segments.len() > 0 {
        let last: Segment = segments[segments.len() - 1];
        assert(last.lies_in(bytes@));
        is_marker(bytes, last.end)
    } else {
        is_marker(bytes, 2)
    }
}

/// Bytes that do not begin as a JPEG file does are admitted, whatever they hold.
pub proof fn law_other_bytes_are_admitted(bytes: Seq<u8>)
    requires
        bytes.len() < 3 || bytes[0] != 0xff || bytes[1] != 0xd8 || bytes[2] != 0xff,
    ensures
        decodes_safely(bytes),
{
}

/// In a file that is admitted and has picture data, a frame that the decoder takes
/// has one, three or four components, and none of them is sampled more often than
/// the first, neither across nor down.
pub proof fn law_no_component_is_sampled_more_than_the_first(
    bytes: Seq<u8>,
    i: int,
    component: int,
)
    requires
        is_jpeg(bytes),
        decodes_safely(bytes),
        reach_scan(headers(bytes, 2)),
        0 <= i < headers(bytes, 2).len(),
        0xc0 <= headers(bytes, 2)[i].marker <= 0xc2,
        !is_refused(bytes, headers(bytes, 2)[i]),
        0 <= component < frame_components(bytes, headers(bytes, 2)[i]),
    ensures
        ({
            let frame = headers(bytes, 2)[i];
            let components = bytes[frame.start + 5];
            let first = bytes[frame.start + 7];
            let other = bytes[frame.start + 7 + 3 * component];
            &&& components == 1 || components == 3 || components == 4
            &&& 1 <= other / 16 <= first / 16
            &&& 1 <= other % 16 <= first % 16
        }),
{
    let frame = headers(bytes, 2)[i];
    assert(frame_fits(bytes, headers(bytes, 2), i));
    assert(is_sampling(sampling(bytes, frame, 0)));
    assert(is_sampling(sampling(bytes, frame, component)));
    assert(component == 0 || component == 1 || component == 2 || component == 3);
}

/// The segments follow each other without a gap: the first begins where the search
/// does, and each further one where the one before it ends.
pub proof fn law_segments_follow_each_other(bytes: Seq<u8>, at: int, i: int)
    requires
        0 <= at,
        0 <= i < headers(bytes, at).len(),
    ensures
        ({
            let segment = headers(bytes, at)[i];
            let begins = if i == 0 {
                at
            } else {
                headers(bytes, at)[i - 1].end as int
            };
            &&& bytes[begins] == 0xff
            &&& bytes[begins + 1] == segment.marker
            &&& segment.start == begins + 4
            &&& segment.end == begins + 2 + bytes[begins + 2] * 256 + bytes[begins + 3]
            &&& segment.end <= bytes.len()
        }),
    decreases bytes.len() - at,
{
    if i > 0 {
        let first = headers(bytes, at)[0];
        law_segments_follow_each_other(bytes, first.end as int, i - 1);
        assert(headers(bytes, at)[i] == headers(bytes, first.end as int)[i - 1]);
        if i > 1 {
            assert(headers(bytes, at)[i - 1] == headers(bytes, first.end as int)[i - 2]);
        }
    }
}

} // verus!
