use crate::checksum::{checksum_ieee, crc32_ieee};
use crate::error::DecodeError;
use vstd::prelude::*;
use vstd::slice::slice_subrange;

verus! {

/// The eight bytes that every PNG stream begins with.
pub const SIGNATURE: [u8; 8] = [0x89, 0x50, 0x4e, 0x47, 0x0d, 0x0a, 0x1a, 0x0a];

/// The type of the header chunk.
pub const IHDR_TYPE: [u8; 4] = [0x49, 0x48, 0x44, 0x52];

/// The type of the chunks that hold the compressed image data.
pub const IDAT_TYPE: [u8; 4] = [0x49, 0x44, 0x41, 0x54];

/// The type of the palette chunk.
pub const PLTE_TYPE: [u8; 4] = [0x50, 0x4c, 0x54, 0x45];

/// One chunk of a PNG stream, as read.
#[derive(Debug)]
pub struct ChunkRaw {
    pub ty: [u8; 4],
    pub len: u32,
    pub crc: u32,
    pub data: Vec<u8>,
}

/// A chunk with its payload as a sequence.
pub struct ChunkView {
    pub ty: [u8; 4],
    pub len: u32,
    pub crc: u32,
    pub data: Seq<u8>,
}

impl ChunkView {
    /// The length field is the payload's length, and the CRC field is the
    /// checksum of the type followed by the payload.
    pub open spec fn wf(self) -> bool {
        &&& self.len == self.data.len()
        &&& self.crc == crc32_ieee(self.ty@ + self.data)
    }
}

impl View for ChunkRaw {
    type V = ChunkView;

    open spec fn view(&self) -> ChunkView {
        ChunkView { ty: self.ty, len: self.len, crc: self.crc, data: self.data@ }
    }
}

impl ChunkRaw {
    /// The chunk's fields agree with one another, as `ChunkView::wf` says.
    pub open spec fn wf(&self) -> bool {
        self@.wf()
    }
}

/// The chunks of a sequence, each by its view.
pub open spec fn chunk_views(chunks: Seq<ChunkRaw>) -> Seq<ChunkView> {
    Seq::new(chunks.len(), |i: int| chunks[i]@)
}

/// The chunks of a PNG stream, in the order in which they stand in it.
#[derive(Debug)]
pub struct Png {
    pub chunks: Vec<ChunkRaw>,
}

impl View for Png {
    type V = Seq<ChunkView>;

    open spec fn view(&self) -> Seq<ChunkView> {
        chunk_views(self.chunks@)
    }
}

impl Png {
    /// Every chunk is well formed.
    pub open spec fn wf(&self) -> bool {
        forall|i: int| 0 <= i < self@.len() ==> (#[trigger] self@[i]).wf()
    }
}

/// The number that four bytes spell, most significant byte first.
pub open spec fn be_u32(b: Seq<u8>) -> u32 {
    (b[0] as int * 0x100_0000 + b[1] as int * 0x1_0000 + b[2] as int * 0x100 + b[3] as int) as u32
}

/// Reads four bytes as a number, most significant byte first.
pub fn bytes_to_u32(v: &[u8]) -> (r: u32)
    requires
        v.len() == 4,
    ensures
        r == be_u32(v@),
{
    (v[0] as u32) * 0x100_0000 + (v[1] as u32) * 0x1_0000 + (v[2] as u32) * 0x100 + (v[3] as u32)
}

/// The length field of the chunk that starts at `pos`.
pub open spec fn chunk_len_at(s: Seq<u8>, pos: int) -> int {
    be_u32(s.subrange(pos, pos + 4)) as int
}

/// The stream holds a whole chunk at `pos`: length, type, as many payload
/// bytes as the length says, and the CRC.
pub open spec fn chunk_fits(s: Seq<u8>, pos: int) -> bool {
    &&& 0 <= pos
    &&& pos + 8 <= s.len()
    &&& pos + 12 + chunk_len_at(s, pos) <= s.len()
}

/// The chunk that starts at `pos`, field by field.
pub open spec fn chunk_at(s: Seq<u8>, pos: int) -> ChunkView {
    let len = chunk_len_at(s, pos);
    ChunkView {
        ty: [s[pos + 4], s[pos + 5], s[pos + 6], s[pos + 7]],
        len: len as u32,
        crc: be_u32(s.subrange(pos + 8 + len, pos + 12 + len)),
        data: s.subrange(pos + 8, pos + 8 + len),
    }
}

/// What framing the chunk at `pos` gives: `TruncatedInput` if the stream
/// ends before the chunk does, else the chunk's fields as they stand.
pub open spec fn chunk_framed(s: Seq<u8>, pos: int) -> Result<ChunkView, DecodeError> {
    if !chunk_fits(s, pos) {
        Err(DecodeError::TruncatedInput)
    } else {
        Ok(chunk_at(s, pos))
    }
}

/// A framed chunk is accepted if the CRC stored with it is `computed`;
/// else it fails with `Checksum`, naming its type and where it starts.
pub open spec fn chunk_accepted(c: ChunkView, computed: u32, offset: usize) -> Result<
    ChunkView,
    DecodeError,
> {
    if c.crc != computed {
        Err(DecodeError::Checksum { ty: c.ty, offset })
    } else {
        Ok(c)
    }
}

/// What reading one chunk at `pos` gives: the error of framing it, else
/// what accepting it gives when its CRC is held against the checksum of its
/// type followed by its payload.
pub open spec fn chunk_read(s: Seq<u8>, pos: int) -> Result<ChunkView, DecodeError> {
    match chunk_framed(s, pos) {
        Err(e) => Err(e),
        Ok(c) => chunk_accepted(c, crc32_ieee(c.ty@ + c.data), pos as usize),
    }
}

/// Chunks read so far, followed by what reading the rest gave.
pub open spec fn chunks_then(
    first: Seq<ChunkView>,
    rest: Result<Seq<ChunkView>, DecodeError>,
) -> Result<Seq<ChunkView>, DecodeError> {
    match rest {
        Ok(more) => Ok(first + more),
        Err(e) => Err(e),
    }
}

/// What reading chunk after chunk from `pos` to the end of the stream
/// gives: all of them in order, or the error of the first that fails.
pub open spec fn chunks_from(s: Seq<u8>, pos: int) -> Result<Seq<ChunkView>, DecodeError>
    decreases s.len() - pos,
{
    if pos >= s.len() {
        Ok(Seq::empty())
    } else {
        match chunk_read(s, pos) {
            Err(e) => Err(e),
            Ok(c) => chunks_then(seq![c], chunks_from(s, pos + 12 + c.len)),
        }
    }
}

/// What reading a PNG stream gives: `TruncatedInput` if it has fewer than
/// eight bytes, `Format` if the first eight are not the signature, else what
/// reading the chunks after the signature gives.
pub open spec fn png_read(s: Seq<u8>) -> Result<Seq<ChunkView>, DecodeError> {
    if s.len() < 8 {
        Err(DecodeError::TruncatedInput)
    } else if s.subrange(0, 8) != SIGNATURE@ {
        Err(DecodeError::Format)
    } else {
        chunks_from(s, 8)
    }
}

/// A chunk table or an error, with the table taken by its view.
pub open spec fn png_result(r: Result<Png, DecodeError>) -> Result<Seq<ChunkView>, DecodeError> {
    match r {
        Ok(png) => Ok(png@),
        Err(e) => Err(e),
    }
}

/// A chunk or an error, with the chunk taken by its view.
pub open spec fn chunk_result(r: Result<ChunkRaw, DecodeError>) -> Result<ChunkView, DecodeError> {
    match r {
        Ok(c) => Ok(c@),
        Err(e) => Err(e),
    }
}

/// Takes the chunk that starts at byte `pos` out of the stream, without
/// looking at its CRC.
pub fn frame_chunk(bytes: &[u8], pos: usize) -> (r: Result<ChunkRaw, DecodeError>)
    ensures
        chunk_result(r) == chunk_framed(bytes@, pos as int),
        r matches Ok(c) ==> c.len == c.data@.len(),
{
    let ghost s = bytes@;
    let total = bytes.len();
    if pos > total || total - pos < 8 {
        return Err(DecodeError::TruncatedInput);
    }
    let len = bytes_to_u32(slice_subrange(bytes, pos, pos + 4));
    if total - pos < 12 || total - pos - 12 < len as usize {
        return Err(DecodeError::TruncatedInput);
    }
    let ty: [u8; 4] = [bytes[pos + 4], bytes[pos + 5], bytes[pos + 6], bytes[pos + 7]];
    let end = pos + 8 + len as usize;
    let data = vstd::slice::slice_to_vec(slice_subrange(bytes, pos + 8, end));
    let crc = bytes_to_u32(slice_subrange(bytes, end, end + 4));
    assert(ty =~= chunk_at(s, pos as int).ty);
    Ok(ChunkRaw { ty, len, crc, data })
}

/// Holds a framed chunk's CRC against the checksum computed for it.
pub fn accept_chunk(chunk: ChunkRaw, computed: u32, offset: usize) -> (r: Result<
    ChunkRaw,
    DecodeError,
>)
    ensures
        chunk_result(r) == chunk_accepted(chunk@, computed, offset),
        r matches Ok(c) ==> c == chunk,
{
    if chunk.crc != computed {
        Err(DecodeError::Checksum { ty: chunk.ty, offset })
    } else {
        Ok(chunk)
    }
}

/// Reads the chunk that starts at byte `pos` of the stream and checks its
/// CRC. The next chunk starts `12 + len` bytes further on.
pub fn read_chunk(bytes: &[u8], pos: usize) -> (r: Result<ChunkRaw, DecodeError>)
    ensures
        chunk_result(r) == chunk_read(bytes@, pos as int),
        r matches Ok(c) ==> c.wf(),
{
    let chunk = match frame_chunk(bytes, pos) {
        Err(e) => {
            return Err(e);
        },
        Ok(c) => c,
    };
    let total = bytes.len();
    assert(chunk_fits(bytes@, pos as int) && chunk@ == chunk_at(bytes@, pos as int));
    assert(pos + 12 + chunk.data@.len() <= total);
    let end = pos + 8 + chunk.data.len();
    proof {
        let c = chunk_at(bytes@, pos as int);
        assert(bytes@.subrange(pos + 4, end as int) =~= c.ty@ + c.data);
    }
    let computed = checksum_ieee(slice_subrange(bytes, pos + 4, end));
    accept_chunk(chunk, computed, pos)
}

/// Reads a whole PNG stream: the signature, then chunk after chunk to the
/// end of the input. The chunks are kept in stream order, so a type that
/// occurs more than once keeps every occurrence.
pub fn read_png(bytes: &[u8]) -> (r: Result<Png, DecodeError>)
    ensures
        png_result(r) == png_read(bytes@),
        r matches Ok(png) ==> png.wf(),
{
    let ghost s = bytes@;
    let total = bytes.len();
    if total < 8 {
        return Err(DecodeError::TruncatedInput);
    }
    let mut i: usize = 0;
    while i < 8
        invariant
            i <= 8,
            total == s.len(),
            s == bytes@,
            total >= 8,
            forall|j: int| 0 <= j < i ==> s[j] == SIGNATURE@[j],
        decreases 8 - i,
    {
        if bytes[i] != SIGNATURE[i] {
            proof {
                assert(s.subrange(0, 8)[i as int] != SIGNATURE@[i as int]);
            }
            return Err(DecodeError::Format);
        }
        i = i + 1;
    }
    assert(s.subrange(0, 8) =~= SIGNATURE@);
    let mut chunks: Vec<ChunkRaw> = Vec::new();
    let mut pos: usize = 8;
    proof {
        assert(chunk_views(chunks@) =~= Seq::<ChunkView>::empty());
        lemma_chunks_then_nothing(chunks_from(s, 8));
    }
    while pos < total
        invariant
            s == bytes@,
            total == s.len(),
            8 <= pos <= total,
            s.subrange(0, 8) == SIGNATURE@,
            chunks_from(s, 8) == chunks_then(chunk_views(chunks@), chunks_from(s, pos as int)),
            forall|j: int| 0 <= j < chunks@.len() ==> (#[trigger] chunks@[j]).wf(),
        decreases total - pos,
    {
        match read_chunk(bytes, pos) {
            Err(e) => {
                return Err(e);
            },
            Ok(c) => {
                proof {
                    let next = pos + 12 + c.len;
                    assert(chunk_views(chunks@.push(c)) =~= chunk_views(chunks@) + seq![c@]);
                    lemma_chunks_then_then(chunk_views(chunks@), seq![c@], chunks_from(s, next));
                }
                pos = pos + 12 + c.data.len();
                chunks.push(c);
            },
        }
    }
    proof {
        assert(chunk_views(chunks@) + Seq::<ChunkView>::empty() =~= chunk_views(chunks@));
    }
    let png = Png { chunks };
    assert(png.wf()) by {
        assert forall|j: int| 0 <= j < png@.len() implies (#[trigger] png@[j]).wf() by {
            assert(png.chunks@[j].wf());
        }
    }
    Ok(png)
}

proof fn lemma_chunks_then_nothing(rest: Result<Seq<ChunkView>, DecodeError>)
    ensures
        chunks_then(Seq::empty(), rest) == rest,
{
    match rest {
        Ok(more) => {
            assert(Seq::<ChunkView>::empty() + more =~= more);
        },
        Err(_) => {},
    }
}

proof fn lemma_chunks_then_then(
    a: Seq<ChunkView>,
    b: Seq<ChunkView>,
    rest: Result<Seq<ChunkView>, DecodeError>,
)
    ensures
        chunks_then(a, chunks_then(b, rest)) == chunks_then(a + b, rest),
{
    match rest {
        Ok(more) => {
            assert(a + (b + more) =~= (a + b) + more);
        },
        Err(_) => {},
    }
}

/// Every chunk of a stream that reads without error is well formed: its
/// length field is its payload's length, and its CRC field is the checksum
/// of its type and payload.
pub proof fn lemma_read_chunks_are_well_formed(s: Seq<u8>, from: int)
    requires
        0 <= from,
    ensures
        chunks_from(s, from) matches Ok(chunks) ==> forall|i: int|
            0 <= i < chunks.len() ==> (#[trigger] chunks[i]).wf(),
    decreases s.len() - from,
{
    if from < s.len() {
        match chunk_read(s, from) {
            Err(_) => {},
            Ok(c) => {
                let rest = chunks_from(s, from + 12 + c.len);
                lemma_read_chunks_are_well_formed(s, from + 12 + c.len);
                match rest {
                    Err(_) => {},
                    Ok(more) => {
                        let chunks = seq![c] + more;
                        assert forall|i: int| 0 <= i < chunks.len() implies (#[trigger] chunks[i])
                            .wf() by {
                            if i > 0 {
                                assert(chunks[i] == more[i - 1]);
                            }
                        }
                    },
                }
            },
        }
    }
}

/// Reading chunk after chunk from `from` comes to a chunk that starts at
/// `pos`.
pub open spec fn chunk_starts_at(s: Seq<u8>, from: int, pos: int) -> bool
    decreases pos - from,
{
    if from >= pos {
        from == pos
    } else {
        let next = from + 12 + chunk_len_at(s, from);
        chunk_fits(s, from) && next <= pos && chunk_starts_at(s, next, pos)
    }
}

/// The streams `s` and `t` differ at most inside the payload of the chunk
/// that starts at `pos` in `s`.
pub open spec fn differ_in_payload_at(s: Seq<u8>, t: Seq<u8>, pos: int) -> bool {
    &&& t.len() == s.len()
    &&& forall|i: int|
        0 <= i < s.len() && !(pos + 8 <= i < pos + 8 + chunk_len_at(s, pos)) ==> t[i] == s[i]
}

/// A stream that reads without error stops doing so when the payload of one
/// of its chunks is altered: reading then fails with `Checksum`, naming that
/// chunk's type and offset. This holds wherever the checksum of the chunk's
/// type and altered payload is not the one of the type and payload as they
/// were; whether a given alteration changes the checksum is not stated here.
pub proof fn lemma_altered_payload_is_rejected(s: Seq<u8>, t: Seq<u8>, pos: int)
    requires
        png_read(s) is Ok,
        8 <= pos < s.len(),
        chunk_starts_at(s, 8, pos),
        differ_in_payload_at(s, t, pos),
        crc32_ieee(chunk_at(t, pos).ty@ + chunk_at(t, pos).data) != crc32_ieee(
            chunk_at(s, pos).ty@ + chunk_at(s, pos).data,
        ),
    ensures
        png_read(t) == Err::<Seq<ChunkView>, DecodeError>(
            DecodeError::Checksum { ty: chunk_at(s, pos).ty, offset: pos as usize },
        ),
{
    assert(t.subrange(0, 8) =~= s.subrange(0, 8));
    lemma_altered_payload_from(s, t, 8, pos);
}

proof fn lemma_altered_payload_from(s: Seq<u8>, t: Seq<u8>, from: int, pos: int)
    requires
        chunks_from(s, from) is Ok,
        0 <= from <= pos < s.len(),
        chunk_starts_at(s, from, pos),
        differ_in_payload_at(s, t, pos),
        crc32_ieee(chunk_at(t, pos).ty@ + chunk_at(t, pos).data) != crc32_ieee(
            chunk_at(s, pos).ty@ + chunk_at(s, pos).data,
        ),
    ensures
        chunks_from(t, from) == Err::<Seq<ChunkView>, DecodeError>(
            DecodeError::Checksum { ty: chunk_at(s, pos).ty, offset: pos as usize },
        ),
    decreases pos - from,
{
    assert(chunk_read(s, from) is Ok);
    assert(t.subrange(from, from + 4) =~= s.subrange(from, from + 4));
    let len = chunk_len_at(s, from);
    assert(chunk_at(t, from).ty =~= chunk_at(s, from).ty);
    if from == pos {
        assert(t.subrange(from + 8 + len, from + 12 + len) =~= s.subrange(
            from + 8 + len,
            from + 12 + len,
        ));
    } else {
        let next = from + 12 + len;
        assert(t.subrange(from + 8 + len, from + 12 + len) =~= s.subrange(
            from + 8 + len,
            from + 12 + len,
        ));
        assert(t.subrange(from + 8, from + 8 + len) =~= s.subrange(from + 8, from + 8 + len));
        assert(chunk_read(t, from) == chunk_read(s, from));
        lemma_altered_payload_from(s, t, next, pos);
    }
}

} // verus!
