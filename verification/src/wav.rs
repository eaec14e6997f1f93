//! Taking the raw PCM samples out of an audio file for upload as a ringtone.

use vstd::prelude::*;

verus! {

/// The little-endian 32-bit number stored at `b[i..i + 4]`.
pub open spec fn le_u32_at(b: Seq<u8>, i: int) -> nat {
    (b[i] as nat) + (b[i + 1] as nat) * 256 + (b[i + 2] as nat) * 65536 + (b[i + 3] as nat) * 16777216
}

/// Whether `b[i..i + 4]` holds the four given bytes.
pub open spec fn tag_at(b: Seq<u8>, i: int, t0: u8, t1: u8, t2: u8, t3: u8) -> bool {
    b[i] == t0 && b[i + 1] == t1 && b[i + 2] == t2 && b[i + 3] == t3
}

/// Whether the bytes start with a RIFF header of type WAVE (`RIFF....WAVE`).
pub open spec fn is_riff_wave(b: Seq<u8>) -> bool {
    b.len() >= 12 && tag_at(b, 0, 82, 73, 70, 70) && tag_at(b, 8, 87, 65, 86, 69)
}

/// The range of the payload of the first `data` chunk at or after `offset`, walking the chunk
/// list (each chunk: a 4-byte id, a 4-byte little-endian size, the payload, and a pad byte after
/// an odd size). The payload is cut off at the end of the bytes. `None` where no complete chunk
/// header named `data` is reached.
pub open spec fn data_chunk(b: Seq<u8>, offset: nat) -> Option<(nat, nat)>
    decreases (if offset <= b.len() { b.len() - offset } else { 0 }),
{
    if offset + 8 > b.len() {
        None
    } else {
        let size = le_u32_at(b, offset as int + 4);
        if tag_at(b, offset as int, 100, 97, 116, 97) {
            let start = offset + 8;
            Some((start, if start + size <= b.len() { start + size } else { b.len() as nat }))
        } else {
            data_chunk(b, offset + 8 + size + size % 2)
        }
    }
}

/// The range of the PCM samples in an audio file: the payload of the first `data` chunk of a
/// WAVE file, or the whole file where it is not a WAVE file (raw PCM) or holds no `data` chunk.
pub open spec fn pcm_range(b: Seq<u8>) -> (nat, nat) {
    if !is_riff_wave(b) {
        (0, b.len())
    } else {
        match data_chunk(b, 12) {
            Some(r) => r,
            None => (0, b.len()),
        }
    }
}

/// The little-endian 32-bit number stored at `data[i..i + 4]`.
fn read_le_u32(data: &[u8], i: usize) -> (r: u64)
    requires
        i + 4 <= data@.len(),
    ensures
        r as nat == le_u32_at(data@, i as int),
        r <= u32::MAX,
{
    let b0 = data[i] as u64;
    let b1 = data[i + 1] as u64;
    let b2 = data[i + 2] as u64;
    let b3 = data[i + 3] as u64;
    b0 + b1 * 256 + b2 * 65536 + b3 * 16777216
}

/// Extract raw PCM data from a WAV file by finding the `data` chunk.
/// If the file does not start with `RIFF....WAVE`, it is returned as-is (assumed raw PCM).
pub fn extract_pcm_from_wav(data: &[u8]) -> (r: &[u8])
    ensures
        pcm_range(data@).0 <= pcm_range(data@).1 <= data@.len(),
        r@ == data@.subrange(pcm_range(data@).0 as int, pcm_range(data@).1 as int),
{
    let n = data.len();
    if n < 12 || !(data[0] == 82 && data[1] == 73 && data[2] == 70 && data[3] == 70)
        || !(data[8] == 87 && data[9] == 65 && data[10] == 86 && data[11] == 69) {
        return data;
    }
    let mut offset: usize = 12;
    while n - offset >= 8
        invariant
            n == data@.len(),
            is_riff_wave(data@),
            offset <= n,
            data_chunk(data@, 12) == data_chunk(data@, offset as nat),
        decreases n - offset,
    {
        let size = read_le_u32(data, offset + 4);
        let start = offset + 8;
        if data[offset] == 100 && data[offset + 1] == 97 && data[offset + 2] == 116 && data[offset + 3] == 97 {
            let end = if size <= (n - start) as u64 { start + size as usize } else { n };
            return &data[start..end];
        }
        let step = size + size % 2;
        if step > (n - start) as u64 {
            proof {
                let next = offset + 8 + size + size % 2;
                assert(data_chunk(data@, next as nat) is None);
            }
            return data;
        } else {
            offset = start + step as usize;
        }
    }
    proof {
        assert(data_chunk(data@, offset as nat) is None);
    }
    data
}

/// The payload range found from `offset` on starts after a chunk header named `data` and ends
/// at the end of that chunk's declared size, or at the end of the bytes where they stop sooner.
proof fn lemma_data_chunk_bounds(b: Seq<u8>, offset: nat)
    requires
        data_chunk(b, offset) is Some,
    ensures
        ({
            let (s, e) = data_chunk(b, offset)->0;
            &&& s >= offset + 8
            &&& s <= b.len()
            &&& tag_at(b, s - 8, 100, 97, 116, 97)
            &&& e == (if s + le_u32_at(b, s - 4) <= b.len() { s + le_u32_at(b, s - 4) } else { b.len() as nat })
        }),
    decreases (if offset <= b.len() { b.len() - offset } else { 0 }),
{
    let size = le_u32_at(b, offset as int + 4);
    if !tag_at(b, offset as int, 100, 97, 116, 97) {
        lemma_data_chunk_bounds(b, offset + 8 + size + size % 2);
    }
}

/// The samples taken from a WAVE file with a `data` chunk are that chunk's payload: they start
/// right after a chunk header named `data` and end where its declared size ends, or at the end
/// of the file where it stops sooner, so no byte after the payload is taken. Where the first
/// chunk is the `data` chunk, the payload starts at byte 20.
pub proof fn law_pcm_is_data_payload(b: Seq<u8>)
    ensures
        is_riff_wave(b) && data_chunk(b, 12) is Some ==> {
            let (s, e) = pcm_range(b);
            &&& s >= 20
            &&& tag_at(b, s - 8, 100, 97, 116, 97)
            &&& e == (if s + le_u32_at(b, s - 4) <= b.len() { s + le_u32_at(b, s - 4) } else { b.len() as nat })
        },
        is_riff_wave(b) && b.len() >= 20 && tag_at(b, 12, 100, 97, 116, 97) ==>
            pcm_range(b) == (20nat, if 20 + le_u32_at(b, 16) <= b.len() { (20 + le_u32_at(b, 16)) as nat } else { b.len() as nat }),
        !is_riff_wave(b) ==> pcm_range(b) == (0nat, b.len()),
{
    if is_riff_wave(b) && data_chunk(b, 12) is Some {
        lemma_data_chunk_bounds(b, 12);
    }
}

} // verus!
