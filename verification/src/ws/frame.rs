//! The binary frames that carry terminal output.

use vstd::bytes::*;
use vstd::prelude::*;
use vstd::string::*;
use vstd::utf8::encode_utf8;

use flate2::write::GzEncoder;
use flate2::Compression;

verus! {

/// Payloads of at least this size are compressed; smaller ones go out raw.
pub const GZIP_MIN: usize = 128;

/// The gzip stream of some bytes at the default level, or nothing when the
/// encoder failed.
pub uninterp spec fn gzipped(data: Seq<u8>) -> Option<Seq<u8>>;

/// Tells whether some bytes begin as a gzip stream does.
pub open spec fn looks_gzipped(z: Seq<u8>) -> bool {
    z.len() >= 2 && z[0] == 0x1f && z[1] == 0x8b
}

/// Tells whether there is a stream, and it is the given one.
pub open spec fn is_stream_of(r: Option<Vec<u8>>, stream: Option<Seq<u8>>) -> bool {
    match r {
        Some(z) => stream == Some(z@),
        None => false,
    }
}

/// `flate2::write::GzEncoder` at the default level, fed with `data` and
/// finished: what comes out depends on `data` alone, begins with the two bytes by
/// which a gzip stream is known, and is the stream of no other data. How the data
/// is compressed is left unsaid.
#[verifier::external_body]
fn gzip(data: &[u8]) -> (r: Option<Vec<u8>>)
    ensures
        match r {
            Some(z) => gzipped(data@) == Some(z@) && looks_gzipped(z@),
            None => gzipped(data@) is None,
        },
        forall|other: Seq<u8>| is_stream_of(r, gzipped(other)) ==> other == data@,
{
    let mut gz = GzEncoder::new(Vec::new(), Compression::default());
    std::io::Write::write_all(&mut gz, data).ok()?;
    gz.finish().ok()
}

/// Tells whether some terminal output travels as it is.
pub open spec fn travels_raw(data: Seq<u8>) -> bool {
    data.len() < GZIP_MIN || gzipped(data) is None
}

/// What travels for some terminal output.
pub open spec fn payload(data: Seq<u8>) -> Seq<u8> {
    if data.len() >= GZIP_MIN {
        match gzipped(data) {
            Some(z) => z,
            None => data,
        }
    } else {
        data
    }
}

/// The bytes of a text in UTF-8.
pub open spec fn utf8(s: Seq<char>) -> Seq<u8> {
    encode_utf8(s)
}

/// The frame of a run of output: the length of the session's id, the id, the
/// offset of the first byte and the payload, with the numbers in little-endian
/// order.
pub open spec fn output_frame(id: Seq<char>, from: u64, data: Seq<u8>) -> Seq<u8> {
    spec_u32_to_le_bytes((utf8(id).len() % 0x1_0000_0000) as u32) + utf8(id)
        + spec_u64_to_le_bytes(from) + payload(data)
}

/// The frame of a run of output. Output that is compressed survives: a client can
/// tell it from all other output but such as travels raw and looks compressed.
pub fn encode_output_frame(session_id: &str, from: u64, data: &[u8]) -> (r: Vec<u8>)
    ensures
        r@ == output_frame(session_id@, from, data@),
        !travels_raw(data@) ==> looks_gzipped(payload(data@)),
        !travels_raw(data@) ==> forall|other: Seq<u8>| #[trigger]
            payload(other) == payload(data@) && (travels_raw(other) ==> !looks_gzipped(other))
                ==> other == data@,
{
    let id = session_id.as_bytes_vec();
    let n: u64 = id.len() as u64 % 0x1_0000_0000;
    let mut frame = u32_to_le_bytes(n as u32);
    frame.extend_from_slice(id.as_slice());
    let offset = u64_to_le_bytes(from);
    frame.extend_from_slice(offset.as_slice());
    if data.len() >= GZIP_MIN {
        match gzip(data) {
            Some(z) => {
                frame.extend_from_slice(z.as_slice());
                return frame;
            },
            None => {},
        }
    }
    frame.extend_from_slice(data);
    frame
}

/// A client reads back from a frame whose it is, where its output begins and
/// what the payload is.
pub proof fn frame_is_readable(id: Seq<char>, from: u64, data: Seq<u8>)
    requires
        utf8(id).len() <= u32::MAX,
    ensures
        ({
            let f = output_frame(id, from, data);
            let n = spec_u32_from_le_bytes(f.subrange(0, 4)) as int;
            &&& n == utf8(id).len()
            &&& f.len() >= 12 + n
            &&& f.subrange(4, 4 + n) == utf8(id)
            &&& spec_u64_from_le_bytes(f.subrange(4 + n, 12 + n)) == from
            &&& f.skip(12 + n) == payload(data)
        }),
{
    let f = output_frame(id, from, data);
    let head = spec_u32_to_le_bytes((utf8(id).len() % 0x1_0000_0000) as u32);
    let off = spec_u64_to_le_bytes(from);
    lemma_auto_spec_u32_to_from_le_bytes();
    lemma_auto_spec_u64_to_from_le_bytes();
    let n = utf8(id).len() as int;
    assert(head.len() == 4);
    assert(off.len() == 8);
    assert(f.subrange(0, 4) =~= head);
    assert(f.subrange(4, 4 + n) =~= utf8(id));
    assert(f.subrange(4 + n, 12 + n) =~= off);
    assert(f.skip(12 + n) =~= payload(data));
}

/// Output that travels raw survives: no other such output has the same payload.
pub proof fn raw_output_is_told_apart(a: Seq<u8>, b: Seq<u8>)
    requires
        travels_raw(a),
        travels_raw(b),
        payload(a) == payload(b),
    ensures
        a == b,
{
}

/// Output that is shorter than the limit travels as it is, byte for byte.
pub proof fn short_output_travels_raw(id: Seq<char>, from: u64, data: Seq<u8>)
    requires
        data.len() < GZIP_MIN,
    ensures
        output_frame(id, from, data).len() == 12 + utf8(id).len() + data.len(),
        output_frame(id, from, data).skip(12 + utf8(id).len() as int) == data,
{
    lemma_auto_spec_u32_to_from_le_bytes();
    lemma_auto_spec_u64_to_from_le_bytes();
    assert(output_frame(id, from, data).skip(12 + utf8(id).len() as int) =~= data);
}

/// Output of 128 bytes or more travels compressed wherever it can be, and all other output as
/// it is.
pub proof fn long_output_travels_compressed(data: Seq<u8>)
    ensures
        data.len() >= 128 && gzipped(data) is Some ==> payload(data) == gzipped(data)->0,
        data.len() < 128 || gzipped(data) is None ==> payload(data) == data,
        travels_raw(data) <==> data.len() < 128 || gzipped(data) is None,
{
}

} // verus!
