//! The command encoder: the exact wire bytes of each daemon command, and
//! the chunked encoding that the INSTREAM command uses to upload data.
//! Every command is framed as a `z`-prefixed, NUL-terminated byte string;
//! a stream upload follows as length-prefixed chunks ended by an empty
//! chunk.

use vstd::prelude::*;
use vstd::string::StringSliceAdditionalSpecFns;

use crate::error::ClamError;

verus! {

/// How many bytes of source data go into one upload chunk.
pub const INSTREAM_BLOCK: usize = 4096;

/// The wire bytes of the PING command.
pub open spec fn ping_wire() -> Seq<u8> {
    seq![122, 80, 73, 78, 71, 0u8]
}

/// The wire bytes of the VERSION command.
pub open spec fn version_wire() -> Seq<u8> {
    seq![122, 86, 69, 82, 83, 73, 79, 78, 0u8]
}

/// The wire bytes of the RELOAD command.
pub open spec fn reload_wire() -> Seq<u8> {
    seq![122, 82, 69, 76, 79, 65, 68, 0u8]
}

/// The wire bytes of the STATS command.
pub open spec fn stats_wire() -> Seq<u8> {
    seq![122, 83, 84, 65, 84, 83, 0u8]
}

/// The wire bytes of the SHUTDOWN command.
pub open spec fn shutdown_wire() -> Seq<u8> {
    seq![122, 83, 72, 85, 84, 68, 79, 87, 78, 0u8]
}

/// The wire bytes that open an INSTREAM upload.
pub open spec fn instream_wire_command() -> Seq<u8> {
    seq![122, 73, 78, 83, 84, 82, 69, 65, 77, 0u8]
}

/// The wire bytes of a SCAN or CONTSCAN command for an already
/// UTF-8-encoded path, taken verbatim with no escaping.
pub open spec fn scan_wire(path: Seq<u8>, continue_on_virus: bool) -> Seq<u8> {
    if continue_on_virus {
        seq![122, 67, 79, 78, 84, 83, 67, 65, 78, 32] + path + seq![0u8]
    } else {
        seq![122, 83, 67, 65, 78, 32] + path + seq![0u8]
    }
}

/// Builds the PING command.
pub fn ping_command() -> (r: Vec<u8>)
    ensures
        r@ == ping_wire(),
{
    let mut v: Vec<u8> = Vec::new();
    v.push(122);
    v.push(80);
    v.push(73);
    v.push(78);
    v.push(71);
    v.push(0u8);
    proof {
        assert(v@ =~= ping_wire());
    }
    v
}

/// Builds the VERSION command.
pub fn version_command() -> (r: Vec<u8>)
    ensures
        r@ == version_wire(),
{
    let mut v: Vec<u8> = Vec::new();
    v.push(122);
    v.push(86);
    v.push(69);
    v.push(82);
    v.push(83);
    v.push(73);
    v.push(79);
    v.push(78);
    v.push(0u8);
    proof {
        assert(v@ =~= version_wire());
    }
    v
}

/// Builds the RELOAD command.
pub fn reload_command() -> (r: Vec<u8>)
    ensures
        r@ == reload_wire(),
{
    let mut v: Vec<u8> = Vec::new();
    v.push(122);
    v.push(82);
    v.push(69);
    v.push(76);
    v.push(79);
    v.push(65);
    v.push(68);
    v.push(0u8);
    proof {
        assert(v@ =~= reload_wire());
    }
    v
}

/// Builds the STATS command.
pub fn stats_command() -> (r: Vec<u8>)
    ensures
        r@ == stats_wire(),
{
    let mut v: Vec<u8> = Vec::new();
    v.push(122);
    v.push(83);
    v.push(84);
    v.push(65);
    v.push(84);
    v.push(83);
    v.push(0u8);
    proof {
        assert(v@ =~= stats_wire());
    }
    v
}

/// Builds the SHUTDOWN command.
pub fn shutdown_command() -> (r: Vec<u8>)
    ensures
        r@ == shutdown_wire(),
{
    let mut v: Vec<u8> = Vec::new();
    v.push(122);
    v.push(83);
    v.push(72);
    v.push(85);
    v.push(84);
    v.push(68);
    v.push(79);
    v.push(87);
    v.push(78);
    v.push(0u8);
    proof {
        assert(v@ =~= shutdown_wire());
    }
    v
}

/// Builds the command that opens an INSTREAM upload.
pub fn instream_command() -> (r: Vec<u8>)
    ensures
        r@ == instream_wire_command(),
{
    let mut v: Vec<u8> = Vec::new();
    v.push(122);
    v.push(73);
    v.push(78);
    v.push(83);
    v.push(84);
    v.push(82);
    v.push(69);
    v.push(65);
    v.push(77);
    v.push(0u8);
    proof {
        assert(v@ =~= instream_wire_command());
    }
    v
}

/// Appends the bytes `data[from..to]` to `out`.
fn push_range(out: &mut Vec<u8>, data: &[u8], from: usize, to: usize)
    requires
        from <= to <= data@.len(),
    ensures
        final(out)@ == old(out)@ + data@.subrange(from as int, to as int),
{
    let mut j: usize = from;
    while j < to
        invariant
            from <= j <= to <= data@.len(),
            out@ == old(out)@ + data@.subrange(from as int, j as int),
        decreases to - j,
    {
        out.push(data[j]);
        proof {
            assert(data@.subrange(from as int, j + 1) =~= data@.subrange(from as int, j as int).push(
                data@[j as int],
            ));
        }
        j = j + 1;
    }
    proof {
        assert(out@ =~= old(out)@ + data@.subrange(from as int, to as int));
    }
}

/// Builds a SCAN or CONTSCAN command for a daemon-visible path; the path
/// goes on the wire verbatim, with no escaping.
pub fn scan_command(path: &str, continue_on_virus: bool) -> (r: Vec<u8>)
    ensures
        r@ == scan_wire(path.spec_bytes(), continue_on_virus),
{
    let mut v: Vec<u8> = Vec::new();
    v.push(122);
    if continue_on_virus {
        v.push(67);
        v.push(79);
        v.push(78);
        v.push(84);
    }
    v.push(83);
    v.push(67);
    v.push(65);
    v.push(78);
    v.push(32);
    let pb: &[u8] = path.as_bytes();
    let n: usize = pb.len();
    push_range(&mut v, pb, 0, n);
    v.push(0u8);
    proof {
        assert(pb@.subrange(0, n as int) =~= path.spec_bytes());
        assert(v@ =~= scan_wire(path.spec_bytes(), continue_on_virus));
    }
    v
}

/// The four big-endian bytes of a 32-bit chunk length.
pub open spec fn be32(n: int) -> Seq<u8>
    recommends
        0 <= n < 0x1_0000_0000,
{
    seq![
        (n / 0x100_0000 % 256) as u8,
        (n / 0x1_0000 % 256) as u8,
        (n / 256 % 256) as u8,
        (n % 256) as u8,
    ]
}

/// The number written by four big-endian bytes.
pub open spec fn be32_val(b: Seq<u8>) -> int
    recommends
        b.len() == 4,
{
    b[0] * 0x100_0000 + b[1] * 0x1_0000 + b[2] * 256 + b[3]
}

/// Reading back the four bytes of a 32-bit length gives the length.
pub proof fn lemma_be32_val(n: int)
    requires
        0 <= n < 0x1_0000_0000,
    ensures
        be32(n).len() == 4,
        be32_val(be32(n)) == n,
{
    let b0 = n / 0x100_0000 % 256;
    let b1 = n / 0x1_0000 % 256;
    let b2 = n / 256 % 256;
    let b3 = n % 256;
    assert(b0 * 0x100_0000 + b1 * 0x1_0000 + b2 * 256 + b3 == n) by (nonlinear_arith)
        requires
            0 <= n < 0x1_0000_0000,
            b0 == n / 0x100_0000 % 256,
            b1 == n / 0x1_0000 % 256,
            b2 == n / 256 % 256,
            b3 == n % 256,
    ;
}

/// Builds the four big-endian bytes of a 32-bit chunk length.
pub fn be32_bytes(n: u32) -> (r: Vec<u8>)
    ensures
        r@ == be32(n as int),
{
    let b0: u32 = n / 0x100_0000 % 256;
    let b1: u32 = n / 0x1_0000 % 256;
    let b2: u32 = n / 256 % 256;
    let b3: u32 = n % 256;
    let mut v: Vec<u8> = Vec::new();
    v.push(b0 as u8);
    v.push(b1 as u8);
    v.push(b2 as u8);
    v.push(b3 as u8);
    proof {
        assert(v@ =~= be32(n as int));
    }
    v
}

/// One upload chunk: a four-byte big-endian length, then exactly that
/// many payload bytes.
pub open spec fn chunk_wire(block: Seq<u8>) -> Seq<u8>
    recommends
        block.len() <= u32::MAX,
{
    be32(block.len() as int) + block
}

/// The whole chunk sequence of a source: full blocks first, a final
/// short block if one is left, then the empty terminating chunk.  A
/// source whose length is an exact multiple of the block size gets no
/// empty data chunk, only the terminator.
pub open spec fn instream_wire(data: Seq<u8>) -> Seq<u8>
    decreases data.len(),
{
    if data.len() == 0 {
        be32(0)
    } else if data.len() >= INSTREAM_BLOCK as int {
        chunk_wire(data.take(INSTREAM_BLOCK as int)) + instream_wire(data.skip(INSTREAM_BLOCK as int))
    } else {
        chunk_wire(data) + be32(0)
    }
}

/// The header of one chunk carrying `len` payload bytes, or the
/// oversized-chunk error when `len` does not fit in 32 bits.
pub fn chunk_header(len: usize) -> (r: Result<Vec<u8>, ClamError>)
    ensures
        match r {
            Ok(v) => len <= u32::MAX && v@ == be32(len as int),
            Err(e) => len > u32::MAX && e == ClamError::InvalidDataLengthError(len),
        },
{
    if len > u32::MAX as usize {
        return Err(ClamError::InvalidDataLengthError(len));
    }
    Ok(be32_bytes(len as u32))
}

/// The empty chunk that ends an upload: four zero bytes.
pub fn chunk_terminator() -> (r: Vec<u8>)
    ensures
        r@ == be32(0),
{
    let mut v: Vec<u8> = Vec::new();
    v.push(0u8);
    v.push(0u8);
    v.push(0u8);
    v.push(0u8);
    proof {
        assert(v@ =~= be32(0));
    }
    v
}

/// Encodes a whole source as its chunk sequence, terminator and all.
pub fn encode_chunked(data: &[u8]) -> (r: Vec<u8>)
    ensures
        r@ == instream_wire(data@),
{
    let n: usize = data.len();
    let mut out: Vec<u8> = Vec::new();
    let mut i: usize = 0;
    proof {
        assert(data@.skip(0) =~= data@);
        assert(out@ + instream_wire(data@) =~= instream_wire(data@));
    }
    while n - i >= INSTREAM_BLOCK
        invariant
            n == data@.len(),
            i <= n,
            instream_wire(data@) == out@ + instream_wire(data@.skip(i as int)),
        decreases n - i,
    {
        let mut hdr = be32_bytes(INSTREAM_BLOCK as u32);
        let ghost pre = out@;
        out.append(&mut hdr);
        push_range(&mut out, data, i, i + INSTREAM_BLOCK);
        proof {
            let rem = data@.skip(i as int);
            assert(rem.take(INSTREAM_BLOCK as int) =~= data@.subrange(
                i as int,
                i + INSTREAM_BLOCK,
            ));
            assert(rem.skip(INSTREAM_BLOCK as int) =~= data@.skip(i + INSTREAM_BLOCK));
            assert(instream_wire(rem) == chunk_wire(rem.take(INSTREAM_BLOCK as int))
                + instream_wire(rem.skip(INSTREAM_BLOCK as int)));
            assert(out@ =~= pre + chunk_wire(rem.take(INSTREAM_BLOCK as int)));
            assert(instream_wire(data@) == out@ + instream_wire(data@.skip(i + INSTREAM_BLOCK)));
        }
        i = i + INSTREAM_BLOCK;
    }
    if n - i > 0 {
        let ghost pre = out@;
        let ghost rem = data@.skip(i as int);
        let mut hdr = be32_bytes((n - i) as u32);
        out.append(&mut hdr);
        push_range(&mut out, data, i, n);
        let mut term = chunk_terminator();
        out.append(&mut term);
        proof {
            assert(rem =~= data@.subrange(i as int, n as int));
            assert(rem.len() == n - i < INSTREAM_BLOCK);
            assert(instream_wire(rem) == chunk_wire(rem) + be32(0));
            assert(out@ =~= pre + (chunk_wire(rem) + be32(0)));
        }
    } else {
        let ghost pre = out@;
        let mut term = chunk_terminator();
        out.append(&mut term);
        proof {
            assert(data@.skip(i as int).len() == 0);
            assert(instream_wire(data@.skip(i as int)) == be32(0));
            assert(out@ =~= pre + be32(0));
        }
    }
    out
}

/// What a chunk sequence writes: the payload bytes of every chunk before
/// the empty terminating chunk, which must end the sequence exactly;
/// anything malformed gives nothing.
pub open spec fn decode_chunks_spec(w: Seq<u8>) -> Option<Seq<u8>>
    decreases w.len(),
{
    if w.len() < 4 {
        None
    } else {
        let n = be32_val(w.take(4));
        if n == 0 {
            if w.len() == 4 {
                Some(Seq::empty())
            } else {
                None
            }
        } else if w.len() < 4 + n {
            None
        } else {
            match decode_chunks_spec(w.skip(4 + n)) {
                Some(rest) => Some(w.subrange(4, 4 + n) + rest),
                None => None,
            }
        }
    }
}

/// Reads a chunk sequence back into the payload it carries.
pub fn decode_chunked(w: &[u8]) -> (r: Option<Vec<u8>>)
    ensures
        match r {
            Some(v) => decode_chunks_spec(w@) == Some(v@),
            None => decode_chunks_spec(w@) is None,
        },
{
    let len: usize = w.len();
    let mut out: Vec<u8> = Vec::new();
    let mut pos: usize = 0;
    proof {
        assert(w@.skip(0) =~= w@);
        assert(out@ + w@ =~= w@);
    }
    loop
        invariant
            len == w@.len(),
            pos <= len,
            decode_chunks_spec(w@) == (match decode_chunks_spec(w@.skip(pos as int)) {
                Some(rest) => Some(out@ + rest),
                None => None::<Seq<u8>>,
            }),
        decreases len - pos,
    {
        let ghost rem = w@.skip(pos as int);
        if len - pos < 4 {
            return None;
        }
        let b0: u32 = w[pos] as u32;
        let b1: u32 = w[pos + 1] as u32;
        let b2: u32 = w[pos + 2] as u32;
        let b3: u32 = w[pos + 3] as u32;
        let n: u32 = b0 * 0x100_0000 + b1 * 0x1_0000 + b2 * 256 + b3;
        proof {
            assert(rem.take(4) =~= w@.subrange(pos as int, pos + 4));
            assert(rem.take(4)[0] == w@[pos as int]);
            assert(rem.take(4)[1] == w@[pos + 1]);
            assert(rem.take(4)[2] == w@[pos + 2]);
            assert(rem.take(4)[3] == w@[pos + 3]);
            assert(n as int == be32_val(rem.take(4)));
        }
        if n == 0 {
            if pos + 4 == len {
                proof {
                    assert(rem.len() == 4);
                    assert(decode_chunks_spec(rem) == Some(Seq::<u8>::empty()));
                    assert(out@ + Seq::<u8>::empty() =~= out@);
                }
                return Some(out);
            }
            return None;
        }
        let nus: usize = n as usize;
        if len - pos - 4 < nus {
            return None;
        }
        let ghost pre = out@;
        push_range(&mut out, w, pos + 4, pos + 4 + nus);
        proof {
            assert(rem.subrange(4, 4 + n as int) =~= w@.subrange(pos + 4, pos + 4 + nus));
            assert(rem.skip(4 + n as int) =~= w@.skip(pos + 4 + nus));
            assert(out@ =~= pre + rem.subrange(4, 4 + n as int));
            assert forall|rest: Seq<u8>| true implies pre + (rem.subrange(4, 4 + n as int) + rest)
                =~= out@ + rest by {}
        }
        pos = pos + 4 + nus;
    }
}

/// Encoding a source and decoding the resulting chunk sequence gives the
/// source back exactly, whatever its length.
pub proof fn lemma_chunk_round_trip(data: Seq<u8>)
    ensures
        decode_chunks_spec(instream_wire(data)) == Some(data),
    decreases data.len(),
{
    let w = instream_wire(data);
    if data.len() == 0 {
        lemma_be32_val(0);
        assert(w == be32(0));
        assert(w.take(4) =~= be32(0));
        assert(decode_chunks_spec(w) == Some(Seq::<u8>::empty()));
        assert(Seq::<u8>::empty() =~= data);
    } else if data.len() >= INSTREAM_BLOCK as int {
        let block = data.take(INSTREAM_BLOCK as int);
        let rest = data.skip(INSTREAM_BLOCK as int);
        lemma_chunk_round_trip(rest);
        lemma_be32_val(INSTREAM_BLOCK as int);
        assert(w == (be32(INSTREAM_BLOCK as int) + block) + instream_wire(rest));
        assert(w.take(4) =~= be32(INSTREAM_BLOCK as int));
        assert(be32_val(w.take(4)) == INSTREAM_BLOCK as int);
        assert(w.len() == 4 + INSTREAM_BLOCK + instream_wire(rest).len());
        assert(w.subrange(4, 4 + INSTREAM_BLOCK as int) =~= block);
        assert(w.skip(4 + INSTREAM_BLOCK as int) =~= instream_wire(rest));
        assert(decode_chunks_spec(w) == Some(block + rest));
        assert(block + rest =~= data);
    } else {
        lemma_be32_val(data.len() as int);
        lemma_be32_val(0);
        assert(w == (be32(data.len() as int) + data) + be32(0));
        assert(w.take(4) =~= be32(data.len() as int));
        assert(be32_val(w.take(4)) == data.len());
        assert(w.len() == 4 + data.len() + 4);
        assert(w.subrange(4, 4 + data.len() as int) =~= data);
        assert(w.skip(4 + data.len() as int) =~= be32(0));
        assert(be32(0).take(4) =~= be32(0));
        assert(decode_chunks_spec(be32(0)) == Some(Seq::<u8>::empty()));
        assert(decode_chunks_spec(w) == Some(data + Seq::<u8>::empty()));
        assert(data + Seq::<u8>::empty() =~= data);
    }
}

} // verus!

