//! The zlib container around deflate "stored" blocks: framing without
//! compression.
use crate::bytes::{append_bytes, append_u16_le, append_u32_be, be32, le16};
use vstd::prelude::*;

verus! {

/// The most data bytes one stored block can carry.
pub const MAX_STORED_BLOCK: usize = 65535;

/// The modulus of both Adler-32 sums: the largest prime below 2^16.
pub const ADLER_MODULUS: u32 = 65521;

/// The two running sums of Adler-32 after `data`: the first starts at 1 and
/// adds each byte, the second starts at 0 and adds each value of the first.
pub open spec fn adler32_sums(data: Seq<u8>) -> (int, int)
    decreases data.len(),
{
    if data.len() == 0 {
        (1, 0)
    } else {
        let (a, b) = adler32_sums(data.drop_last());
        let a_next = (a + data.last()) % (ADLER_MODULUS as int);
        (a_next, (b + a_next) % (ADLER_MODULUS as int))
    }
}

/// The Adler-32 checksum of `data`: the second sum in the high half, the
/// first in the low half.
pub open spec fn adler32(data: Seq<u8>) -> u32 {
    let (a, b) = adler32_sums(data);
    (b * 0x1_0000 + a) as u32
}

/// Calls `adler::adler32_slice`. Trusted: that it returns the Adler-32
/// checksum of `data` as `adler32` defines it, which is the rule that the
/// crate states for its own algorithm (each byte is added to `a`, then `a`
/// to `b`, both modulo 65521, from `a = 1`, `b = 0`; the result is
/// `b << 16 | a`).
#[verifier::external_body]
fn adler32_slice(data: &[u8]) -> (sum: u32)
    ensures
        sum == adler32(data@),
{
    adler::adler32_slice(data)
}

/// One stored block: the marker byte, the length and its ones' complement
/// (both little-endian), then the bytes themselves.
pub open spec fn stored_block(chunk: Seq<u8>, last: bool) -> Seq<u8>
    recommends
        chunk.len() <= MAX_STORED_BLOCK,
{
    seq![if last { 1u8 } else { 0u8 }] + le16(chunk.len() as u16) + le16(
        (MAX_STORED_BLOCK - chunk.len()) as u16,
    ) + chunk
}

/// `data` cut into stored blocks of at most `MAX_STORED_BLOCK` bytes, in
/// order; only the block that ends the data is marked as last.
pub open spec fn stored_blocks(data: Seq<u8>) -> Seq<u8>
    decreases data.len(),
{
    if data.len() == 0 {
        Seq::empty()
    } else if data.len() <= MAX_STORED_BLOCK {
        stored_block(data, true)
    } else {
        stored_block(data.take(MAX_STORED_BLOCK as int), false) + stored_blocks(
            data.skip(MAX_STORED_BLOCK as int),
        )
    }
}

/// The zlib stream that holds `data` uncompressed. The empty input has a
/// fixed stream of its own; any other is a two-byte header, the stored
/// blocks, and the Adler-32 checksum of all of `data`, big-endian.
pub open spec fn zlib_stream(data: Seq<u8>) -> Seq<u8> {
    if data.len() == 0 {
        seq![0x78u8, 0x9c, 0x03, 0x00, 0x00, 0x00, 0x00, 0x01]
    } else {
        seq![0x08u8, 0x1d] + stored_blocks(data) + be32(adler32(data))
    }
}

/// Doesn't actually compress, just changes formats.
///
/// Equivalent to zlib compression level 0.
pub fn zlib_format(data: &[u8]) -> (out: Vec<u8>)
    ensures
        out@ == zlib_stream(data@),
{
    let mut out: Vec<u8> = Vec::new();
    if data.len() == 0 {
        out.push(0x78);
        out.push(0x9c);
        out.push(0x03);
        out.push(0x00);
        out.push(0x00);
        out.push(0x00);
        out.push(0x00);
        out.push(0x01);
        assert(out@ =~= zlib_stream(data@));
        return out;
    }
    out.push(0x08);
    out.push(0x1d);
    let checksum = adler32_slice(data);
    let ghost header = out@;
    let mut pos: usize = 0;
    assert(data@.skip(0) =~= data@);
    // Split the data into max sized raw chunks
    while pos < data.len()
        invariant
            pos <= data.len(),
            header + stored_blocks(data@) == out@ + stored_blocks(data@.skip(pos as int)),
        decreases data.len() - pos,
    {
        let remaining: usize = data.len() - pos;
        let len: usize = if remaining < MAX_STORED_BLOCK {
            remaining
        } else {
            MAX_STORED_BLOCK
        };
        let end: usize = pos + len;
        let chunk = vstd::slice::slice_subrange(data, pos, end);
        let last_block: u8 = if end == data.len() {
            1
        } else {
            0
        };
        let ghost before = out@;
        let ghost rest = data@.skip(pos as int);
        proof {
            assert(rest.len() == remaining);
            if remaining <= MAX_STORED_BLOCK {
                assert(chunk@ =~= rest);
                assert(data@.skip(end as int) =~= Seq::<u8>::empty());
                assert(stored_blocks(rest) == stored_block(chunk@, true));
                assert(stored_blocks(data@.skip(end as int)) =~= Seq::<u8>::empty());
            } else {
                assert(chunk@ =~= rest.take(MAX_STORED_BLOCK as int));
                assert(data@.skip(end as int) =~= rest.skip(MAX_STORED_BLOCK as int));
            }
            assert(stored_blocks(rest) =~= stored_block(chunk@, last_block == 1) + stored_blocks(
                data@.skip(end as int),
            ));
        }
        // Raw block is indicated by the next two bits being "00"
        out.push(last_block);
        // Write the length of the block (LSB first)
        append_u16_le(&mut out, len as u16);
        // Write the one's complement of the length (for raw blocks)
        let complement: u16 = !(len as u16);
        assert(complement == (MAX_STORED_BLOCK - len) as u16) by (bit_vector)
            requires
                complement == !(len as u16),
                len <= 65535,
        ;
        append_u16_le(&mut out, complement);
        // Write the raw data
        append_bytes(&mut out, chunk);
        proof {
            assert(out@ =~= before + stored_block(chunk@, last_block == 1));
            assert(out@ + stored_blocks(data@.skip(end as int)) =~= before + stored_blocks(rest));
        }
        pos = end;
    }
    proof {
        assert(data@.skip(pos as int) =~= Seq::<u8>::empty());
        assert(out@ =~= header + stored_blocks(data@));
    }
    append_u32_be(&mut out, checksum);
    out
}


/// What a deflate reader recovers from `body`, and how many bytes it reads
/// to get it, where every block of `body` is a stored block, or the last
/// block is an empty one in the fixed Huffman code (three header bits
/// `110`, then the seven zero bits of the end-of-block symbol). `None` for
/// any other body.
pub open spec fn inflate_stored_blocks(body: Seq<u8>) -> Option<(Seq<u8>, int)>
    decreases body.len(),
{
    if body.len() >= 2 && body[0] % 8 == 3 && body[0] / 8 == 0 && body[1] % 4 == 0 {
        Some((Seq::<u8>::empty(), 2))
    } else if body.len() >= 5 && body[0] / 2 % 4 == 0 {
        let len = body[1] + 0x100 * body[2];
        let complement = body[3] + 0x100 * body[4];
        if len + complement != 0xffff || body.len() < 5 + len {
            None
        } else if body[0] % 2 == 1 {
            Some((body.subrange(5, 5 + len), 5 + len))
        } else {
            match inflate_stored_blocks(body.skip(5 + len)) {
                Some((rest, used)) => Some((body.subrange(5, 5 + len) + rest, 5 + len + used)),
                None => None,
            }
        }
    } else {
        None
    }
}

/// What a zlib reader recovers from `stream` where its blocks are as
/// `inflate_stored_blocks` takes them: the header must name deflate with a
/// window of at most 32 KiB and no preset dictionary and pass its check,
/// and the four bytes after the last block must be the Adler-32 checksum
/// of the recovered bytes and end the stream.
pub open spec fn inflate_stored(stream: Seq<u8>) -> Option<Seq<u8>> {
    if stream.len() < 2 || stream[0] % 16 != 8 || stream[0] / 16 > 7 || (stream[0] * 0x100
        + stream[1]) % 31 != 0 || stream[1] / 32 % 2 != 0 {
        None
    } else {
        match inflate_stored_blocks(stream.skip(2)) {
            Some((payload, used)) => if stream.skip(2 + used) == be32(adler32(payload)) {
                Some(payload)
            } else {
                None
            },
            None => None,
        }
    }
}

/// How many stored blocks carry `len` bytes.
pub open spec fn stored_block_count(len: nat) -> nat {
    ((len + MAX_STORED_BLOCK - 1) / (MAX_STORED_BLOCK as int)) as nat
}

/// A reader of stored blocks that is handed the blocks of `data`, with
/// anything behind them, recovers `data` and stops at the end of the blocks.
proof fn lemma_inflate_stored_blocks(data: Seq<u8>, tail: Seq<u8>)
    requires
        data.len() > 0,
    ensures
        inflate_stored_blocks(stored_blocks(data) + tail) == Some(
            (data, stored_blocks(data).len() as int),
        ),
    decreases data.len(),
{
    let max = MAX_STORED_BLOCK as int;
    let body = stored_blocks(data) + tail;
    if data.len() <= max {
        let block = stored_block(data, true);
        assert(block.len() == 5 + data.len());
        assert(body[0] == 1u8 && body[0] == block[0]);
        assert(body[1] == block[1] && body[2] == block[2] && body[3] == block[3] && body[4]
            == block[4]);
        assert(body.subrange(5, 5 + data.len() as int) =~= data);
    } else {
        let head = data.take(max);
        let rest = data.skip(max);
        let block = stored_block(head, false);
        assert(block.len() == 5 + max);
        assert(body[0] == 0u8 && body[0] == block[0]);
        assert(body[1] == block[1] && body[2] == block[2] && body[3] == block[3] && body[4]
            == block[4]);
        assert(body.subrange(5, 5 + max) =~= head);
        assert(body.skip(5 + max) =~= stored_blocks(rest) + tail);
        lemma_inflate_stored_blocks(rest, tail);
        assert(head + rest =~= data);
    }
}

/// Round trip: reading the stream that `zlib_format` writes for `data`
/// gives `data` back, whatever `data` is.
pub proof fn lemma_zlib_round_trip(data: Seq<u8>)
    ensures
        inflate_stored(zlib_stream(data)) == Some(data),
{
    let stream = zlib_stream(data);
    if data.len() == 0 {
        assert(stream.skip(2)[0] == 3u8 && stream.skip(2)[1] == 0u8);
        assert(adler32(Seq::<u8>::empty()) == 1);
        assert(stream.skip(4) =~= be32(1));
        assert(data =~= Seq::<u8>::empty());
    } else {
        let trailer = be32(adler32(data));
        lemma_inflate_stored_blocks(data, trailer);
        assert(stream.skip(2) =~= stored_blocks(data) + trailer);
        assert(stream.skip(2 + stored_blocks(data).len() as int) =~= trailer);
    }
}

/// The length of the blocks of `data`: five bytes of framing for every
/// block, and the data.
proof fn lemma_stored_blocks_len(data: Seq<u8>)
    ensures
        stored_blocks(data).len() == data.len() + 5 * stored_block_count(data.len()),
    decreases data.len(),
{
    if data.len() > MAX_STORED_BLOCK {
        lemma_stored_blocks_len(data.skip(MAX_STORED_BLOCK as int));
    }
}

/// The length of the stream for `data`: eight bytes for no data, and for
/// any other the data with two bytes of header, five of framing for every
/// block, and four of checksum.
pub proof fn lemma_zlib_stream_len(data: Seq<u8>)
    ensures
        zlib_stream(data).len() == if data.len() == 0 {
            8
        } else {
            data.len() + 5 * stored_block_count(data.len()) + 6
        },
{
    lemma_stored_blocks_len(data);
}

/// The stream for `data` holds `stored_block_count` blocks, each but the
/// last full, so block `k` starts `k` full blocks behind the header. Its
/// marker byte is 1 for the last block and 0 for every other.
pub proof fn lemma_only_last_block_is_final(data: Seq<u8>, k: nat)
    requires
        k < stored_block_count(data.len()),
    ensures
        2 + k * (5 + MAX_STORED_BLOCK) < zlib_stream(data).len(),
        zlib_stream(data)[2 + k * (5 + MAX_STORED_BLOCK)] == if k + 1 == stored_block_count(
            data.len(),
        ) {
            1u8
        } else {
            0u8
        },
{
    lemma_block_marker(data, k);
    let blocks = stored_blocks(data);
    let at = k * (5 + MAX_STORED_BLOCK);
    assert(zlib_stream(data)[2 + at] == blocks[at as int]);
}

/// The marker byte of block `k` within the blocks of `data`.
proof fn lemma_block_marker(data: Seq<u8>, k: nat)
    requires
        k < stored_block_count(data.len()),
    ensures
        k * (5 + MAX_STORED_BLOCK) < stored_blocks(data).len(),
        stored_blocks(data)[k * (5 + MAX_STORED_BLOCK)] == if k + 1 == stored_block_count(
            data.len(),
        ) {
            1u8
        } else {
            0u8
        },
    decreases data.len(),
{
    let max = MAX_STORED_BLOCK as int;
    if data.len() <= max {
        assert(stored_block_count(data.len()) == 1);
        assert(stored_blocks(data)[0] == 1u8);
    } else {
        let rest = data.skip(max);
        let block = stored_block(data.take(max), false);
        assert(block.len() == 5 + max);
        assert(stored_block_count(data.len()) == stored_block_count(rest.len()) + 1);
        if k == 0 {
            assert(stored_blocks(data)[0] == block[0]);
        } else {
            lemma_block_marker(rest, (k - 1) as nat);
            assert(k * (5 + max) == (k - 1) * (5 + max) + (5 + max)) by (nonlinear_arith);
            assert(stored_blocks(data)[k * (5 + max)] == stored_blocks(rest)[(k - 1) * (5 + max)]);
        }
    }
}

} // verus!
