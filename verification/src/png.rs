//! The PNG container: a signature, then chunks, each framed by its length,
//! its type, and a CRC-32 over type and contents.
use crate::art::{lemma_raw_pixel_bytes_len, raw_pixel_bytes, Color, Image};
use crate::bytes::{append_bytes, append_u32_be, be32};
use crate::zlib::{lemma_zlib_stream_len, zlib_format, zlib_stream};
use vstd::prelude::*;

verus! {

/// The CRC-32 of `bytes` with the ISO-HDLC parameters, the one that PNG
/// and zip use.
pub uninterp spec fn crc32_iso_hdlc(bytes: Seq<u8>) -> u32;

/// Calls `crc::Crc::<u32>::new` with `crc::CRC_32_ISO_HDLC`, and
/// `checksum` on the result. Trusted: that the checksum depends on `bytes`
/// alone; `crc32_iso_hdlc` is the name of that value.
#[verifier::external_body]
fn crc32_checksum(bytes: &[u8]) -> (crc: u32)
    ensures
        crc == crc32_iso_hdlc(bytes@),
{
    crc::Crc::<u32>::new(&crc::CRC_32_ISO_HDLC).checksum(bytes)
}

/// The eight bytes that open every PNG file.
pub open spec fn png_signature() -> Seq<u8> {
    seq![0x89u8, 0x50, 0x4e, 0x47, 0x0d, 0x0a, 0x1a, 0x0a]
}

/// The type of the header chunk, `IHDR`.
pub open spec fn ihdr_tag() -> Seq<u8> {
    seq![0x49u8, 0x48, 0x44, 0x52]
}

/// The type of the image data chunk, `IDAT`.
pub open spec fn idat_tag() -> Seq<u8> {
    seq![0x49u8, 0x44, 0x41, 0x54]
}

/// The type of the closing chunk, `IEND`.
pub open spec fn iend_tag() -> Seq<u8> {
    seq![0x49u8, 0x45, 0x4e, 0x44]
}

/// What a field of four bytes holds of `n`: its low 32 bits.
pub open spec fn low32(n: int) -> u32 {
    (n % 0x1_0000_0000) as u32
}

/// A chunk with a given checksum: the length of `payload`, the type `tag`,
/// `payload`, and `crc`; length and checksum big-endian.
pub open spec fn chunk_with_crc(tag: Seq<u8>, payload: Seq<u8>, crc: u32) -> Seq<u8> {
    be32(low32(payload.len() as int)) + tag + payload + be32(crc)
}

/// A chunk: its checksum is the CRC-32 of type and payload, the length left
/// out.
pub open spec fn chunk(tag: Seq<u8>, payload: Seq<u8>) -> Seq<u8> {
    chunk_with_crc(tag, payload, crc32_iso_hdlc(tag + payload))
}

/// The contents of the header chunk: width and height, then a bit depth
/// of 8, colour type 2 (truecolour), and zeros for the compression method
/// (deflate), the filter method (adaptive) and interlacing (none).
pub open spec fn header_payload(width: int, height: int) -> Seq<u8> {
    be32(low32(width)) + be32(low32(height)) + seq![8u8, 2, 0, 0, 0]
}

/// A PNG file of the given size whose image data chunk holds `data`.
pub open spec fn png_stream(width: int, height: int, data: Seq<u8>) -> Seq<u8> {
    png_signature() + chunk(ihdr_tag(), header_payload(width, height)) + chunk(idat_tag(), data)
        + chunk(iend_tag(), Seq::empty())
}

/// The PNG file that holds `grid`, an image of `width` columns and `height`
/// rows, uncompressed.
pub open spec fn png_of_grid(grid: Seq<Seq<Color>>, width: int, height: int) -> Seq<u8> {
    png_stream(width, height, zlib_stream(raw_pixel_bytes(grid)))
}

/// The low 32 bits of a length.
fn low32_of(n: usize) -> (low: u32)
    ensures
        low == low32(n as int),
{
    let wide: u64 = n as u64;
    (wide % 0x1_0000_0000) as u32
}

/// Appends to `out` the chunk of type `name` that holds `chunk`, with `crc`
/// as its checksum.
pub fn append_chunk_with_crc(out: &mut Vec<u8>, name: &[u8; 4], chunk: &[u8], crc: u32)
    ensures
        final(out)@ == old(out)@ + chunk_with_crc(name@, chunk@, crc),
{
    append_u32_be(out, low32_of(chunk.len()));
    append_bytes(out, name.as_slice());
    append_bytes(out, chunk);
    append_u32_be(out, crc);
    assert(out@ =~= old(out)@ + chunk_with_crc(name@, chunk@, crc));
}

/// Appends to `out` the chunk of type `name` that holds `chunk`.
pub fn append_chunk(out: &mut Vec<u8>, name: &[u8; 4], chunk: &[u8])
    ensures
        final(out)@ == old(out)@ + self::chunk(name@, chunk@),
{
    let mut covered: Vec<u8> = Vec::new();
    append_bytes(&mut covered, name.as_slice());
    append_bytes(&mut covered, chunk);
    assert(covered@ =~= name@ + chunk@);
    let crc = crc32_checksum(covered.as_slice());
    append_chunk_with_crc(out, name, chunk, crc);
}

impl<const R: usize, const C: usize> Image<R, C> {
    /// Returns the bytes of the PNG formatted image
    pub fn make_png(&self) -> (out: Vec<u8>)
        ensures
            out@ == png_of_grid(self@, C as int, R as int),
    {
        let raw = self.uncompressed_pixel_data();
        let idat = zlib_format(raw.as_slice());
        let mut out: Vec<u8> = Vec::new();
        let signature: [u8; 8] = [0x89, 0x50, 0x4e, 0x47, 0x0d, 0x0a, 0x1a, 0x0a];
        append_bytes(&mut out, signature.as_slice());  // PNG signature
        assert(out@ =~= png_signature());
        let mut ihdr: Vec<u8> = Vec::new();
        append_u32_be(&mut ihdr, low32_of(C));
        append_u32_be(&mut ihdr, low32_of(R));
        ihdr.push(8);  // bit depth
        ihdr.push(2);  // colour type: truecolour
        ihdr.push(0);  // compression: deflate
        ihdr.push(0);  // filter method: adapative
        ihdr.push(0);  // interlace: no interlace
        assert(ihdr@ =~= header_payload(C as int, R as int));
        let ihdr_name: [u8; 4] = [0x49, 0x48, 0x44, 0x52];
        let idat_name: [u8; 4] = [0x49, 0x44, 0x41, 0x54];
        let iend_name: [u8; 4] = [0x49, 0x45, 0x4e, 0x44];
        let nothing: [u8; 0] = [];
        assert(ihdr_name@ =~= ihdr_tag());
        assert(idat_name@ =~= idat_tag());
        assert(iend_name@ =~= iend_tag());
        assert(nothing@ =~= Seq::<u8>::empty());
        append_chunk(&mut out, &ihdr_name, ihdr.as_slice());
        append_chunk(&mut out, &idat_name, idat.as_slice());
        append_chunk(&mut out, &iend_name, nothing.as_slice());
        out
    }
}

/// A PNG file opens with the signature, and each of its three chunks ends
/// with the CRC-32 of its type and contents: of the 17 bytes behind the
/// header chunk's length, of the bytes from the data chunk's type to the
/// end of `data`, and of the closing chunk's type.
pub proof fn lemma_png_layout(width: int, height: int, data: Seq<u8>)
    ensures
        ({
            let png = png_stream(width, height, data);
            let len = data.len() as int;
            &&& png.len() == 57 + len
            &&& png.subrange(0, 8) == png_signature()
            &&& png.subrange(12, 16) == ihdr_tag()
            &&& png.subrange(29, 33) == be32(crc32_iso_hdlc(png.subrange(12, 29)))
            &&& png.subrange(33, 37) == be32(low32(len))
            &&& png.subrange(37, 41) == idat_tag()
            &&& png.subrange(41, 41 + len) == data
            &&& png.subrange(41 + len, 45 + len) == be32(
                crc32_iso_hdlc(png.subrange(37, 41 + len)),
            )
            &&& png.subrange(49 + len, 53 + len) == iend_tag()
            &&& png.subrange(53 + len, 57 + len) == be32(
                crc32_iso_hdlc(png.subrange(49 + len, 53 + len)),
            )
        }),
{
    let png = png_stream(width, height, data);
    let len = data.len() as int;
    let header = header_payload(width, height);
    assert(header.len() == 13);
    assert(png.subrange(12, 29) =~= ihdr_tag() + header);
    assert(png.subrange(37, 41 + len) =~= idat_tag() + data);
    assert(png.subrange(49 + len, 53 + len) =~= iend_tag() + Seq::<u8>::empty());
    assert(png.subrange(0, 8) =~= png_signature());
    assert(png.subrange(12, 16) =~= ihdr_tag());
    assert(png.subrange(29, 33) =~= be32(crc32_iso_hdlc(ihdr_tag() + header)));
    assert(png.subrange(33, 37) =~= be32(low32(len)));
    assert(png.subrange(37, 41) =~= idat_tag());
    assert(png.subrange(41, 41 + len) =~= data);
    assert(png.subrange(41 + len, 45 + len) =~= be32(crc32_iso_hdlc(idat_tag() + data)));
    assert(png.subrange(49 + len, 53 + len) =~= iend_tag());
    assert(png.subrange(53 + len, 57 + len) =~= be32(
        crc32_iso_hdlc(iend_tag() + Seq::<u8>::empty()),
    ));
}

/// The header chunk of a PNG file gives the width in bytes 16 to 19 and the
/// height in bytes 20 to 23, where each fits 32 bits.
pub proof fn lemma_png_dimensions(width: int, height: int, data: Seq<u8>)
    requires
        0 <= width <= u32::MAX,
        0 <= height <= u32::MAX,
    ensures
        png_stream(width, height, data).subrange(16, 20) == be32(width as u32),
        png_stream(width, height, data).subrange(20, 24) == be32(height as u32),
{
    let png = png_stream(width, height, data);
    let header = header_payload(width, height);
    let wide = be32(low32(width));
    let high = be32(low32(height));
    assert(wide.len() == 4 && high.len() == 4 && header.len() == 13);
    assert(header.subrange(0, 4) =~= wide);
    assert(header.subrange(4, 8) =~= high);
    assert(png.subrange(16, 29) =~= header);
    assert(png.subrange(16, 20) =~= png.subrange(16, 29).subrange(0, 4));
    assert(png.subrange(20, 24) =~= png.subrange(16, 29).subrange(4, 8));
}

/// The PNG files of two images of one size have one length, whatever
/// their pixels are.
pub proof fn lemma_png_len_by_size(
    first: Seq<Seq<Color>>,
    second: Seq<Seq<Color>>,
    cols: nat,
    width: int,
    height: int,
)
    requires
        first.len() == second.len(),
        forall|y: int| 0 <= y < first.len() ==> (#[trigger] first[y]).len() == cols,
        forall|y: int| 0 <= y < second.len() ==> (#[trigger] second[y]).len() == cols,
    ensures
        png_of_grid(first, width, height).len() == png_of_grid(second, width, height).len(),
{
    lemma_raw_pixel_bytes_len(first, cols);
    lemma_raw_pixel_bytes_len(second, cols);
    lemma_zlib_stream_len(raw_pixel_bytes(first));
    lemma_zlib_stream_len(raw_pixel_bytes(second));
    lemma_png_layout(width, height, zlib_stream(raw_pixel_bytes(first)));
    lemma_png_layout(width, height, zlib_stream(raw_pixel_bytes(second)));
}

} // verus!
