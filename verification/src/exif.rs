//! Removal of EXIF, ICC and XMP metadata from JPEG, PNG and WebP images by
//! editing the list of segments or chunks of the container. The compressed
//! picture is copied through as it is.

use img_parts::jpeg::Jpeg;
use img_parts::png::Png;
use img_parts::webp::WebP;
use img_parts::{Bytes, ImageEXIF, ImageICC};
use vstd::prelude::*;
use vstd::utf8::encode_utf8;

use crate::text::{ascii_lowercase, ascii_lowered, chars_of, str_eq, string_of};

verus! {

/// Larger files are sent as they are.
pub const MAX_STRIP_BYTES: u64 = 268_435_456;

/// Whether `b` begins with `prefix`.
pub open spec fn prefixed(b: Seq<u8>, prefix: Seq<u8>) -> bool {
    prefix.len() <= b.len() && b.subrange(0, prefix.len() as int) == prefix
}

fn has_prefix(b: &[u8], prefix: &[u8]) -> (r: bool)
    ensures
        r == prefixed(b@, prefix@),
{
    if prefix.len() > b.len() {
        return false;
    }
    for i in 0..prefix.len()
        invariant
            prefix@.len() <= b@.len(),
            forall|k: int| 0 <= k < i ==> b@[k] == prefix@[k],
    {
        if b[i] != prefix[i] {
            proof {
                assert(b@.subrange(0, prefix@.len() as int)[i as int] != prefix@[i as int]);
            }
            return false;
        }
    }
    proof {
        assert(b@.subrange(0, prefix@.len() as int) =~= prefix@);
    }
    true
}

fn same_bytes(a: &[u8], b: &[u8]) -> (r: bool)
    ensures
        r == (a@ == b@),
{
    if a.len() != b.len() {
        return false;
    }
    proof {
        assert(a@.subrange(0, b@.len() as int) =~= a@);
    }
    has_prefix(a, b)
}

/// The failure of a container parser.
#[verifier::external_type_specification]
#[verifier::external_body]
pub struct ExImageError(img_parts::Error);

// ── JPEG ──────────────────────────────────────────────────────────────────

/// A JPEG image taken apart.
#[verifier::external_type_specification]
#[verifier::external_body]
pub struct ExJpeg(img_parts::jpeg::Jpeg);

/// The segments of an image in order: marker, contents, and the entropy-coded
/// data that follows a scan header.
pub uninterp spec fn jpeg_segments(j: Jpeg) -> Seq<(u8, Seq<u8>, Seq<u8>)>;

/// What `Jpeg::from_bytes` makes of a file: its segments, or nothing when the
/// file is no JPEG or is truncated.
pub uninterp spec fn jpeg_parse(bytes: Seq<u8>) -> Option<Seq<(u8, Seq<u8>, Seq<u8>)>>;

/// The greatest contents of a segment: its length field has two bytes, which
/// count themselves.
pub open spec fn fits_segment(s: (u8, Seq<u8>, Seq<u8>)) -> bool {
    s.1.len() <= 65533
}

pub open spec fn all_fit(segments: Seq<(u8, Seq<u8>, Seq<u8>)>) -> bool {
    forall|i: int| 0 <= i < segments.len() ==> fits_segment(#[trigger] segments[i])
}

/// Whether entropy only follows the last segment.
pub open spec fn entropy_last(segments: Seq<(u8, Seq<u8>, Seq<u8>)>) -> bool {
    forall|i: int| 0 <= i < segments.len() - 1 ==> (#[trigger] segments[i]).2.len() == 0
}

/// An EXIF segment: `APP1` with the EXIF identifier.
pub open spec fn exif_segment(s: (u8, Seq<u8>, Seq<u8>)) -> bool {
    s.0 == 0xE1 && prefixed(s.1, encode_utf8("Exif\0\0"@))
}

/// A segment of an ICC profile: `APP2` with the ICC identifier.
pub open spec fn icc_segment(s: (u8, Seq<u8>, Seq<u8>)) -> bool {
    s.0 == 0xE2 && prefixed(s.1, encode_utf8("ICC_PROFILE\0"@))
}

/// An ICC segment that lacks the two numbers behind its identifier.
pub open spec fn short_icc(s: (u8, Seq<u8>, Seq<u8>)) -> bool {
    icc_segment(s) && s.1.len() < encode_utf8("ICC_PROFILE\0"@).len() + 2
}

/// A segment of an XMP packet: `APP1` with the identifier of standard or of
/// extended XMP.
pub open spec fn xmp_segment(s: (u8, Seq<u8>, Seq<u8>)) -> bool {
    s.0 == 0xE1 && (prefixed(s.1, encode_utf8("http://ns.adobe.com/xap/1.0/\0"@)) || prefixed(
        s.1,
        encode_utf8("http://ns.adobe.com/xmp/extension/\0"@),
    ))
}

pub open spec fn jpeg_metadata(s: (u8, Seq<u8>, Seq<u8>)) -> bool {
    exif_segment(s) || icc_segment(s) || xmp_segment(s)
}

/// Whether the segment is no XMP segment.
pub fn keeps_jpeg_segment(marker: u8, contents: &[u8]) -> (r: bool)
    ensures
        r == !xmp_segment((marker, contents@, Seq::empty())),
        forall|entropy: Seq<u8>| r == !#[trigger] xmp_segment((marker, contents@, entropy)),
{
    !(marker == 0xE1 && (has_prefix(contents, "http://ns.adobe.com/xap/1.0/\0".as_bytes())
        || has_prefix(contents, "http://ns.adobe.com/xmp/extension/\0".as_bytes())))
}

/// Whether the segment begins like an ICC segment but is cut short.
pub fn is_short_icc(marker: u8, contents: &[u8]) -> (r: bool)
    ensures
        r == short_icc((marker, contents@, Seq::empty())),
        forall|entropy: Seq<u8>| r == #[trigger] short_icc((marker, contents@, entropy)),
{
    let id = "ICC_PROFILE\0".as_bytes();
    marker == 0xE2 && has_prefix(contents, id) && contents.len() - id.len() < 2
}

/// `Jpeg::from_bytes`: the segments of the file up to and including the first
/// scan, whose entropy is all that follows, or an error. The contents of a
/// segment come with a two-byte length that counts itself.
#[verifier::external_body]
fn parse_jpeg(bytes: &[u8]) -> (r: Result<Jpeg, img_parts::Error>)
    ensures
        match r {
            Ok(j) => jpeg_parse(bytes@) == Some(jpeg_segments(j)) && all_fit(jpeg_segments(j))
                && entropy_last(jpeg_segments(j)),
            Err(_) => jpeg_parse(bytes@) is None,
        },
{
    Jpeg::from_bytes(Bytes::copy_from_slice(bytes))
}

/// `Jpeg::segments`: the marker and the contents of every segment.
#[verifier::external_body]
fn list_jpeg_segments(j: &Jpeg) -> (v: Vec<(u8, Vec<u8>)>)
    ensures
        v@.len() == jpeg_segments(*j).len(),
        forall|i: int|
            0 <= i < v@.len() ==> (#[trigger] v@[i]).0 == jpeg_segments(*j)[i].0 && v@[i].1@
                == jpeg_segments(*j)[i].1,
{
    j.segments().iter().map(|s| (s.marker(), s.contents().to_vec())).collect()
}

/// `ImageEXIF::set_exif` on a `Jpeg` with no replacement drops every EXIF
/// segment and keeps the others in order.
#[verifier::external_body]
fn drop_jpeg_exif(j: &mut Jpeg)
    ensures
        jpeg_segments(*final(j)) == jpeg_segments(*old(j)).filter(
            |s: (u8, Seq<u8>, Seq<u8>)| !exif_segment(s),
        ),
{
    j.set_exif(None);
}

/// `ImageICC::set_icc_profile` on a `Jpeg` with no replacement drops every ICC
/// segment and keeps the others in order. It reads two bytes behind the
/// identifier of each of them, so none may lack these.
#[verifier::external_body]
fn drop_jpeg_icc(j: &mut Jpeg)
    requires
        forall|i: int|
            0 <= i < jpeg_segments(*old(j)).len() ==> !short_icc(
                #[trigger] jpeg_segments(*old(j))[i],
            ),
    ensures
        jpeg_segments(*final(j)) == jpeg_segments(*old(j)).filter(
            |s: (u8, Seq<u8>, Seq<u8>)| !icc_segment(s),
        ),
{
    j.set_icc_profile(None);
}

/// `Jpeg::segments_mut` gives the list of segments, from which `Vec::retain`
/// drops those that are not kept.
#[verifier::external_body]
fn drop_jpeg_xmp(j: &mut Jpeg)
    ensures
        jpeg_segments(*final(j)) == jpeg_segments(*old(j)).filter(
            |s: (u8, Seq<u8>, Seq<u8>)| !xmp_segment(s),
        ),
{
    j.segments_mut().retain(|s| keeps_jpeg_segment(s.marker(), s.contents()));
}

/// The markers that are followed by a length.
pub open spec fn has_length(marker: u8) -> bool {
    0xC0 <= marker <= 0xD7 || 0xDA <= marker <= 0xDB || marker == 0xDD || 0xE0 <= marker <= 0xEF
        || marker == 0xFE
}

/// A segment as it is written: the marker, a length, the contents and the
/// entropy. A marker that has no length is followed by two zero bytes, and the
/// entropy is left out of a segment that has no contents.
pub open spec fn segment_bytes(s: (u8, Seq<u8>, Seq<u8>)) -> Seq<u8> {
    let n = s.1.len() + if has_length(s.0) {
        2nat
    } else {
        0
    };
    seq![0xFFu8, s.0, (n / 256) as u8, (n % 256) as u8] + s.1 + if s.1.len() == 0 {
        Seq::empty()
    } else {
        s.2
    }
}

pub open spec fn segments_bytes(segments: Seq<(u8, Seq<u8>, Seq<u8>)>) -> Seq<u8>
    decreases segments.len(),
{
    if segments.len() == 0 {
        Seq::empty()
    } else {
        segments_bytes(segments.drop_last()) + segment_bytes(segments.last())
    }
}

/// A JPEG file with these segments: the start marker and then every segment.
pub open spec fn jpeg_file(segments: Seq<(u8, Seq<u8>, Seq<u8>)>) -> Seq<u8> {
    seq![0xFFu8, 0xD8u8] + segments_bytes(segments)
}

/// `Jpeg::encoder` and `ImageEncoder::bytes`: the start marker and then every
/// segment. The length of a segment has to fit its two bytes, and a segment
/// with entropy has to be the last one.
#[verifier::external_body]
fn encode_jpeg(j: Jpeg) -> (v: Vec<u8>)
    requires
        all_fit(jpeg_segments(j)),
        entropy_last(jpeg_segments(j)),
    ensures
        v@ == jpeg_file(jpeg_segments(j)),
{
    j.encoder().bytes().to_vec()
}

/// The segments that stay.
pub open spec fn clean_segments(segments: Seq<(u8, Seq<u8>, Seq<u8>)>) -> Seq<
    (u8, Seq<u8>, Seq<u8>),
> {
    segments.filter(|s: (u8, Seq<u8>, Seq<u8>)| !jpeg_metadata(s))
}

pub open spec fn any_short_icc(segments: Seq<(u8, Seq<u8>, Seq<u8>)>) -> bool {
    exists|i: int| 0 <= i < segments.len() && short_icc(#[trigger] segments[i])
}

/// The cleaned JPEG file. A file that is no proper JPEG has none.
pub open spec fn cleaned_jpeg(bytes: Seq<u8>) -> Option<Seq<u8>> {
    match jpeg_parse(bytes) {
        Some(segments) => if any_short_icc(segments) {
            None
        } else {
            Some(jpeg_file(clean_segments(segments)))
        },
        None => None,
    }
}

proof fn lemma_filter_twice<A>(s: Seq<A>, p: spec_fn(A) -> bool, q: spec_fn(A) -> bool)
    ensures
        s.filter(p).filter(q) == s.filter(|a: A| p(a) && q(a)),
    decreases s.len(),
{
    reveal(Seq::filter);
    let both = |a: A| p(a) && q(a);
    if s.len() > 0 {
        lemma_filter_twice(s.drop_last(), p, q);
        let f = s.drop_last().filter(p);
        if p(s.last()) {
            assert(f.push(s.last()).drop_last() =~= f);
            assert(f.push(s.last()).last() == s.last());
        }
    }
}

pub proof fn lemma_filter_within<A>(s: Seq<A>, p: spec_fn(A) -> bool, i: int)
    requires
        0 <= i < s.filter(p).len(),
    ensures
        exists|k: int| 0 <= k < s.len() && #[trigger] s[k] == s.filter(p)[i],
    decreases s.len(),
{
    reveal(Seq::filter);
    if s.len() > 0 {
        let before = s.drop_last().filter(p);
        if i < before.len() {
            lemma_filter_within(s.drop_last(), p, i);
            let k = choose|k: int|
                0 <= k < s.drop_last().len() && #[trigger] s.drop_last()[k] == before[i];
            assert(s[k] == s.filter(p)[i]);
        } else {
            assert(s[s.len() - 1] == s.filter(p)[i]);
        }
    }
}

pub proof fn lemma_filter_same<A>(s: Seq<A>, p: spec_fn(A) -> bool, q: spec_fn(A) -> bool)
    requires
        forall|a: A| #[trigger] p(a) == q(a),
    ensures
        s.filter(p) == s.filter(q),
    decreases s.len(),
{
    reveal(Seq::filter);
    if s.len() > 0 {
        lemma_filter_same(s.drop_last(), p, q);
        assert(p(s.last()) == q(s.last()));
    }
}

/// Dropping segments leaves the one with entropy the last.
proof fn lemma_filter_entropy_last(
    segments: Seq<(u8, Seq<u8>, Seq<u8>)>,
    p: spec_fn((u8, Seq<u8>, Seq<u8>)) -> bool,
)
    requires
        entropy_last(segments),
    ensures
        entropy_last(segments.filter(p)),
{
    reveal(Seq::filter);
    if segments.len() > 0 {
        let rest = segments.drop_last();
        let f = rest.filter(p);
        assert forall|i: int| 0 <= i < segments.filter(p).len() - 1 implies (
        #[trigger] segments.filter(p)[i]).2.len() == 0 by {
            assert(i < f.len());
            assert(segments.filter(p)[i] == f[i]);
            lemma_filter_within(rest, p, i);
            let k = choose|k: int| 0 <= k < rest.len() && #[trigger] rest[k] == f[i];
            assert(rest[k] == segments[k]);
        }
    }
}

fn strip_jpeg(bytes: &[u8]) -> (r: Option<Vec<u8>>)
    ensures
        match r {
            Some(v) => cleaned_jpeg(bytes@) == Some(v@),
            None => cleaned_jpeg(bytes@) is None,
        },
{
    let mut jpeg = match parse_jpeg(bytes) {
        Ok(j) => j,
        Err(_) => {
            return None;
        },
    };
    let ghost segments = jpeg_segments(jpeg);
    let list = list_jpeg_segments(&jpeg);
    for i in 0..list.len()
        invariant
            segments == jpeg_segments(jpeg),
            jpeg_parse(bytes@) == Some(segments),
            list@.len() == segments.len(),
            forall|k: int|
                0 <= k < list@.len() ==> (#[trigger] list@[k]).0 == segments[k].0 && list@[k].1@
                    == segments[k].1,
            forall|k: int| 0 <= k < i ==> !short_icc(#[trigger] segments[k]),
    {
        if is_short_icc(list[i].0, list[i].1.as_slice()) {
            proof {
                assert(short_icc((list@[i as int].0, list@[i as int].1@, segments[i as int].2)));
                assert(short_icc(segments[i as int]));
            }
            return None;
        }
        proof {
            assert(!short_icc((list@[i as int].0, list@[i as int].1@, segments[i as int].2)));
        }
    }
    let ghost p1 = |s: (u8, Seq<u8>, Seq<u8>)| !exif_segment(s);
    let ghost p2 = |s: (u8, Seq<u8>, Seq<u8>)| !icc_segment(s);
    let ghost p3 = |s: (u8, Seq<u8>, Seq<u8>)| !xmp_segment(s);
    drop_jpeg_exif(&mut jpeg);
    proof {
        assert forall|i: int| 0 <= i < jpeg_segments(jpeg).len() implies !short_icc(
            #[trigger] jpeg_segments(jpeg)[i],
        ) by {
            lemma_filter_within(segments, p1, i);
        }
    }
    drop_jpeg_icc(&mut jpeg);
    drop_jpeg_xmp(&mut jpeg);
    proof {
        let p12 = |s: (u8, Seq<u8>, Seq<u8>)| p1(s) && p2(s);
        lemma_filter_twice(segments, p1, p2);
        lemma_filter_twice(segments, p12, p3);
        lemma_filter_same(
            segments,
            |s: (u8, Seq<u8>, Seq<u8>)| p12(s) && p3(s),
            |s: (u8, Seq<u8>, Seq<u8>)| !jpeg_metadata(s),
        );
        assert(jpeg_segments(jpeg) == clean_segments(segments));
        assert forall|i: int| 0 <= i < jpeg_segments(jpeg).len() implies fits_segment(
            #[trigger] jpeg_segments(jpeg)[i],
        ) by {
            lemma_filter_within(segments, |s: (u8, Seq<u8>, Seq<u8>)| !jpeg_metadata(s), i);
        }
        lemma_filter_entropy_last(segments, |s: (u8, Seq<u8>, Seq<u8>)| !jpeg_metadata(s));
    }
    Some(encode_jpeg(jpeg))
}

// ── PNG ───────────────────────────────────────────────────────────────────

/// A PNG image taken apart.
#[verifier::external_type_specification]
#[verifier::external_body]
pub struct ExPng(img_parts::png::Png);

/// The chunks of an image in order: the four bytes of the type, and the data.
pub uninterp spec fn png_chunks(p: Png) -> Seq<(Seq<u8>, Seq<u8>)>;

/// What `Png::from_bytes` makes of a file: its chunks up to the end chunk, or
/// nothing when the file is no PNG, is truncated or has a wrong checksum.
pub uninterp spec fn png_parse(bytes: Seq<u8>) -> Option<Seq<(Seq<u8>, Seq<u8>)>>;

/// The four bytes of the checksum of a chunk: the CRC-32 of its type and its
/// data.
pub uninterp spec fn png_crc(kind: Seq<u8>, data: Seq<u8>) -> Seq<u8>;

/// The four bytes of a number, most significant first.
pub open spec fn be_quad(n: nat) -> Seq<u8> {
    seq![
        (n / 0x100_0000) as u8,
        (n / 0x1_0000 % 256) as u8,
        (n / 0x100 % 256) as u8,
        (n % 256) as u8,
    ]
}

/// A chunk as it is written: the length of the data, the type, the data and
/// the checksum.
pub open spec fn png_chunk_bytes(c: (Seq<u8>, Seq<u8>)) -> Seq<u8> {
    be_quad(c.1.len()) + c.0 + c.1 + png_crc(c.0, c.1)
}

pub open spec fn png_chunks_bytes(chunks: Seq<(Seq<u8>, Seq<u8>)>) -> Seq<u8>
    decreases chunks.len(),
{
    if chunks.len() == 0 {
        Seq::empty()
    } else {
        png_chunks_bytes(chunks.drop_last()) + png_chunk_bytes(chunks.last())
    }
}

/// A PNG file with these chunks: the signature and then every chunk.
pub open spec fn png_file(chunks: Seq<(Seq<u8>, Seq<u8>)>) -> Seq<u8> {
    seq![0x89u8, 0x50, 0x4E, 0x47, 0x0D, 0x0A, 0x1A, 0x0A] + png_chunks_bytes(chunks)
}

/// An XMP packet: an `iTXt` chunk with the XMP keyword.
pub open spec fn png_xmp(c: (Seq<u8>, Seq<u8>)) -> bool {
    c.0 == encode_utf8("iTXt"@) && prefixed(c.1, encode_utf8("XML:com.adobe.xmp\0"@))
}

pub open spec fn png_metadata(c: (Seq<u8>, Seq<u8>)) -> bool {
    c.0 == encode_utf8("eXIf"@) || c.0 == encode_utf8("iCCP"@) || png_xmp(c)
}

/// Whether the chunk is no XMP packet.
pub fn keeps_png_chunk(kind: &[u8], contents: &[u8]) -> (r: bool)
    ensures
        r == !png_xmp((kind@, contents@)),
{
    !(same_bytes(kind, "iTXt".as_bytes()) && has_prefix(
        contents,
        "XML:com.adobe.xmp\0".as_bytes(),
    ))
}

/// A chunk whose length fits its four bytes.
pub open spec fn fits_chunk(c: (Seq<u8>, Seq<u8>)) -> bool {
    c.1.len() <= u32::MAX
}

pub open spec fn chunks_fit(chunks: Seq<(Seq<u8>, Seq<u8>)>) -> bool {
    forall|i: int| 0 <= i < chunks.len() ==> fits_chunk(#[trigger] chunks[i])
}

/// `Png::from_bytes`: the chunks of the file, or an error. The type of a chunk
/// has four bytes, and its data comes with a four-byte length and a checksum of
/// four bytes.
#[verifier::external_body]
fn parse_png(bytes: &[u8]) -> (r: Result<Png, img_parts::Error>)
    ensures
        match r {
            Ok(p) => {
                &&& png_parse(bytes@) == Some(png_chunks(p))
                &&& chunks_fit(png_chunks(p))
                &&& forall|i: int|
                    0 <= i < png_chunks(p).len() ==> (#[trigger] png_chunks(p)[i]).0.len() == 4
                        && png_crc(png_chunks(p)[i].0, png_chunks(p)[i].1).len() == 4
            },
            Err(_) => png_parse(bytes@) is None,
        },
{
    Png::from_bytes(Bytes::copy_from_slice(bytes))
}

/// `ImageEXIF::set_exif` on a `Png` with no replacement drops every `eXIf`
/// chunk and keeps the others in order.
#[verifier::external_body]
fn drop_png_exif(p: &mut Png)
    ensures
        png_chunks(*final(p)) == png_chunks(*old(p)).filter(
            |c: (Seq<u8>, Seq<u8>)| c.0 != encode_utf8("eXIf"@),
        ),
{
    p.set_exif(None);
}

/// `ImageICC::set_icc_profile` on a `Png` with no replacement drops every
/// `iCCP` chunk and keeps the others in order.
#[verifier::external_body]
fn drop_png_icc(p: &mut Png)
    ensures
        png_chunks(*final(p)) == png_chunks(*old(p)).filter(
            |c: (Seq<u8>, Seq<u8>)| c.0 != encode_utf8("iCCP"@),
        ),
{
    p.set_icc_profile(None);
}

/// `Png::chunks_mut` gives the list of chunks, from which `Vec::retain` drops
/// those that are not kept.
#[verifier::external_body]
fn drop_png_xmp(p: &mut Png)
    ensures
        png_chunks(*final(p)) == png_chunks(*old(p)).filter(
            |c: (Seq<u8>, Seq<u8>)| !png_xmp(c),
        ),
{
    p.chunks_mut().retain(|c| keeps_png_chunk(&c.kind(), c.contents()));
}

/// `Png::encoder` and `ImageEncoder::bytes`: the signature and then every
/// chunk with its checksum, which was computed or compared when the chunk was
/// made. The length of a chunk has to fit its four bytes.
#[verifier::external_body]
fn encode_png(p: Png) -> (v: Vec<u8>)
    requires
        chunks_fit(png_chunks(p)),
    ensures
        v@ == png_file(png_chunks(p)),
{
    p.encoder().bytes().to_vec()
}

/// The chunks that stay.
pub open spec fn clean_png_chunks(chunks: Seq<(Seq<u8>, Seq<u8>)>) -> Seq<(Seq<u8>, Seq<u8>)> {
    chunks.filter(|c: (Seq<u8>, Seq<u8>)| !png_metadata(c))
}

/// The cleaned PNG file. A file that is no proper PNG has none.
pub open spec fn cleaned_png(bytes: Seq<u8>) -> Option<Seq<u8>> {
    match png_parse(bytes) {
        Some(chunks) => Some(png_file(clean_png_chunks(chunks))),
        None => None,
    }
}

fn strip_png(bytes: &[u8]) -> (r: Option<Vec<u8>>)
    ensures
        match r {
            Some(v) => cleaned_png(bytes@) == Some(v@),
            None => cleaned_png(bytes@) is None,
        },
{
    let mut png = match parse_png(bytes) {
        Ok(p) => p,
        Err(_) => {
            return None;
        },
    };
    let ghost chunks = png_chunks(png);
    drop_png_exif(&mut png);
    drop_png_icc(&mut png);
    drop_png_xmp(&mut png);
    proof {
        let p1 = |c: (Seq<u8>, Seq<u8>)| c.0 != encode_utf8("eXIf"@);
        let p2 = |c: (Seq<u8>, Seq<u8>)| c.0 != encode_utf8("iCCP"@);
        let p3 = |c: (Seq<u8>, Seq<u8>)| !png_xmp(c);
        let p12 = |c: (Seq<u8>, Seq<u8>)| p1(c) && p2(c);
        lemma_filter_twice(chunks, p1, p2);
        lemma_filter_twice(chunks, p12, p3);
        lemma_filter_same(
            chunks,
            |c: (Seq<u8>, Seq<u8>)| p12(c) && p3(c),
            |c: (Seq<u8>, Seq<u8>)| !png_metadata(c),
        );
        assert(png_chunks(png) == clean_png_chunks(chunks));
        assert forall|i: int| 0 <= i < png_chunks(png).len() implies fits_chunk(
            #[trigger] png_chunks(png)[i],
        ) by {
            lemma_filter_within(chunks, |c: (Seq<u8>, Seq<u8>)| !png_metadata(c), i);
        }
    }
    Some(encode_png(png))
}

// ── WebP ──────────────────────────────────────────────────────────────────

/// A WebP image taken apart.
#[verifier::external_type_specification]
#[verifier::external_body]
pub struct ExWebP(img_parts::webp::WebP);

/// The chunks of an image in order: the four bytes of the identifier, and the
/// content as it is written.
pub uninterp spec fn webp_chunks(w: WebP) -> Seq<(Seq<u8>, Seq<u8>)>;

/// What `WebP::from_bytes` makes of a file: its chunks, or nothing when the
/// file is no WebP or is truncated.
pub uninterp spec fn webp_parse(bytes: Seq<u8>) -> Option<Seq<(Seq<u8>, Seq<u8>)>>;

pub open spec fn webp_metadata(c: (Seq<u8>, Seq<u8>)) -> bool {
    c.0 == encode_utf8("EXIF"@) || c.0 == encode_utf8("ICCP"@) || c.0 == encode_utf8("XMP "@)
}

/// The four bytes of a number, least significant first.
pub open spec fn le_quad(n: nat) -> Seq<u8> {
    seq![
        (n % 256) as u8,
        (n / 0x100 % 256) as u8,
        (n / 0x1_0000 % 256) as u8,
        (n / 0x100_0000) as u8,
    ]
}

/// The number that stands in the four bytes at `at`, least significant first.
pub open spec fn le_value(b: Seq<u8>, at: int) -> nat {
    (b[at] + 0x100 * b[at + 1] + 0x1_0000 * b[at + 2] + 0x100_0000 * b[at + 3]) as nat
}

/// A chunk as it is written: the identifier, the length of the content, the
/// content, and a zero byte behind a content of odd length.
pub open spec fn riff_chunk(c: (Seq<u8>, Seq<u8>)) -> Seq<u8> {
    c.0 + le_quad(c.1.len()) + c.1 + if c.1.len() % 2 == 1 {
        seq![0u8]
    } else {
        Seq::empty()
    }
}

pub open spec fn riff_chunks(chunks: Seq<(Seq<u8>, Seq<u8>)>) -> Seq<u8>
    decreases chunks.len(),
{
    if chunks.len() == 0 {
        Seq::empty()
    } else {
        riff_chunks(chunks.drop_last()) + riff_chunk(chunks.last())
    }
}

/// How long the content of a WebP file with these chunks is: the form type and
/// then, for every chunk, its header and its padded content.
pub open spec fn webp_content_len(chunks: Seq<(Seq<u8>, Seq<u8>)>) -> nat
    decreases chunks.len(),
{
    if chunks.len() == 0 {
        4
    } else {
        webp_content_len(chunks.drop_last()) + 8 + chunks.last().1.len() + chunks.last().1.len() % 2
    }
}

/// A WebP file with these chunks.
pub open spec fn webp_file(chunks: Seq<(Seq<u8>, Seq<u8>)>) -> Seq<u8> {
    encode_utf8("RIFF"@) + le_quad(webp_content_len(chunks)) + encode_utf8("WEBP"@) + riff_chunks(
        chunks,
    )
}

/// The chunks that hold chunks.
pub open spec fn nests(id: Seq<u8>) -> bool {
    id == encode_utf8("RIFF"@) || id == encode_utf8("LIST"@) || id == encode_utf8("seqt"@)
}

/// How many bytes of form type come before the chunks of such a chunk.
pub open spec fn form_len(id: Seq<u8>) -> nat {
    if id == encode_utf8("RIFF"@) || id == encode_utf8("LIST"@) {
        4
    } else {
        0
    }
}

/// Whether `b` begins with a whole chunk.
pub open spec fn holds_chunk(b: Seq<u8>) -> bool {
    b.len() >= 8 && le_value(b, 4) <= b.len() - 8
}

/// How many levels of nesting the chunk has that `b` begins with.
pub open spec fn riff_depth(b: Seq<u8>) -> nat
    decreases b.len(), 0nat,
{
    let id = b.subrange(0, 4);
    let n = le_value(b, 4);
    if !holds_chunk(b) || !nests(id) {
        0
    } else if n < form_len(id) {
        1
    } else {
        1 + list_depth(b.subrange(8 + form_len(id) as int, 8 + n as int))
    }
}

/// The greatest depth among the chunks that follow one another in `b`.
pub open spec fn list_depth(b: Seq<u8>) -> nat
    decreases b.len(), 1nat,
{
    if !holds_chunk(b) {
        0
    } else {
        let first = riff_depth(b);
        let step = riff_step(b);
        if step >= b.len() {
            first
        } else {
            let others = list_depth(b.subrange(step as int, b.len() as int));
            if others > first {
                others
            } else {
                first
            }
        }
    }
}

/// How many bytes the chunk takes that `b` begins with.
pub open spec fn riff_step(b: Seq<u8>) -> nat {
    let n = le_value(b, 4);
    8 + n + if !nests(b.subrange(0, 4)) {
        n % 2
    } else {
        0
    }
}

/// How deep chunks may nest. Images have one level; taking a level apart costs
/// one to two kilobytes of stack where nothing is optimized.
pub const MAX_RIFF_DEPTH: u32 = 256;

fn read_le(b: &[u8], at: usize) -> (n: u64)
    requires
        at + 4 <= b@.len(),
    ensures
        n == le_value(b@, at as int),
        n <= u32::MAX,
{
    b[at] as u64 + 0x100 * b[at + 1] as u64 + 0x1_0000 * b[at + 2] as u64 + 0x100_0000
        * b[at + 3] as u64
}

/// The identifier at the beginning of `b`: whether it holds chunks, and how
/// many bytes of form type come before them.
fn nesting(b: &[u8]) -> (r: (bool, usize))
    requires
        b@.len() >= 4,
    ensures
        r.0 == nests(b@.subrange(0, 4)),
        r.1 == form_len(b@.subrange(0, 4)),
{
    let id = vstd::slice::slice_subrange(b, 0, 4);
    if same_bytes(id, "RIFF".as_bytes()) || same_bytes(id, "LIST".as_bytes()) {
        (true, 4)
    } else {
        (same_bytes(id, "seqt".as_bytes()), 0)
    }
}

fn chunk_begins(b: &[u8]) -> (r: bool)
    ensures
        r == holds_chunk(b@),
{
    b.len() >= 8 && read_le(b, 4) <= (b.len() - 8) as u64
}

/// Whether the chunk at the beginning of `b` has at most `limit` levels.
fn depth_within(b: &[u8], limit: u32) -> (r: bool)
    ensures
        r == (riff_depth(b@) <= limit),
    decreases limit, 0nat,
{
    let len: usize = b.len();
    if !chunk_begins(b) {
        return true;
    }
    let n: usize = read_le(b, 4) as usize;
    let (nested, form) = nesting(b);
    if !nested {
        return true;
    }
    if limit == 0 {
        return false;
    }
    if n < form {
        return true;
    }
    lists_within(vstd::slice::slice_subrange(b, 8 + form, 8 + n), limit - 1)
}

/// Whether every chunk of `b` has at most `limit` levels.
fn lists_within(b: &[u8], limit: u32) -> (r: bool)
    ensures
        r == (list_depth(b@) <= limit),
    decreases limit, 1nat,
{
    let len: usize = b.len();
    let mut at: usize = 0;
    proof {
        assert(b@.subrange(0, len as int) =~= b@);
    }
    while at < len
        invariant
            len == b@.len(),
            at <= len,
            (list_depth(b@) <= limit) == (list_depth(b@.subrange(at as int, len as int)) <= limit),
        decreases len - at,
    {
        let rest = vstd::slice::slice_subrange(b, at, len);
        if !chunk_begins(rest) {
            return true;
        }
        if !depth_within(rest, limit) {
            return false;
        }
        let n: usize = read_le(rest, 4) as usize;
        let (nested, _form) = nesting(rest);
        let pad: usize = if nested {
            0
        } else {
            n % 2
        };
        if pad >= rest.len() - 8 - n {
            return true;
        }
        proof {
            let step = riff_step(rest@) as int;
            assert(rest@.subrange(step, rest@.len() as int) =~= b@.subrange(
                at + step,
                len as int,
            ));
        }
        at = at + 8 + n + pad;
    }
    true
}

/// Whether the chunks nest no deeper than is allowed.
pub fn riff_depth_ok(bytes: &[u8]) -> (r: bool)
    ensures
        r == (riff_depth(bytes@) <= MAX_RIFF_DEPTH),
{
    depth_within(bytes, MAX_RIFF_DEPTH)
}

/// Whether no chunk of the list nests too deep.
pub open spec fn all_shallow(chunks: Seq<(Seq<u8>, Seq<u8>)>) -> bool {
    forall|i: int|
        0 <= i < chunks.len() ==> riff_depth(riff_chunk(#[trigger] chunks[i])) <= MAX_RIFF_DEPTH
}

/// `WebP::from_bytes`: the chunks of the file, or an error. It calls itself
/// once for every level of nested chunks, so their depth has to be bounded; the
/// chunks that it finds nest no deeper. They take up the content of the file,
/// whose length stands in four bytes.
#[verifier::external_body]
fn parse_webp(bytes: &[u8]) -> (r: Result<WebP, img_parts::Error>)
    requires
        riff_depth(bytes@) <= MAX_RIFF_DEPTH,
    ensures
        match r {
            Ok(w) => webp_parse(bytes@) == Some(webp_chunks(w)) && all_shallow(webp_chunks(w))
                && webp_content_len(webp_chunks(w)) <= u32::MAX,
            Err(_) => webp_parse(bytes@) is None,
        },
{
    WebP::from_bytes(Bytes::copy_from_slice(bytes))
}

/// `WebP::remove_chunks_by_id` drops every chunk with that identifier and
/// keeps the others in order.
#[verifier::external_body]
fn drop_webp_chunks(w: &mut WebP, id: [u8; 4])
    ensures
        webp_chunks(*final(w)) == webp_chunks(*old(w)).filter(
            |c: (Seq<u8>, Seq<u8>)| c.0 != id@,
        ),
{
    w.remove_chunks_by_id(id);
}

/// `RiffContent::len` of every chunk of `WebP::chunks`: the length of its
/// content. It adds up the lengths of nested chunks in four bytes, level by
/// level.
#[verifier::external_body]
fn webp_lengths(w: &WebP) -> (v: Vec<u32>)
    requires
        all_shallow(webp_chunks(*w)),
        webp_content_len(webp_chunks(*w)) <= u32::MAX,
    ensures
        v@.len() == webp_chunks(*w).len(),
        forall|i: int| 0 <= i < v@.len() ==> #[trigger] v@[i] == webp_chunks(*w)[i].1.len(),
{
    w.chunks().iter().map(|c| c.content().len()).collect()
}

/// `WebP::encoder` and `ImageEncoder::bytes`: the container header and then
/// every chunk. It computes the length of the file in four bytes and calls
/// itself for every level of nested chunks, so both have to be bounded.
#[verifier::external_body]
fn encode_webp(w: WebP) -> (v: Vec<u8>)
    requires
        all_shallow(webp_chunks(w)),
        webp_content_len(webp_chunks(w)) <= u32::MAX - 8,
    ensures
        v@ == webp_file(webp_chunks(w)),
{
    w.encoder().bytes().to_vec()
}

/// The chunks that stay: those of transparency and animation among them.
pub open spec fn clean_webp_chunks(chunks: Seq<(Seq<u8>, Seq<u8>)>) -> Seq<(Seq<u8>, Seq<u8>)> {
    chunks.filter(|c: (Seq<u8>, Seq<u8>)| !webp_metadata(c))
}

/// The cleaned WebP file. A file that is no proper WebP, nests its chunks too
/// deep or is longer than its length field can say has none.
pub open spec fn cleaned_webp(bytes: Seq<u8>) -> Option<Seq<u8>> {
    if riff_depth(bytes) > MAX_RIFF_DEPTH {
        None
    } else {
        match webp_parse(bytes) {
            Some(chunks) => if webp_content_len(clean_webp_chunks(chunks)) > u32::MAX - 8 {
                None
            } else {
                Some(webp_file(clean_webp_chunks(chunks)))
            },
            None => None,
        }
    }
}

/// The content length of the first chunks is no more than that of all.
proof fn lemma_content_len_prefix(chunks: Seq<(Seq<u8>, Seq<u8>)>, n: int)
    requires
        0 <= n <= chunks.len(),
    ensures
        4 <= webp_content_len(chunks.subrange(0, n)) <= webp_content_len(chunks),
    decreases chunks.len(),
{
    if n == chunks.len() {
        assert(chunks.subrange(0, n) =~= chunks);
        if n > 0 {
            lemma_content_len_prefix(chunks.drop_last(), n - 1);
        }
    } else {
        lemma_content_len_prefix(chunks.drop_last(), n);
        assert(chunks.drop_last().subrange(0, n) =~= chunks.subrange(0, n));
    }
}

/// Dropping chunks makes the content no longer.
proof fn lemma_content_len_filter(
    chunks: Seq<(Seq<u8>, Seq<u8>)>,
    p: spec_fn((Seq<u8>, Seq<u8>)) -> bool,
)
    ensures
        webp_content_len(chunks.filter(p)) <= webp_content_len(chunks),
    decreases chunks.len(),
{
    reveal(Seq::filter);
    if chunks.len() > 0 {
        lemma_content_len_filter(chunks.drop_last(), p);
        let f = chunks.drop_last().filter(p);
        if p(chunks.last()) {
            assert(f.push(chunks.last()).drop_last() =~= f);
        }
    }
}

fn total_content_len(w: &WebP) -> (n: u64)
    requires
        all_shallow(webp_chunks(*w)),
        webp_content_len(webp_chunks(*w)) <= u32::MAX,
    ensures
        n == webp_content_len(webp_chunks(*w)),
{
    let ghost chunks = webp_chunks(*w);
    let lengths = webp_lengths(w);
    let mut n: u64 = 4;
    for i in 0..lengths.len()
        invariant
            lengths@.len() == chunks.len(),
            webp_content_len(chunks) <= u32::MAX,
            forall|k: int| 0 <= k < lengths@.len() ==> #[trigger] lengths@[k] == chunks[k].1.len(),
            n == webp_content_len(chunks.subrange(0, i as int)),
    {
        proof {
            lemma_content_len_prefix(chunks, i as int);
            assert(chunks.subrange(0, i + 1).drop_last() =~= chunks.subrange(0, i as int));
            assert(chunks.subrange(0, i + 1).last() == chunks[i as int]);
        }
        n = n + 8 + lengths[i] as u64 + (lengths[i] % 2) as u64;
    }
    proof {
        assert(chunks.subrange(0, chunks.len() as int) =~= chunks);
    }
    n
}

fn strip_webp(bytes: &[u8]) -> (r: Option<Vec<u8>>)
    ensures
        match r {
            Some(v) => cleaned_webp(bytes@) == Some(v@),
            None => cleaned_webp(bytes@) is None,
        },
{
    if !riff_depth_ok(bytes) {
        return None;
    }
    let mut webp = match parse_webp(bytes) {
        Ok(w) => w,
        Err(_) => {
            return None;
        },
    };
    let ghost chunks = webp_chunks(webp);
    let exif: [u8; 4] = [69, 88, 73, 70];
    let iccp: [u8; 4] = [73, 67, 67, 80];
    let xmp: [u8; 4] = [88, 77, 80, 32];
    drop_webp_chunks(&mut webp, exif);
    drop_webp_chunks(&mut webp, iccp);
    drop_webp_chunks(&mut webp, xmp);
    proof {
        reveal_strlit("EXIF");
        reveal_strlit("ICCP");
        reveal_strlit("XMP ");
        lemma_ascii_bytes("EXIF"@, exif@);
        lemma_ascii_bytes("ICCP"@, iccp@);
        lemma_ascii_bytes("XMP "@, xmp@);
        let p1 = |c: (Seq<u8>, Seq<u8>)| c.0 != exif@;
        let p2 = |c: (Seq<u8>, Seq<u8>)| c.0 != iccp@;
        let p3 = |c: (Seq<u8>, Seq<u8>)| c.0 != xmp@;
        let p12 = |c: (Seq<u8>, Seq<u8>)| p1(c) && p2(c);
        let kept = |c: (Seq<u8>, Seq<u8>)| !webp_metadata(c);
        lemma_filter_twice(chunks, p1, p2);
        lemma_filter_twice(chunks, p12, p3);
        lemma_filter_same(chunks, |c: (Seq<u8>, Seq<u8>)| p12(c) && p3(c), kept);
        lemma_content_len_filter(chunks, kept);
        assert forall|i: int| 0 <= i < webp_chunks(webp).len() implies riff_depth(
            riff_chunk(#[trigger] webp_chunks(webp)[i]),
        ) <= MAX_RIFF_DEPTH by {
            lemma_filter_within(chunks, kept, i);
        }
    }
    if total_content_len(&webp) > u32::MAX as u64 - 8 {
        return None;
    }
    Some(encode_webp(webp))
}

/// The bytes of an ASCII text are its character codes.
pub proof fn lemma_ascii_bytes(s: Seq<char>, b: Seq<u8>)
    requires
        s.len() == b.len(),
        forall|i: int| 0 <= i < b.len() ==> #[trigger] b[i] < 128 && s[i] == b[i] as char,
    ensures
        encode_utf8(s) == b,
{
    assert forall|i: int| 0 <= i < s.len() implies '\0' <= #[trigger] s[i] <= '\u{7f}' by {
        assert(b[i] < 128);
    }
    vstd::utf8::is_ascii_chars_encode_utf8(s);
    assert forall|i: int| 0 <= i < b.len() implies encode_utf8(s)[i] == b[i] by {
        assert(b[i] < 128);
        assert(s[i] as u8 == encode_utf8(s)[i]);
    }
    assert(encode_utf8(s) =~= b);
}

// ── dispatch ──────────────────────────────────────────────────────────────

/// The container that an extension names, whatever its letter case.
pub open spec fn named_jpeg(ext: Seq<char>) -> bool {
    ascii_lowered(ext) == "jpg"@ || ascii_lowered(ext) == "jpeg"@
}

pub open spec fn named_png(ext: Seq<char>) -> bool {
    ascii_lowered(ext) == "png"@
}

pub open spec fn named_webp(ext: Seq<char>) -> bool {
    ascii_lowered(ext) == "webp"@
}

/// The image without its metadata, or nothing when the extension names no
/// container that can be cleaned or the bytes are no such container.
pub fn strip_image_metadata(bytes: &[u8], ext: &str) -> (r: Option<Vec<u8>>)
    ensures
        ({
            let want = if named_jpeg(ext@) {
                cleaned_jpeg(bytes@)
            } else if named_png(ext@) {
                cleaned_png(bytes@)
            } else if named_webp(ext@) {
                cleaned_webp(bytes@)
            } else {
                None
            };
            match r {
                Some(v) => want == Some(v@),
                None => want is None,
            }
        }),
{
    let chars = chars_of(ext);
    let lower_chars = ascii_lowercase(chars.as_slice());
    let lower = string_of(lower_chars.as_slice());
    if str_eq(lower.as_str(), "jpg") || str_eq(lower.as_str(), "jpeg") {
        strip_jpeg(bytes)
    } else if str_eq(lower.as_str(), "png") {
        strip_png(bytes)
    } else if str_eq(lower.as_str(), "webp") {
        strip_webp(bytes)
    } else {
        None
    }
}

/// Whether cleaning can be tried for this extension.
pub fn is_strippable_ext(ext: &str) -> (r: bool)
    ensures
        r == (named_jpeg(ext@) || named_png(ext@) || named_webp(ext@)),
{
    let chars = chars_of(ext);
    let lower_chars = ascii_lowercase(chars.as_slice());
    let lower = string_of(lower_chars.as_slice());
    str_eq(lower.as_str(), "jpg") || str_eq(lower.as_str(), "jpeg") || str_eq(
        lower.as_str(),
        "png",
    ) || str_eq(lower.as_str(), "webp")
}

// ── laws ──────────────────────────────────────────────────────────────────

/// No metadata segment stays in a JPEG image.
pub proof fn law_no_jpeg_metadata_stays(segments: Seq<(u8, Seq<u8>, Seq<u8>)>, i: int)
    requires
        0 <= i < clean_segments(segments).len(),
    ensures
        !jpeg_metadata(clean_segments(segments)[i]),
{
    segments.lemma_filter_pred(|s: (u8, Seq<u8>, Seq<u8>)| !jpeg_metadata(s), i);
}

/// A JPEG segment that is no metadata stays, with its contents and its
/// entropy-coded picture data.
pub proof fn law_jpeg_picture_stays(segments: Seq<(u8, Seq<u8>, Seq<u8>)>, i: int)
    requires
        0 <= i < segments.len(),
        !jpeg_metadata(segments[i]),
    ensures
        clean_segments(segments).contains(segments[i]),
{
    segments.lemma_filter_contains(|s: (u8, Seq<u8>, Seq<u8>)| !jpeg_metadata(s), i);
}

/// The bytes of a JPEG segment that is no metadata, its picture data among
/// them, stand unchanged in the cleaned file.
pub proof fn law_jpeg_bytes_stay(segments: Seq<(u8, Seq<u8>, Seq<u8>)>, i: int)
    requires
        0 <= i < segments.len(),
        !jpeg_metadata(segments[i]),
    ensures
        exists|at: int|
            2 <= at && at + segment_bytes(segments[i]).len() <= jpeg_file(
                clean_segments(segments),
            ).len() && #[trigger] jpeg_file(clean_segments(segments)).subrange(
                at,
                at + segment_bytes(segments[i]).len(),
            ) == segment_bytes(segments[i]),
{
    let clean = clean_segments(segments);
    law_jpeg_picture_stays(segments, i);
    let k = choose|k: int| 0 <= k < clean.len() && clean[k] == segments[i];
    lemma_segment_stands(clean, k);
    let body = segments_bytes(clean);
    let piece = segment_bytes(clean[k]);
    let from = choose|from: int|
        0 <= from && from + piece.len() <= body.len() && #[trigger] body.subrange(
            from,
            from + piece.len(),
        ) == piece;
    assert(jpeg_file(clean).subrange(2 + from, 2 + from + piece.len()) =~= body.subrange(
        from,
        from + piece.len(),
    ));
}

proof fn lemma_segment_stands(segments: Seq<(u8, Seq<u8>, Seq<u8>)>, k: int)
    requires
        0 <= k < segments.len(),
    ensures
        exists|from: int|
            0 <= from && from + segment_bytes(segments[k]).len() <= segments_bytes(segments).len()
                && #[trigger] segments_bytes(segments).subrange(
                from,
                from + segment_bytes(segments[k]).len(),
            ) == segment_bytes(segments[k]),
    decreases segments.len(),
{
    let all = segments_bytes(segments);
    let before = segments_bytes(segments.drop_last());
    let piece = segment_bytes(segments[k]);
    if k == segments.len() - 1 {
        let from = before.len() as int;
        assert(all.subrange(from, from + piece.len()) =~= piece);
    } else {
        lemma_segment_stands(segments.drop_last(), k);
        let from = choose|from: int|
            0 <= from && from + piece.len() <= before.len() && #[trigger] before.subrange(
                from,
                from + piece.len(),
            ) == piece;
        assert(all.subrange(from, from + piece.len()) =~= before.subrange(
            from,
            from + piece.len(),
        ));
    }
}

/// Cleaning a clean list of JPEG segments changes nothing.
pub proof fn law_jpeg_cleaning_is_idempotent(segments: Seq<(u8, Seq<u8>, Seq<u8>)>)
    ensures
        clean_segments(clean_segments(segments)) == clean_segments(segments),
{
    let p = |s: (u8, Seq<u8>, Seq<u8>)| !jpeg_metadata(s);
    lemma_filter_twice(segments, p, p);
    lemma_filter_same(segments, |s: (u8, Seq<u8>, Seq<u8>)| p(s) && p(s), p);
}

/// No metadata chunk stays in a PNG image, and every other chunk does.
pub proof fn law_png_keeps_all_but_metadata(chunks: Seq<(Seq<u8>, Seq<u8>)>)
    ensures
        forall|i: int|
            0 <= i < clean_png_chunks(chunks).len() ==> !png_metadata(
                #[trigger] clean_png_chunks(chunks)[i],
            ),
        forall|i: int|
            0 <= i < chunks.len() && !png_metadata(#[trigger] chunks[i]) ==> clean_png_chunks(
                chunks,
            ).contains(chunks[i]),
{
    broadcast use vstd::seq_lib::group_filter_ensures;

    let p = |c: (Seq<u8>, Seq<u8>)| !png_metadata(c);
    assert(clean_png_chunks(chunks) == chunks.filter(p));
}

/// No metadata chunk stays in a WebP image, and every other chunk does: the
/// extended header, transparency and animation survive.
pub proof fn law_webp_keeps_all_but_metadata(chunks: Seq<(Seq<u8>, Seq<u8>)>)
    ensures
        forall|i: int|
            0 <= i < clean_webp_chunks(chunks).len() ==> !webp_metadata(
                #[trigger] clean_webp_chunks(chunks)[i],
            ),
        forall|i: int|
            0 <= i < chunks.len() && !webp_metadata(#[trigger] chunks[i]) ==> clean_webp_chunks(
                chunks,
            ).contains(chunks[i]),
{
    broadcast use vstd::seq_lib::group_filter_ensures;

    let p = |c: (Seq<u8>, Seq<u8>)| !webp_metadata(c);
    assert(clean_webp_chunks(chunks) == chunks.filter(p));
}

} // verus!
