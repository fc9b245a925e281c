//! What cleaning a picture removes and what it leaves, in markers and bytes.

use vstd::prelude::*;
use vstd::utf8::encode_utf8;

use crate::exif::{
    clean_png_chunks, clean_segments, clean_webp_chunks, is_short_icc, is_strippable_ext, jpeg_file,
    jpeg_metadata, jpeg_parse, keeps_jpeg_segment, keeps_png_chunk, lemma_ascii_bytes, png_file,
    png_metadata, png_parse, riff_depth, riff_depth_ok, segment_bytes, segments_bytes,
    strip_image_metadata, webp_content_len, webp_file, webp_metadata, webp_parse,
};

verus! {

/// Whether `data` begins with the bytes of `id`.
pub open spec fn opens_with(data: Seq<u8>, id: Seq<u8>) -> bool {
    id.len() <= data.len() && forall|i: int| 0 <= i < id.len() ==> data[i] == #[trigger] id[i]
}

/// `Exif` and two zero bytes.
pub open spec fn exif_id() -> Seq<u8> {
    seq![0x45u8, 0x78, 0x69, 0x66, 0, 0]
}

/// `ICC_PROFILE` and a zero byte.
pub open spec fn icc_id() -> Seq<u8> {
    seq![0x49u8, 0x43, 0x43, 0x5F, 0x50, 0x52, 0x4F, 0x46, 0x49, 0x4C, 0x45, 0]
}

/// `http://ns.adobe.com/`, with which both identifiers of XMP begin.
pub open spec fn adobe_id() -> Seq<u8> {
    seq![
        0x68u8, 0x74, 0x74, 0x70, 0x3A, 0x2F, 0x2F, 0x6E, 0x73, 0x2E, 0x61, 0x64, 0x6F, 0x62, 0x65,
        0x2E, 0x63, 0x6F, 0x6D, 0x2F,
    ]
}

/// `xap/1.0/` and a zero byte.
pub open spec fn xap_id() -> Seq<u8> {
    seq![0x78u8, 0x61, 0x70, 0x2F, 0x31, 0x2E, 0x30, 0x2F, 0]
}

/// `xmp/extension/` and a zero byte.
pub open spec fn extension_id() -> Seq<u8> {
    seq![
        0x78u8, 0x6D, 0x70, 0x2F, 0x65, 0x78, 0x74, 0x65, 0x6E, 0x73, 0x69, 0x6F, 0x6E, 0x2F, 0,
    ]
}

/// `XML:com.adobe.xmp` and a zero byte.
pub open spec fn xmp_keyword() -> Seq<u8> {
    seq![
        0x58u8, 0x4D, 0x4C, 0x3A, 0x63, 0x6F, 0x6D, 0x2E, 0x61, 0x64, 0x6F, 0x62, 0x65, 0x2E, 0x78,
        0x6D, 0x70, 0,
    ]
}

#[verifier::rlimit(40)]
pub proof fn lemma_identifiers()
    ensures
        encode_utf8("Exif\0\0"@) == exif_id(),
        encode_utf8("ICC_PROFILE\0"@) == icc_id(),
        encode_utf8("http://ns.adobe.com/xap/1.0/\0"@) == adobe_id() + xap_id(),
        encode_utf8("http://ns.adobe.com/xmp/extension/\0"@) == adobe_id() + extension_id(),
        encode_utf8("XML:com.adobe.xmp\0"@) == xmp_keyword(),
        encode_utf8("eXIf"@) == seq![0x65u8, 0x58, 0x49, 0x66],
        encode_utf8("iCCP"@) == seq![0x69u8, 0x43, 0x43, 0x50],
        encode_utf8("iTXt"@) == seq![0x69u8, 0x54, 0x58, 0x74],
        encode_utf8("EXIF"@) == seq![0x45u8, 0x58, 0x49, 0x46],
        encode_utf8("ICCP"@) == seq![0x49u8, 0x43, 0x43, 0x50],
        encode_utf8("XMP "@) == seq![0x58u8, 0x4D, 0x50, 0x20],
        encode_utf8("RIFF"@) == seq![0x52u8, 0x49, 0x46, 0x46],
        encode_utf8("WEBP"@) == seq![0x57u8, 0x45, 0x42, 0x50],
{
    reveal_strlit("Exif\0\0");
    reveal_strlit("ICC_PROFILE\0");
    reveal_strlit("http://ns.adobe.com/xap/1.0/\0");
    reveal_strlit("http://ns.adobe.com/xmp/extension/\0");
    reveal_strlit("XML:com.adobe.xmp\0");
    reveal_strlit("eXIf");
    reveal_strlit("iCCP");
    reveal_strlit("iTXt");
    reveal_strlit("EXIF");
    reveal_strlit("ICCP");
    reveal_strlit("XMP ");
    reveal_strlit("RIFF");
    reveal_strlit("WEBP");
    lemma_ascii_bytes("Exif\0\0"@, exif_id());
    lemma_ascii_bytes("ICC_PROFILE\0"@, icc_id());
    lemma_ascii_bytes("http://ns.adobe.com/xap/1.0/\0"@, adobe_id() + xap_id());
    lemma_ascii_bytes("http://ns.adobe.com/xmp/extension/\0"@, adobe_id() + extension_id());
    lemma_ascii_bytes("XML:com.adobe.xmp\0"@, xmp_keyword());
    lemma_ascii_bytes("eXIf"@, seq![0x65u8, 0x58, 0x49, 0x66]);
    lemma_ascii_bytes("iCCP"@, seq![0x69u8, 0x43, 0x43, 0x50]);
    lemma_ascii_bytes("iTXt"@, seq![0x69u8, 0x54, 0x58, 0x74]);
    lemma_ascii_bytes("EXIF"@, seq![0x45u8, 0x58, 0x49, 0x46]);
    lemma_ascii_bytes("ICCP"@, seq![0x49u8, 0x43, 0x43, 0x50]);
    lemma_ascii_bytes("XMP "@, seq![0x58u8, 0x4D, 0x50, 0x20]);
    lemma_ascii_bytes("RIFF"@, seq![0x52u8, 0x49, 0x46, 0x46]);
    lemma_ascii_bytes("WEBP"@, seq![0x57u8, 0x45, 0x42, 0x50]);
}

/// What the segments of a JPEG picture say besides the picture: `APP1` with the
/// identifier of EXIF or of one of the two forms of XMP, and `APP2` with that of
/// a colour profile.
pub open spec fn tells_in_jpeg(s: (u8, Seq<u8>, Seq<u8>)) -> bool {
    ||| s.0 == 0xE1 && opens_with(s.1, exif_id())
    ||| s.0 == 0xE1 && opens_with(s.1, adobe_id() + xap_id())
    ||| s.0 == 0xE1 && opens_with(s.1, adobe_id() + extension_id())
    ||| s.0 == 0xE2 && opens_with(s.1, icc_id())
}

/// A PNG chunk of type `eXIf` or `iCCP`, or an `iTXt` chunk with the keyword of
/// XMP.
pub open spec fn tells_in_png(c: (Seq<u8>, Seq<u8>)) -> bool {
    ||| c.0 == seq![0x65u8, 0x58, 0x49, 0x66]
    ||| c.0 == seq![0x69u8, 0x43, 0x43, 0x50]
    ||| c.0 == seq![0x69u8, 0x54, 0x58, 0x74] && opens_with(c.1, xmp_keyword())
}

/// A WebP chunk with the identifier `EXIF`, `ICCP` or `XMP `.
pub open spec fn tells_in_webp(c: (Seq<u8>, Seq<u8>)) -> bool {
    ||| c.0 == seq![0x45u8, 0x58, 0x49, 0x46]
    ||| c.0 == seq![0x49u8, 0x43, 0x43, 0x50]
    ||| c.0 == seq![0x58u8, 0x4D, 0x50, 0x20]
}

/// `part` is what is left of `whole` when the items with `gone` are taken out:
/// the other items stand in it, each once and in order.
pub open spec fn left_of<A>(whole: Seq<A>, gone: spec_fn(A) -> bool, part: Seq<A>) -> bool
    decreases whole.len(),
{
    if whole.len() == 0 {
        part.len() == 0
    } else if gone(whole.last()) {
        left_of(whole.drop_last(), gone, part)
    } else {
        part.len() > 0 && part.last() == whole.last() && left_of(
            whole.drop_last(),
            gone,
            part.drop_last(),
        )
    }
}

pub proof fn lemma_filter_is_left<A>(s: Seq<A>, p: spec_fn(A) -> bool, gone: spec_fn(A) -> bool)
    requires
        forall|a: A| #[trigger] p(a) == !gone(a),
    ensures
        left_of(s, gone, s.filter(p)),
    decreases s.len(),
{
    reveal(Seq::filter);
    if s.len() > 0 {
        lemma_filter_is_left(s.drop_last(), p, gone);
        assert(p(s.last()) == !gone(s.last()));
        if p(s.last()) {
            assert(s.filter(p).drop_last() =~= s.drop_last().filter(p));
        }
    }
}

/// What is left when nothing is to be taken out is the whole.
pub proof fn lemma_left_of_all<A>(whole: Seq<A>, gone: spec_fn(A) -> bool, part: Seq<A>)
    requires
        left_of(whole, gone, part),
        forall|i: int| 0 <= i < whole.len() ==> !gone(#[trigger] whole[i]),
    ensures
        part == whole,
    decreases whole.len(),
{
    if whole.len() > 0 {
        assert(!gone(whole[whole.len() - 1]));
        assert forall|i: int| 0 <= i < whole.drop_last().len() implies !gone(
            #[trigger] whole.drop_last()[i],
        ) by {
            assert(whole.drop_last()[i] == whole[i]);
        }
        lemma_left_of_all(whole.drop_last(), gone, part.drop_last());
        assert(part =~= part.drop_last().push(part.last()));
        assert(whole =~= whole.drop_last().push(whole.last()));
    } else {
        assert(part =~= whole);
    }
}

/// What is left of the segments without the metadata.
pub open spec fn jpeg_left(all: Seq<(u8, Seq<u8>, Seq<u8>)>, part: Seq<(u8, Seq<u8>, Seq<u8>)>) -> bool {
    left_of(all, |s: (u8, Seq<u8>, Seq<u8>)| tells_in_jpeg(s), part)
}

/// What is left of the chunks without the metadata.
pub open spec fn png_left(all: Seq<(Seq<u8>, Seq<u8>)>, part: Seq<(Seq<u8>, Seq<u8>)>) -> bool {
    left_of(all, |c: (Seq<u8>, Seq<u8>)| tells_in_png(c), part)
}

/// What is left of the chunks without the metadata.
pub open spec fn webp_left(all: Seq<(Seq<u8>, Seq<u8>)>, part: Seq<(Seq<u8>, Seq<u8>)>) -> bool {
    left_of(all, |c: (Seq<u8>, Seq<u8>)| tells_in_webp(c), part)
}

proof fn lemma_prefixed_opens(b: Seq<u8>, id: Seq<u8>)
    ensures
        crate::exif::prefixed(b, id) == opens_with(b, id),
{
    if id.len() <= b.len() {
        let head = b.subrange(0, id.len() as int);
        if opens_with(b, id) {
            assert(head =~= id);
        }
        if head == id {
            assert forall|i: int| 0 <= i < id.len() implies b[i] == #[trigger] id[i] by {
                assert(head[i] == id[i]);
            }
        }
    }
}

/// A segment is metadata by its marker and the identifier in its contents, and
/// by nothing else: whatever is neither `APP1` nor `APP2` (tables, frame and
/// scan headers, restart intervals, comments) is none.
pub proof fn law_jpeg_metadata_by_marker_and_identifier(s: (u8, Seq<u8>, Seq<u8>))
    ensures
        jpeg_metadata(s) == tells_in_jpeg(s),
        s.0 != 0xE1 && s.0 != 0xE2 ==> !jpeg_metadata(s),
{
    lemma_identifiers();
    lemma_prefixed_opens(s.1, exif_id());
    lemma_prefixed_opens(s.1, icc_id());
    lemma_prefixed_opens(s.1, adobe_id() + xap_id());
    lemma_prefixed_opens(s.1, adobe_id() + extension_id());
}

/// Of the segments, the filter for XMP keeps those that are not `APP1`, and
/// those that are but open with neither identifier of XMP. A segment is a cut
/// profile when it is `APP2`, opens with `ICC_PROFILE` and a zero byte, and has
/// fewer than fourteen bytes.
pub proof fn law_jpeg_segment_tests(marker: u8, contents: &[u8], kept: bool, short: bool)
    requires
        call_ensures(keeps_jpeg_segment, (marker, contents), kept),
        call_ensures(is_short_icc, (marker, contents), short),
    ensures
        kept == !(marker == 0xE1 && (opens_with(contents@, adobe_id() + xap_id()) || opens_with(
            contents@,
            adobe_id() + extension_id(),
        ))),
        short == (marker == 0xE2 && opens_with(contents@, icc_id()) && contents@.len() < 14),
{
    lemma_identifiers();
    lemma_prefixed_opens(contents@, icc_id());
    lemma_prefixed_opens(contents@, adobe_id() + xap_id());
    lemma_prefixed_opens(contents@, adobe_id() + extension_id());
    let s = (marker, contents@, Seq::<u8>::empty());
    assert(crate::exif::xmp_segment(s) == !kept);
    assert(crate::exif::short_icc(s) == short);
}

/// The letters of the four extensions, in either case.
pub open spec fn letter(c: char, lower: char, upper: char) -> bool {
    c == lower || c == upper
}

pub open spec fn jpeg_ext(e: Seq<char>) -> bool {
    ||| e.len() == 3 && letter(e[0], 'j', 'J') && letter(e[1], 'p', 'P') && letter(e[2], 'g', 'G')
    ||| e.len() == 4 && letter(e[0], 'j', 'J') && letter(e[1], 'p', 'P') && letter(e[2], 'e', 'E')
        && letter(e[3], 'g', 'G')
}

pub open spec fn png_ext(e: Seq<char>) -> bool {
    e.len() == 3 && letter(e[0], 'p', 'P') && letter(e[1], 'n', 'N') && letter(e[2], 'g', 'G')
}

pub open spec fn webp_ext(e: Seq<char>) -> bool {
    e.len() == 4 && letter(e[0], 'w', 'W') && letter(e[1], 'e', 'E') && letter(e[2], 'b', 'B')
        && letter(e[3], 'p', 'P')
}

proof fn lemma_extensions(e: Seq<char>)
    ensures
        crate::exif::named_jpeg(e) == jpeg_ext(e),
        crate::exif::named_png(e) == png_ext(e),
        crate::exif::named_webp(e) == webp_ext(e),
{
    reveal_strlit("jpg");
    reveal_strlit("jpeg");
    reveal_strlit("png");
    reveal_strlit("webp");
    let low = crate::text::ascii_lowered(e);
    assert(low.len() == e.len());
    if jpeg_ext(e) {
        if e.len() == 3 {
            assert(low =~= "jpg"@);
        } else {
            assert(low =~= "jpeg"@);
        }
    }
    if png_ext(e) {
        assert(low =~= "png"@);
    }
    if webp_ext(e) {
        assert(low =~= "webp"@);
    }
    if low == "jpg"@ || low == "png"@ {
        assert(low[0] == crate::text::ascii_lower(e[0]) && low[1] == crate::text::ascii_lower(e[1])
            && low[2] == crate::text::ascii_lower(e[2]));
    }
    if low == "jpeg"@ || low == "webp"@ {
        assert(low[0] == crate::text::ascii_lower(e[0]) && low[1] == crate::text::ascii_lower(e[1])
            && low[2] == crate::text::ascii_lower(e[2]) && low[3] == crate::text::ascii_lower(
            e[3],
        ));
    }
}

/// Four extensions can be cleaned, in any letter case, and no other.
pub proof fn law_four_extensions(ext: &str, r: bool)
    requires
        call_ensures(is_strippable_ext, (ext,), r),
    ensures
        r == (jpeg_ext(ext@) || png_ext(ext@) || webp_ext(ext@)),
{
    lemma_extensions(ext@);
}

/// Under a JPEG extension every file that can be taken apart comes back as a
/// file of what is left of its segments without the metadata, in order and with
/// their contents. Only a file that is no JPEG, or that holds a cut colour
/// profile, comes back as nothing.
pub proof fn law_jpeg_loses_metadata_only(bytes: &[u8], ext: &str, r: Option<Vec<u8>>)
    requires
        call_ensures(strip_image_metadata, (bytes, ext), r),
        jpeg_ext(ext@),
    ensures
        match jpeg_parse(bytes@) {
            None => r is None,
            Some(all) => {
                &&& r is None <==> exists|i: int|
                    0 <= i < all.len() && (#[trigger] all[i]).0 == 0xE2 && all[i].1.len() < 14
                        && opens_with(all[i].1, icc_id())
                &&& r matches Some(v) ==> exists|part: Seq<(u8, Seq<u8>, Seq<u8>)>|
                    #[trigger] jpeg_left(all, part)
                        && v@ == jpeg_file(part)
            },
        },
{
    lemma_extensions(ext@);
    lemma_identifiers();
    match jpeg_parse(bytes@) {
        None => {},
        Some(all) => {
            let gone = |s: (u8, Seq<u8>, Seq<u8>)| tells_in_jpeg(s);
            let kept = |s: (u8, Seq<u8>, Seq<u8>)| !jpeg_metadata(s);
            assert forall|s: (u8, Seq<u8>, Seq<u8>)| #[trigger] kept(s) == !gone(s) by {
                law_jpeg_metadata_by_marker_and_identifier(s);
            }
            lemma_filter_is_left(all, kept, gone);
            assert(clean_segments(all) == all.filter(kept));
            assert(jpeg_left(all, clean_segments(all)));
            assert forall|i: int| 0 <= i < all.len() implies crate::exif::short_icc(
                #[trigger] all[i],
            ) == (all[i].0 == 0xE2 && all[i].1.len() < 14 && opens_with(all[i].1, icc_id())) by {
                lemma_prefixed_opens(all[i].1, icc_id());
            }
        },
    }
}

/// A JPEG file without an identifier of EXIF, of XMP or of a colour profile
/// comes back with all its segments.
pub proof fn law_jpeg_without_metadata_keeps_everything(
    bytes: &[u8],
    ext: &str,
    r: Option<Vec<u8>>,
    all: Seq<(u8, Seq<u8>, Seq<u8>)>,
)
    requires
        call_ensures(strip_image_metadata, (bytes, ext), r),
        jpeg_ext(ext@),
        jpeg_parse(bytes@) == Some(all),
        forall|i: int|
            0 <= i < all.len() ==> {
                ||| (#[trigger] all[i]).0 != 0xE1 && all[i].0 != 0xE2
                ||| all[i].0 == 0xE1 && !opens_with(all[i].1, exif_id()) && !opens_with(
                    all[i].1,
                    adobe_id(),
                )
                ||| all[i].0 == 0xE2 && !opens_with(all[i].1, icc_id())
            },
    ensures
        r matches Some(v) && v@ == jpeg_file(all),
{
    law_jpeg_loses_metadata_only(bytes, ext, r);
    let gone = |s: (u8, Seq<u8>, Seq<u8>)| tells_in_jpeg(s);
    assert forall|i: int| 0 <= i < all.len() implies !gone(#[trigger] all[i]) by {
        let d = all[i].1;
        if opens_with(d, adobe_id() + xap_id()) {
            assert forall|k: int| 0 <= k < adobe_id().len() implies d[k] == #[trigger] adobe_id()[k]
                by {
                assert((adobe_id() + xap_id())[k] == adobe_id()[k]);
            }
        }
        if opens_with(d, adobe_id() + extension_id()) {
            assert forall|k: int| 0 <= k < adobe_id().len() implies d[k] == #[trigger] adobe_id()[k]
                by {
                assert((adobe_id() + extension_id())[k] == adobe_id()[k]);
            }
        }
    }
    match r {
        Some(v) => {
            let part = choose|part: Seq<(u8, Seq<u8>, Seq<u8>)>|
                #[trigger] jpeg_left(all, part) && v@
                    == jpeg_file(part);
            lemma_left_of_all(all, gone, part);
        },
        None => {},
    }
}

/// A written JPEG file opens with `FF D8`, and each segment adds `FF`, its
/// marker, two bytes and then its contents.
pub proof fn law_jpeg_file_holds_the_segments(
    before: Seq<(u8, Seq<u8>, Seq<u8>)>,
    s: (u8, Seq<u8>, Seq<u8>),
)
    ensures
        jpeg_file(Seq::empty()) == seq![0xFFu8, 0xD8u8],
        ({
            let from = jpeg_file(before).len() as int;
            let with = jpeg_file(before.push(s));
            &&& with.len() >= from + 4 + s.1.len()
            &&& with.subrange(0, from) == jpeg_file(before)
            &&& with[from] == 0xFF
            &&& with[from + 1] == s.0
            &&& with.subrange(from + 4, from + 4 + s.1.len()) == s.1
            &&& s.1.len() > 0 ==> with.subrange(from + 4 + s.1.len(), with.len() as int) == s.2
        }),
{
    let from = jpeg_file(before).len() as int;
    let with = jpeg_file(before.push(s));
    assert(before.push(s).drop_last() =~= before);
    assert(segments_bytes(Seq::<(u8, Seq<u8>, Seq<u8>)>::empty()) =~= Seq::empty());
    assert(jpeg_file(Seq::empty()) =~= seq![0xFFu8, 0xD8u8]);
    assert(with =~= jpeg_file(before) + segment_bytes(s));
    assert(with.subrange(0, from) =~= jpeg_file(before));
    assert(with.subrange(from + 4, from + 4 + s.1.len()) =~= s.1);
    if s.1.len() > 0 {
        assert(with.subrange(from + 4 + s.1.len(), with.len() as int) =~= s.2);
    }
}

/// A PNG chunk is metadata by its type, and an `iTXt` chunk by its keyword too.
/// Pixels, palette, transparency, other texts and unknown chunks are none.
pub proof fn law_png_metadata_by_type_and_keyword(c: (Seq<u8>, Seq<u8>))
    ensures
        png_metadata(c) == tells_in_png(c),
{
    lemma_identifiers();
    lemma_prefixed_opens(c.1, xmp_keyword());
}

/// Of the chunks, the filter for XMP drops the `iTXt` ones with the keyword of XMP
/// alone.
pub proof fn law_png_chunk_test(kind: &[u8], contents: &[u8], kept: bool)
    requires
        call_ensures(keeps_png_chunk, (kind, contents), kept),
    ensures
        kept == !(kind@ == seq![0x69u8, 0x54, 0x58, 0x74] && opens_with(contents@, xmp_keyword())),
{
    lemma_identifiers();
    lemma_prefixed_opens(contents@, xmp_keyword());
}

/// Under the PNG extension every file that can be taken apart comes back as a
/// file of what is left of its chunks without the metadata, in order and with
/// their data.
pub proof fn law_png_loses_metadata_only(bytes: &[u8], ext: &str, r: Option<Vec<u8>>)
    requires
        call_ensures(strip_image_metadata, (bytes, ext), r),
        png_ext(ext@),
    ensures
        match png_parse(bytes@) {
            None => r is None,
            Some(all) => r matches Some(v) && exists|part: Seq<(Seq<u8>, Seq<u8>)>|
                #[trigger] png_left(all, part) && v@
                    == png_file(part),
        },
{
    lemma_extensions(ext@);
    match png_parse(bytes@) {
        None => {},
        Some(all) => {
            let gone = |c: (Seq<u8>, Seq<u8>)| tells_in_png(c);
            let kept = |c: (Seq<u8>, Seq<u8>)| !png_metadata(c);
            assert forall|c: (Seq<u8>, Seq<u8>)| #[trigger] kept(c) == !gone(c) by {
                law_png_metadata_by_type_and_keyword(c);
            }
            lemma_filter_is_left(all, kept, gone);
            assert(clean_png_chunks(all) == all.filter(kept));
            assert(png_left(all, clean_png_chunks(all)));
        },
    }
}

/// A WebP chunk is metadata by its identifier alone.
pub proof fn law_webp_metadata_by_identifier(c: (Seq<u8>, Seq<u8>))
    ensures
        webp_metadata(c) == tells_in_webp(c),
{
    lemma_identifiers();
}

/// Under the WebP extension every file that can be taken apart, nests its chunks
/// at most 256 deep and is still short enough for its length field comes back as
/// a file of what is left of its chunks without the metadata, in order and with
/// their content.
pub proof fn law_webp_loses_metadata_only(bytes: &[u8], ext: &str, r: Option<Vec<u8>>)
    requires
        call_ensures(strip_image_metadata, (bytes, ext), r),
        webp_ext(ext@),
    ensures
        match webp_parse(bytes@) {
            None => r is None,
            Some(all) => exists|part: Seq<(Seq<u8>, Seq<u8>)>|
                #[trigger] webp_left(all, part)
                    && if riff_depth(bytes@) <= 256 && webp_content_len(part) + 8 <= 0xFFFF_FFFF {
                    r matches Some(v) && v@ == webp_file(part)
                } else {
                    r is None
                },
        },
{
    lemma_extensions(ext@);
    match webp_parse(bytes@) {
        None => {},
        Some(all) => {
            let gone = |c: (Seq<u8>, Seq<u8>)| tells_in_webp(c);
            let kept = |c: (Seq<u8>, Seq<u8>)| !webp_metadata(c);
            assert forall|c: (Seq<u8>, Seq<u8>)| #[trigger] kept(c) == !gone(c) by {
                law_webp_metadata_by_identifier(c);
            }
            lemma_filter_is_left(all, kept, gone);
            assert(clean_webp_chunks(all) == all.filter(kept));
            assert(webp_left(all, clean_webp_chunks(all)));
        },
    }
}

/// Under any other extension nothing is cleaned, whatever the bytes are.
pub proof fn law_other_extensions_are_left_alone(bytes: &[u8], ext: &str, r: Option<Vec<u8>>)
    requires
        call_ensures(strip_image_metadata, (bytes, ext), r),
        !jpeg_ext(ext@) && !png_ext(ext@) && !webp_ext(ext@),
    ensures
        r is None,
{
    lemma_extensions(ext@);
}

/// The two bytes behind the marker of a JPEG segment are the length of its
/// contents and of themselves, for the markers that have a length: frames, tables,
/// scans, restart intervals, applications and comments.
pub proof fn law_jpeg_segment_says_its_length(s: (u8, Seq<u8>, Seq<u8>))
    requires
        s.1.len() <= 65533,
        0xC0 <= s.0 <= 0xD7 || s.0 == 0xDA || s.0 == 0xDB || s.0 == 0xDD || 0xE0 <= s.0 <= 0xEF
            || s.0 == 0xFE,
    ensures
        segment_bytes(s)[0] == 0xFF && segment_bytes(s)[1] == s.0,
        256 * segment_bytes(s)[2] + segment_bytes(s)[3] == s.1.len() + 2,
{
}

/// A written PNG file is the signature and then, chunk after chunk, the length of
/// the data with its most significant byte first, the type, the data and the
/// checksum.
#[verifier::rlimit(40)]
pub proof fn law_png_file_byte_by_byte(before: Seq<(Seq<u8>, Seq<u8>)>, c: (Seq<u8>, Seq<u8>))
    requires
        c.0.len() == 4,
        c.1.len() <= 0xFFFF_FFFF,
    ensures
        png_file(Seq::empty()) == seq![0x89u8, 0x50, 0x4E, 0x47, 0x0D, 0x0A, 0x1A, 0x0A],
        ({
            let n = png_file(before).len() as int;
            let with = png_file(before.push(c));
            &&& with.subrange(0, n) == png_file(before)
            &&& 16_777_216 * with[n] + 65_536 * with[n + 1] + 256 * with[n + 2] + with[n + 3]
                == c.1.len()
            &&& with.subrange(n + 4, n + 8) == c.0
            &&& with.subrange(n + 8, n + 8 + c.1.len()) == c.1
            &&& with.subrange(n + 8 + c.1.len(), with.len() as int) == crate::exif::png_crc(c.0, c.1)
        }),
{
    let n = png_file(before).len() as int;
    let with = png_file(before.push(c));
    assert(crate::exif::png_chunks_bytes(Seq::<(Seq<u8>, Seq<u8>)>::empty()) =~= Seq::empty());
    assert(png_file(Seq::empty()) =~= seq![0x89u8, 0x50, 0x4E, 0x47, 0x0D, 0x0A, 0x1A, 0x0A]);
    assert(before.push(c).drop_last() =~= before);
    let chunk = crate::exif::png_chunk_bytes(c);
    assert(with =~= png_file(before) + chunk);
    assert(with.subrange(0, n) =~= png_file(before));
    let q = crate::exif::be_quad(c.1.len());
    assert(with[n] == q[0] && with[n + 1] == q[1] && with[n + 2] == q[2] && with[n + 3] == q[3]);
    lemma_quad(c.1.len());
    assert(with.subrange(n + 4, n + 8) =~= c.0);
    assert(with.subrange(n + 8, n + 8 + c.1.len()) =~= c.1);
    assert(with.subrange(n + 8 + c.1.len(), with.len() as int) =~= crate::exif::png_crc(c.0, c.1));
}

proof fn lemma_quad(n: nat)
    requires
        n <= 0xFFFF_FFFF,
    ensures
        ({
            let q = crate::exif::be_quad(n);
            16_777_216 * q[0] + 65_536 * q[1] + 256 * q[2] + q[3] == n
        }),
        ({
            let q = crate::exif::le_quad(n);
            16_777_216 * q[3] + 65_536 * q[2] + 256 * q[1] + q[0] == n
        }),
{
    let hi = n / 0x1_0000;
    let lo = n % 0x1_0000;
    assert(n / 0x100_0000 == hi / 256);
    assert(n / 0x100 % 256 == lo / 256) by {
        assert(n / 0x100 == hi * 256 + lo / 256);
    }
    assert(n % 256 == lo % 256);
}

/// A written WebP file is `RIFF`, the length of what follows with its least
/// significant byte first, `WEBP`, and then, chunk after chunk, the identifier,
/// the length, the content and a zero byte behind an odd content.
#[verifier::rlimit(40)]
pub proof fn law_webp_file_byte_by_byte(before: Seq<(Seq<u8>, Seq<u8>)>, c: (Seq<u8>, Seq<u8>))
    requires
        c.0.len() == 4,
        webp_content_len(before.push(c)) <= 0xFFFF_FFFF,
    ensures
        webp_content_len(Seq::empty()) == 4,
        webp_content_len(before.push(c)) == webp_content_len(before) + 8 + c.1.len() + c.1.len() % 2,
        ({
            let f = webp_file(before.push(c));
            let n = webp_file(before).len() as int;
            let end = if c.1.len() % 2 == 1 {
                seq![0u8]
            } else {
                Seq::empty()
            };
            &&& f.subrange(0, 4) == seq![0x52u8, 0x49, 0x46, 0x46]
            &&& f[4] + 256 * f[5] + 65_536 * f[6] + 16_777_216 * f[7] == webp_content_len(
                before.push(c),
            )
            &&& f.subrange(8, 12) == seq![0x57u8, 0x45, 0x42, 0x50]
            &&& f.subrange(12, n) == webp_file(before).subrange(12, n)
            &&& f.subrange(n, n + 4) == c.0
            &&& f[n + 4] + 256 * f[n + 5] + 65_536 * f[n + 6] + 16_777_216 * f[n + 7] == c.1.len()
            &&& f.subrange(n + 8, n + 8 + c.1.len()) == c.1
            &&& f.subrange(n + 8 + c.1.len(), f.len() as int) == end
        }),
{
    let all = before.push(c);
    assert(all.drop_last() =~= before);
    assert(all.last() == c);
    let f = webp_file(all);
    let n = webp_file(before).len() as int;
    let chunk = crate::exif::riff_chunk(c);
    let body = crate::exif::riff_chunks(before);
    assert(crate::exif::riff_chunks(all) == body + chunk);
    lemma_webp_parts(all);
    lemma_webp_parts(before);
    lemma_riff_chunk(c);
    assert(f.subrange(12, n) =~= body);
    assert(webp_file(before).subrange(12, n) =~= body);
    assert forall|i: int| 0 <= i < chunk.len() implies f[n + i] == #[trigger] chunk[i] by {
        assert((body + chunk)[body.len() + i] == chunk[i]);
    }
    lemma_behind(f, n, chunk, 0, 4);
    lemma_behind(f, n, chunk, 8, 8 + c.1.len() as int);
    lemma_behind(f, n, chunk, 8 + c.1.len() as int, chunk.len() as int);
    assert(f[n + 4] == chunk[4] && f[n + 5] == chunk[5] && f[n + 6] == chunk[6] && f[n + 7]
        == chunk[7]);
}

/// A written file is twelve bytes of header and then the chunks.
#[verifier::rlimit(40)]
proof fn lemma_webp_parts(chunks: Seq<(Seq<u8>, Seq<u8>)>)
    ensures
        ({
            let f = webp_file(chunks);
            let body = crate::exif::riff_chunks(chunks);
            let n = webp_content_len(chunks);
            &&& f.len() == 12 + body.len()
            &&& f.subrange(0, 4) == seq![0x52u8, 0x49, 0x46, 0x46]
            &&& f.subrange(8, 12) == seq![0x57u8, 0x45, 0x42, 0x50]
            &&& n <= 0xFFFF_FFFF ==> f[4] + 256 * f[5] + 65_536 * f[6] + 16_777_216 * f[7] == n
            &&& f.subrange(12, f.len() as int) == body
            &&& forall|i: int| 0 <= i < body.len() ==> f[12 + i] == #[trigger] body[i]
        }),
{
    lemma_identifiers();
    let f = webp_file(chunks);
    let body = crate::exif::riff_chunks(chunks);
    let q = crate::exif::le_quad(webp_content_len(chunks));
    assert(f.subrange(0, 4) =~= seq![0x52u8, 0x49, 0x46, 0x46]);
    assert(f.subrange(8, 12) =~= seq![0x57u8, 0x45, 0x42, 0x50]);
    assert(f[4] == q[0] && f[5] == q[1] && f[6] == q[2] && f[7] == q[3]);
    assert(f.subrange(12, f.len() as int) =~= body);
    if webp_content_len(chunks) <= 0xFFFF_FFFF {
        lemma_quad(webp_content_len(chunks));
    }
}

/// A written chunk is its identifier, its length, its content and the padding.
proof fn lemma_riff_chunk(c: (Seq<u8>, Seq<u8>))
    requires
        c.0.len() == 4,
        c.1.len() <= 0xFFFF_FFFF,
    ensures
        ({
            let chunk = crate::exif::riff_chunk(c);
            let n = c.1.len() as int;
            &&& chunk.len() == 8 + n + n % 2
            &&& chunk.subrange(0, 4) == c.0
            &&& chunk[4] + 256 * chunk[5] + 65_536 * chunk[6] + 16_777_216 * chunk[7] == n
            &&& chunk.subrange(8, 8 + n) == c.1
            &&& chunk.subrange(8 + n, chunk.len() as int) == if n % 2 == 1 {
                seq![0u8]
            } else {
                Seq::empty()
            }
        }),
{
    let chunk = crate::exif::riff_chunk(c);
    let n = c.1.len() as int;
    let l = crate::exif::le_quad(c.1.len());
    lemma_quad(c.1.len());
    assert(chunk.subrange(0, 4) =~= c.0);
    assert(chunk[4] == l[0] && chunk[5] == l[1] && chunk[6] == l[2] && chunk[7] == l[3]);
    assert(chunk.subrange(8, 8 + n) =~= c.1);
    let end = if n % 2 == 1 {
        seq![0u8]
    } else {
        Seq::empty()
    };
    assert(chunk.subrange(8 + n, chunk.len() as int) =~= end);
}

/// A part of what stands at the end of `f` is that part of `f`.
proof fn lemma_behind(f: Seq<u8>, n: int, tail: Seq<u8>, a: int, b: int)
    requires
        0 <= n,
        f.len() == n + tail.len(),
        forall|i: int| 0 <= i < tail.len() ==> f[n + i] == #[trigger] tail[i],
        0 <= a <= b <= tail.len(),
    ensures
        f.subrange(n + a, n + b) == tail.subrange(a, b),
{
    assert(f.subrange(n + a, n + b) =~= tail.subrange(a, b));
}

/// The length that stands behind the identifier of a chunk.
pub open spec fn said_length(b: Seq<u8>) -> int {
    b[4] + 256 * b[5] + 65_536 * b[6] + 16_777_216 * b[7]
}

/// How deep chunks nest: bytes that hold no whole chunk, and a chunk that is
/// neither `RIFF`, `LIST` nor `seqt`, are no level; the chunks inside one of these
/// three are one level deeper than it. 256 levels are taken apart and no more.
#[verifier::rlimit(40)]
pub proof fn law_nested_chunks_are_counted(b: &[u8], r: bool)
    requires
        call_ensures(riff_depth_ok, (b,), r),
    ensures
        r <==> riff_depth(b@) <= 256,
        b@.len() < 8 || said_length(b@) > b@.len() - 8 ==> riff_depth(b@) == 0,
        b@.len() >= 8 && said_length(b@) <= b@.len() - 8 ==> {
            let id = b@.subrange(0, 4);
            let n = said_length(b@);
            let riff = id == seq![0x52u8, 0x49, 0x46, 0x46] || id == seq![0x4Cu8, 0x49, 0x53, 0x54];
            let seqt = id == seq![0x73u8, 0x65, 0x71, 0x74];
            &&& !riff && !seqt ==> riff_depth(b@) == 0
            &&& riff && n < 4 ==> riff_depth(b@) == 1
            &&& riff && n >= 4 ==> riff_depth(b@) == 1 + crate::exif::list_depth(
                b@.subrange(12, 8 + n),
            )
            &&& seqt ==> riff_depth(b@) == 1 + crate::exif::list_depth(b@.subrange(8, 8 + n))
        },
{
    lemma_identifiers();
    lemma_list_identifiers();
    let riff = seq![0x52u8, 0x49, 0x46, 0x46];
    let list = seq![0x4Cu8, 0x49, 0x53, 0x54];
    let seqt = seq![0x73u8, 0x65, 0x71, 0x74];
    assert(riff[0] == 0x52 && list[0] == 0x4C && seqt[0] == 0x73);
    if b@.len() >= 8 {
        assert(crate::exif::le_value(b@, 4) == said_length(b@));
    }
}

proof fn lemma_list_identifiers()
    ensures
        encode_utf8("LIST"@) == seq![0x4Cu8, 0x49, 0x53, 0x54],
        encode_utf8("seqt"@) == seq![0x73u8, 0x65, 0x71, 0x74],
{
    reveal_strlit("LIST");
    reveal_strlit("seqt");
    lemma_ascii_bytes("LIST"@, seq![0x4Cu8, 0x49, 0x53, 0x54]);
    lemma_ascii_bytes("seqt"@, seq![0x73u8, 0x65, 0x71, 0x74]);
}

/// The depth of chunks that follow one another is that of the deepest: a further
/// chunk begins behind the one before, and behind a padding byte where that one
/// holds no chunks and is odd.
pub proof fn law_deepest_chunk_counts(b: Seq<u8>)
    ensures
        b.len() < 8 || said_length(b) > b.len() - 8 ==> crate::exif::list_depth(b) == 0,
        b.len() >= 8 && said_length(b) <= b.len() - 8 ==> {
            let id = b.subrange(0, 4);
            let n = said_length(b);
            let nests = id == seq![0x52u8, 0x49, 0x46, 0x46] || id == seq![
                0x4Cu8,
                0x49,
                0x53,
                0x54,
            ] || id == seq![0x73u8, 0x65, 0x71, 0x74];
            let next = 8 + n + if nests {
                0int
            } else {
                n % 2
            };
            let rest = if next < b.len() {
                crate::exif::list_depth(b.subrange(next, b.len() as int))
            } else {
                0
            };
            &&& crate::exif::list_depth(b) >= riff_depth(b) && crate::exif::list_depth(b) >= rest
            &&& crate::exif::list_depth(b) == riff_depth(b) || crate::exif::list_depth(b) == rest
        },
{
    lemma_identifiers();
    lemma_list_identifiers();
    if b.len() >= 8 {
        assert(crate::exif::le_value(b, 4) == said_length(b));
    }
}

} // verus!
