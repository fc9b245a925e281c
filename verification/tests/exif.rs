use img_parts::jpeg::Jpeg;
use img_parts::png::Png;
use img_parts::webp::{
    WebP, CHUNK_ALPH, CHUNK_ANIM, CHUNK_ANMF, CHUNK_EXIF, CHUNK_VP8, CHUNK_VP8X, CHUNK_XMP,
};
use img_parts::{Bytes, ImageEXIF};
use lanbeam::exif::{
    is_short_icc, is_strippable_ext, keeps_jpeg_segment, riff_depth_ok, strip_image_metadata,
    MAX_RIFF_DEPTH,
};

const JPEG_APP1: u8 = 0xE1;
const JPEG_XMP_PREFIX: &[u8] = b"http://ns.adobe.com/xap/1.0/\0";
const JPEG_XMP_EXT_PREFIX: &[u8] = b"http://ns.adobe.com/xmp/extension/\0";
const PNG_XMP_KEYWORD: &[u8] = b"XML:com.adobe.xmp\0";

fn push_segment(out: &mut Vec<u8>, marker: u8, contents: &[u8]) {
    out.push(0xFF);
    out.push(marker);
    out.extend_from_slice(&((contents.len() + 2) as u16).to_be_bytes());
    out.extend_from_slice(contents);
}

fn push_scan(out: &mut Vec<u8>) {
    push_segment(out, 0xDA, &[0x01u8, 0x01, 0x00, 0x00, 0x3F, 0x00]);
    out.extend_from_slice(&[0xAA, 0xBB, 0xCC]);
    out.extend_from_slice(&[0xFF, 0xD9]);
}

fn jpeg_with_exif() -> Vec<u8> {
    let mut out = vec![0xFF, 0xD8];
    let exif_contents: Vec<u8> = [b"Exif\x00\x00".as_slice(), &[0xAB; 24]].concat();
    push_segment(&mut out, JPEG_APP1, &exif_contents);
    push_segment(&mut out, 0xFE, b"PIXELS");
    push_scan(&mut out);
    out
}

#[test]
fn strips_exif_from_jpeg_preserving_content() {
    let input = jpeg_with_exif();
    let before = Jpeg::from_bytes(Bytes::copy_from_slice(&input)).unwrap();
    assert!(before.exif().is_some(), "fixture must start with EXIF");

    let cleaned = strip_image_metadata(&input, "jpg").expect("jpeg is strippable");
    assert!(cleaned.len() < input.len(), "dropping the EXIF segment must shrink the file");

    let after = Jpeg::from_bytes(Bytes::copy_from_slice(&cleaned))
        .expect("stripped bytes must still be a valid JPEG container");
    assert!(after.exif().is_none(), "EXIF must be gone after stripping");
    assert!(
        cleaned.windows(6).any(|w| w == b"PIXELS"),
        "non-metadata content must be preserved"
    );
    assert!(
        !cleaned.windows(6).any(|w| w == b"Exif\x00\x00"),
        "no EXIF identifier may remain"
    );
}

#[test]
fn stripped_jpeg_is_exactly_the_rest() {
    let mut expected = vec![0xFF, 0xD8];
    push_segment(&mut expected, 0xFE, b"PIXELS");
    push_scan(&mut expected);
    assert_eq!(strip_image_metadata(&jpeg_with_exif(), "jpg"), Some(expected.clone()));
    assert_eq!(
        strip_image_metadata(&expected, "jpg"),
        Some(expected),
        "a clean file comes back as it is"
    );
}

#[test]
fn a_scan_without_parameters_loses_its_data() {
    let mut input = vec![0xFF, 0xD8];
    push_segment(&mut input, 0xFE, b"note");
    push_segment(&mut input, 0xDA, b"");
    let kept = input.clone();
    input.extend_from_slice(&[0xAA, 0xBB, 0xFF, 0xD9]);
    assert_eq!(strip_image_metadata(&input, "jpg"), Some(kept));
}

#[test]
fn jpeg_extension_is_case_and_spelling_insensitive() {
    let input = jpeg_with_exif();
    for ext in ["jpg", "JPG", "jpeg", "JPEG"] {
        assert!(
            strip_image_metadata(&input, ext).is_some(),
            "{ext} must be recognized as JPEG"
        );
    }
}

#[test]
fn unknown_ext_or_corrupt_image_returns_none() {
    assert_eq!(strip_image_metadata(b"any bytes here", "txt"), None);
    assert_eq!(strip_image_metadata(b"", "heic"), None);
    assert_eq!(strip_image_metadata(b"not really a jpeg", "jpg"), None);
    assert_eq!(strip_image_metadata(&[0xFF, 0xD8, 0x00], "jpeg"), None);
}

#[test]
fn strippable_ext_matches_dispatch() {
    for e in ["jpg", "JPG", "jpeg", "png", "PNG", "webp", "WebP"] {
        assert!(is_strippable_ext(e), "{e} should be strippable");
    }
    for e in ["heic", "tiff", "gif", "cr2", "mp4", "txt", ""] {
        assert!(!is_strippable_ext(e), "{e} should not be strippable");
    }
}

fn jpeg_with_standard_and_extended_xmp() -> Vec<u8> {
    let mut out = vec![0xFF, 0xD8];
    push_segment(&mut out, JPEG_APP1, &[b"Exif\x00\x00".as_slice(), &[0xAB; 16]].concat());
    push_segment(
        &mut out,
        JPEG_APP1,
        &[JPEG_XMP_PREFIX, b"<x:xmpmeta>std</x:xmpmeta>"].concat(),
    );
    push_segment(&mut out, JPEG_APP1, &[JPEG_XMP_EXT_PREFIX, &[0xCD; 32]].concat());
    push_segment(&mut out, 0xFE, b"PIXELS");
    push_scan(&mut out);
    out
}

#[test]
fn strips_standard_and_extended_xmp_from_jpeg() {
    let input = jpeg_with_standard_and_extended_xmp();
    assert!(
        input.windows(JPEG_XMP_PREFIX.len()).any(|w| w == JPEG_XMP_PREFIX),
        "fixture must carry standard XMP"
    );
    assert!(
        input.windows(JPEG_XMP_EXT_PREFIX.len()).any(|w| w == JPEG_XMP_EXT_PREFIX),
        "fixture must carry Extended-XMP"
    );

    let cleaned = strip_image_metadata(&input, "jpg").expect("jpeg is strippable");

    assert!(
        !cleaned.windows(JPEG_XMP_PREFIX.len()).any(|w| w == JPEG_XMP_PREFIX),
        "standard XMP must be gone"
    );
    assert!(
        !cleaned.windows(JPEG_XMP_EXT_PREFIX.len()).any(|w| w == JPEG_XMP_EXT_PREFIX),
        "Extended-XMP overflow must be gone"
    );
    assert!(
        !cleaned.windows(6).any(|w| w == b"Exif\x00\x00"),
        "EXIF must be gone too"
    );
    assert!(
        cleaned.windows(6).any(|w| w == b"PIXELS"),
        "non-metadata content must survive"
    );
}

#[test]
fn icc_profile_goes_and_a_cut_one_passes_through() {
    let mut with_icc = vec![0xFF, 0xD8];
    push_segment(&mut with_icc, 0xE2, b"ICC_PROFILE\0\x01\x01profile");
    push_segment(&mut with_icc, 0xFE, b"PIXELS");
    push_scan(&mut with_icc);
    let cleaned = strip_image_metadata(&with_icc, "jpg").expect("jpeg is strippable");
    assert!(!cleaned.windows(11).any(|w| w == b"ICC_PROFILE"));
    assert!(cleaned.windows(6).any(|w| w == b"PIXELS"));

    let mut cut = vec![0xFF, 0xD8];
    push_segment(&mut cut, 0xE2, b"ICC_PROFILE\0\x01");
    push_scan(&mut cut);
    assert_eq!(strip_image_metadata(&cut, "jpg"), None, "an unusual file is left alone");
    assert!(is_short_icc(0xE2, b"ICC_PROFILE\0\x01"));
    assert!(!is_short_icc(0xE2, b"ICC_PROFILE\0\x01\x01"));
    assert!(!is_short_icc(0xE1, b"ICC_PROFILE\0\x01"));
}

#[test]
fn only_xmp_segments_are_dropped_by_the_filter() {
    assert!(!keeps_jpeg_segment(0xE1, b"http://ns.adobe.com/xap/1.0/\0rest"));
    assert!(!keeps_jpeg_segment(0xE1, b"http://ns.adobe.com/xmp/extension/\0rest"));
    assert!(keeps_jpeg_segment(0xE1, b"Exif\0\0"));
    assert!(keeps_jpeg_segment(0xE2, b"http://ns.adobe.com/xap/1.0/\0rest"));
}

fn webp_from_chunks(chunks: &[(&[u8; 4], &[u8])]) -> Vec<u8> {
    let mut body = Vec::new();
    body.extend_from_slice(b"WEBP");
    for (id, data) in chunks {
        body.extend_from_slice(*id);
        body.extend_from_slice(&(data.len() as u32).to_le_bytes());
        body.extend_from_slice(data);
        if data.len() % 2 == 1 {
            body.push(0x00);
        }
    }
    let mut out = Vec::with_capacity(8 + body.len());
    out.extend_from_slice(b"RIFF");
    out.extend_from_slice(&(body.len() as u32).to_le_bytes());
    out.extend_from_slice(&body);
    out
}

fn vp8x_payload(alpha: bool, anim: bool) -> [u8; 10] {
    let mut flags = 0x08u8;
    if alpha {
        flags |= 0x10;
    }
    if anim {
        flags |= 0x02;
    }
    let mut p = [0u8; 10];
    p[0] = flags;
    p[4] = 31;
    p[7] = 31;
    p
}

#[test]
fn strip_webp_keeps_vp8x_and_alpha_dropping_only_metadata() {
    let input = webp_from_chunks(&[
        (&CHUNK_VP8X, &vp8x_payload(true, false)),
        (&CHUNK_ALPH, &[0x00, 0x11, 0x22, 0x33]),
        (&CHUNK_VP8, &[0xAA; 8]),
        (&CHUNK_EXIF, b"Exif\x00\x00\xDE\xAD"),
        (&CHUNK_XMP, b"<x:xmpmeta/>"),
    ]);
    let before = WebP::from_bytes(Bytes::copy_from_slice(&input)).unwrap();
    assert!(before.has_chunk(CHUNK_VP8X));
    assert!(before.has_chunk(CHUNK_ALPH));
    assert!(before.has_chunk(CHUNK_EXIF));

    let cleaned = strip_image_metadata(&input, "webp").expect("webp is strippable");
    assert!(cleaned.len() < input.len(), "removing EXIF+XMP must shrink the file");

    let after = WebP::from_bytes(Bytes::copy_from_slice(&cleaned))
        .expect("stripped bytes must still be a valid WebP container");
    assert!(after.has_chunk(CHUNK_VP8X), "VP8X header must NOT be downgraded away");
    assert!(after.has_chunk(CHUNK_ALPH), "the alpha (ALPH) chunk must survive");
    assert!(after.has_chunk(CHUNK_VP8), "the pixel bitstream must survive");
    assert!(!after.has_chunk(CHUNK_EXIF), "EXIF must be gone");
    assert!(!after.has_chunk(CHUNK_XMP), "XMP must be gone");
}

#[test]
fn strip_webp_keeps_animation_chunks() {
    let input = webp_from_chunks(&[
        (&CHUNK_VP8X, &vp8x_payload(false, true)),
        (&CHUNK_ANIM, &[0x00, 0x00, 0x00, 0x00, 0x00, 0x00]),
        (&CHUNK_ANMF, &[0x01; 20]),
        (&CHUNK_EXIF, b"Exif\x00\x00\xBE\xEF"),
    ]);
    let cleaned = strip_image_metadata(&input, "webp").expect("webp is strippable");
    let after = WebP::from_bytes(Bytes::copy_from_slice(&cleaned)).unwrap();
    assert!(after.has_chunk(CHUNK_VP8X), "VP8X must survive on an animated WebP");
    assert!(after.has_chunk(CHUNK_ANIM), "ANIM must survive");
    assert!(after.has_chunk(CHUNK_ANMF), "ANMF frame must survive");
    assert!(!after.has_chunk(CHUNK_EXIF), "EXIF must be gone");
}

#[test]
fn strip_webp_simple_vp8_passthrough_is_byte_identical() {
    let input = webp_from_chunks(&[(&CHUNK_VP8, &[0x99; 10])]);
    let cleaned = strip_image_metadata(&input, "webp").expect("webp is strippable");
    assert_eq!(cleaned, input, "a clean simple-VP8 WebP must re-encode identically");
    let after = WebP::from_bytes(Bytes::copy_from_slice(&cleaned)).unwrap();
    assert!(after.has_chunk(CHUNK_VP8), "the VP8 bitstream must remain");
    assert!(!after.has_chunk(CHUNK_VP8X), "no VP8X may be fabricated for a simple VP8");
}

#[test]
fn strip_webp_odd_length_chunk_padding_roundtrips() {
    let input = webp_from_chunks(&[(&CHUNK_VP8, &[0x77; 9])]);
    let cleaned = strip_image_metadata(&input, "webp").expect("webp is strippable");
    assert_eq!(
        cleaned, input,
        "a clean odd-length simple-VP8 WebP must re-encode identically"
    );
    let after = WebP::from_bytes(Bytes::copy_from_slice(&cleaned)).unwrap();
    assert!(after.has_chunk(CHUNK_VP8), "the VP8 bitstream must remain");
}

/// A WebP file with lists inside lists, and a metadata chunk behind them.
fn nested_webp(levels: u32) -> Vec<u8> {
    let mut lists = Vec::new();
    for k in 0..levels {
        lists.extend_from_slice(b"LIST");
        lists.extend_from_slice(&(4 + 12 * (levels - 1 - k)).to_le_bytes());
        lists.extend_from_slice(b"abcd");
    }
    let mut out = b"RIFF".to_vec();
    out.extend_from_slice(&(4 + lists.len() as u32 + 12).to_le_bytes());
    out.extend_from_slice(b"WEBP");
    out.extend_from_slice(&lists);
    out.extend_from_slice(b"EXIF");
    out.extend_from_slice(&4u32.to_le_bytes());
    out.extend_from_slice(&[1, 2, 3, 4]);
    out
}

#[test]
fn nested_lists_are_kept_up_to_a_depth_and_passed_through_beyond() {
    for levels in [1, 20, MAX_RIFF_DEPTH - 1] {
        let input = nested_webp(levels);
        assert!(riff_depth_ok(&input));
        let cleaned = strip_image_metadata(&input, "webp").expect("not too deep");
        let mut want = input[..input.len() - 12].to_vec();
        let len = (want.len() - 8) as u32;
        want[4..8].copy_from_slice(&len.to_le_bytes());
        assert_eq!(cleaned, want, "only the metadata goes");
    }
    for levels in [MAX_RIFF_DEPTH, 200_000] {
        let input = nested_webp(levels);
        assert!(!riff_depth_ok(&input));
        assert!(strip_image_metadata(&input, "webp").is_none(), "too deep to be taken apart");
    }
}

#[test]
fn the_depth_of_broken_chunks_is_counted_as_far_as_they_go() {
    assert!(riff_depth_ok(&[]));
    assert!(riff_depth_ok(b"RIFF\xFF\xFF\xFF\xFFWEBP"));
    let mut cut = nested_webp(200_000);
    cut.truncate(1_000_000);
    assert!(riff_depth_ok(&cut), "a truncated list is refused at once");
    assert!(strip_image_metadata(&cut, "webp").is_none());
}

fn png_crc32(data: &[u8]) -> u32 {
    let mut crc: u32 = 0xFFFF_FFFF;
    for &b in data {
        crc ^= b as u32;
        for _ in 0..8 {
            let mask = (crc & 1).wrapping_neg();
            crc = (crc >> 1) ^ (0xEDB8_8320 & mask);
        }
    }
    !crc
}

fn push_png_chunk(out: &mut Vec<u8>, kind: &[u8; 4], data: &[u8]) {
    out.extend_from_slice(&(data.len() as u32).to_be_bytes());
    let mut crc_input = kind.to_vec();
    crc_input.extend_from_slice(data);
    out.extend_from_slice(kind);
    out.extend_from_slice(data);
    out.extend_from_slice(&png_crc32(&crc_input).to_be_bytes());
}

fn png_with(metadata: bool) -> Vec<u8> {
    let mut out = vec![0x89, 0x50, 0x4E, 0x47, 0x0D, 0x0A, 0x1A, 0x0A];
    let ihdr = [0, 0, 0, 1, 0, 0, 0, 1, 8, 0, 0, 0, 0];
    push_png_chunk(&mut out, b"IHDR", &ihdr);
    if metadata {
        push_png_chunk(&mut out, b"eXIf", &[b'E', b'x', b'i', b'f', 0xDE, 0xAD]);
        let itxt = [PNG_XMP_KEYWORD, &[0, 0], b"\0", b"\0", b"<x:xmpmeta/>"].concat();
        push_png_chunk(&mut out, b"iTXt", &itxt);
    }
    push_png_chunk(&mut out, b"iTXt", b"Comment\0\0\0\0\0kept");
    push_png_chunk(&mut out, b"IDAT", &[0x00, 0x01, 0x02, 0x03]);
    push_png_chunk(&mut out, b"IEND", &[]);
    out
}

fn png_with_exif_and_xmp() -> Vec<u8> {
    png_with(true)
}

#[test]
fn strips_exif_and_xmp_from_png() {
    let input = png_with_exif_and_xmp();
    let before = Png::from_bytes(Bytes::copy_from_slice(&input)).unwrap();
    assert!(before.exif().is_some(), "fixture must start with EXIF");
    assert!(
        input.windows(PNG_XMP_KEYWORD.len()).any(|w| w == PNG_XMP_KEYWORD),
        "fixture must carry XMP"
    );

    let cleaned = strip_image_metadata(&input, "png").expect("png is strippable");
    assert!(cleaned.len() < input.len(), "dropping EXIF + XMP must shrink the file");

    let after = Png::from_bytes(Bytes::copy_from_slice(&cleaned))
        .expect("stripped bytes must still be a valid PNG container");
    assert!(after.exif().is_none(), "EXIF must be gone after stripping");
    assert!(
        !cleaned.windows(PNG_XMP_KEYWORD.len()).any(|w| w == PNG_XMP_KEYWORD),
        "XMP iTXt chunk must be gone"
    );
    assert!(
        cleaned.windows(4).any(|w| w == b"IDAT"),
        "pixel data must be preserved"
    );
}

#[test]
fn stripped_png_is_exactly_the_rest() {
    assert_eq!(strip_image_metadata(&png_with(true), "png"), Some(png_with(false)));
    assert_eq!(strip_image_metadata(&png_with(false), "png"), Some(png_with(false)));
}

#[test]
fn png_extension_case_insensitive_and_corrupt_passthrough() {
    let input = png_with_exif_and_xmp();
    for ext in ["png", "PNG", "Png"] {
        assert!(
            strip_image_metadata(&input, ext).is_some(),
            "{ext} must be recognized as PNG"
        );
    }
    assert_eq!(strip_image_metadata(b"not a png at all", "png"), None);
}
