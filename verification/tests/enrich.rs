use atref::enrich::{
    count_lines, default_caps, enrich_file, estimate_tokens, image_kind, is_cloud_placeholder,
    looks_binary, make_thumb, plan_read, png_data_uri, svg_data_uri, Caps, EnrichCache, Enrichment, ImageKind,
    ReadPlan,
};
use base64::Engine;

fn enr(s: u64) -> Enrichment {
    Enrichment {
        size: s,
        lines: None,
        tokens: None,
        thumb: None,
    }
}

fn png_bytes(w: u32, h: u32, rgba: [u8; 4]) -> Vec<u8> {
    let img = image::RgbaImage::from_pixel(w, h, image::Rgba(rgba));
    let mut out = Vec::new();
    image::DynamicImage::ImageRgba8(img)
        .write_to(&mut std::io::Cursor::new(&mut out), image::ImageFormat::Png)
        .unwrap();
    out
}

fn decode_data_uri(uri: &str) -> image::DynamicImage {
    let b64 = uri.strip_prefix("data:image/png;base64,").unwrap();
    let bytes = base64::engine::general_purpose::STANDARD
        .decode(b64)
        .unwrap();
    image::load_from_memory(&bytes).unwrap()
}

#[test]
fn counts_lines_including_unterminated_and_crlf() {
    assert_eq!(count_lines(b""), 0);
    assert_eq!(count_lines(b"one"), 1);
    assert_eq!(count_lines(b"a\nb\nc"), 3);
    assert_eq!(count_lines(b"a\nb\nc\n"), 3);
    assert_eq!(count_lines(b"a\r\nb\r\n"), 2);
}

#[test]
fn token_estimate_grows_with_content() {
    assert_eq!(estimate_tokens(""), 0);
    let short = estimate_tokens("hello world");
    let long = estimate_tokens(&"the quick brown fox jumps over the lazy dog. ".repeat(50));
    assert!(short > 0);
    assert!(long > short);
}

#[test]
fn binary_sniff_finds_nul() {
    assert!(!looks_binary(b"plain text, no nul"));
    assert!(looks_binary(b"PNG\x00binary"));
}

#[test]
fn binary_sniff_looks_only_at_the_first_8_kib() {
    let mut late = vec![b'a'; 8192];
    late.push(0);
    assert!(!looks_binary(&late));
    let mut edge = vec![b'a'; 8191];
    edge.push(0);
    assert!(looks_binary(&edge));
}

#[test]
fn thumb_downscales_within_bound_keeping_aspect() {
    let src = png_bytes(200, 100, [200, 30, 30, 255]);
    let uri = make_thumb(&src).unwrap();
    let thumb = decode_data_uri(&uri);
    assert_eq!((thumb.width(), thumb.height()), (56, 28));
    assert!(make_thumb(b"not an image").is_none());
}

#[test]
fn gif_thumbnails_from_first_frame() {
    let red = image::RgbaImage::from_pixel(20, 20, image::Rgba([255, 0, 0, 255]));
    let blue = image::RgbaImage::from_pixel(20, 20, image::Rgba([0, 0, 255, 255]));
    let mut buf = Vec::new();
    {
        let mut enc = image::codecs::gif::GifEncoder::new(&mut buf);
        enc.encode_frames(vec![image::Frame::new(red), image::Frame::new(blue)])
            .unwrap();
    }
    let uri = make_thumb(&buf).unwrap();
    let thumb = decode_data_uri(&uri).to_rgba8();
    let px = thumb.get_pixel(thumb.width() / 2, thumb.height() / 2);
    assert!(
        px[0] > 180 && px[2] < 80,
        "center pixel is red (first frame), got {px:?}"
    );
}

#[test]
fn image_kind_recognizes_extensions() {
    assert_eq!(image_kind("a.png"), Some(ImageKind::Raster));
    assert_eq!(image_kind("a.JPG"), Some(ImageKind::Raster));
    assert_eq!(image_kind("a.webp"), Some(ImageKind::Raster));
    assert_eq!(image_kind("a.svg"), Some(ImageKind::Svg));
    assert_eq!(image_kind("a.md"), None);
    assert_eq!(image_kind("no-extension"), None);
}

#[test]
fn image_kind_reads_the_file_name_only() {
    assert_eq!(image_kind(r"D:\pics.png\notes"), None);
    assert_eq!(image_kind(r"D:\v\.png"), None);
    assert_eq!(image_kind(r"D:\v\photo.Jpeg"), Some(ImageKind::Raster));
    assert_eq!(image_kind("D:/v/anim.GIF"), Some(ImageKind::Raster));
}

#[test]
fn svg_data_uri_is_base64_of_the_source() {
    assert_eq!(svg_data_uri(b""), "data:image/svg+xml;base64,");
    assert_eq!(svg_data_uri(b"<svg/>"), "data:image/svg+xml;base64,PHN2Zy8+");
    assert_eq!(svg_data_uri(b"ab"), "data:image/svg+xml;base64,YWI=");
}

#[test]
fn cloud_attributes_are_detected() {
    assert!(!is_cloud_placeholder(0));
    assert!(!is_cloud_placeholder(0x20));
    assert!(is_cloud_placeholder(0x1000));
    assert!(is_cloud_placeholder(0x40_0000));
    assert!(is_cloud_placeholder(0x40_1020));
}

#[test]
fn plan_never_reads_a_cloud_placeholder_or_an_over_cap_file() {
    let caps = default_caps();
    assert_eq!(plan_read("a.md", 10, true, &caps), ReadPlan::SizeOnly);
    assert_eq!(plan_read("a.png", 10, true, &caps), ReadPlan::SizeOnly);
    assert_eq!(plan_read("a.md", 10, false, &caps), ReadPlan::Text);
    assert_eq!(plan_read("a.png", 10, false, &caps), ReadPlan::Raster);
    assert_eq!(plan_read("a.svg", 10, false, &caps), ReadPlan::Svg);
    let tiny = Caps {
        text: 4,
        raster: 4,
        svg: 4,
    };
    assert_eq!(plan_read("big.txt", 5, false, &tiny), ReadPlan::SizeOnly);
    assert_eq!(plan_read("big.png", 5, false, &tiny), ReadPlan::SizeOnly);
    assert_eq!(plan_read("big.svg", 5, false, &tiny), ReadPlan::SizeOnly);
}

#[test]
fn enriches_text_file_with_lines_and_tokens() {
    let caps = default_caps();
    let body = b"# title\n\nbody line";
    let e = enrich_file("text.md", body.len() as u64, false, &caps, Some(body));
    assert_eq!(e.size, body.len() as u64);
    assert_eq!(e.lines, Some(3));
    assert!(e.tokens.unwrap() > 0);
    assert_eq!(e.thumb, None);
}

#[test]
fn binary_file_is_size_only() {
    let caps = default_caps();
    let e = enrich_file("bin.dat", 7, false, &caps, Some(b"\x89PNG\x00\x01\x02"));
    assert_eq!(e.size, 7);
    assert_eq!(e.lines, None);
    assert_eq!(e.tokens, None);
}

#[test]
fn over_cap_file_is_size_only_without_reading() {
    let tiny = Caps {
        text: 4,
        ..default_caps()
    };
    assert_eq!(plan_read("big.txt", 5, false, &tiny), ReadPlan::SizeOnly);
    let e = enrich_file("big.txt", 5, false, &tiny, Some(b"five!"));
    assert_eq!((e.size, e.lines, e.tokens), (5, None, None));
}

#[test]
fn cloud_and_unreadable_files_are_size_only() {
    let e = enrich_file("a.md", 3, true, &default_caps(), Some(b"a\nb"));
    assert_eq!((e.size, e.lines, e.tokens), (3, None, None));
    let e = enrich_file("a.md", 3, false, &default_caps(), None);
    assert_eq!((e.size, e.lines, e.tokens), (3, None, None));
}

#[test]
fn image_file_enriches_with_thumb_and_no_text_metrics() {
    let png = png_bytes(64, 64, [10, 200, 10, 255]);
    let e = enrich_file("pic.png", png.len() as u64, false, &default_caps(), Some(&png));
    assert!(e.thumb.unwrap().starts_with("data:image/png;base64,"));
    assert_eq!(e.lines, None);
    assert_eq!(e.tokens, None);
}

#[test]
fn oversized_raster_has_no_thumb() {
    let png = png_bytes(64, 64, [10, 200, 10, 255]);
    let caps = Caps {
        raster: 4,
        ..default_caps()
    };
    let e = enrich_file("big.png", png.len() as u64, false, &caps, Some(&png));
    assert_eq!(e.thumb, None);
    assert_eq!(e.size, png.len() as u64, "size still shown");
}

#[test]
fn svg_gets_text_metrics_and_capped_thumb() {
    let svg = b"<svg xmlns=\"http://www.w3.org/2000/svg\">\n<rect/>\n</svg>";
    let n = svg.len() as u64;
    let e = enrich_file("img.svg", n, false, &default_caps(), Some(svg));
    assert_eq!(e.lines, Some(3));
    assert!(e.tokens.unwrap() > 0);
    assert!(e.thumb.unwrap().starts_with("data:image/svg+xml;base64,"));
    let caps = Caps {
        svg: 4,
        ..default_caps()
    };
    let e = enrich_file("img.svg", n, false, &caps, Some(svg));
    assert_eq!(e.lines, Some(3), "metrics unaffected by the svg cap");
    assert_eq!(e.thumb, None, "thumb dropped over the svg cap");
}

#[test]
fn cache_hits_once_and_invalidates_on_mtime() {
    let mut cache = EnrichCache::new(8);
    let p = r"D:\v\a.md";
    assert!(cache.get(p, 100).is_none());
    cache.put(p.to_string(), 100, enr(10));
    assert_eq!(cache.get(p, 100).unwrap().size, 10);
    assert!(cache.get(p, 101).is_none(), "edit invalidates");
    cache.put(p.to_string(), 101, enr(11));
    assert_eq!(cache.get(p, 101).unwrap().size, 11);
    assert_eq!(cache.len(), 1, "same path re-keyed, not duplicated");
}

#[test]
fn cache_is_bounded() {
    let mut cache = EnrichCache::new(2);
    cache.put("a".to_string(), 1, enr(1));
    cache.put("b".to_string(), 1, enr(2));
    cache.put("c".to_string(), 1, enr(3));
    assert_eq!(cache.len(), 2);
    assert!(cache.get("a", 1).is_none(), "oldest evicted");
    assert!(cache.get("c", 1).is_some());
}

#[test]
fn cache_rekey_keeps_insertion_order_for_eviction() {
    let mut cache = EnrichCache::new(2);
    cache.put("a".to_string(), 1, enr(1));
    cache.put("b".to_string(), 1, enr(2));
    cache.put("a".to_string(), 2, enr(3));
    cache.put("c".to_string(), 1, enr(4));
    assert!(cache.get("a", 2).is_none(), "a was inserted first, so it goes first");
    assert_eq!(cache.get("b", 1).unwrap().size, 2);
    assert_eq!(cache.get("c", 1).unwrap().size, 4);
}

#[test]
fn cache_of_zero_capacity_still_holds_one() {
    let mut cache = EnrichCache::new(0);
    assert!(cache.is_empty());
    cache.put("a".to_string(), 1, enr(1));
    assert_eq!(cache.len(), 1);
    assert!(cache.get("a", 1).is_some());
}

#[test]
fn offline_placeholder_is_size_only() {
    let offline = 0x1000;
    assert!(is_cloud_placeholder(offline), "offline attribute detected");
    let body = b"# cloud-only doc\nbody\n";
    let n = body.len() as u64;
    assert_eq!(plan_read("offline.md", n, true, &default_caps()), ReadPlan::SizeOnly);
    let e = enrich_file("offline.md", n, true, &default_caps(), None);
    assert_eq!(e.size, n, "size still reported, from metadata alone");
    assert_eq!(e.lines, None, "contents not read");
    assert_eq!(e.tokens, None, "contents not read");

    // A regular sibling gets full metrics: the guard is not over-broad.
    assert!(!is_cloud_placeholder(0x20));
    let plain = b"# title\nbody\n";
    let pe = enrich_file("plain.md", plain.len() as u64, false, &default_caps(), Some(plain));
    assert_eq!(pe.lines, Some(2));
    assert!(pe.tokens.unwrap() > 0);
}

#[test]
fn offline_image_gets_no_thumbnail() {
    let png = png_bytes(1, 1, [0, 0, 0, 255]);
    let n = png.len() as u64;
    assert!(is_cloud_placeholder(0x1000));
    assert_eq!(plan_read("offline.png", n, true, &default_caps()), ReadPlan::SizeOnly);
    let e = enrich_file("offline.png", n, true, &default_caps(), Some(&png));
    assert_eq!(e.thumb, None, "cloud-only image is not decoded");
    assert_eq!(e.size, n);
}

#[test]
fn png_data_uri_is_base64_of_the_bytes() {
    assert_eq!(png_data_uri(b"abc"), "data:image/png;base64,YWJj");
    assert_eq!(png_data_uri(b""), "data:image/png;base64,");
}

#[test]
fn cache_keys_compare_as_paths() {
    let mut cache = EnrichCache::new(4);
    cache.put(r"D:\v\a.md".to_string(), 1, enr(10));
    assert_eq!(cache.get("D:/v/a.md", 1).unwrap().size, 10, "same path, other separators");
    cache.put("d:/v//a.md".to_string(), 2, enr(11));
    assert_eq!(cache.len(), 1, "re-keyed, not duplicated");
    assert_eq!(cache.get(r"D:\v\a.md", 2).unwrap().size, 11);
    assert!(cache.get(r"D:\v\A.md", 2).is_none(), "names compare case-sensitively");
}

#[test]
fn line_counts_add_up_and_stay_bounded() {
    let a = b"one\ntwo\n";
    let b = b"three\nfour";
    assert_eq!(count_lines(&[&a[..], &b[..]].concat()), count_lines(a) + count_lines(b));
    assert!(count_lines(b) <= b.len() as u64);
    assert_eq!(count_lines(b""), 0);
}

#[test]
fn image_kind_ignores_extension_case() {
    assert_eq!(image_kind("x.GIF"), image_kind("x.gif"));
    assert_eq!(image_kind("x.SvG"), Some(ImageKind::Svg));
}
