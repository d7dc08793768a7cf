//! Per-result enrichment: size, line and token counts and image thumbnails,
//! computed without reading cloud-only files or files over a cap, and the
//! bounded cache that keys results by `(path, mtime)`.

use vstd::prelude::*;
use vstd::string::*;
use base64::Engine;
use crate::path::{file_name_of, norm_path};
use crate::text::{chars_of, same_text};
use vstd::hash_map::StringHashMap;
use std::collections::VecDeque;

verus! {

/// Byte caps past which contents are not read or decoded.
pub struct Caps {
    /// Max bytes to read for line/token metrics.
    pub text: u64,
    /// Max raster source bytes to decode for a thumbnail.
    pub raster: u64,
    /// Max SVG source bytes to pass through as a thumbnail.
    pub svg: u64,
}

pub const TEXT_CAP: u64 = 10 * 1024 * 1024;
pub const RASTER_CAP: u64 = 30 * 1024 * 1024;
pub const SVG_CAP: u64 = 512 * 1024;

/// The caps the picker uses.
pub fn default_caps() -> (c: Caps)
    ensures
        c.text == TEXT_CAP,
        c.raster == RASTER_CAP,
        c.svg == SVG_CAP,
{
    Caps { text: TEXT_CAP, raster: RASTER_CAP, svg: SVG_CAP }
}

/// Thumbnail bound in px: twice the row's 28 px, for high-dpi screens.
pub const THUMB_PX: u32 = 56;

/// How many enrichments the cache keeps.
pub const CACHE_CAP: usize = 256;

/// What the picker shows for one file. `None` lines / tokens mean size only
/// (cloud-only, binary, unreadable or over the cap); `thumb` is a data URI.
pub struct Enrichment {
    pub size: u64,
    pub lines: Option<u64>,
    pub tokens: Option<u64>,
    pub thumb: Option<String>,
}

pub struct EnrichmentView {
    pub size: u64,
    pub lines: Option<u64>,
    pub tokens: Option<u64>,
    pub thumb: Option<Seq<char>>,
}

pub open spec fn opt_view(s: Option<String>) -> Option<Seq<char>> {
    match s {
        Some(t) => Some(t@),
        None => None,
    }
}

impl View for Enrichment {
    type V = EnrichmentView;

    open spec fn view(&self) -> EnrichmentView {
        EnrichmentView {
            size: self.size,
            lines: self.lines,
            tokens: self.tokens,
            thumb: opt_view(self.thumb),
        }
    }
}

impl Clone for Enrichment {
    fn clone(&self) -> (r: Self)
        ensures
            r@ == self@,
    {
        Enrichment {
            size: self.size,
            lines: self.lines,
            tokens: self.tokens,
            thumb: match &self.thumb {
                Some(t) => Some(t.clone()),
                None => None,
            },
        }
    }
}

/// Image results, recognized by extension (a content sniff would need the
/// very read the cloud guard avoids).
#[derive(Clone, Copy, Debug, PartialEq, Eq, Structural)]
pub enum ImageKind {
    Raster,
    Svg,
}

/// Index of the last `.` in `s`, or `-1`.
pub open spec fn last_dot(s: Seq<char>) -> int
    decreases s.len(),
{
    if s.len() == 0 {
        -1
    } else if s.last() == '.' {
        s.len() - 1
    } else {
        last_dot(s.drop_last())
    }
}

/// The extension of a path, the way `Path::extension` reads it: the text
/// after the last `.` of the file name, unless that dot starts the name.
pub open spec fn extension_of(p: Seq<char>) -> Option<Seq<char>> {
    match file_name_of(p) {
        Some(f) => if last_dot(f) > 0 {
            Some(f.subrange(last_dot(f) + 1, f.len() as int))
        } else {
            None
        },
        None => None,
    }
}

/// ASCII upper case to lower case; every other character is kept.
pub open spec fn ascii_lower(c: char) -> char {
    if 'A' <= c <= 'Z' {
        ((c as u32) + 32) as char
    } else {
        c
    }
}

/// The image kind a path's extension names, case-insensitively.
pub open spec fn image_kind_of(p: Seq<char>) -> Option<ImageKind> {
    match extension_of(p) {
        Some(e) => {
            let l = e.map_values(|c: char| ascii_lower(c));
            if l == seq!['p', 'n', 'g'] || l == seq!['j', 'p', 'g'] || l == seq!['j', 'p', 'e', 'g']
                || l == seq!['g', 'i', 'f'] || l == seq!['w', 'e', 'b', 'p'] {
                Some(ImageKind::Raster)
            } else if l == seq!['s', 'v', 'g'] {
                Some(ImageKind::Svg)
            } else {
                None
            }
        },
        None => None,
    }
}

proof fn lemma_last_dot_bounds(s: Seq<char>)
    ensures
        -1 <= last_dot(s) < s.len(),
        last_dot(s) >= 0 ==> s[last_dot(s)] == '.',
        forall|j: int| last_dot(s) < j < s.len() ==> s[j] != '.',
    decreases s.len(),
{
    if s.len() > 0 && s.last() != '.' {
        lemma_last_dot_bounds(s.drop_last());
        assert forall|j: int| last_dot(s) < j < s.len() implies s[j] != '.' by {
            if j < s.len() - 1 {
                assert(s.drop_last()[j] == s[j]);
            }
        }
    }
}

fn lower_ascii(c: char) -> (r: char)
    ensures
        r == ascii_lower(c),
{
    if 'A' <= c && c <= 'Z' {
        ((c as u32) + 32) as u8 as char
    } else {
        c
    }
}

/// The image kind a path names by its extension (case-insensitive).
pub fn image_kind(path: &str) -> (r: Option<ImageKind>)
    ensures
        r == image_kind_of(path@),
{
    let name = match crate::path::file_name(path) {
        Some(n) => n,
        None => return None,
    };
    let cs = chars_of(name);
    let mut i = cs.len();
    assert(cs@.take(i as int) =~= cs@);
    while i > 0 && cs[i - 1] != '.'
        invariant
            i <= cs@.len(),
            last_dot(cs@) == last_dot(cs@.take(i as int)),
        decreases i,
    {
        assert(cs@.take(i - 1) =~= cs@.take(i as int).drop_last());
        i -= 1;
    }
    proof {
        lemma_last_dot_bounds(cs@);
        if i > 0 {
            assert(cs@.take(i as int).last() == '.');
        } else {
            assert(cs@.take(0) =~= Seq::<char>::empty());
        }
        assert(cs@.take(cs@.len() as int) =~= cs@);
    }
    if i <= 1 {
        return None;
    }
    let mut ext: Vec<char> = Vec::new();
    let mut j = i;
    while j < cs.len()
        invariant
            i <= j <= cs@.len(),
            ext@ == cs@.subrange(i as int, j as int).map_values(|c: char| ascii_lower(c)),
        decreases cs@.len() - j,
    {
        ext.push(lower_ascii(cs[j]));
        j += 1;
        assert(ext@ =~= cs@.subrange(i as int, j as int).map_values(|c: char| ascii_lower(c)));
    }
    let ext_s = crate::text::string_of(&ext);
    proof {
        reveal_strlit("png");
        reveal_strlit("jpg");
        reveal_strlit("jpeg");
        reveal_strlit("gif");
        reveal_strlit("webp");
        reveal_strlit("svg");
        assert("png"@ =~= seq!['p', 'n', 'g']);
        assert("jpg"@ =~= seq!['j', 'p', 'g']);
        assert("jpeg"@ =~= seq!['j', 'p', 'e', 'g']);
        assert("gif"@ =~= seq!['g', 'i', 'f']);
        assert("webp"@ =~= seq!['w', 'e', 'b', 'p']);
        assert("svg"@ =~= seq!['s', 'v', 'g']);
    }
    if same_text(ext_s.as_str(), "png") || same_text(ext_s.as_str(), "jpg") || same_text(ext_s.as_str(), "jpeg") || same_text(ext_s.as_str(), "gif")
        || same_text(ext_s.as_str(), "webp") {
        Some(ImageKind::Raster)
    } else if same_text(ext_s.as_str(), "svg") {
        Some(ImageKind::Svg)
    } else {
        None
    }
}


// --- data URIs -----------------------------------------------------------------

/// The standard base64 alphabet.
pub open spec fn b64_digit(v: int) -> char {
    if 0 <= v < 26 {
        (65 + v) as char
    } else if 26 <= v < 52 {
        (97 + v - 26) as char
    } else if 52 <= v < 62 {
        (48 + v - 52) as char
    } else if v == 62 {
        '+'
    } else {
        '/'
    }
}

/// Standard base64 with `=` padding (RFC 4648, section 4).
pub open spec fn base64_of(b: Seq<u8>) -> Seq<char>
    decreases b.len(),
{
    if b.len() == 0 {
        Seq::empty()
    } else if b.len() == 1 {
        seq![b64_digit((b[0] as int) / 4), b64_digit(((b[0] as int) % 4) * 16), '=', '=']
    } else if b.len() == 2 {
        seq![
            b64_digit((b[0] as int) / 4),
            b64_digit(((b[0] as int) % 4) * 16 + (b[1] as int) / 16),
            b64_digit(((b[1] as int) % 16) * 4),
            '=',
        ]
    } else {
        seq![
            b64_digit((b[0] as int) / 4),
            b64_digit(((b[0] as int) % 4) * 16 + (b[1] as int) / 16),
            b64_digit(((b[1] as int) % 16) * 4 + (b[2] as int) / 64),
            b64_digit((b[2] as int) % 64),
        ] + base64_of(b.skip(3))
    }
}

/// `base64::engine::general_purpose::STANDARD.encode` (base64 crate).
/// Claimed: the result is the standard-alphabet, padded encoding of `bytes`.
#[verifier::external_body]
fn base64_standard(bytes: &[u8]) -> (r: String)
    ensures
        r@ == base64_of(bytes@),
{
    base64::engine::general_purpose::STANDARD.encode(bytes)
}

pub open spec fn svg_uri_prefix() -> Seq<char> {
    "data:image/svg+xml;base64,"@
}

pub open spec fn png_uri_prefix() -> Seq<char> {
    "data:image/png;base64,"@
}

/// SVG passthrough: the source itself as a base64 data URI.
pub fn svg_data_uri(bytes: &[u8]) -> (r: String)
    ensures
        r@ == svg_uri_prefix() + base64_of(bytes@),
{
    let mut s = String::from_str("data:image/svg+xml;base64,");
    let b = base64_standard(bytes);
    s.append(b.as_str());
    s
}

/// `image::load_from_memory` (image crate) accepts `bytes`: the format is
/// guessed from the content and one of the enabled decoders decodes it.
pub uninterp spec fn decodes_as_image(bytes: Seq<u8>) -> bool;

/// The PNG bytes that `image::load_from_memory(bytes)`, then
/// `DynamicImage::thumbnail(bound, bound)`, then `DynamicImage::write_to`
/// in PNG format give; `None` when decoding or encoding fails.
pub uninterp spec fn png_thumbnail(bytes: Seq<u8>, bound: u32) -> Option<Seq<u8>>;

/// `image::load_from_memory`, `DynamicImage::thumbnail` (a downscale that
/// keeps the aspect ratio within a `bound` x `bound` box) and
/// `DynamicImage::write_to` in PNG format into a byte buffer (image crate).
/// Claimed: the result is the named `png_thumbnail` of the bytes and the
/// bound, and there is none when the bytes do not decode. The three calls
/// depend on the bytes and the bound alone; which bytes the encoder writes,
/// and when encoding fails, is not claimed.
#[verifier::external_body]
fn thumbnail_png(bytes: &[u8], bound: u32) -> (r: Option<Vec<u8>>)
    ensures
        !decodes_as_image(bytes@) ==> r is None,
        match r {
            Some(png) => png_thumbnail(bytes@, bound) == Some(png@),
            None => png_thumbnail(bytes@, bound) is None,
        },
{
    let img = image::load_from_memory(bytes).ok()?;
    let thumb = img.thumbnail(bound, bound);
    let mut png: Vec<u8> = Vec::new();
    thumb.write_to(&mut std::io::Cursor::new(&mut png), image::ImageFormat::Png).ok()?;
    Some(png)
}

/// The thumbnail data URI of an image's bytes: the named PNG thumbnail
/// within `THUMB_PX`, as a base64 data URI; none when there is no thumbnail.
pub open spec fn thumb_uri_of(bytes: Seq<u8>) -> Option<Seq<char>> {
    match png_thumbnail(bytes, THUMB_PX) {
        Some(png) => Some(png_uri_prefix() + base64_of(png)),
        None => None,
    }
}

/// PNG bytes as a base64 data URI.
pub fn png_data_uri(png: &[u8]) -> (r: String)
    ensures
        r@ == png_uri_prefix() + base64_of(png@),
{
    let mut s = String::from_str("data:image/png;base64,");
    let b = base64_standard(png);
    s.append(b.as_str());
    s
}

/// Decode and downscale a raster to a `THUMB_PX` square bound, re-encoded as
/// a PNG data URI. `None` on undecodable input. Animated GIFs decode as their
/// first frame.
pub fn make_thumb(bytes: &[u8]) -> (r: Option<String>)
    ensures
        opt_view(r) == thumb_uri_of(bytes@),
        !decodes_as_image(bytes@) ==> r is None,
{
    match thumbnail_png(bytes, THUMB_PX) {
        Some(png) => Some(png_data_uri(png.as_slice())),
        None => None,
    }
}

// --- metrics -----------------------------------------------------------------------

pub const FILE_ATTRIBUTE_OFFLINE: u32 = 0x1000;
pub const FILE_ATTRIBUTE_RECALL_ON_DATA_ACCESS: u32 = 0x40_0000;

/// A cloud-only / offline placeholder (OneDrive, Dropbox, ...), by its
/// Windows file attributes: reading its contents would download it.
pub fn is_cloud_placeholder(attributes: u32) -> (r: bool)
    ensures
        r == (attributes & (FILE_ATTRIBUTE_OFFLINE | FILE_ATTRIBUTE_RECALL_ON_DATA_ACCESS) != 0),
{
    attributes & (FILE_ATTRIBUTE_OFFLINE | FILE_ATTRIBUTE_RECALL_ON_DATA_ACCESS) != 0
}

/// Number of `\n` bytes in `b`.
pub open spec fn newlines(b: Seq<u8>) -> nat
    decreases b.len(),
{
    if b.len() == 0 {
        0
    } else {
        newlines(b.drop_last()) + if b.last() == 10 {
            1nat
        } else {
            0nat
        }
    }
}

/// Lines in `b`: its `\n`s, plus one for an unterminated final line.
pub open spec fn lines_of(b: Seq<u8>) -> nat {
    if b.len() == 0 {
        0
    } else if b.last() == 10 {
        newlines(b)
    } else {
        newlines(b) + 1
    }
}

proof fn lemma_newlines_le(b: Seq<u8>)
    ensures
        newlines(b) <= b.len(),
        b.len() > 0 && b.last() != 10 ==> newlines(b) < b.len(),
    decreases b.len(),
{
    if b.len() > 0 {
        lemma_newlines_le(b.drop_last());
    }
}

/// Line count over raw bytes: `\n`s, plus one for an unterminated final line
/// (so three lines without a trailing newline count 3). Empty is 0.
pub fn count_lines(bytes: &[u8]) -> (r: u64)
    ensures
        r as nat == lines_of(bytes@),
{
    let mut n: u64 = 0;
    let mut i: usize = 0;
    while i < bytes.len()
        invariant
            i <= bytes@.len(),
            n as nat == newlines(bytes@.take(i as int)),
            n <= i,
        decreases bytes@.len() - i,
    {
        assert(bytes@.take(i + 1).drop_last() =~= bytes@.take(i as int));
        if bytes[i] == 10 {
            n += 1;
        }
        i += 1;
    }
    assert(bytes@.take(bytes@.len() as int) =~= bytes@);
    if bytes.len() == 0 {
        return 0;
    }
    if bytes[bytes.len() - 1] == 10 {
        n
    } else {
        proof {
            lemma_newlines_le(bytes@);
        }
        n + 1
    }
}

/// How many leading bytes the binary sniff looks at.
pub const SNIFF_LEN: usize = 8192;

/// A NUL byte among the first `SNIFF_LEN` bytes: treated as binary.
pub open spec fn is_binary(b: Seq<u8>) -> bool {
    exists|i: int| 0 <= i < b.len() && i < SNIFF_LEN && b[i] == 0
}

/// A NUL byte in the first 8 KiB: no line/token metrics.
pub fn looks_binary(bytes: &[u8]) -> (r: bool)
    ensures
        r == is_binary(bytes@),
{
    let mut i: usize = 0;
    while i < bytes.len() && i < SNIFF_LEN
        invariant
            i <= bytes@.len(),
            i <= SNIFF_LEN,
            forall|j: int| 0 <= j < i ==> bytes@[j] != 0,
        decreases bytes@.len() - i,
    {
        if bytes[i] == 0 {
            return true;
        }
        i += 1;
    }
    false
}

/// What `String::from_utf8_lossy` makes of `bytes`: the text, with each
/// invalid sequence replaced by U+FFFD.
pub uninterp spec fn lossy_utf8(bytes: Seq<u8>) -> Seq<char>;

/// `String::from_utf8_lossy` (std). Claimed: the result is the named
/// `lossy_utf8` of the bytes.
#[verifier::external_body]
fn utf8_lossy(bytes: &[u8]) -> (r: String)
    ensures
        r@ == lossy_utf8(bytes@),
{
    String::from_utf8_lossy(bytes).into_owned()
}

/// The number of tokens tiktoken's `o200k_base` encoding gives `text` with
/// `CoreBPE::encode_ordinary`.
pub uninterp spec fn o200k_tokens(text: Seq<char>) -> nat;

/// `tiktoken_rs::o200k_base_singleton().encode_ordinary(text).len()`
/// (tiktoken-rs). Claimed: the count is the named `o200k_tokens` of the text;
/// empty text has no tokens (every alternative of the pre-tokenizing pattern
/// consumes a character), and other text at least one (every character is
/// matched by one alternative of that pattern, and each non-empty piece
/// encodes to at least one token). The encoder is built from data embedded in
/// the crate. `encode_ordinary` unwraps each regex match, which fails only
/// when the regex engine reports an error (such as a backtrack limit); no
/// input on which that happens is known, so none is excluded here.
#[verifier::external_body]
fn o200k_token_count(text: &str) -> (n: usize)
    ensures
        n as nat == o200k_tokens(text@),
        text@.len() == 0 ==> n == 0,
        text@.len() > 0 ==> n >= 1,
{
    tiktoken_rs::o200k_base_singleton().encode_ordinary(text).len()
}

/// ~token estimate via tiktoken `o200k_base`, the closest public
/// approximation of current LLM tokenizers.
pub fn estimate_tokens(text: &str) -> (r: u64)
    ensures
        r as nat == o200k_tokens(text@),
        text@.len() == 0 ==> r == 0,
        text@.len() > 0 ==> r >= 1,
{
    o200k_token_count(text) as u64
}


// --- enrichment -------------------------------------------------------------------

/// What to read of a file before enriching it.
#[derive(Clone, Copy, Debug, PartialEq, Eq, Structural)]
pub enum ReadPlan {
    /// Nothing: report the size only.
    SizeOnly,
    /// The raster image, for a thumbnail.
    Raster,
    /// The SVG source, for metrics and a thumbnail.
    Svg,
    /// The text, for metrics.
    Text,
}

pub open spec fn plan_of(path: Seq<char>, size: u64, cloud: bool, caps: Caps) -> ReadPlan {
    if cloud {
        ReadPlan::SizeOnly
    } else {
        match image_kind_of(path) {
            Some(ImageKind::Raster) => if size > caps.raster {
                ReadPlan::SizeOnly
            } else {
                ReadPlan::Raster
            },
            Some(ImageKind::Svg) => if size > caps.text {
                ReadPlan::SizeOnly
            } else {
                ReadPlan::Svg
            },
            None => if size > caps.text {
                ReadPlan::SizeOnly
            } else {
                ReadPlan::Text
            },
        }
    }
}

/// Decide what to read of a file of `size` bytes: never the contents of a
/// cloud placeholder, never more than the cap for its kind.
pub fn plan_read(path: &str, size: u64, cloud: bool, caps: &Caps) -> (r: ReadPlan)
    ensures
        r == plan_of(path@, size, cloud, *caps),
{
    if cloud {
        return ReadPlan::SizeOnly;
    }
    match image_kind(path) {
        Some(ImageKind::Raster) => if size > caps.raster {
            ReadPlan::SizeOnly
        } else {
            ReadPlan::Raster
        },
        Some(ImageKind::Svg) => if size > caps.text {
            ReadPlan::SizeOnly
        } else {
            ReadPlan::Svg
        },
        None => if size > caps.text {
            ReadPlan::SizeOnly
        } else {
            ReadPlan::Text
        },
    }
}

pub open spec fn size_only(size: u64) -> EnrichmentView {
    EnrichmentView { size, lines: None, tokens: None, thumb: None }
}

/// `r` is the enrichment of a file at `path` of `size` bytes, given what the
/// read planned by [`plan_read`] returned (`None`: the read failed).
pub open spec fn enrichment_ok(
    path: Seq<char>,
    size: u64,
    cloud: bool,
    caps: Caps,
    contents: Option<Seq<u8>>,
    r: EnrichmentView,
) -> bool {
    match plan_of(path, size, cloud, caps) {
        ReadPlan::SizeOnly => r == size_only(size),
        ReadPlan::Raster => match contents {
            None => r == size_only(size),
            Some(b) => r == EnrichmentView { size, lines: None, tokens: None, thumb: thumb_uri_of(b) },
        },
        ReadPlan::Svg => match contents {
            None => r == size_only(size),
            Some(b) => r == EnrichmentView {
                size,
                lines: Some(lines_of(b) as u64),
                tokens: Some(o200k_tokens(lossy_utf8(b)) as u64),
                thumb: if size <= caps.svg {
                    Some(svg_uri_prefix() + base64_of(b))
                } else {
                    None
                },
            },
        },
        ReadPlan::Text => match contents {
            None => r == size_only(size),
            Some(b) => if is_binary(b) {
                r == size_only(size)
            } else {
                r == EnrichmentView {
                    size,
                    lines: Some(lines_of(b) as u64),
                    tokens: Some(o200k_tokens(lossy_utf8(b)) as u64),
                    thumb: None,
                }
            },
        },
    }
}

pub open spec fn opt_bytes(c: Option<&[u8]>) -> Option<Seq<u8>> {
    match c {
        Some(b) => Some(b@),
        None => None,
    }
}

/// Enrich a file given its size, whether it is a cloud placeholder, and the
/// outcome of reading it as [`plan_read`] planned: size always; lines and
/// tokens for local text within the cap; a thumbnail for images (an SVG,
/// being text, also gets metrics from the same read).
pub fn enrich_file(path: &str, size: u64, cloud: bool, caps: &Caps, contents: Option<&[u8]>) -> (r:
    Enrichment)
    ensures
        enrichment_ok(path@, size, cloud, *caps, opt_bytes(contents), r@),
{
    let plan = plan_read(path, size, cloud, caps);
    let none = Enrichment { size, lines: None, tokens: None, thumb: None };
    match plan {
        ReadPlan::SizeOnly => none,
        ReadPlan::Raster => match contents {
            None => none,
            Some(bytes) => Enrichment { size, lines: None, tokens: None, thumb: make_thumb(bytes) },
        },
        ReadPlan::Svg => match contents {
            None => none,
            Some(bytes) => {
                let text = utf8_lossy(bytes);
                let thumb = if size <= caps.svg {
                    Some(svg_data_uri(bytes))
                } else {
                    None
                };
                Enrichment {
                    size,
                    lines: Some(count_lines(bytes)),
                    tokens: Some(estimate_tokens(text.as_str())),
                    thumb,
                }
            },
        },
        ReadPlan::Text => match contents {
            None => none,
            Some(bytes) => {
                if looks_binary(bytes) {
                    return none;
                }
                let text = utf8_lossy(bytes);
                Enrichment {
                    size,
                    lines: Some(count_lines(bytes)),
                    tokens: Some(estimate_tokens(text.as_str())),
                    thumb: None,
                }
            },
        },
    }
}


// --- cache ------------------------------------------------------------------------------

/// A cached enrichment: the path as first stored, its mtime, the value.
type CacheEntry = (String, u64, Enrichment);

/// Bounded enrichment cache keyed `(path, mtime)`: an edit changes the mtime
/// and misses; past `cap` entries the oldest-inserted one is evicted (FIFO).
/// Entries are keyed by the canonical text of their path, so two spellings
/// of one path share an entry; `order` lists the keys oldest first.
pub struct EnrichCache {
    cap: usize,
    map: StringHashMap<CacheEntry>,
    order: VecDeque<String>,
}

/// The cache's contents: its bound and `(path, mtime, enrichment)` slots in
/// insertion order.
pub struct CacheView {
    pub cap: nat,
    pub slots: Seq<(Seq<char>, u64, EnrichmentView)>,
}

pub open spec fn entry_view(t: CacheEntry) -> (Seq<char>, u64, EnrichmentView) {
    (t.0@, t.1, t.2@)
}

/// The slots that the keys `order` name in `m`, in that order.
pub open spec fn slots_of(m: Map<Seq<char>, CacheEntry>, order: Seq<String>) -> Seq<(Seq<char>, u64, EnrichmentView)> {
    order.map_values(|k: String| entry_view(m[k@]))
}

/// `m` and `order` hold a cache: every key listed once, in the map, under
/// its path's canonical text, and nothing else in the map.
pub open spec fn parts_ok(m: Map<Seq<char>, CacheEntry>, order: Seq<String>) -> bool {
    &&& forall|i: int| 0 <= i < order.len() ==> #[trigger] m.contains_key(order[i]@)
    &&& forall|i: int| 0 <= i < order.len() ==> norm_path(m[#[trigger] order[i]@].0@) == order[i]@
    &&& forall|k: Seq<char>| #[trigger] m.contains_key(k) ==> exists|i: int| 0 <= i < order.len() && order[i]@ == k
}

impl View for EnrichCache {
    type V = CacheView;

    closed spec fn view(&self) -> CacheView {
        CacheView { cap: self.cap as nat, slots: slots_of(self.map@, self.order@) }
    }
}

/// No two slots hold the same path (as `Path` compares paths: see
/// [`norm_path`]).
pub open spec fn distinct_paths(slots: Seq<(Seq<char>, u64, EnrichmentView)>) -> bool {
    forall|i: int, j: int|
        0 <= i < j < slots.len() ==> norm_path(#[trigger] slots[i].0) != norm_path(#[trigger] slots[j].0)
}

pub open spec fn cache_wf(v: CacheView) -> bool {
    &&& v.cap >= 1
    &&& v.slots.len() <= v.cap
    &&& distinct_paths(v.slots)
}

/// The slot holding the same path as `path`, or `-1`.
pub open spec fn slot_index(slots: Seq<(Seq<char>, u64, EnrichmentView)>, path: Seq<char>) -> int {
    if exists|k: int| 0 <= k < slots.len() && norm_path(#[trigger] slots[k].0) == norm_path(path) {
        choose|k: int| 0 <= k < slots.len() && norm_path(#[trigger] slots[k].0) == norm_path(path)
    } else {
        -1
    }
}

/// A lookup: a hit only when the stored mtime matches.
pub open spec fn cache_get(v: CacheView, path: Seq<char>, mtime: u64) -> Option<EnrichmentView> {
    let k = slot_index(v.slots, path);
    if k >= 0 && v.slots[k].1 == mtime {
        Some(v.slots[k].2)
    } else {
        None
    }
}

/// An insertion: a known path is re-keyed in place (keeping the path text
/// it was first stored under); a new one is appended, and past the bound
/// the oldest slot is dropped.
pub open spec fn cache_put(v: CacheView, path: Seq<char>, mtime: u64, e: EnrichmentView) -> CacheView {
    let k = slot_index(v.slots, path);
    if k >= 0 {
        CacheView { cap: v.cap, slots: v.slots.update(k, (v.slots[k].0, mtime, e)) }
    } else {
        let a = v.slots.push((path, mtime, e));
        CacheView {
            cap: v.cap,
            slots: if a.len() > v.cap {
                a.drop_first()
            } else {
                a
            },
        }
    }
}

pub proof fn lemma_slot_index_at(slots: Seq<(Seq<char>, u64, EnrichmentView)>, path: Seq<char>, k: int)
    requires
        distinct_paths(slots),
        0 <= k < slots.len(),
        norm_path(slots[k].0) == norm_path(path),
    ensures
        slot_index(slots, path) == k,
{
    let j = choose|j: int| 0 <= j < slots.len() && norm_path(#[trigger] slots[j].0) == norm_path(path);
    if j < k {
        assert(norm_path(slots[j].0) != norm_path(slots[k].0));
    } else if j > k {
        assert(norm_path(slots[k].0) != norm_path(slots[j].0));
    }
}


impl EnrichCache {
    /// The cache is well formed: a bound of at least one, respected, and no
    /// path twice. Every cache satisfies it.
    #[verifier::type_invariant]
    pub closed spec fn wf(self) -> bool {
        &&& cache_wf(self@)
        &&& parts_ok(self.map@, self.order@)
    }

    pub fn new(cap: usize) -> (r: Self)
        ensures
            cache_wf(r@),
            r@.cap == if cap >= 1 { cap as nat } else { 1 },
            r@.slots.len() == 0,
    {
        let r = EnrichCache {
            cap: if cap >= 1 { cap } else { 1 },
            map: StringHashMap::new(),
            order: VecDeque::new(),
        };
        assert(r@.slots =~= Seq::empty());
        r
    }

    /// A hit only when the stored mtime matches: edits invalidate.
    pub fn get(&self, path: &str, mtime: u64) -> (r: Option<Enrichment>)
        ensures
            cache_wf(self@),
            match r {
                Some(e) => cache_get(self@, path@, mtime) == Some(e@),
                None => cache_get(self@, path@, mtime) is None,
            },
    {
        proof {
            use_type_invariant(self);
        }
        let key = crate::path::normalize_path(path);
        let ghost slots = self@.slots;
        let ghost order = self.order@;
        match self.map.get(key.as_str()) {
            Some(t) => {
                let ghost i = choose|i: int| 0 <= i < order.len() && order[i]@ == key@;
                proof {
                    assert(self.map@.contains_key(order[i]@));
                    assert(slots[i] == entry_view(self.map@[order[i]@]));
                    lemma_slot_index_at(slots, path@, i);
                }
                if t.1 == mtime {
                    Some(t.2.clone())
                } else {
                    None
                }
            },
            None => {
                proof {
                    assert forall|k: int| 0 <= k < slots.len() implies norm_path(#[trigger] slots[k].0) != norm_path(
                        path@,
                    ) by {
                        assert(self.map@.contains_key(order[k]@));
                        assert(slots[k] == entry_view(self.map@[order[k]@]));
                    }
                }
                None
            },
        }
    }

    /// Store `e` for `(path, mtime)`. A path already present is re-keyed in
    /// place (not duplicated, and under the path text it was first stored
    /// with); a new one is appended, evicting the oldest entry once past the
    /// bound.
    pub fn put(&mut self, path: String, mtime: u64, e: Enrichment)
        ensures
            cache_wf(old(self)@),
            cache_wf(final(self)@),
            final(self)@ == cache_put(old(self)@, path@, mtime, e@),
    {
        proof {
            use_type_invariant(&*self);
        }
        let ghost v = self@;
        let mut taken = EnrichCache::new(1);
        std::mem::swap(self, &mut taken);
        let EnrichCache { cap, mut map, mut order } = taken;
        assert(v == CacheView { cap: cap as nat, slots: slots_of(map@, order@) });
        let ghost m0 = map@;
        let ghost o0 = order@;
        let key = crate::path::normalize_path(path.as_str());
        let found = match map.get(key.as_str()) {
            Some(t) => Some(t.0.clone()),
            None => None,
        };
        match found {
            Some(kept) => {
                let ghost i = choose|i: int| 0 <= i < o0.len() && o0[i]@ == key@;
                proof {
                    assert(m0.contains_key(o0[i]@));
                    assert(v.slots[i] == entry_view(m0[o0[i]@]));
                    lemma_slot_index_at(v.slots, path@, i);
                    assert(kept@ == v.slots[i].0);
                }
                map.insert(key, (kept, mtime, e));
                proof {
                    let r = cache_put(v, path@, mtime, e@);
                    assert forall|j: int| 0 <= j < o0.len() implies #[trigger] slots_of(map@, o0)[j] == r.slots[j] by {
                        if j != i {
                            assert(norm_path(v.slots[j].0) != norm_path(v.slots[i].0));
                            assert(v.slots[j] == entry_view(m0[o0[j]@]));
                            assert(m0.contains_key(o0[j]@));
                        }
                    }
                    assert(slots_of(map@, o0) =~= r.slots);
                    law_cache_put_keeps_wf(v, path@, mtime, e@);
                    assert forall|k: Seq<char>| #[trigger] map@.contains_key(k) implies exists|j: int|
                        0 <= j < o0.len() && o0[j]@ == k by {
                        if k != key@ {
                            assert(m0.contains_key(k));
                        }
                    }
                }
                *self = EnrichCache { cap, map, order };
            },
            None => {
                proof {
                    assert forall|k: int| 0 <= k < v.slots.len() implies norm_path(#[trigger] v.slots[k].0) != norm_path(
                        path@,
                    ) by {
                        assert(m0.contains_key(o0[k]@));
                        assert(v.slots[k] == entry_view(m0[o0[k]@]));
                    }
                    assert(slot_index(v.slots, path@) == -1);
                }
                let ghost entry = (path@, mtime, e@);
                let ghost ks = key@;
                proof {
                    assert forall|j: int| 0 <= j < o0.len() implies (#[trigger] o0[j])@ != ks by {
                        assert(m0.contains_key(o0[j]@));
                        assert(v.slots[j] == entry_view(m0[o0[j]@]));
                        assert(norm_path(v.slots[j].0) != norm_path(path@));
                    }
                }
                map.insert(key.clone(), (path, mtime, e));
                order.push_back(key);
                let ghost m1 = map@;
                let ghost o1 = order@;
                let ghost a = v.slots.push(entry);
                proof {
                    assert(o1.len() == o0.len() + 1);
                    assert(o1[o0.len() as int]@ == ks);
                    assert(forall|j: int| 0 <= j < o0.len() ==> o1[j] == o0[j]);
                    assert forall|j: int| 0 <= j < o1.len() implies #[trigger] slots_of(m1, o1)[j] == a[j] by {
                        if j < o0.len() {
                            assert(m0.contains_key(o0[j]@));
                            assert(o0[j]@ != ks);
                            assert(v.slots[j] == entry_view(m0[o0[j]@]));
                        }
                    }
                    assert(slots_of(m1, o1) =~= a);
                    assert forall|j: int| 0 <= j < o1.len() implies #[trigger] m1.contains_key(o1[j]@) by {
                        if j < o0.len() {
                            assert(m0.contains_key(o0[j]@));
                        }
                    }
                    assert forall|j: int| 0 <= j < o1.len() implies norm_path(m1[#[trigger] o1[j]@].0@) == o1[j]@ by {
                        if j < o0.len() {
                            assert(m0.contains_key(o0[j]@));
                            assert(o0[j]@ != ks);
                        }
                    }
                    assert forall|k: Seq<char>| #[trigger] m1.contains_key(k) implies exists|j: int|
                        0 <= j < o1.len() && o1[j]@ == k by {
                        if k == ks {
                            assert(o1[o0.len() as int]@ == k);
                        } else {
                            assert(m0.contains_key(k));
                            let j = choose|j: int| 0 <= j < o0.len() && o0[j]@ == k;
                            assert(o1[j] == o0[j]);
                        }
                    }
                    assert(parts_ok(m1, o1));
                    law_cache_put_keeps_wf(v, path@, mtime, e@);
                    // distinct paths of `a` give distinct keys
                    assert(distinct_paths(a)) by {
                        assert forall|x: int, y: int| 0 <= x < y < a.len() implies norm_path(#[trigger] a[x].0)
                            != norm_path(#[trigger] a[y].0) by {
                            if y < v.slots.len() {
                                assert(a[x] == v.slots[x] && a[y] == v.slots[y]);
                            } else {
                                assert(a[x] == v.slots[x]);
                                assert(norm_path(v.slots[x].0) != norm_path(path@));
                            }
                        }
                    }
                }
                if order.len() > cap {
                    let oldest = order.pop_front();
                    match oldest {
                        Some(k) => {
                            map.remove(k.as_str());
                            proof {
                                assert(order@ =~= o1.drop_first());
                                assert(k@ == o1[0]@);
                                assert forall|j: int| 0 < j < o1.len() implies (#[trigger] o1[j])@ != o1[0]@ by {
                                    assert(slots_of(m1, o1)[j] == entry_view(m1[o1[j]@]));
                                    assert(slots_of(m1, o1)[0] == entry_view(m1[o1[0]@]));
                                    assert(norm_path(a[0].0) != norm_path(a[j].0));
                                }
                                assert forall|j: int| 0 <= j < order@.len() implies #[trigger] slots_of(map@, order@)[j]
                                    == a.drop_first()[j] by {
                                    assert(order@[j] == o1[j + 1]);
                                    assert(o1[j + 1]@ != o1[0]@);
                                    assert(slots_of(m1, o1)[j + 1] == a[j + 1]);
                                }
                                assert(slots_of(map@, order@) =~= a.drop_first());
                                assert forall|j: int| 0 <= j < order@.len() implies #[trigger] map@.contains_key(order@[j]@) by {
                                    assert(order@[j] == o1[j + 1]);
                                    assert(o1[j + 1]@ != o1[0]@);
                                    assert(m1.contains_key(o1[j + 1]@));
                                }
                                assert forall|j: int| 0 <= j < order@.len() implies norm_path(map@[#[trigger] order@[j]@].0@)
                                    == order@[j]@ by {
                                    assert(order@[j] == o1[j + 1]);
                                    assert(o1[j + 1]@ != o1[0]@);
                                    assert(m1.contains_key(o1[j + 1]@));
                                }
                                assert forall|q: Seq<char>| #[trigger] map@.contains_key(q) implies exists|j: int|
                                    0 <= j < order@.len() && order@[j]@ == q by {
                                    assert(m1.contains_key(q) && q != o1[0]@);
                                    let j = choose|j: int| 0 <= j < o1.len() && o1[j]@ == q;
                                    assert(j != 0);
                                    assert(order@[j - 1] == o1[j]);
                                }
                                assert(parts_ok(map@, order@));
                            }
                        },
                        None => {},
                    }
                }
                *self = EnrichCache { cap, map, order };
            },
        }
    }

    pub fn len(&self) -> (r: usize)
        ensures
            r == self@.slots.len(),
    {
        self.order.len()
    }

    pub fn is_empty(&self) -> (r: bool)
        ensures
            r == (self@.slots.len() == 0),
    {
        self.order.len() == 0
    }
}


/// A new path on a full cache: the oldest slot is dropped.
pub open spec fn put_evicts(v: CacheView, path: Seq<char>) -> bool {
    slot_index(v.slots, path) < 0 && v.slots.len() == v.cap
}

/// Storing keeps the cache well formed: bounded, no path twice.
pub proof fn law_cache_put_keeps_wf(v: CacheView, path: Seq<char>, mtime: u64, e: EnrichmentView)
    requires
        cache_wf(v),
    ensures
        cache_wf(cache_put(v, path, mtime, e)),
{
    let k = slot_index(v.slots, path);
    let r = cache_put(v, path, mtime, e);
    if k >= 0 {
        assert forall|i: int, j: int| 0 <= i < j < r.slots.len() implies norm_path(#[trigger] r.slots[i].0)
            != norm_path(#[trigger] r.slots[j].0) by {
            assert(norm_path(v.slots[i].0) != norm_path(v.slots[j].0));
        }
    } else {
        let a = v.slots.push((path, mtime, e));
        assert forall|i: int, j: int| 0 <= i < j < a.len() implies norm_path(#[trigger] a[i].0) != norm_path(
            #[trigger] a[j].0,
        ) by {
            if j < v.slots.len() {
                assert(norm_path(v.slots[i].0) != norm_path(v.slots[j].0));
            } else {
                assert(norm_path(v.slots[i].0) != norm_path(path));
            }
        }
        if a.len() > v.cap {
            assert forall|i: int, j: int| 0 <= i < j < r.slots.len() implies norm_path(#[trigger] r.slots[i].0)
                != norm_path(#[trigger] r.slots[j].0) by {
                assert(norm_path(a[i + 1].0) != norm_path(a[j + 1].0));
            }
        }
    }
}

/// Where `path` sits after it was stored.
proof fn lemma_put_position(v: CacheView, path: Seq<char>, mtime: u64, e: EnrichmentView)
    requires
        cache_wf(v),
    ensures
        ({
            let r = cache_put(v, path, mtime, e);
            let k = slot_index(r.slots, path);
            &&& 0 <= k < r.slots.len()
            &&& norm_path(r.slots[k].0) == norm_path(path)
            &&& r.slots[k].1 == mtime
            &&& r.slots[k].2 == e
        }),
{
    law_cache_put_keeps_wf(v, path, mtime, e);
    let r = cache_put(v, path, mtime, e);
    let k = slot_index(v.slots, path);
    if k >= 0 {
        lemma_slot_index_at(r.slots, path, k);
    } else {
        lemma_slot_index_at(r.slots, path, r.slots.len() - 1);
    }
}

/// Read after write: looking up what was just stored, at the same mtime,
/// returns it.
pub proof fn law_cache_put_then_get(v: CacheView, path: Seq<char>, mtime: u64, e: EnrichmentView)
    requires
        cache_wf(v),
    ensures
        cache_get(cache_put(v, path, mtime, e), path, mtime) == Some(e),
{
    lemma_put_position(v, path, mtime, e);
}

/// An edit invalidates: the same path at another mtime misses.
pub proof fn law_cache_other_mtime_misses(
    v: CacheView,
    path: Seq<char>,
    mtime: u64,
    e: EnrichmentView,
    other: u64,
)
    requires
        cache_wf(v),
        other != mtime,
    ensures
        cache_get(cache_put(v, path, mtime, e), path, other) is None,
{
    lemma_put_position(v, path, mtime, e);
}

/// Re-keying a path already cached does not grow the cache.
pub proof fn law_cache_rekey_keeps_len(v: CacheView, path: Seq<char>, mtime: u64, e: EnrichmentView)
    requires
        cache_wf(v),
        slot_index(v.slots, path) >= 0,
    ensures
        cache_put(v, path, mtime, e).slots.len() == v.slots.len(),
{
}

/// Other paths keep their entries, except the oldest one when a new path
/// overflows a full cache.
pub proof fn law_cache_put_keeps_others(
    v: CacheView,
    path: Seq<char>,
    mtime: u64,
    e: EnrichmentView,
    other: Seq<char>,
    other_mtime: u64,
)
    requires
        cache_wf(v),
        norm_path(other) != norm_path(path),
        !(put_evicts(v, path) && norm_path(v.slots[0].0) == norm_path(other)),
    ensures
        cache_get(cache_put(v, path, mtime, e), other, other_mtime) == cache_get(v, other, other_mtime),
{
    law_cache_put_keeps_wf(v, path, mtime, e);
    let r = cache_put(v, path, mtime, e);
    let k = slot_index(v.slots, path);
    let j = slot_index(v.slots, other);
    if j >= 0 {
        lemma_slot_index_at(v.slots, other, j);
        if k >= 0 {
            lemma_slot_index_at(v.slots, path, k);
            assert(r.slots[j] == v.slots[j]);
            lemma_slot_index_at(r.slots, other, j);
        } else if put_evicts(v, path) {
            assert(j != 0);
            assert(r.slots[j - 1] == v.slots[j]);
            lemma_slot_index_at(r.slots, other, j - 1);
        } else {
            assert(r.slots[j] == v.slots[j]);
            lemma_slot_index_at(r.slots, other, j);
        }
    } else {
        assert forall|i: int| 0 <= i < r.slots.len() implies norm_path(#[trigger] r.slots[i].0) != norm_path(
            other,
        ) by {
            if k >= 0 {
                assert(r.slots[i].0 == v.slots[i].0);
            } else if put_evicts(v, path) {
                if i + 1 < v.slots.len() + 1 && i + 1 != v.slots.len() {
                    assert(r.slots[i] == v.slots[i + 1]);
                }
            } else if i < v.slots.len() {
                assert(r.slots[i] == v.slots[i]);
            }
        }
    }
}

/// FIFO eviction: a new path on a full cache evicts the oldest entry.
pub proof fn law_cache_evicts_oldest(
    v: CacheView,
    path: Seq<char>,
    mtime: u64,
    e: EnrichmentView,
    any_mtime: u64,
)
    requires
        cache_wf(v),
        put_evicts(v, path),
    ensures
        cache_get(cache_put(v, path, mtime, e), v.slots[0].0, any_mtime) is None,
{
    law_cache_put_keeps_wf(v, path, mtime, e);
    let r = cache_put(v, path, mtime, e);
    let oldest = v.slots[0].0;
    assert forall|i: int| 0 <= i < r.slots.len() implies norm_path(#[trigger] r.slots[i].0) != norm_path(
        oldest,
    ) by {
        if i + 1 < v.slots.len() {
            assert(r.slots[i] == v.slots[i + 1]);
            assert(norm_path(v.slots[0].0) != norm_path(v.slots[i + 1].0));
        } else {
            assert(r.slots[i].0 == path);
            assert(norm_path(v.slots[0].0) != norm_path(path));
        }
    }
}


/// A cloud placeholder is never read: the plan is size only, and whatever
/// the caller hands in is ignored.
pub proof fn law_cloud_placeholder_is_size_only(
    path: Seq<char>,
    size: u64,
    caps: Caps,
    contents: Option<Seq<u8>>,
    r: EnrichmentView,
)
    requires
        enrichment_ok(path, size, true, caps, contents, r),
    ensures
        plan_of(path, size, true, caps) == ReadPlan::SizeOnly,
        r == size_only(size),
{
}

/// Past its cap a file is not read: a non-image over the text cap, a raster
/// over the raster cap.
pub proof fn law_over_cap_is_not_read(path: Seq<char>, size: u64, cloud: bool, caps: Caps)
    ensures
        image_kind_of(path) is None && size > caps.text ==> plan_of(path, size, cloud, caps)
            == ReadPlan::SizeOnly,
        image_kind_of(path) == Some(ImageKind::Raster) && size > caps.raster ==> plan_of(
            path,
            size,
            cloud,
            caps,
        ) == ReadPlan::SizeOnly,
{
}

/// A trailing newline does not add a phantom line, and a CRLF line counts
/// once.
pub proof fn law_trailing_newline_adds_no_line(b: Seq<u8>)
    requires
        b.len() > 0,
        b.last() != 10,
    ensures
        lines_of(b.push(10)) == lines_of(b),
        lines_of(b.push(13).push(10)) == lines_of(b),
{
    assert(b.push(10).drop_last() =~= b);
    assert(b.push(13).push(10).drop_last() =~= b.push(13));
    assert(b.push(13).drop_last() =~= b);
    assert(newlines(b.push(13)) == newlines(b));
    assert(newlines(b.push(13).push(10)) == newlines(b.push(13)) + 1);
}

proof fn lemma_newlines_concat(a: Seq<u8>, b: Seq<u8>)
    ensures
        newlines(a + b) == newlines(a) + newlines(b),
    decreases b.len(),
{
    if b.len() == 0 {
        assert(a + b =~= a);
    } else {
        lemma_newlines_concat(a, b.drop_last());
        assert((a + b).drop_last() =~= a + b.drop_last());
        assert((a + b).last() == b.last());
    }
}

/// A line count is at most the byte count, and zero exactly for no bytes.
pub proof fn law_lines_are_bounded(b: Seq<u8>)
    ensures
        lines_of(b) <= b.len(),
        (lines_of(b) == 0) == (b.len() == 0),
{
    lemma_newlines_le(b);
    if b.len() > 0 && b.last() == 10 {
        assert(newlines(b) == newlines(b.drop_last()) + 1);
    }
}

/// Line counts add up over text split after a line end: when the first part
/// is empty or ends with `\n`, the lines of the whole are the lines of the
/// two parts.
pub proof fn law_lines_add_up(a: Seq<u8>, b: Seq<u8>)
    requires
        a.len() == 0 || a.last() == 10,
    ensures
        lines_of(a + b) == lines_of(a) + lines_of(b),
{
    lemma_newlines_concat(a, b);
    if b.len() == 0 {
        assert(a + b =~= a);
    } else {
        assert((a + b).last() == b.last());
        if a.len() == 0 {
            assert(a + b =~= b);
        }
    }
}

/// The image kind depends on the extension alone, and on it only up to
/// ASCII case: two paths whose extensions agree once lower-cased (`x.GIF`,
/// `y.gif`) have the same kind.
pub proof fn law_image_kind_ignores_case(p: Seq<char>, q: Seq<char>)
    requires
        extension_of(p) is Some,
        extension_of(q) is Some,
        extension_of(p)->Some_0.map_values(|c: char| ascii_lower(c)) == extension_of(q)->Some_0.map_values(
            |c: char| ascii_lower(c),
        ),
    ensures
        image_kind_of(p) == image_kind_of(q),
{
}

/// What the metrics of a text file are: for a local file that is not an
/// image, within the text cap and not binary, the line count is the number
/// of lines of its bytes and the token count is tiktoken's `o200k_base` count
/// of its text (the bytes decoded lossily); it gets no thumbnail. An SVG,
/// being text, gets the same metrics.
pub proof fn law_text_metrics_count_lines_and_tokens(
    path: Seq<char>,
    size: u64,
    caps: Caps,
    b: Seq<u8>,
    r: EnrichmentView,
)
    requires
        enrichment_ok(path, size, false, caps, Some(b), r),
        size <= caps.text,
        image_kind_of(path) is None && !is_binary(b) || image_kind_of(path) == Some(ImageKind::Svg),
    ensures
        r.size == size,
        r.lines == Some(lines_of(b) as u64),
        r.tokens == Some(o200k_tokens(lossy_utf8(b)) as u64),
        image_kind_of(path) is None ==> r.thumb is None,
{
}

} // verus!
