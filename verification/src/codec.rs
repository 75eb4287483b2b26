//! The on-disk imposter container: a zip archive holding the settings record
//! and either a raw pixel image (`texture.png`) or a palette plus index pair
//! (`pixels.png` and `indices.png`), each stored as a PNG whose RGBA8 rows
//! carry the raw pixel words.
//!
//! The zip and PNG work is done by outside crates behind the trusted items
//! below; everything around them — what the entries hold, how the palette
//! and indices are laid out, and that reading back reproduces the written
//! pixels — is verified.

use vstd::prelude::*;

use crate::error::ImposterError;
use crate::image_data::RgImage;
use crate::pack::{any_used, col_used, crop_src_byte, pack_asset, row_used};
use crate::palette::{
    build_palette, expand_indexed, index_pixels, lemma_palette_len_is_distinct_count,
    lemma_pixel_bytes_roundtrip, pixels_to_words, push_word_bytes, spec_distinct_word_count,
    spec_pixel_word, spec_word_seq, word_bytes,
};
use crate::settings::{
    is_float_token, lemma_settings_roundtrip, parse_settings, push_bytes, scale_token_wf,
    settings_to_bytes, spec_parse_settings, spec_settings_bytes, AssetSettings, SettingsView,
};
use crate::oct_coords::GridMode;

verus! {

/// The name-to-bytes table an archive's central directory lists: the names
/// `zip::ZipArchive` reports for the bytes, each mapped to the bytes its
/// entry decompresses to. Invalid archive bytes list nothing; for a listed
/// entry whose payload cannot be fully read back (a corrupt stream, an
/// unsupported compression method) the mapped bytes are unspecified.
pub uninterp spec fn zip_entries(bytes: Seq<u8>) -> Map<Seq<char>, Seq<u8>>;

/// What `image`'s PNG decoder yields for a byte string: the width, height
/// and raw bytes of the decoded image, or nothing when decoding fails. For
/// 8-bit color types — the only kind this library writes or relies on —
/// the raw bytes are byte-order-free; a 16-bit image's bytes would depend
/// on the machine's byte order and carry no promise here.
pub uninterp spec fn png_decode_of(bytes: Seq<u8>) -> Option<(u32, u32, Seq<u8>)>;

/// Whether the named entry of an archive reads back in full: it is listed
/// and its payload decompresses with a matching checksum. What
/// `zip::ZipArchive::by_name` followed by reading to the end yields is a
/// function of the archive bytes and the name alone. Every entry of an
/// archive produced by the builder below is readable.
pub uninterp spec fn zip_entry_readable(bytes: Seq<u8>, name: Seq<char>) -> bool;

/// An archive builder writing to memory. It holds the outside crate's
/// writer opaquely: Verus refuses to declare `zip::ZipWriter` itself (the
/// `Write + Seek` bound on its type parameter is not supported), so the
/// builder lives in a private field that only the trusted items below touch.
#[verifier::external_body]
pub struct ArchiveWriter {
    inner: zip::ZipWriter<std::io::Cursor<Vec<u8>>>,
}

/// The entries added to an archive builder so far.
pub uninterp spec fn writer_entries(w: ArchiveWriter) -> Map<Seq<char>, Seq<u8>>;

/// Relies on zip::ZipWriter::new over an in-memory cursor: a fresh writer
/// holds no entries.
#[verifier::external_body]
fn zip_writer_new() -> (r: ArchiveWriter)
    ensures
        forall|n: Seq<char>| !writer_entries(r).dom().contains(n),
{
    ArchiveWriter { inner: zip::ZipWriter::new(std::io::Cursor::new(Vec::new())) }
}

/// Relies on zip::ZipWriter::start_file followed by Write::write_all: the
/// pair adds one stored (uncompressed) entry with exactly the given bytes.
/// Writing to an in-memory cursor cannot fail. The two start_file failure
/// causes are kept out by the preconditions: a duplicate name, and a name
/// whose UTF-8 encoding outgrows the 16-bit name-length field — the name
/// must be ASCII (one byte per character) with at most that many
/// characters. The large-entry option is switched on so an oversized
/// payload extends the archive instead of erroring.
#[verifier::external_body]
fn zip_writer_add(w: &mut ArchiveWriter, name: &str, data: &Vec<u8>)
    requires
        !writer_entries(*old(w)).dom().contains(name@),
        vstd::utf8::is_ascii_chars(name@),
        name@.len() <= 0xFFFF,
    ensures
        writer_entries(*final(w)) == writer_entries(*old(w)).insert(name@, data@),
{
    let options = zip::write::SimpleFileOptions::default().compression_method(
        zip::CompressionMethod::Stored,
    ).large_file(true);
    w.inner.start_file(name, options).unwrap();
    std::io::Write::write_all(&mut w.inner, data.as_slice()).unwrap();
}

/// Relies on zip::ZipWriter::finish: the finished archive reads back as
/// exactly the entries that were added, and every one of them — written in
/// full with a stored payload and its checksum — is readable.
#[verifier::external_body]
fn zip_writer_finish(w: ArchiveWriter) -> (r: Vec<u8>)
    ensures
        zip_entries(r@) == writer_entries(w),
        forall|n: Seq<char>|
            zip_entries(r@).dom().contains(n) ==> zip_entry_readable(r@, n),
{
    w.inner.finish().unwrap().into_inner()
}

/// Relies on zip::ZipArchive::new and index_for_name: whether the archive
/// holds an entry of this name (invalid bytes hold none).
#[verifier::external_body]
fn zip_has_entry(bytes: &Vec<u8>, name: &str) -> (r: bool)
    ensures
        r == zip_entries(bytes@).dom().contains(name@),
{
    match zip::ZipArchive::new(std::io::Cursor::new(bytes.as_slice())) {
        Ok(archive) => archive.index_for_name(name).is_some(),
        Err(_) => false,
    }
}

/// Relies on zip::ZipArchive::by_name and Read::read_to_end: the bytes of
/// the named entry, exactly when the entry is listed and its payload reads
/// back in full (a corrupt, encrypted or unsupported entry is listed yet
/// yields nothing).
#[verifier::external_body]
fn zip_read_entry(bytes: &Vec<u8>, name: &str) -> (r: Option<Vec<u8>>)
    ensures
        r is Some ==> zip_entries(bytes@).dom().contains(name@) && zip_entry_readable(
            bytes@,
            name@,
        ) && r.unwrap()@ == zip_entries(bytes@)[name@],
        zip_entries(bytes@).dom().contains(name@) && zip_entry_readable(bytes@, name@) ==> r
            is Some,
{
    let cursor = std::io::Cursor::new(bytes.as_slice());
    let mut archive = zip::ZipArchive::new(cursor).ok()?;
    let mut file = archive.by_name(name).ok()?;
    let mut out = Vec::new();
    std::io::Read::read_to_end(&mut file, &mut out).ok()?;
    Some(out)
}

/// Relies on image's PNG encoder over an RGBA8 buffer: PNG stores RGBA8
/// losslessly, so the encoded bytes decode back to the same dimensions and
/// payload.
#[verifier::external_body]
fn png_encode_rgba(width: u32, height: u32, data: &Vec<u8>) -> (r: Vec<u8>)
    requires
        1 <= width < 0x8000_0000,
        1 <= height < 0x8000_0000,
        data@.len() == 4 * width * height,
    ensures
        png_decode_of(r@) == Some((width, height, data@)),
{
    let buf = image::ImageBuffer::<image::Rgba<u8>, Vec<u8>>::from_raw(
        width,
        height,
        data.clone(),
    ).unwrap();
    let img = image::DynamicImage::ImageRgba8(buf);
    let mut cursor = std::io::Cursor::new(Vec::new());
    img.write_to(&mut cursor, image::ImageFormat::Png).unwrap();
    cursor.into_inner()
}

/// Relies on image's PNG decoder: the dimensions and raw bytes of the
/// decoded image, or nothing when the bytes do not decode.
#[verifier::external_body]
fn png_decode(bytes: &Vec<u8>) -> (r: Option<(u32, u32, Vec<u8>)>)
    ensures
        r is Some ==> png_decode_of(bytes@) == Some(
            (r.unwrap().0, r.unwrap().1, r.unwrap().2@),
        ),
        png_decode_of(bytes@) is Some ==> r is Some,
{
    let mut reader = image::ImageReader::new(std::io::Cursor::new(bytes.as_slice()));
    reader.set_format(image::ImageFormat::Png);
    reader.no_limits();
    match reader.decode() {
        Ok(img) => Some((img.width(), img.height(), img.into_bytes())),
        Err(_) => None,
    }
}

/// The entry names are pairwise distinct short strings.
pub proof fn lemma_entry_names_distinct()
    ensures
        "settings.txt"@ != "texture.png"@,
        "settings.txt"@ != "pixels.png"@,
        "settings.txt"@ != "indices.png"@,
        "texture.png"@ != "pixels.png"@,
        "texture.png"@ != "indices.png"@,
        "pixels.png"@ != "indices.png"@,
        "settings.txt"@.len() == 12,
        "texture.png"@.len() == 11,
        "pixels.png"@.len() == 10,
        "indices.png"@.len() == 11,
        vstd::utf8::is_ascii_chars("settings.txt"@),
        vstd::utf8::is_ascii_chars("texture.png"@),
        vstd::utf8::is_ascii_chars("pixels.png"@),
        vstd::utf8::is_ascii_chars("indices.png"@),
{
    reveal_strlit("settings.txt");
    reveal_strlit("texture.png");
    reveal_strlit("pixels.png");
    reveal_strlit("indices.png");
    assert("settings.txt"@.len() == 12);
    assert("texture.png"@.len() == 11);
    assert("pixels.png"@.len() == 10);
    assert("indices.png"@.len() == 11);
    assert("texture.png"@[0] == 't');
    assert("indices.png"@[0] == 'i');
}

/// A product of nonnegative factors stays under the product of their bounds.
pub proof fn lemma_mul_bound(a: int, b: int, ca: int, cb: int)
    requires
        0 <= a <= ca,
        0 <= b <= cb,
    ensures
        0 <= a * b <= ca * cb,
{
    assert(0 <= a * b <= ca * cb) by (nonlinear_arith)
        requires
            0 <= a <= ca,
            0 <= b <= cb,
    ;
}

/// The least nonnegative root: `r` is the ceiling of the square root of `n`.
pub open spec fn is_ceil_sqrt(n: int, r: int) -> bool {
    if n <= 0 {
        r == 0
    } else {
        r >= 1 && (r - 1) * (r - 1) < n <= r * r
    }
}

pub open spec fn spec_ceil_sqrt(n: int) -> int {
    choose|r: int| is_ceil_sqrt(n, r)
}

pub proof fn lemma_ceil_sqrt_unique(n: int, r: int)
    requires
        is_ceil_sqrt(n, r),
    ensures
        spec_ceil_sqrt(n) == r,
{
    let rc = choose|r2: int| is_ceil_sqrt(n, r2);
    assert(is_ceil_sqrt(n, rc));
    if n > 0 {
        assert(rc == r) by (nonlinear_arith)
            requires
                rc >= 1,
                r >= 1,
                (rc - 1) * (rc - 1) < n <= rc * rc,
                (r - 1) * (r - 1) < n <= r * r,
        ;
    }
}

/// The least `r` with `r * r >= n`, by binary search.
pub fn int_ceil_sqrt(n: u64) -> (r: u64)
    ensures
        is_ceil_sqrt(n as int, r as int),
        r == spec_ceil_sqrt(n as int),
{
    let mut lo: u64 = 0;
    let mut hi: u64 = 0x1_0000_0000;
    proof {
        assert((hi as int) * (hi as int) >= n) by (nonlinear_arith)
            requires
                hi == 0x1_0000_0000,
                n <= 0xffff_ffff_ffff_ffff,
        ;
    }
    while lo < hi
        invariant
            lo <= hi <= 0x1_0000_0000,
            (hi as int) * (hi as int) >= n,
            lo > 0 ==> ((lo - 1) as int) * ((lo - 1) as int) < n,
        decreases hi - lo,
    {
        let mid: u64 = lo + (hi - lo) / 2;
        proof {
            assert((mid as int) * (mid as int) <= 0x1_0000_0000int * 0x1_0000_0000)
                by (nonlinear_arith)
                requires
                    0 <= mid <= 0x1_0000_0000,
            ;
        }
        let sq: u128 = (mid as u128) * (mid as u128);
        if sq >= n as u128 {
            hi = mid;
        } else {
            lo = mid + 1;
        }
    }
    proof {
        if n > 0 {
            assert(lo >= 1) by {
                if lo == 0 {
                    assert((0int) * (0int) >= n);
                }
            }
        }
        lemma_ceil_sqrt_unique(n as int, lo as int);
    }
    lo
}

/// The 16-bit value at byte offset `off`.
pub open spec fn le16_val(s: Seq<u8>, off: int) -> int {
    s[off] + 256 * s[off + 1]
}

/// The 32-bit value at byte offset `off`.
pub open spec fn le32_val(s: Seq<u8>, off: int) -> int {
    s[off] + 256 * s[off + 1] + 0x1_0000 * s[off + 2] + 0x100_0000 * s[off + 3]
}

/// The mathematical content of a loaded asset.
pub struct LoadedView {
    pub settings: SettingsView,
    /// Palette plus index images, rather than one raw pixel image.
    pub indexed: bool,
    /// Raw pixel payload, or the palette payload when indexed.
    pub pixels_data: Seq<u8>,
    pub pixels_width: int,
    pub pixels_height: int,
    /// Index payload; empty when not indexed.
    pub indices_data: Seq<u8>,
    pub indices_width: int,
    pub indices_height: int,
    /// GPU cost of the two images, in bytes.
    pub vram_bytes: int,
}

/// A loaded asset: the settings record, the pixel payload(s) and the derived
/// image dimensions, ready to hand to a renderer.
#[derive(Clone, Debug)]
pub struct LoadedImposter {
    pub settings: AssetSettings,
    pub indexed: bool,
    pub pixels_data: Vec<u8>,
    pub pixels_width: u64,
    pub pixels_height: u64,
    pub indices_data: Vec<u8>,
    pub indices_width: u64,
    pub indices_height: u64,
    pub vram_bytes: u128,
}

impl View for LoadedImposter {
    type V = LoadedView;

    open spec fn view(&self) -> LoadedView {
        LoadedView {
            settings: self.settings@,
            indexed: self.indexed,
            pixels_data: self.pixels_data@,
            pixels_width: self.pixels_width as int,
            pixels_height: self.pixels_height as int,
            indices_data: self.indices_data@,
            indices_width: self.indices_width as int,
            indices_height: self.indices_height as int,
            vram_bytes: self.vram_bytes as int,
        }
    }
}

/// What loading an archive yields, as a function of the archive bytes: the
/// parsed settings, the payload of whichever variant is present, and the
/// derived dimensions. The palette image dimensions come from the decoded
/// byte count (the payload is a square-ish arrangement of 8-byte words); the
/// index image is one 32-bit texel per index word, which packs two 16-bit
/// indices when the palette is small enough for them.
#[verifier::opaque]
pub open spec fn spec_load_asset(bytes: Seq<u8>) -> Result<LoadedView, ImposterError> {
    let m = zip_entries(bytes);
    if !(m.dom().contains("settings.txt"@) && zip_entry_readable(bytes, "settings.txt"@)) {
        Err(ImposterError::MissingEntry)
    } else {
        match spec_parse_settings(m["settings.txt"@]) {
            Err(e) => Err(e),
            Ok(sv) => {
                let w = sv.packed_size_x * sv.grid_size;
                let h = sv.packed_size_y * sv.grid_size;
                if w > u32::MAX || h > u32::MAX {
                    Err(ImposterError::BadImageData)
                } else if m.dom().contains("pixels.png"@) {
                    if !zip_entry_readable(bytes, "pixels.png"@) {
                        Err(ImposterError::MissingEntry)
                    } else if !(m.dom().contains("indices.png"@) && zip_entry_readable(
                        bytes,
                        "indices.png"@,
                    )) {
                        Err(ImposterError::MissingEntry)
                    } else {
                        match (png_decode_of(m["pixels.png"@]), png_decode_of(
                            m["indices.png"@],
                        )) {
                            (Some(p), Some(ind)) => if p.2.len() > u32::MAX {
                                Err(ImposterError::BadImageData)
                            } else {
                                let plen = p.2.len() as int;
                                let px = spec_ceil_sqrt((plen + 7) / 8);
                                let py = if px == 0 {
                                    0int
                                } else {
                                    (plen + 8 * px - 1) / (8 * px)
                                };
                                let use_u16 = px * py < 65536;
                                let iw = if use_u16 { (w + 1) / 2 } else { w };
                                Ok(
                                    LoadedView {
                                        settings: sv,
                                        indexed: true,
                                        pixels_data: p.2,
                                        pixels_width: px,
                                        pixels_height: py,
                                        indices_data: ind.2,
                                        indices_width: iw,
                                        indices_height: h,
                                        vram_bytes: px * py * 8 + iw * h * 4,
                                    },
                                )
                            },
                            _ => Err(ImposterError::BadImageData),
                        }
                    }
                } else if m.dom().contains("texture.png"@) {
                    if !zip_entry_readable(bytes, "texture.png"@) {
                        Err(ImposterError::MissingEntry)
                    } else {
                        match png_decode_of(m["texture.png"@]) {
                            Some(t) => Ok(
                                LoadedView {
                                    settings: sv,
                                    indexed: false,
                                    pixels_data: t.2,
                                    pixels_width: w,
                                    pixels_height: h,
                                    indices_data: Seq::empty(),
                                    indices_width: 0,
                                    indices_height: 0,
                                    vram_bytes: w * h * 8,
                                },
                            ),
                            None => Err(ImposterError::BadImageData),
                        }
                    }
                } else {
                    Err(ImposterError::MissingEntry)
                }
            },
        }
    }
}

/// Read an asset container back: parse the settings record, detect which
/// payload variant is present, decode it, and derive the image dimensions.
/// The result equals the spec value exactly, errors included: a missing or
/// unreadable entry, a malformed record, an unknown mode name, or an image
/// that does not decode (or whose grid outgrows 32-bit dimensions), each on
/// exactly the inputs the spec names.
pub fn load_asset(bytes: &Vec<u8>) -> (r: Result<LoadedImposter, ImposterError>)
    ensures
        match r {
            Ok(loaded) => spec_load_asset(bytes@) == Ok::<LoadedView, ImposterError>(loaded@),
            Err(e) => spec_load_asset(bytes@) == Err::<LoadedView, ImposterError>(e),
        },
{
    proof {
        reveal(spec_load_asset);
    }
    let settings_bytes = match zip_read_entry(bytes, "settings.txt") {
        Some(d) => d,
        None => {
            return Err(ImposterError::MissingEntry);
        },
    };
    let settings = match parse_settings(&settings_bytes) {
        Ok(s) => s,
        Err(e) => {
            return Err(e);
        },
    };
    proof {
        assert((settings.packed_size_x as int) * (settings.grid_size as int) <= 0xffff_ffff
            * 0xffff_ffff && (settings.packed_size_y as int) * (settings.grid_size as int)
            <= 0xffff_ffff * 0xffff_ffff) by (nonlinear_arith)
            requires
                settings.packed_size_x <= 0xffff_ffff,
                settings.packed_size_y <= 0xffff_ffff,
                0 <= settings.grid_size <= 0xffff_ffff,
        ;
    }
    let w: u64 = settings.packed_size_x as u64 * settings.grid_size as u64;
    let h: u64 = settings.packed_size_y as u64 * settings.grid_size as u64;
    if w > 0xffff_ffff || h > 0xffff_ffff {
        return Err(ImposterError::BadImageData);
    }
    if zip_has_entry(bytes, "pixels.png") {
        let pixels_png = match zip_read_entry(bytes, "pixels.png") {
            Some(d) => d,
            None => {
                return Err(ImposterError::MissingEntry);
            },
        };
        let indices_png = match zip_read_entry(bytes, "indices.png") {
            Some(d) => d,
            None => {
                return Err(ImposterError::MissingEntry);
            },
        };
        let p = match png_decode(&pixels_png) {
            Some(p) => p,
            None => {
                return Err(ImposterError::BadImageData);
            },
        };
        let ind = match png_decode(&indices_png) {
            Some(i) => i,
            None => {
                return Err(ImposterError::BadImageData);
            },
        };
        let (_, _, pixel_bytes) = p;
        let (_, _, index_bytes) = ind;
        if pixel_bytes.len() > 0xffff_ffff {
            return Err(ImposterError::BadImageData);
        }
        let plen: u64 = pixel_bytes.len() as u64;
        let m: u64 = ((plen as u128 + 7) / 8) as u64;
        let px: u64 = int_ceil_sqrt(m);
        proof {
            assert(px <= 0x2_0000) by (nonlinear_arith)
                requires
                    is_ceil_sqrt(m as int, px as int),
                    m <= 0x2000_0001,
            ;
        }
        let py: u64 = if px == 0 {
            0
        } else {
            let pyw: u128 = (plen as u128 + 8 * px as u128 - 1) / (8 * px as u128);
            proof {
                assert(pyw <= plen) by (nonlinear_arith)
                    requires
                        px >= 1,
                        plen >= 0,
                        pyw == ((plen as int) + 8 * (px as int) - 1) / (8 * (px as int)),
                ;
            }
            pyw as u64
        };
        proof {
            lemma_mul_bound(px as int, py as int, 0x2_0000, 0xffff_ffff);
        }
        let use_u16: bool = (px as u128) * (py as u128) < 65536;
        let iw: u64 = if use_u16 {
            (w + 1) / 2
        } else {
            w
        };
        proof {
            lemma_mul_bound(iw as int, h as int, 0xffff_ffff, 0xffff_ffff);
        }
        let vram: u128 = (px as u128) * (py as u128) * 8 + (iw as u128) * (h as u128) * 4;
        Ok(
            LoadedImposter {
                settings,
                indexed: true,
                pixels_data: pixel_bytes,
                pixels_width: px,
                pixels_height: py,
                indices_data: index_bytes,
                indices_width: iw,
                indices_height: h,
                vram_bytes: vram,
            },
        )
    } else if zip_has_entry(bytes, "texture.png") {
        let texture_png = match zip_read_entry(bytes, "texture.png") {
            Some(d) => d,
            None => {
                return Err(ImposterError::MissingEntry);
            },
        };
        let t = match png_decode(&texture_png) {
            Some(t) => t,
            None => {
                return Err(ImposterError::BadImageData);
            },
        };
        let (_, _, pixel_bytes) = t;
        proof {
            lemma_mul_bound(w as int, h as int, 0xffff_ffff, 0xffff_ffff);
        }
        let vram: u128 = (w as u128) * (h as u128) * 8;
        Ok(
            LoadedImposter {
                settings,
                indexed: false,
                pixels_data: pixel_bytes,
                pixels_width: w,
                pixels_height: h,
                indices_data: Vec::new(),
                indices_width: 0,
                indices_height: 0,
                vram_bytes: vram,
            },
        )
    } else {
        Err(ImposterError::MissingEntry)
    }
}

/// Copy a byte vector.
pub fn clone_bytes(src: &Vec<u8>) -> (r: Vec<u8>)
    ensures
        r@ == src@,
{
    let mut r: Vec<u8> = Vec::new();
    push_bytes(&mut r, src);
    proof {
        assert(r@ =~= src@);
    }
    r
}

/// The palette image payload: the words of the palette back to back, padded
/// with zero bytes to `upc` eight-byte slots.
fn palette_payload(palette: &Vec<u64>, upc: u64) -> (r: Vec<u8>)
    requires
        palette@.len() <= upc,
        upc * 8 <= usize::MAX,
    ensures
        r@.len() == upc * 8,
        forall|j: int|
            0 <= j < palette@.len() ==> r@.subrange(8 * j, 8 * j + 8) == word_bytes(
                #[trigger] palette@[j],
            ),
        forall|b: int| 8 * palette@.len() <= b < r@.len() ==> #[trigger] r@[b] == 0,
{
    let mut r: Vec<u8> = Vec::new();
    let mut j: usize = 0;
    while j < palette.len()
        invariant
            j <= palette@.len(),
            palette@.len() <= upc,
            upc * 8 <= usize::MAX,
            r@.len() == 8 * j,
            forall|j2: int|
                0 <= j2 < j ==> r@.subrange(8 * j2, 8 * j2 + 8) == word_bytes(
                    #[trigger] palette@[j2],
                ),
        decreases palette@.len() - j,
    {
        let ghost before = r@;
        let w: u64 = palette[j];
        push_word_bytes(&mut r, w);
        proof {
            assert forall|j2: int|
                0 <= j2 < j + 1 implies r@.subrange(8 * j2, 8 * j2 + 8) == word_bytes(
                #[trigger] palette@[j2],
            ) by {
                if j2 < j {
                    assert(r@.subrange(8 * j2, 8 * j2 + 8) =~= before.subrange(
                        8 * j2,
                        8 * j2 + 8,
                    ));
                } else {
                    assert(r@.subrange(8 * j2, 8 * j2 + 8) =~= word_bytes(palette@[j2]));
                }
            }
        }
        j = j + 1;
    }
    let total: usize = (upc * 8) as usize;
    while r.len() < total
        invariant
            r@.len() <= total,
            total == upc * 8,
            forall|j2: int|
                0 <= j2 < palette@.len() && 8 * j2 + 8 <= r@.len() ==> r@.subrange(
                    8 * j2,
                    8 * j2 + 8,
                ) == word_bytes(#[trigger] palette@[j2]),
            8 * palette@.len() <= r@.len(),
            forall|b: int| 8 * palette@.len() <= b < r@.len() ==> #[trigger] r@[b] == 0,
        decreases total - r@.len(),
    {
        let ghost before = r@;
        r.push(0);
        proof {
            assert forall|j2: int|
                0 <= j2 < palette@.len() && 8 * j2 + 8 <= r@.len() implies r@.subrange(
                8 * j2,
                8 * j2 + 8,
            ) == word_bytes(#[trigger] palette@[j2]) by {
                assert(8 * j2 + 8 <= before.len());
                assert(r@.subrange(8 * j2, 8 * j2 + 8) =~= before.subrange(8 * j2, 8 * j2 + 8));
            }
        }
    }
    r
}

/// The index image payload with 16-bit entries: indices row by row in
/// little-endian pairs, each row padded with two zero bytes when the row
/// width is odd (so rows land on 32-bit texel boundaries).
fn index_payload_u16(indices: &Vec<usize>, w: u32, h: u32, iw: u32) -> (r: Vec<u8>)
    requires
        w >= 1,
        indices@.len() == w * h,
        forall|i: int| 0 <= i < indices@.len() ==> #[trigger] indices@[i] < 65536,
        (w + 1) * h * 2 <= usize::MAX,
        4 * iw == (if w % 2 == 1 { 2 * w + 2 } else { 2 * (w as int) }),
    ensures
        r@.len() == h * (4 * (iw as int)),
        forall|x: int, y: int|
            0 <= x < w && 0 <= y < h ==> #[trigger] r@[y * (4 * (iw as int)) + 2 * x] == indices@[
                y * w + x] % 256 && r@[y * (4 * (iw as int)) + 2 * x + 1] == indices@[y * w + x]
                / 256,
{
    let ghost rowb: int = 4 * (iw as int);
    proof {
        assert(rowb == (if w % 2 == 1 { 2 * w + 2 } else { 2 * (w as int) }));
    }
    let n: usize = indices.len();
    let mut r: Vec<u8> = Vec::new();
    let mut y: u32 = 0;
    while y < h
        invariant
            y <= h,
            w >= 1,
            rowb == (if w % 2 == 1 { 2 * w + 2 } else { 2 * (w as int) }),
            rowb == 4 * (iw as int),
            indices@.len() == n,
            indices@.len() == w * h,
            forall|i: int| 0 <= i < indices@.len() ==> #[trigger] indices@[i] < 65536,
            (w + 1) * h * 2 <= usize::MAX,
            r@.len() == y * rowb,
            forall|x2: int, y2: int|
                0 <= x2 < w && 0 <= y2 < y ==> #[trigger] r@[y2 * rowb + 2 * x2] == indices@[y2
                    * w + x2] % 256 && r@[y2 * rowb + 2 * x2 + 1] == indices@[y2 * w + x2] / 256,
        decreases h - y,
    {
        proof {
            assert((y + 1) * rowb == y * rowb + rowb && (y + 1) * (w as int) == y * w + w && y
                * rowb >= 0 && y * rowb + rowb <= h * rowb && h * rowb <= (w + 1) * h * 2 && (y
                + 1) * (w as int) <= (w as int) * (h as int)) by (nonlinear_arith)
                requires
                    0 <= y < h,
                    w >= 1,
                    rowb == (if w % 2 == 1 { 2 * w + 2 } else { 2 * (w as int) }),
            ;
        }
        let mut x: u32 = 0;
        while x < w
            invariant
                0 <= y < h,
                x <= w,
                w >= 1,
                rowb == (if w % 2 == 1 { 2 * w + 2 } else { 2 * (w as int) }),
                indices@.len() == n,
                indices@.len() == w * h,
                forall|i: int| 0 <= i < indices@.len() ==> #[trigger] indices@[i] < 65536,
                (y + 1) * (w as int) <= (w as int) * (h as int),
                y * rowb >= 0,
                (y + 1) * rowb == y * rowb + rowb,
                (y + 1) * (w as int) == y * w + w,
                r@.len() == y * rowb + 2 * x,
                forall|x2: int, y2: int|
                    0 <= x2 < w && 0 <= y2 < y ==> #[trigger] r@[y2 * rowb + 2 * x2]
                        == indices@[y2 * w + x2] % 256 && r@[y2 * rowb + 2 * x2 + 1] == indices@[y2 * w + x2] / 256,
                forall|x2: int|
                    0 <= x2 < x ==> #[trigger] r@[y * rowb + 2 * x2] == indices@[y * w + x2] % 256
                        && r@[y * rowb + 2 * x2 + 1] == indices@[y * w + x2] / 256,
            decreases w - x,
        {
            let v: usize = indices[(y as usize) * (w as usize) + (x as usize)];
            let ghost pre = r@;
            r.push((v % 256) as u8);
            r.push((v / 256) as u8);
            proof {
                assert(v == indices@[y * w + x] && v < 65536);
                assert(r@[y * rowb + 2 * (x as int)] == indices@[y * w + x] % 256);
                assert(r@[y * rowb + 2 * (x as int) + 1] == indices@[y * w + x] / 256);
                assert forall|x2: int, y2: int|
                    0 <= x2 < w && 0 <= y2 < y implies #[trigger] r@[y2 * rowb + 2 * x2]
                    == indices@[y2 * w + x2] % 256 && r@[y2 * rowb + 2 * x2 + 1] == indices@[y2
                    * w + x2] / 256 by {
                    lemma_row_pos_bound(y2, x2, y as int, rowb, w as int);
                    assert(pre[y2 * rowb + 2 * x2] == indices@[y2 * w + x2] % 256);
                    assert(pre[y2 * rowb + 2 * x2 + 1] == indices@[y2 * w + x2] / 256);
                    assert(y2 * rowb + 2 * x2 + 1 < pre.len());
                    assert(r@[y2 * rowb + 2 * x2] == pre[y2 * rowb + 2 * x2]);
                    assert(r@[y2 * rowb + 2 * x2 + 1] == pre[y2 * rowb + 2 * x2 + 1]);
                }
                assert forall|x2: int|
                    0 <= x2 < x + 1 implies #[trigger] r@[y * rowb + 2 * x2] == indices@[y * w
                    + x2] % 256 && r@[y * rowb + 2 * x2 + 1] == indices@[y * w + x2] / 256 by {
                    if x2 < x {
                        assert(pre[y * rowb + 2 * x2] == indices@[y * w + x2] % 256);
                        assert(pre[y * rowb + 2 * x2 + 1] == indices@[y * w + x2] / 256);
                        assert(y * rowb + 2 * x2 + 1 < pre.len());
                        assert(r@[y * rowb + 2 * x2] == pre[y * rowb + 2 * x2]);
                        assert(r@[y * rowb + 2 * x2 + 1] == pre[y * rowb + 2 * x2 + 1]);
                    }
                }
            }
            x = x + 1;
        }
        let ghost row_end = r@;
        if w % 2 == 1 {
            r.push(0);
            r.push(0);
        }
        proof {
            assert forall|x2: int, y2: int|
                0 <= x2 < w && 0 <= y2 < y + 1 implies #[trigger] r@[y2 * rowb + 2 * x2]
                == indices@[y2 * w + x2] % 256 && r@[y2 * rowb + 2 * x2 + 1] == indices@[y2 * w
                + x2] / 256 by {
                if y2 < y {
                    lemma_row_pos_bound(y2, x2, y as int, rowb, w as int);
                    assert(y2 * rowb + 2 * x2 + 1 < row_end.len());
                    assert(r@[y2 * rowb + 2 * x2] == row_end[y2 * rowb + 2 * x2]);
                    assert(r@[y2 * rowb + 2 * x2 + 1] == row_end[y2 * rowb + 2 * x2 + 1]);
                } else {
                    assert(y * rowb + 2 * x2 + 1 < row_end.len());
                    assert(row_end[y * rowb + 2 * x2] == indices@[y * w + x2] % 256);
                    assert(row_end[y * rowb + 2 * x2 + 1] == indices@[y * w + x2] / 256);
                    assert(r@[y2 * rowb + 2 * x2] == row_end[y2 * rowb + 2 * x2]);
                    assert(r@[y2 * rowb + 2 * x2 + 1] == row_end[y2 * rowb + 2 * x2 + 1]);
                }
            }
        }
        y = y + 1;
    }
    proof {
        assert(r@.len() == h * rowb);
    }
    r
}

/// The index image payload with 32-bit entries: indices row by row as
/// little-endian words.
fn index_payload_u32(indices: &Vec<usize>, w: u32, h: u32) -> (r: Vec<u8>)
    requires
        w >= 1,
        indices@.len() == w * h,
        forall|i: int| 0 <= i < indices@.len() ==> #[trigger] indices@[i] < 0x1_0000_0000,
        w * h * 4 <= usize::MAX,
    ensures
        r@.len() == h * (4 * (w as int)),
        forall|x: int, y: int|
            0 <= x < w && 0 <= y < h ==> #[trigger] r@[y * (4 * (w as int)) + 4 * x] == indices@[
                y * w + x] % 256 && r@[y * (4 * (w as int)) + 4 * x + 1] == indices@[y * w + x]
                / 256 % 256 && r@[y * (4 * (w as int)) + 4 * x + 2] == indices@[y * w + x]
                / 0x1_0000 % 256 && r@[y * (4 * (w as int)) + 4 * x + 3] == indices@[y * w + x]
                / 0x100_0000 % 256,
{
    let ghost rowb: int = 4 * (w as int);
    let n: usize = indices.len();
    let mut r: Vec<u8> = Vec::new();
    let mut y: u32 = 0;
    while y < h
        invariant
            y <= h,
            w >= 1,
            rowb == 4 * (w as int),
            indices@.len() == n,
            indices@.len() == w * h,
            forall|i: int| 0 <= i < indices@.len() ==> #[trigger] indices@[i] < 0x1_0000_0000,
            w * h * 4 <= usize::MAX,
            r@.len() == y * rowb,
            forall|x2: int, y2: int|
                0 <= x2 < w && 0 <= y2 < y ==> #[trigger] r@[y2 * rowb + 4 * x2] == indices@[y2
                    * w + x2] % 256 && r@[y2 * rowb + 4 * x2 + 1] == indices@[y2 * w + x2] / 256
                    % 256 && r@[y2 * rowb + 4 * x2 + 2] == indices@[y2 * w + x2] / 0x1_0000 % 256
                    && r@[y2 * rowb + 4 * x2 + 3] == indices@[y2 * w + x2] / 0x100_0000 % 256,
        decreases h - y,
    {
        proof {
            assert((y + 1) * rowb == y * rowb + rowb && (y + 1) * (w as int) == y * w + w && y
                * rowb >= 0 && y * rowb + rowb <= h * rowb && h * rowb == (w as int) * (h as int)
                * 4 && (y + 1) * (w as int) <= (w as int) * (h as int)) by (nonlinear_arith)
                requires
                    0 <= y < h,
                    w >= 1,
                    rowb == 4 * (w as int),
            ;
        }
        let mut x: u32 = 0;
        while x < w
            invariant
                0 <= y < h,
                x <= w,
                w >= 1,
                rowb == 4 * (w as int),
                indices@.len() == n,
                indices@.len() == w * h,
                forall|i: int| 0 <= i < indices@.len() ==> #[trigger] indices@[i] < 0x1_0000_0000,
                (y + 1) * (w as int) <= (w as int) * (h as int),
                w * h * 4 <= usize::MAX,
                y * rowb >= 0,
                (y + 1) * rowb == y * rowb + rowb,
                (y + 1) * (w as int) == y * w + w,
                r@.len() == y * rowb + 4 * x,
                forall|x2: int, y2: int|
                    0 <= x2 < w && 0 <= y2 < y ==> #[trigger] r@[y2 * rowb + 4 * x2]
                        == indices@[y2 * w + x2] % 256 && r@[y2 * rowb + 4 * x2 + 1]
                        == indices@[y2 * w + x2] / 256 % 256 && r@[y2 * rowb + 4 * x2 + 2]
                        == indices@[y2 * w + x2] / 0x1_0000 % 256 && r@[y2 * rowb + 4 * x2 + 3]
                        == indices@[y2 * w + x2] / 0x100_0000 % 256,
                forall|x2: int|
                    0 <= x2 < x ==> #[trigger] r@[y * rowb + 4 * x2] == indices@[y * w + x2] % 256
                        && r@[y * rowb + 4 * x2 + 1] == indices@[y * w + x2] / 256 % 256 && r@[y
                        * rowb + 4 * x2 + 2] == indices@[y * w + x2] / 0x1_0000 % 256 && r@[y
                        * rowb + 4 * x2 + 3] == indices@[y * w + x2] / 0x100_0000 % 256,
            decreases w - x,
        {
            let v: usize = indices[(y as usize) * (w as usize) + (x as usize)];
            let ghost pre = r@;
            r.push((v % 256) as u8);
            r.push((v / 256 % 256) as u8);
            r.push((v / 0x1_0000 % 256) as u8);
            r.push((v / 0x100_0000 % 256) as u8);
            proof {
                assert(v == indices@[y * w + x] && v < 0x1_0000_0000);
                assert(v / 0x100_0000 % 256 == v / 0x100_0000);
                assert forall|x2: int, y2: int|
                    0 <= x2 < w && 0 <= y2 < y implies #[trigger] r@[y2 * rowb + 4 * x2]
                    == indices@[y2 * w + x2] % 256 && r@[y2 * rowb + 4 * x2 + 1] == indices@[y2
                    * w + x2] / 256 % 256 && r@[y2 * rowb + 4 * x2 + 2] == indices@[y2 * w + x2]
                    / 0x1_0000 % 256 && r@[y2 * rowb + 4 * x2 + 3] == indices@[y2 * w + x2]
                    / 0x100_0000 % 256 by {
                    lemma_word_pos_bound(y2, x2, y as int, rowb, w as int);
                    assert(pre[y2 * rowb + 4 * x2] == indices@[y2 * w + x2] % 256);
                    assert(pre[y2 * rowb + 4 * x2 + 1] == indices@[y2 * w + x2] / 256 % 256);
                    assert(pre[y2 * rowb + 4 * x2 + 2] == indices@[y2 * w + x2] / 0x1_0000 % 256);
                    assert(pre[y2 * rowb + 4 * x2 + 3] == indices@[y2 * w + x2] / 0x100_0000
                        % 256);
                    assert(y2 * rowb + 4 * x2 + 3 < pre.len());
                    assert(r@[y2 * rowb + 4 * x2] == pre[y2 * rowb + 4 * x2]);
                    assert(r@[y2 * rowb + 4 * x2 + 1] == pre[y2 * rowb + 4 * x2 + 1]);
                    assert(r@[y2 * rowb + 4 * x2 + 2] == pre[y2 * rowb + 4 * x2 + 2]);
                    assert(r@[y2 * rowb + 4 * x2 + 3] == pre[y2 * rowb + 4 * x2 + 3]);
                }
                assert forall|x2: int|
                    0 <= x2 < x + 1 implies #[trigger] r@[y * rowb + 4 * x2] == indices@[y * w
                    + x2] % 256 && r@[y * rowb + 4 * x2 + 1] == indices@[y * w + x2] / 256 % 256
                    && r@[y * rowb + 4 * x2 + 2] == indices@[y * w + x2] / 0x1_0000 % 256 && r@[y
                    * rowb + 4 * x2 + 3] == indices@[y * w + x2] / 0x100_0000 % 256 by {
                    if x2 < x {
                        assert(pre[y * rowb + 4 * x2] == indices@[y * w + x2] % 256);
                        assert(pre[y * rowb + 4 * x2 + 1] == indices@[y * w + x2] / 256 % 256);
                        assert(pre[y * rowb + 4 * x2 + 2] == indices@[y * w + x2] / 0x1_0000
                            % 256);
                        assert(pre[y * rowb + 4 * x2 + 3] == indices@[y * w + x2] / 0x100_0000
                            % 256);
                        assert(y * rowb + 4 * x2 + 3 < pre.len());
                        assert(r@[y * rowb + 4 * x2] == pre[y * rowb + 4 * x2]);
                        assert(r@[y * rowb + 4 * x2 + 1] == pre[y * rowb + 4 * x2 + 1]);
                        assert(r@[y * rowb + 4 * x2 + 2] == pre[y * rowb + 4 * x2 + 2]);
                        assert(r@[y * rowb + 4 * x2 + 3] == pre[y * rowb + 4 * x2 + 3]);
                    } else {
                        assert(r@[y * rowb + 4 * (x as int)] == indices@[y * w + x] % 256);
                        assert(r@[y * rowb + 4 * (x as int) + 1] == indices@[y * w + x] / 256
                            % 256);
                        assert(r@[y * rowb + 4 * (x as int) + 2] == indices@[y * w + x]
                            / 0x1_0000 % 256);
                        assert(r@[y * rowb + 4 * (x as int) + 3] == indices@[y * w + x]
                            / 0x100_0000 % 256);
                    }
                }
            }
            x = x + 1;
        }
        proof {
            assert forall|x2: int, y2: int|
                0 <= x2 < w && 0 <= y2 < y + 1 implies #[trigger] r@[y2 * rowb + 4 * x2]
                == indices@[y2 * w + x2] % 256 && r@[y2 * rowb + 4 * x2 + 1] == indices@[y2 * w
                + x2] / 256 % 256 && r@[y2 * rowb + 4 * x2 + 2] == indices@[y2 * w + x2]
                / 0x1_0000 % 256 && r@[y2 * rowb + 4 * x2 + 3] == indices@[y2 * w + x2]
                / 0x100_0000 % 256 by {
                if y2 == y {
                    assert(r@[y * rowb + 4 * x2] == indices@[y * w + x2] % 256);
                    assert(r@[y * rowb + 4 * x2 + 1] == indices@[y * w + x2] / 256 % 256);
                    assert(r@[y * rowb + 4 * x2 + 2] == indices@[y * w + x2] / 0x1_0000 % 256);
                    assert(r@[y * rowb + 4 * x2 + 3] == indices@[y * w + x2] / 0x100_0000 % 256);
                }
            }
        }
        y = y + 1;
    }
    proof {
        assert(r@.len() == h * rowb);
    }
    r
}

/// Bytes of earlier rows sit strictly below the current row's start (32-bit
/// rows).
proof fn lemma_word_pos_bound(y2: int, x2: int, y: int, rowb: int, w: int)
    requires
        0 <= y2 < y,
        0 <= x2 < w,
        rowb >= 4 * w,
    ensures
        0 <= y2 * rowb + 4 * x2,
        y2 * rowb + 4 * x2 + 3 < y * rowb,
{
    assert(0 <= y2 * rowb + 4 * x2 && y2 * rowb + 4 * x2 + 3 < y * rowb) by (nonlinear_arith)
        requires
            0 <= y2 < y,
            0 <= x2 < w,
            rowb >= 4 * w,
            w >= 1,
    ;
}

/// Bytes of earlier rows sit strictly below the current row's start.
proof fn lemma_row_pos_bound(y2: int, x2: int, y: int, rowb: int, w: int)
    requires
        0 <= y2 < y,
        0 <= x2 < w,
        rowb >= 2 * w,
    ensures
        0 <= y2 * rowb + 2 * x2,
        y2 * rowb + 2 * x2 + 1 < y * rowb,
{
    assert(0 <= y2 * rowb + 2 * x2 && y2 * rowb + 2 * x2 + 1 < y * rowb) by (nonlinear_arith)
        requires
            0 <= y2 < y,
            0 <= x2 < w,
            rowb >= 2 * w,
            w >= 1,
    ;
}

/// The word list gathered from a payload is the payload's spec word
/// sequence.
proof fn lemma_word_seq_of(words: Seq<u64>, pdata: Seq<u8>)
    requires
        words.len() == pdata.len() / 8,
        forall|i: int|
            0 <= i < words.len() ==> #[trigger] words[i] == spec_pixel_word(pdata, i),
    ensures
        words == spec_word_seq(pdata),
{
    assert forall|i: int| 0 <= i < words.len() implies words[i] == spec_word_seq(pdata)[i] by {
        assert(8 * i + 8 <= pdata.len()) by (nonlinear_arith)
            requires
                0 <= i < pdata.len() / 8,
                pdata.len() == 8 * (pdata.len() / 8) + pdata.len() % 8,
                0 <= pdata.len() % 8,
        ;
        lemma_pixel_bytes_roundtrip(pdata, i);
    }
    assert(words =~= spec_word_seq(pdata));
}

/// Whether the size comparison picks the indexed layout for a pixel
/// payload: the padded palette rectangle plus one 16- or 32-bit index per
/// pixel must undercut the raw eight bytes per pixel.
pub open spec fn spec_indexed_chosen(pdata: Seq<u8>) -> bool {
    let k = spec_distinct_word_count(pdata);
    let n = pdata.len() / 8;
    let px = spec_ceil_sqrt(k);
    let py = if px == 0 {
        0int
    } else {
        (k + px - 1) / px
    };
    let upc = px * py;
    upc * 8 + n * (if upc < 65536 {
        2int
    } else {
        4int
    }) < n * 8
}

/// Palette slot `j` of a padded palette payload holds the bytes of some
/// pixel of an `n`-pixel payload.
pub open spec fn palette_slot_from_pixels(payload: Seq<u8>, j: int, n: int, pdata: Seq<u8>) -> bool {
    exists|p: int|
        #![trigger pdata.subrange(8 * p, 8 * p + 8)]
        0 <= p < n && payload.subrange(8 * j, 8 * j + 8) == pdata.subrange(8 * p, 8 * p + 8)
}

/// The stored palette and index images are an exact indexed encoding of a
/// `w` by `h` pixel payload with `k` distinct values: the first `k` palette
/// slots are pairwise distinct and each holds some pixel's bytes, every
/// slot beyond them is zero padding, and every stored index falls under
/// `k`.
pub open spec fn indexed_payload_exact(
    v: LoadedView,
    k: int,
    w: int,
    h: int,
    pdata: Seq<u8>,
) -> bool {
    &&& 1 <= k
    &&& 8 * k <= v.pixels_data.len()
    &&& forall|i: int, j: int|
        0 <= i < j < k ==> #[trigger] v.pixels_data.subrange(8 * i, 8 * i + 8)
            != #[trigger] v.pixels_data.subrange(8 * j, 8 * j + 8)
    &&& forall|j: int|
        0 <= j < k ==> #[trigger] palette_slot_from_pixels(v.pixels_data, j, w * h, pdata)
    &&& forall|b: int| 8 * k <= b < v.pixels_data.len() ==> #[trigger] v.pixels_data[b] == 0
    &&& forall|x: int, y: int|
        0 <= x < w && 0 <= y < h ==> #[trigger] spec_index_at(v, x, y) < k
}

/// How the payload kept in the archive relates to the input atlas: the
/// trim rectangle (an identity rectangle when packing is off) and the
/// cropped bytes, exactly as `pack_asset` characterizes them.
pub open spec fn packed_result(
    image: RgImage,
    grid: int,
    tile: int,
    pack: bool,
    off_x: int,
    off_y: int,
    cnt_x: int,
    cnt_y: int,
    pdata: Seq<u8>,
) -> bool {
    if pack {
        &&& col_used(image, tile, off_x)
        &&& forall|px: int| 0 <= px < off_x ==> !col_used(image, tile, px)
        &&& col_used(image, tile, off_x + cnt_x - 1)
        &&& forall|px: int| off_x + cnt_x <= px < tile ==> !col_used(image, tile, px)
        &&& row_used(image, tile, off_y)
        &&& forall|py: int| 0 <= py < off_y ==> !row_used(image, tile, py)
        &&& row_used(image, tile, off_y + cnt_y - 1)
        &&& forall|py: int| off_y + cnt_y <= py < tile ==> !row_used(image, tile, py)
        &&& 1 <= cnt_x && off_x + cnt_x <= tile && 0 <= off_x
        &&& 1 <= cnt_y && off_y + cnt_y <= tile && 0 <= off_y
        &&& pdata.len() == (grid * cnt_x) * (grid * cnt_y) * 8
        &&& forall|b: int|
            0 <= b < pdata.len() ==> pdata[b] == image.data@[crop_src_byte(
                image.width as int,
                tile,
                grid,
                off_x,
                cnt_x,
                off_y,
                cnt_y,
                b,
            )]
    } else {
        &&& off_x == 0 && off_y == 0 && cnt_x == tile && cnt_y == tile
        &&& pdata == image.data@
    }
}

/// Whether a loaded asset's index image holds 16-bit entries.
pub open spec fn spec_use_u16(v: LoadedView) -> bool {
    v.pixels_width * v.pixels_height < 65536
}

/// The palette index stored for pixel (x, y) of a loaded indexed asset.
pub open spec fn spec_index_at(v: LoadedView, x: int, y: int) -> int {
    if spec_use_u16(v) {
        le16_val(v.indices_data, y * (4 * v.indices_width) + 2 * x)
    } else {
        le32_val(v.indices_data, y * (4 * v.indices_width) + 4 * x)
    }
}

/// The palette and index images of a loaded asset expand to exactly the
/// pixel payload `out` of a `w` by `h` image: every index is in range and
/// selects the palette entry whose eight bytes are that pixel's bytes.
pub open spec fn expands_to(v: LoadedView, w: int, h: int, out: Seq<u8>) -> bool {
    &&& out.len() == w * h * 8
    &&& forall|x: int, y: int|
        0 <= x < w && 0 <= y < h ==> {
            let idx = #[trigger] spec_index_at(v, x, y);
            &&& 0 <= idx
            &&& 8 * idx + 8 <= v.pixels_data.len()
            &&& out.subrange(8 * (y * w + x), 8 * (y * w + x) + 8) == v.pixels_data.subrange(
                8 * idx,
                8 * idx + 8,
            )
        }
}

/// A sequence of distinct values drawn from another sequence is no longer
/// than it.
proof fn lemma_palette_len_bound(palette: Seq<u64>, words: Seq<u64>)
    requires
        forall|i: int, j: int|
            0 <= i < j < palette.len() ==> #[trigger] palette[i] != #[trigger] palette[j],
        forall|i: int| 0 <= i < palette.len() ==> words.contains(#[trigger] palette[i]),
    ensures
        palette.len() <= words.len(),
{
    broadcast use vstd::seq_lib::group_seq_properties;

    assert(palette.no_duplicates());
    palette.unique_seq_to_set();
    words.lemma_cardinality_of_set();
    assert(palette.to_set().subset_of(words.to_set()));
    vstd::set_lib::lemma_len_subset(palette.to_set(), words.to_set());
}

/// The square-ish palette grid: with `px` the ceiling square root of the
/// palette size and `py` the rows needed at that width, the grid holds the
/// palette, wastes less than one row, and the loader's recomputation from
/// the padded byte count lands on the same `px` and `py`.
proof fn lemma_palette_grid(k: int, px: int, py: int)
    requires
        k >= 1,
        is_ceil_sqrt(k, px),
        py == (k + px - 1) / px,
    ensures
        1 <= px,
        1 <= py <= px,
        k <= px * py <= k + px - 1,
        is_ceil_sqrt(px * py, px),
        (8 * (px * py) + 8 * px - 1) / (8 * px) == py,
{
    vstd::arithmetic::div_mod::lemma_fundamental_div_mod(k + px - 1, px);
    let rr = (k + px - 1) % px;
    assert(k + px - 1 == px * py + rr);
    assert(k <= px * py <= k + px - 1);
    assert(py <= px) by (nonlinear_arith)
        requires
            k <= px * px,
            px >= 1,
            px * py <= k + px - 1,
    ;
    assert(py >= 1) by (nonlinear_arith)
        requires
            px * py >= k,
            k >= 1,
            px >= 1,
    ;
    assert((px - 1) * (px - 1) < px * py && px * py <= px * px) by (nonlinear_arith)
        requires
            (px - 1) * (px - 1) < k,
            k <= px * py,
            1 <= py <= px,
            px >= 1,
    ;
    assert(8 * (px * py) + 8 * px - 1 == (8 * px) * py + (8 * px - 1)) by (nonlinear_arith);
    vstd::arithmetic::div_mod::lemma_fundamental_div_mod_converse(
        8 * (px * py) + 8 * px - 1,
        8 * px,
        py,
        8 * px - 1,
    );
}


/// Trim stage of the writer: crop the atlas when packing is on, or keep it
/// whole with the identity rectangle.
fn prepare_packed(image: &RgImage, grid_size: u32, tile_size: u32, pack: bool) -> (r: Result<
    (RgImage, u32, u32, u32, u32),
    ImposterError,
>)
    requires
        image.wf(),
        grid_size >= 1,
        tile_size >= 1,
        image.width == grid_size * tile_size,
        image.height == image.width,
        image.width * image.height <= 0x1000_0000,
    ensures
        match r {
            Err(e) => e == ImposterError::EmptyTrim && pack && !any_used(*image),
            Ok(t) => {
                &&& packed_result(
                    *image,
                    grid_size as int,
                    tile_size as int,
                    pack,
                    t.1 as int,
                    t.2 as int,
                    t.3 as int,
                    t.4 as int,
                    t.0.data@,
                )
                &&& t.0.wf()
                &&& t.0.width == grid_size * t.3
                &&& t.0.height == grid_size * t.4
                &&& 1 <= t.3 <= tile_size
                &&& 1 <= t.4 <= tile_size
                &&& 1 <= t.0.width <= 0x1000_0000
                &&& 1 <= t.0.height <= 0x1000_0000
                &&& t.0.width * t.0.height <= 0x1000_0000
            },
        },
{
    proof {
        assert((tile_size as int) * (grid_size as int) == (grid_size as int) * (tile_size as int))
            by (nonlinear_arith);
        vstd::arithmetic::div_mod::lemma_fundamental_div_mod_converse(
            image.width as int,
            grid_size as int,
            tile_size as int,
            0,
        );
        assert(image.width >= 1 && image.width >= grid_size) by (nonlinear_arith)
            requires
                image.width == grid_size * tile_size,
                grid_size >= 1,
                tile_size >= 1,
        ;
    }
    let (packed, off_x, off_y, cnt_x, cnt_y): (RgImage, u32, u32, u32, u32) = if pack {
        match pack_asset(grid_size, image) {
            Ok(t) => {
                let (pi, off, cnt) = t;
                (pi, off.0, off.1, cnt.0, cnt.1)
            },
            Err(e) => {
                return Err(e);
            },
        }
    } else {
        let copy = RgImage {
            width: image.width,
            height: image.height,
            data: clone_bytes(&image.data),
        };
        (copy, 0, 0, tile_size, tile_size)
    };
    proof {
        assert(packed_result(
            *image,
            grid_size as int,
            tile_size as int,
            pack,
            off_x as int,
            off_y as int,
            cnt_x as int,
            cnt_y as int,
            packed.data@,
        ));
        assert(packed.width == grid_size * cnt_x && packed.height == grid_size * cnt_y
            && packed.wf());
        assert(packed.width * packed.height <= 0x1000_0000 && packed.width >= 1 && packed.height
            >= 1 && packed.width <= 0x1000_0000 && packed.height <= 0x1000_0000)
            by (nonlinear_arith)
            requires
                packed.width == grid_size * cnt_x,
                packed.height == grid_size * cnt_y,
                1 <= cnt_x <= tile_size,
                1 <= cnt_y <= tile_size,
                grid_size >= 1,
                image.width == grid_size * tile_size,
                image.height == image.width,
                image.width * image.height <= 0x1000_0000,
        ;
    }
    Ok((packed, off_x, off_y, cnt_x, cnt_y))
}

/// Indexing stage of the writer: build the palette and index payloads, and
/// when they are smaller than the raw payload by the exact byte comparison,
/// finish an archive holding them plus the given settings record. Yields
/// nothing when raw storage is at least as small.
#[verifier::rlimit(100)]
fn build_indexed_archive(
    packed: &RgImage,
    n_px: usize,
    sb: &Vec<u8>,
    Ghost(sv): Ghost<SettingsView>,
) -> (r: Option<Vec<u8>>)
    requires
        packed.wf(),
        1 <= packed.width,
        1 <= packed.height,
        packed.width * packed.height <= 0x1000_0000,
        n_px == packed.width * packed.height,
        spec_parse_settings(sb@) == Ok::<SettingsView, ImposterError>(sv),
        sv.packed_size_x * sv.grid_size == packed.width,
        sv.packed_size_y * sv.grid_size == packed.height,
    ensures
        match r {
            None => !spec_indexed_chosen(packed.data@),
            Some(bytes) => spec_load_asset(bytes@) is Ok && spec_indexed_chosen(packed.data@)
                && zip_entries(bytes@).dom().contains("settings.txt"@) && zip_entries(
                bytes@,
            )["settings.txt"@] == sb@ && ({
                let v = spec_load_asset(bytes@).unwrap();
                &&& v.settings == sv
                &&& v.indexed
                &&& expands_to(v, packed.width as int, packed.height as int, packed.data@)
                &&& indexed_payload_exact(
                    v,
                    spec_distinct_word_count(packed.data@),
                    packed.width as int,
                    packed.height as int,
                    packed.data@,
                )
            }),
        },
{
    let pw: u32 = packed.width;
    let ph: u32 = packed.height;
    proof {
        assert(pw <= 0x1000_0000 && ph <= 0x1000_0000) by (nonlinear_arith)
            requires
                pw == packed.width,
                ph == packed.height,
                packed.width * packed.height <= 0x1000_0000,
                packed.width >= 1,
                packed.height >= 1,
        ;
        assert(packed.data@.len() == n_px * 8 && n_px >= 1) by (nonlinear_arith)
            requires
                packed.data@.len() == packed.width * packed.height * 8,
                n_px == packed.width * packed.height,
                packed.width >= 1,
                packed.height >= 1,
        ;
        vstd::arithmetic::div_mod::lemma_fundamental_div_mod_converse(
            packed.data@.len() as int,
            8,
            n_px as int,
            0,
        );
    }
    let words = pixels_to_words(&packed.data);
    let palette = build_palette(&words);
    proof {
        lemma_palette_len_bound(palette@, words@);
        assert(palette@.len() >= 1) by {
            assert(palette@.contains(words@[0]));
        }
        assert(words@.len() == n_px);
    }
    let k: usize = palette.len();
    let px64: u64 = int_ceil_sqrt(k as u64);
    proof {
        assert(1 <= k <= 0x1000_0000);
        assert(1 <= px64 <= 0x8000) by (nonlinear_arith)
            requires
                is_ceil_sqrt(k as int, px64 as int),
                1 <= k <= 0x1000_0000,
        ;
    }
    let py64: u64 = (k as u64 + px64 - 1) / px64;
    proof {
        lemma_palette_grid(k as int, px64 as int, py64 as int);
    }
    let upc: u64 = px64 * py64;
    let use_u16: bool = upc < 65536;
    let total: u64 = upc * 8 + (n_px as u64) * (if use_u16 { 2 } else { 4 });
    let base: u64 = (n_px as u64) * 8;
    proof {
        lemma_word_seq_of(words@, packed.data@);
        lemma_palette_len_is_distinct_count(palette@, words@);
        assert(spec_distinct_word_count(packed.data@) == k);
        assert(spec_indexed_chosen(packed.data@) == (total < base));
    }
    if total >= base {
        return None;
    }
    let payload = palette_payload(&palette, upc);
    let indices = index_pixels(&words, &palette);
    let px32: u32 = px64 as u32;
    let py32: u32 = py64 as u32;
    proof {
        assert(payload@.len() == 4 * (2 * px64) * py64) by (nonlinear_arith)
            requires
                payload@.len() == upc * 8,
                upc == px64 * py64,
        ;
    }
    let ppng = png_encode_rgba(px32 * 2, py32, &payload);
    let iw: u32 = if use_u16 {
        (pw + 1) / 2
    } else {
        pw
    };
    proof {
        if use_u16 {
            vstd::arithmetic::div_mod::lemma_fundamental_div_mod(pw as int + 1, 2);
            assert(4 * iw == (if pw % 2 == 1 { 2 * pw + 2 } else { 2 * (pw as int) }))
                by (nonlinear_arith)
                requires
                    iw == (pw + 1) as int / 2,
                    pw + 1 == 2 * ((pw + 1) as int / 2) + (pw + 1) as int % 2,
                    0 <= (pw + 1) as int % 2 < 2,
                    pw >= 1,
            ;
        }
    }
    let ipayload = if use_u16 {
        proof {
            assert(forall|i: int| 0 <= i < indices@.len() ==> #[trigger] indices@[i] < 65536);
            assert((pw + 1) * ph * 2 <= 0x4100_0000) by (nonlinear_arith)
                requires
                    pw * ph <= 0x1000_0000,
                    1 <= pw,
                    1 <= ph <= 0x1000_0000,
            ;
        }
        index_payload_u16(&indices, pw, ph, iw)
    } else {
        proof {
            assert(forall|i: int|
                0 <= i < indices@.len() ==> #[trigger] indices@[i] < 0x1_0000_0000);
            assert(pw * ph * 4 <= 0x4000_0000) by (nonlinear_arith)
                requires
                    pw * ph <= 0x1000_0000,
            ;
        }
        index_payload_u32(&indices, pw, ph)
    };
    proof {
        assert(ipayload@.len() == 4 * (iw as int) * ph) by (nonlinear_arith)
            requires
                ipayload@.len() == ph * (4 * (iw as int)),
        ;
        assert(iw >= 1 && iw < 0x8000_0000 && ph < 0x8000_0000);
    }
    let ipng = png_encode_rgba(iw, ph, &ipayload);
    let mut writer = zip_writer_new();
    proof {
        lemma_entry_names_distinct();
    }
    zip_writer_add(&mut writer, "pixels.png", &ppng);
    zip_writer_add(&mut writer, "indices.png", &ipng);
    zip_writer_add(&mut writer, "settings.txt", &sb);
    let bytes = zip_writer_finish(writer);
    proof {
        let m = zip_entries(bytes@);
        assert(m.dom().contains("settings.txt"@) && m["settings.txt"@] == sb@);
        assert(m.dom().contains("indices.png"@) && m["indices.png"@] == ipng@);
        assert(m.dom().contains("pixels.png"@) && m["pixels.png"@] == ppng@);
        assert(zip_entry_readable(bytes@, "settings.txt"@));
        assert(zip_entry_readable(bytes@, "pixels.png"@));
        assert(zip_entry_readable(bytes@, "indices.png"@));
        if use_u16 {
        } else {
            assert forall|x: int, y: int|
                0 <= x < pw && 0 <= y < ph implies #[trigger] ipayload@[y * (4 * (iw as int)) + 4
                * x] == indices@[y * pw + x] % 256 && ipayload@[y * (4 * (iw as int)) + 4 * x + 1]
                == indices@[y * pw + x] / 256 % 256 && ipayload@[y * (4 * (iw as int)) + 4 * x
                + 2] == indices@[y * pw + x] / 0x1_0000 % 256 && ipayload@[y * (4 * (iw as int))
                + 4 * x + 3] == indices@[y * pw + x] / 0x100_0000 % 256 by {
                assert(ipayload@[y * (4 * (pw as int)) + 4 * x] == indices@[y * pw + x] % 256
                    && ipayload@[y * (4 * (pw as int)) + 4 * x + 1] == indices@[y * pw + x] / 256
                    % 256 && ipayload@[y * (4 * (pw as int)) + 4 * x + 2] == indices@[y * pw + x]
                    / 0x1_0000 % 256 && ipayload@[y * (4 * (pw as int)) + 4 * x + 3] == indices@[y
                    * pw + x] / 0x100_0000 % 256);
            }
        }
        lemma_write_indexed_loads(
            bytes@,
            sv,
            sb@,
            ppng@,
            ipng@,
            payload@,
            ipayload@,
            palette@,
            indices@,
            words@,
            packed.data@,
            pw as int,
            ph as int,
            px64 as int,
            py64 as int,
            iw as int,
            use_u16,
        );
    }
    Some(bytes)
}

/// Serialize an imposter to container bytes: optionally trim the tiles,
/// optionally palette-index the pixels when that is smaller by the exact
/// byte comparison, store the chosen payload as PNG entries, and append the
/// settings record.
///
/// On success the archive is self-describing: loading it back yields the
/// written settings verbatim, and a payload that reproduces the (trimmed)
/// atlas byte for byte — directly when raw, through the palette when
/// indexed. The only error is a trim that found no used pixel anywhere,
/// reported as `EmptyTrim` rather than aborting.
#[verifier::rlimit(100)]
pub fn write_asset(
    scale_token: &Vec<u8>,
    grid_size: u32,
    tile_size: u32,
    mode: GridMode,
    image: &RgImage,
    pack: bool,
    index: bool,
) -> (r: Result<Vec<u8>, ImposterError>)
    requires
        image.wf(),
        grid_size >= 1,
        tile_size >= 1,
        image.width == grid_size * tile_size,
        image.height == image.width,
        image.width * image.height <= 0x1000_0000,
        scale_token_wf(scale_token@),
        is_float_token(scale_token@),
    ensures
        match r {
            Err(e) => e == ImposterError::EmptyTrim && pack && !any_used(*image),
            Ok(bytes) => exists|off_x: int, off_y: int, cnt_x: int, cnt_y: int, pdata: Seq<u8>|
                {
                    &&& #[trigger] packed_result(
                        *image,
                        grid_size as int,
                        tile_size as int,
                        pack,
                        off_x,
                        off_y,
                        cnt_x,
                        cnt_y,
                        pdata,
                    )
                    &&& spec_load_asset(bytes@) is Ok
                    &&& zip_entries(bytes@).dom().contains("settings.txt"@)
                    &&& ({
                        let v = spec_load_asset(bytes@).unwrap();
                        &&& v.settings == (SettingsView {
                            grid_size: grid_size,
                            scale_token: scale_token@,
                            mode: mode,
                            base_tile_size: tile_size,
                            packed_offset_x: off_x as u32,
                            packed_offset_y: off_y as u32,
                            packed_size_x: cnt_x as u32,
                            packed_size_y: cnt_y as u32,
                        })
                        &&& zip_entries(bytes@)["settings.txt"@] == spec_settings_bytes(
                            v.settings,
                        )
                        &&& (!v.indexed ==> v.pixels_data == pdata)
                        &&& (v.indexed ==> expands_to(
                            v,
                            grid_size * cnt_x,
                            grid_size * cnt_y,
                            pdata,
                        ))
                        &&& (v.indexed ==> indexed_payload_exact(
                            v,
                            spec_distinct_word_count(pdata),
                            grid_size * cnt_x,
                            grid_size * cnt_y,
                            pdata,
                        ))
                        &&& v.indexed == (index && spec_indexed_chosen(pdata))
                    })
                },
        },
{
    let staged = match prepare_packed(image, grid_size, tile_size, pack) {
        Ok(t) => t,
        Err(e) => {
            return Err(e);
        },
    };
    let (packed, off_x, off_y, cnt_x, cnt_y) = staged;
    let pw: u32 = packed.width;
    let ph: u32 = packed.height;
    let n_px: usize = (pw as usize) * (ph as usize);
    let settings = AssetSettings {
        grid_size,
        scale_token: clone_bytes(scale_token),
        mode,
        base_tile_size: tile_size,
        packed_offset_x: off_x,
        packed_offset_y: off_y,
        packed_size_x: cnt_x,
        packed_size_y: cnt_y,
    };
    let sb = settings_to_bytes(&settings);
    proof {
        lemma_entry_names_distinct();
        lemma_settings_roundtrip(settings@);
        assert(settings@.packed_size_x * settings@.grid_size == pw && settings@.packed_size_y
            * settings@.grid_size == ph) by (nonlinear_arith)
            requires
                settings@.packed_size_x == cnt_x,
                settings@.packed_size_y == cnt_y,
                settings@.grid_size == grid_size,
                pw == grid_size * cnt_x,
                ph == grid_size * cnt_y,
        ;
    }
    if index {
        let maybe = build_indexed_archive(&packed, n_px, &sb, Ghost(settings@));
        match maybe {
            Some(bytes) => {
                proof {
                    assert(packed_result(
                        *image,
                        grid_size as int,
                        tile_size as int,
                        pack,
                        off_x as int,
                        off_y as int,
                        cnt_x as int,
                        cnt_y as int,
                        packed.data@,
                    ));
                    assert(grid_size * (cnt_x as int) == pw && grid_size * (cnt_y as int) == ph);
                }
                return Ok(bytes);
            },
            None => {},
        }
    }
    // raw payload
    proof {
        assert(packed.data@.len() == 4 * (2 * (pw as int)) * ph) by (nonlinear_arith)
            requires
                packed.data@.len() == packed.width * packed.height * 8,
                pw == packed.width,
                ph == packed.height,
        ;
        assert(2 * (pw as int) < 0x8000_0000 && ph < 0x8000_0000);
    }
    let tpng = png_encode_rgba(pw * 2, ph, &packed.data);
    let mut writer = zip_writer_new();
    zip_writer_add(&mut writer, "texture.png", &tpng);
    zip_writer_add(&mut writer, "settings.txt", &sb);
    let bytes = zip_writer_finish(writer);
    proof {
        reveal(spec_load_asset);
        let m = zip_entries(bytes@);
        let sv = settings@;
        assert(m.dom().contains("settings.txt"@) && m["settings.txt"@] == sb@);
        assert(m.dom().contains("texture.png"@) && m["texture.png"@] == tpng@);
        assert(zip_entry_readable(bytes@, "settings.txt"@));
        assert(zip_entry_readable(bytes@, "texture.png"@));
        assert(!m.dom().contains("pixels.png"@));
        assert(spec_load_asset(bytes@) is Ok);
        let v = spec_load_asset(bytes@).unwrap();
        assert(v.settings == sv && !v.indexed && v.pixels_data == packed.data@);
        assert(packed_result(
            *image,
            grid_size as int,
            tile_size as int,
            pack,
            off_x as int,
            off_y as int,
            cnt_x as int,
            cnt_y as int,
            packed.data@,
        ));
    }
    Ok(bytes)
}


/// An archive holding a palette image, an index image and the settings
/// record — laid out as the indexed branch of the writer builds them —
/// loads back with those settings, and its payload expands to the packed
/// pixels.
#[verifier::rlimit(100)]
#[verifier::spinoff_prover]
proof fn lemma_write_indexed_loads(
    bytes: Seq<u8>,
    sv: SettingsView,
    sb: Seq<u8>,
    ppng: Seq<u8>,
    ipng: Seq<u8>,
    payload: Seq<u8>,
    ipayload: Seq<u8>,
    palette: Seq<u64>,
    indices: Seq<usize>,
    words: Seq<u64>,
    pdata: Seq<u8>,
    pw: int,
    ph: int,
    px: int,
    py: int,
    iw: int,
    use_u16: bool,
)
    requires
        zip_entries(bytes).dom().contains("settings.txt"@),
        zip_entries(bytes)["settings.txt"@] == sb,
        zip_entry_readable(bytes, "settings.txt"@),
        zip_entries(bytes).dom().contains("pixels.png"@),
        zip_entries(bytes)["pixels.png"@] == ppng,
        zip_entry_readable(bytes, "pixels.png"@),
        zip_entries(bytes).dom().contains("indices.png"@),
        zip_entries(bytes)["indices.png"@] == ipng,
        zip_entry_readable(bytes, "indices.png"@),
        spec_parse_settings(sb) == Ok::<SettingsView, ImposterError>(sv),
        sv.packed_size_x * sv.grid_size == pw,
        sv.packed_size_y * sv.grid_size == ph,
        1 <= pw <= u32::MAX,
        1 <= ph <= u32::MAX,
        pw * ph <= 0x1000_0000,
        png_decode_of(ppng) == Some(((2 * px) as u32, py as u32, payload)),
        png_decode_of(ipng) == Some((iw as u32, ph as u32, ipayload)),
        payload.len() == px * py * 8,
        1 <= px <= 0x8000,
        1 <= py <= px,
        is_ceil_sqrt(px * py, px),
        (8 * (px * py) + 8 * px - 1) / (8 * px) == py,
        use_u16 == (px * py < 65536),
        iw == (if use_u16 { (pw + 1) / 2 } else { pw }),
        // palette and indices as built
        1 <= palette.len() <= 0x1000_0000,
        palette.len() <= px * py,
        px * py <= palette.len() + px - 1,
        forall|i: int, j: int|
            0 <= i < j < palette.len() ==> #[trigger] palette[i] != #[trigger] palette[j],
        forall|j: int| 0 <= j < palette.len() ==> words.contains(#[trigger] palette[j]),
        forall|j: int|
            0 <= j < palette.len() ==> payload.subrange(8 * j, 8 * j + 8) == word_bytes(
                #[trigger] palette[j],
            ),
        forall|b: int| 8 * palette.len() <= b < payload.len() ==> #[trigger] payload[b] == 0,
        indices.len() == words.len(),
        forall|i: int|
            0 <= i < indices.len() ==> #[trigger] indices[i] < palette.len() && palette[
                indices[i] as int] == words[i],
        words.len() == pw * ph,
        pdata.len() == pw * ph * 8,
        forall|i: int| 0 <= i < words.len() ==> #[trigger] words[i] == spec_pixel_word(pdata, i),
        // index payload layout over the 32-bit texel row stride
        (use_u16 ==> forall|x: int, y: int|
            0 <= x < pw && 0 <= y < ph ==> #[trigger] ipayload[y * (4 * iw) + 2 * x] == indices[y
                * pw + x] % 256 && ipayload[y * (4 * iw) + 2 * x + 1] == indices[y * pw + x]
                / 256),
        (!use_u16 ==> forall|x: int, y: int|
            0 <= x < pw && 0 <= y < ph ==> #[trigger] ipayload[y * (4 * iw) + 4 * x] == indices[y
                * pw + x] % 256 && ipayload[y * (4 * iw) + 4 * x + 1] == indices[y * pw + x] / 256
                % 256 && ipayload[y * (4 * iw) + 4 * x + 2] == indices[y * pw + x] / 0x1_0000
                % 256 && ipayload[y * (4 * iw) + 4 * x + 3] == indices[y * pw + x] / 0x100_0000
                % 256),
        (use_u16 ==> forall|i: int| 0 <= i < indices.len() ==> #[trigger] indices[i] < 65536),
    ensures
        spec_load_asset(bytes) is Ok,
        ({
            let v = spec_load_asset(bytes).unwrap();
            &&& v.settings == sv
            &&& v.indexed
            &&& expands_to(v, pw, ph, pdata)
            &&& indexed_payload_exact(v, palette.len() as int, pw, ph, pdata)
        }),
{
    reveal(spec_load_asset);
    let m = zip_entries(bytes);
    // the loader recomputes the palette grid from the byte count
    let plen = payload.len() as int;
    assert(plen == px * py * 8);
    vstd::arithmetic::div_mod::lemma_fundamental_div_mod_converse(plen + 7, 8, px * py, 7);
    assert((plen + 7) / 8 == px * py);
    lemma_ceil_sqrt_unique(px * py, px);
    assert(spec_ceil_sqrt((plen + 7) / 8) == px);
    assert(8 * (px * py) + 8 * px - 1 == plen + 8 * px - 1);
    assert((plen + 8 * px - 1) / (8 * px) == py);
    assert(plen <= u32::MAX) by (nonlinear_arith)
        requires
            plen == px * py * 8,
            px * py <= palette.len() + px - 1,
            palette.len() <= 0x1000_0000,
            1 <= px <= 0x8000,
    ;
    assert(spec_load_asset(bytes) is Ok);
    let v = spec_load_asset(bytes).unwrap();
    assert(v.settings == sv && v.indexed);
    assert(v.pixels_data == payload && v.pixels_width == px && v.pixels_height == py);
    assert(v.indices_data == ipayload && v.indices_width == iw && v.indices_height == ph);
    assert(spec_use_u16(v) == use_u16);
    // every pixel expands back to its original bytes
    assert forall|x: int, y: int| 0 <= x < pw && 0 <= y < ph implies {
        let idx = #[trigger] spec_index_at(v, x, y);
        &&& 0 <= idx
        &&& idx < palette.len()
        &&& 8 * idx + 8 <= v.pixels_data.len()
        &&& pdata.subrange(8 * (y * pw + x), 8 * (y * pw + x) + 8) == v.pixels_data.subrange(
            8 * idx,
            8 * idx + 8,
        )
    } by {
        let i = y * pw + x;
        assert(0 <= i < pw * ph) by (nonlinear_arith)
            requires
                0 <= x < pw,
                0 <= y < ph,
                i == y * pw + x,
        ;
        let stored = indices[i] as int;
        assert(stored < palette.len() && palette[stored] == words[i]);
        let idx = spec_index_at(v, x, y);
        if use_u16 {
            assert(ipayload[y * (4 * iw) + 2 * x] == indices[i] % 256 && ipayload[y * (4 * iw)
                + 2 * x + 1] == indices[i] / 256);
            assert(idx == indices[i] % 256 + 256 * (indices[i] / 256));
            assert(indices[i] < 65536);
            vstd::arithmetic::div_mod::lemma_fundamental_div_mod(stored, 256);
            assert(idx == stored);
        } else {
            assert(ipayload[y * (4 * iw) + 4 * x] == indices[i] % 256 && ipayload[y * (4 * iw)
                + 4 * x + 1] == indices[i] / 256 % 256 && ipayload[y * (4 * iw) + 4 * x + 2]
                == indices[i] / 0x1_0000 % 256 && ipayload[y * (4 * iw) + 4 * x + 3] == indices[i]
                / 0x100_0000 % 256);
            lemma_le32_reassemble(stored);
            assert(idx == stored);
        }
        lemma_pixel_expand_one(payload, palette, words, pdata, pw, ph, px * py, i, stored);
        assert(pdata.subrange(8 * (y * pw + x), 8 * (y * pw + x) + 8) == v.pixels_data.subrange(
            8 * idx,
            8 * idx + 8,
        ));
    }
    assert(expands_to(v, pw, ph, pdata));
    let k = palette.len() as int;
    assert(8 * k <= payload.len()) by (nonlinear_arith)
        requires
            k == palette.len(),
            palette.len() <= px * py,
            payload.len() == px * py * 8,
    ;
    assert forall|i: int, j: int|
        0 <= i < j < k implies #[trigger] v.pixels_data.subrange(8 * i, 8 * i + 8)
        != #[trigger] v.pixels_data.subrange(8 * j, 8 * j + 8) by {
        assert(payload.subrange(8 * i, 8 * i + 8) == word_bytes(palette[i]));
        assert(payload.subrange(8 * j, 8 * j + 8) == word_bytes(palette[j]));
        if payload.subrange(8 * i, 8 * i + 8) == payload.subrange(8 * j, 8 * j + 8) {
            crate::palette::lemma_word_bytes_injective(palette[i], palette[j]);
        }
    }
    assert forall|j: int|
        0 <= j < k implies #[trigger] palette_slot_from_pixels(v.pixels_data, j, pw * ph, pdata) by {
        assert(words.contains(palette[j]));
        let p = choose|p: int| 0 <= p < words.len() && words[p] == palette[j];
        assert(8 * p + 8 <= pdata.len()) by (nonlinear_arith)
            requires
                0 <= p < pw * ph,
                pdata.len() == pw * ph * 8,
        ;
        lemma_pixel_bytes_roundtrip(pdata, p);
        assert(pdata.subrange(8 * p, 8 * p + 8) == word_bytes(words[p]));
        assert(v.pixels_data.subrange(8 * j, 8 * j + 8) == pdata.subrange(8 * p, 8 * p + 8));
    }
    assert forall|b: int| 8 * k <= b < v.pixels_data.len() implies #[trigger] v.pixels_data[b]
        == 0 by {
        assert(payload[b] == 0);
    }
    assert forall|x: int, y: int|
        0 <= x < pw && 0 <= y < ph implies #[trigger] spec_index_at(v, x, y) < k by {}
    assert(indexed_payload_exact(v, k, pw, ph, pdata));
}

/// One pixel of the packed payload equals the palette entry its stored
/// index selects, byte for byte.
proof fn lemma_pixel_expand_one(
    payload: Seq<u8>,
    palette: Seq<u64>,
    words: Seq<u64>,
    pdata: Seq<u8>,
    pw: int,
    ph: int,
    upc: int,
    i: int,
    stored: int,
)
    requires
        0 <= i < pw * ph,
        words.len() == pw * ph,
        pdata.len() == pw * ph * 8,
        0 <= stored < palette.len(),
        palette[stored] == words[i],
        palette.len() <= upc,
        payload.len() == upc * 8,
        forall|j: int|
            0 <= j < palette.len() ==> payload.subrange(8 * j, 8 * j + 8) == word_bytes(
                #[trigger] palette[j],
            ),
        forall|j: int| 0 <= j < words.len() ==> #[trigger] words[j] == spec_pixel_word(pdata, j),
    ensures
        8 * stored + 8 <= payload.len(),
        pdata.subrange(8 * i, 8 * i + 8) == payload.subrange(8 * stored, 8 * stored + 8),
{
    assert(8 * stored + 8 <= 8 * palette.len() && 8 * palette.len() <= payload.len())
        by (nonlinear_arith)
        requires
            0 <= stored < palette.len(),
            palette.len() <= upc,
            payload.len() == upc * 8,
    ;
    assert(payload.subrange(8 * stored, 8 * stored + 8) == word_bytes(palette[stored]));
    assert(8 * i + 8 <= pdata.len()) by (nonlinear_arith)
        requires
            0 <= i < pw * ph,
            pdata.len() == pw * ph * 8,
    ;
    lemma_pixel_bytes_roundtrip(pdata, i);
    assert(words[i] == spec_pixel_word(pdata, i));
}

/// A 32-bit value reassembles from its four little-endian bytes.
proof fn lemma_le32_reassemble(v: int)
    requires
        0 <= v < 0x1_0000_0000,
    ensures
        v % 256 + 256 * (v / 256 % 256) + 0x1_0000 * (v / 0x1_0000 % 256) + 0x100_0000 * (v
            / 0x100_0000 % 256) == v,
{
    vstd::arithmetic::div_mod::lemma_fundamental_div_mod(v, 256);
    vstd::arithmetic::div_mod::lemma_fundamental_div_mod(v / 256, 256);
    vstd::arithmetic::div_mod::lemma_fundamental_div_mod(v / 0x1_0000, 256);
    assert(v / 256 / 256 == v / 0x1_0000) by (nonlinear_arith)
        requires
            v >= 0,
            v / 256 >= 0,
            v == 256 * (v / 256) + v % 256,
            v / 256 == 256 * (v / 256 / 256) + (v / 256) % 256,
            0 <= v % 256 < 256,
            0 <= (v / 256) % 256 < 256,
    ;
    assert(v / 0x1_0000 / 256 == v / 0x100_0000) by (nonlinear_arith)
        requires
            v >= 0,
            v / 0x1_0000 >= 0,
            v == 0x1_0000 * (v / 0x1_0000) + v % 0x1_0000,
            v / 0x1_0000 == 256 * (v / 0x1_0000 / 256) + (v / 0x1_0000) % 256,
            0 <= v % 0x1_0000 < 0x1_0000,
            0 <= (v / 0x1_0000) % 256 < 256,
    ;
    assert(v / 0x100_0000 % 256 == v / 0x100_0000) by (nonlinear_arith)
        requires
            0 <= v < 0x1_0000_0000,
    ;
}

} // verus!
