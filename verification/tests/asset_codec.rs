use boimp::codec::{load_asset, write_asset, LoadedImposter};
use boimp::image_data::RgImage;
use boimp::pack::pack_asset;
use boimp::palette::{build_palette, expand_indexed, index_pixels, pixels_to_words};
use boimp::settings::{
    parse_settings, parse_u32_token, scale_token_is_float, settings_to_bytes, AssetSettings,
};
use boimp::GridMode;
use boimp::ImposterError;

fn image(width: u32, height: u32) -> RgImage {
    RgImage { width, height, data: vec![0u8; (width * height * 8) as usize] }
}

fn set_pixel(img: &mut RgImage, x: u32, y: u32, word: u64) {
    let base = ((y * img.width + x) * 8) as usize;
    img.data[base..base + 8].copy_from_slice(&word.to_be_bytes());
}

fn expand(loaded: &LoadedImposter) -> Vec<u8> {
    let w = (loaded.settings.packed_size_x as u64 * loaded.settings.grid_size as u64) as usize;
    let h = (loaded.settings.packed_size_y as u64 * loaded.settings.grid_size as u64) as usize;
    let use_u16 = (loaded.pixels_width as u128) * (loaded.pixels_height as u128) < 65536;
    let stride = 4 * loaded.indices_width as usize;
    let mut out = Vec::new();
    for y in 0..h {
        for x in 0..w {
            let idx = if use_u16 {
                let p = y * stride + 2 * x;
                loaded.indices_data[p] as usize + 256 * loaded.indices_data[p + 1] as usize
            } else {
                let p = y * stride + 4 * x;
                u32::from_le_bytes([
                    loaded.indices_data[p],
                    loaded.indices_data[p + 1],
                    loaded.indices_data[p + 2],
                    loaded.indices_data[p + 3],
                ]) as usize
            };
            out.extend_from_slice(&loaded.pixels_data[8 * idx..8 * idx + 8]);
        }
    }
    out
}

fn scale_token(text: &str) -> Vec<u8> {
    text.as_bytes().to_vec()
}

#[test]
fn raw_round_trip_is_byte_identical() {
    let mut img = image(4, 4);
    for y in 0..4 {
        for x in 0..4 {
            set_pixel(&mut img, x, y, 0x1111_0000_0000_0001 + (y * 4 + x) as u64);
        }
    }
    let bytes =
        write_asset(&scale_token("1.5"), 2, 2, GridMode::Spherical, &img, false, false).unwrap();
    let loaded = load_asset(&bytes).unwrap();
    assert!(!loaded.indexed);
    assert_eq!(loaded.settings.grid_size, 2);
    assert_eq!(loaded.settings.scale_token, scale_token("1.5"));
    assert_eq!(loaded.settings.mode, GridMode::Spherical);
    assert_eq!(loaded.settings.base_tile_size, 2);
    assert_eq!(loaded.settings.packed_offset_x, 0);
    assert_eq!(loaded.settings.packed_offset_y, 0);
    assert_eq!(loaded.settings.packed_size_x, 2);
    assert_eq!(loaded.settings.packed_size_y, 2);
    assert_eq!(loaded.pixels_data, img.data);
    assert_eq!(loaded.pixels_width, 4);
    assert_eq!(loaded.pixels_height, 4);
    assert_eq!(loaded.vram_bytes, 4 * 4 * 8);
}

#[test]
fn indexed_round_trip_with_small_palette() {
    // two distinct pixel values: indexing wins and stores 16-bit indices
    let mut img = image(4, 4);
    for y in 0..4 {
        for x in 0..4 {
            let word = if (x + y) % 2 == 0 { 0xAAAA_BBBB_CCCC_DDDD } else { 0x1111_2222_3333_4444 };
            set_pixel(&mut img, x, y, word);
        }
    }
    let bytes =
        write_asset(&scale_token("2"), 1, 4, GridMode::Hemispherical, &img, false, true).unwrap();
    let loaded = load_asset(&bytes).unwrap();
    assert!(loaded.indexed);
    assert_eq!(loaded.settings.mode, GridMode::Hemispherical);
    assert!(
        (loaded.pixels_width as u128) * (loaded.pixels_height as u128) < 65536,
        "small palette should use 16-bit indices"
    );
    assert_eq!(expand(&loaded), img.data);
}

#[test]
fn indexed_round_trip_with_odd_width_rows() {
    // odd packed width: each 16-bit index row is padded to a texel boundary
    let mut img = image(3, 3);
    for y in 0..3 {
        for x in 0..3 {
            let word = if x == y { 0x0101_0101_0101_0101 } else { 0x0202_0202_0202_0202 };
            set_pixel(&mut img, x, y, word);
        }
    }
    let bytes =
        write_asset(&scale_token("1"), 1, 3, GridMode::Spherical, &img, false, true).unwrap();
    let loaded = load_asset(&bytes).unwrap();
    assert!(loaded.indexed);
    assert_eq!(loaded.indices_width, 2);
    assert_eq!(loaded.indices_height, 3);
    assert_eq!(expand(&loaded), img.data);
}

#[test]
fn indexed_round_trip_above_the_16_bit_threshold() {
    // more distinct pixels than 16-bit indices can address: the index image
    // must fall back to 32-bit entries and still round-trip
    let side = 512u32;
    let mut img = image(side, side);
    let total = (side * side) as u64;
    for i in 0..total {
        let word = if i < 70_000 { 0x0100_0000_0000_0000 + i } else { 0x0100_0000_0000_0000 };
        let x = (i % side as u64) as u32;
        let y = (i / side as u64) as u32;
        set_pixel(&mut img, x, y, word);
    }
    let bytes =
        write_asset(&scale_token("8"), 1, side, GridMode::Spherical, &img, false, true).unwrap();
    let loaded = load_asset(&bytes).unwrap();
    assert!(loaded.indexed);
    assert!(
        (loaded.pixels_width as u128) * (loaded.pixels_height as u128) >= 65536,
        "large palette should use 32-bit indices"
    );
    assert_eq!(expand(&loaded), img.data);
}

#[test]
fn large_palette_falls_back_to_raw() {
    // with every pixel distinct, indexing cannot win the size comparison
    let mut img = image(4, 4);
    for y in 0..4 {
        for x in 0..4 {
            set_pixel(&mut img, x, y, 0x2000_0000_0000_0000 + (y * 4 + x) as u64);
        }
    }
    let bytes =
        write_asset(&scale_token("1"), 2, 2, GridMode::Spherical, &img, false, true).unwrap();
    let loaded = load_asset(&bytes).unwrap();
    assert!(!loaded.indexed);
    assert_eq!(loaded.pixels_data, img.data);
}

#[test]
fn packing_trims_to_the_used_rectangle() {
    // grid 2, tile 4: each tile uses only local pixel (1, 2)
    let mut img = image(8, 8);
    for gy in 0..2 {
        for gx in 0..2 {
            set_pixel(&mut img, gx * 4 + 1, gy * 4 + 2, 0xDEAD_BEEF_0000_0001);
        }
    }
    let (packed, offset, size) = pack_asset(2, &img).unwrap();
    assert_eq!(offset, (1, 2));
    assert_eq!(size, (1, 1));
    assert_eq!(packed.width, 2);
    assert_eq!(packed.height, 2);
    assert_eq!(&packed.data[0..8], &0xDEAD_BEEF_0000_0001u64.to_be_bytes());
}

#[test]
fn packing_a_tight_image_is_identity() {
    // every border row and column is used, so packing keeps everything
    let mut img = image(8, 8);
    for y in 0..8 {
        for x in 0..8 {
            set_pixel(&mut img, x, y, 0x0303_0303_0303_0303);
        }
    }
    let (packed, offset, size) = pack_asset(2, &img).unwrap();
    assert_eq!(offset, (0, 0));
    assert_eq!(size, (4, 4));
    assert_eq!(packed.data, img.data);
}

#[test]
fn packing_an_empty_image_is_a_recoverable_error() {
    let img = image(8, 8);
    assert_eq!(pack_asset(2, &img).unwrap_err(), ImposterError::EmptyTrim);
}

#[test]
fn packed_metadata_round_trips_through_the_container() {
    // a packed tile smaller than the base tile loads with exactly the
    // written offset and size
    let mut img = image(8, 8);
    for gy in 0..2 {
        for gx in 0..2 {
            set_pixel(&mut img, gx * 4 + 1, gy * 4 + 1, 0x0F0F_0F0F_0F0F_0F0F);
            set_pixel(&mut img, gx * 4 + 2, gy * 4 + 3, 0x0E0E_0E0E_0E0E_0E0E);
        }
    }
    let bytes =
        write_asset(&scale_token("2.5"), 2, 4, GridMode::Horizontal, &img, true, false).unwrap();
    let loaded = load_asset(&bytes).unwrap();
    assert_eq!(loaded.settings.base_tile_size, 4);
    assert_eq!(loaded.settings.packed_offset_x, 1);
    assert_eq!(loaded.settings.packed_offset_y, 1);
    assert_eq!(loaded.settings.packed_size_x, 2);
    assert_eq!(loaded.settings.packed_size_y, 3);
    assert!(loaded.settings.packed_size_x < loaded.settings.base_tile_size);
    assert_eq!(loaded.pixels_width, 4);
    assert_eq!(loaded.pixels_height, 6);
    assert_eq!(loaded.settings.scale_token, scale_token("2.5"));
    assert_eq!(loaded.settings.mode, GridMode::Horizontal);
}

#[test]
fn packing_then_writing_an_empty_atlas_errors() {
    let img = image(8, 8);
    let r = write_asset(&scale_token("1"), 2, 4, GridMode::Spherical, &img, true, false);
    assert_eq!(r.unwrap_err(), ImposterError::EmptyTrim);
}

#[test]
fn palette_holds_each_distinct_value_once() {
    let mut img = image(4, 2);
    let values = [11u64, 22, 33, 11, 22, 11, 44, 33];
    for (i, &v) in values.iter().enumerate() {
        set_pixel(&mut img, (i % 4) as u32, (i / 4) as u32, v);
    }
    let words = pixels_to_words(&img.data);
    assert_eq!(words, vec![11u64, 22, 33, 11, 22, 11, 44, 33]);
    let palette = build_palette(&words);
    assert_eq!(palette, vec![11u64, 22, 33, 44]);
    let indices = index_pixels(&words, &palette);
    assert_eq!(indices.len(), words.len());
    for &ix in &indices {
        assert!(ix < palette.len());
    }
    let expanded = expand_indexed(&palette, &indices);
    assert_eq!(expanded, words);
}

#[test]
fn settings_record_round_trips() {
    let s = AssetSettings {
        grid_size: 8,
        scale_token: scale_token("0.30000001"),
        mode: GridMode::Hemispherical,
        base_tile_size: 64,
        packed_offset_x: 3,
        packed_offset_y: 4,
        packed_size_x: 60,
        packed_size_y: 59,
    };
    let bytes = settings_to_bytes(&s);
    assert_eq!(
        bytes,
        "8 0.30000001 hemispherical 64 3 4 60 59".as_bytes().to_vec()
    );
    let parsed = parse_settings(&bytes).unwrap();
    assert_eq!(parsed.grid_size, 8);
    assert_eq!(parsed.scale_token, scale_token("0.30000001"));
    assert_eq!(parsed.mode, GridMode::Hemispherical);
    assert_eq!(parsed.base_tile_size, 64);
    assert_eq!(parsed.packed_offset_x, 3);
    assert_eq!(parsed.packed_offset_y, 4);
    assert_eq!(parsed.packed_size_x, 60);
    assert_eq!(parsed.packed_size_y, 59);
}

#[test]
fn settings_errors_are_distinct() {
    let bad_mode = "8 1.5 diagonal 64 0 0 64 64".as_bytes().to_vec();
    assert_eq!(parse_settings(&bad_mode).unwrap_err(), ImposterError::UnknownMode);
    let short = "8 1.5 spherical".as_bytes().to_vec();
    assert_eq!(parse_settings(&short).unwrap_err(), ImposterError::BadSettingsFormat);
    let bad_number = "8x 1.5 spherical 64 0 0 64 64".as_bytes().to_vec();
    assert_eq!(parse_settings(&bad_number).unwrap_err(), ImposterError::BadSettingsFormat);
    let empty_scale = "8  spherical 64 0 0 64 64".as_bytes().to_vec();
    assert_eq!(parse_settings(&empty_scale).unwrap_err(), ImposterError::BadSettingsFormat);
    // capital H is the one spelling the format uses for the horizontal mode
    let lower_h = "8 1.5 horizontal 64 0 0 64 64".as_bytes().to_vec();
    assert_eq!(parse_settings(&lower_h).unwrap_err(), ImposterError::UnknownMode);
}

#[test]
fn corrupt_entry_payload_is_a_missing_entry() {
    // a listed entry whose stored payload no longer matches its checksum
    // cannot be read back; the loader reports the entry as missing
    let mut img = image(2, 2);
    set_pixel(&mut img, 0, 0, 0x0707_0707_0707_0707);
    let mut bytes =
        write_asset(&scale_token("1"), 1, 2, GridMode::Spherical, &img, false, false).unwrap();
    let needle = b"spherical";
    let pos = bytes
        .windows(needle.len())
        .position(|window| window == needle)
        .expect("stored settings text should appear in the archive");
    bytes[pos] ^= 0x01;
    assert_eq!(load_asset(&bytes).unwrap_err(), ImposterError::MissingEntry);
}

#[test]
fn scale_tokens_follow_the_float_grammar() {
    for ok in ["1", "1.5", "1.", ".5", "+1.25e-3", "2E8", "inf", "Infinity", "NaN", "-0.0"] {
        assert!(scale_token_is_float(&ok.as_bytes().to_vec()), "{ok} should be accepted");
    }
    for bad in ["", "+", ".", "1.5x", "abc", "1e", "e5", "--1", "1.2.3", "in"] {
        assert!(!scale_token_is_float(&bad.as_bytes().to_vec()), "{bad} should be rejected");
    }
    // a non-float scale is a format error at parse time, not only at the host
    let bad_scale = "8 1.5x spherical 64 0 0 64 64".as_bytes().to_vec();
    assert_eq!(parse_settings(&bad_scale).unwrap_err(), ImposterError::BadSettingsFormat);
    let word_scale = "8 inf spherical 64 0 0 64 64".as_bytes().to_vec();
    assert!(parse_settings(&word_scale).is_ok());
}

#[test]
fn numeric_tokens_parse_like_std() {
    assert_eq!(parse_u32_token(&b"123".to_vec()), Some(123));
    assert_eq!(parse_u32_token(&b"+123".to_vec()), Some(123));
    assert_eq!(parse_u32_token(&b"0".to_vec()), Some(0));
    assert_eq!(parse_u32_token(&b"4294967295".to_vec()), Some(u32::MAX));
    assert_eq!(parse_u32_token(&b"4294967296".to_vec()), None);
    assert_eq!(parse_u32_token(&b"".to_vec()), None);
    assert_eq!(parse_u32_token(&b"+".to_vec()), None);
    assert_eq!(parse_u32_token(&b"12a".to_vec()), None);
    assert_eq!(parse_u32_token(&b"-1".to_vec()), None);
}

#[test]
fn containers_missing_entries_are_rejected() {
    let not_a_zip = vec![0u8, 1, 2, 3];
    assert_eq!(load_asset(&not_a_zip).unwrap_err(), ImposterError::MissingEntry);

    // an archive whose settings name an unknown mode fails before any image
    let mut w = zip::ZipWriter::new(std::io::Cursor::new(Vec::new()));
    let opts = zip::write::SimpleFileOptions::default()
        .compression_method(zip::CompressionMethod::Stored);
    w.start_file("settings.txt", opts).unwrap();
    std::io::Write::write_all(&mut w, b"4 1.5 diagonal 64 0 0 64 64").unwrap();
    let bytes = w.finish().unwrap().into_inner();
    assert_eq!(load_asset(&bytes).unwrap_err(), ImposterError::UnknownMode);

    // valid settings but no payload entry at all
    let mut w = zip::ZipWriter::new(std::io::Cursor::new(Vec::new()));
    w.start_file("settings.txt", opts).unwrap();
    std::io::Write::write_all(&mut w, b"4 1.5 spherical 64 0 0 64 64").unwrap();
    let bytes = w.finish().unwrap().into_inner();
    assert_eq!(load_asset(&bytes).unwrap_err(), ImposterError::MissingEntry);
}
