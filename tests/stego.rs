use dwt::{
    embed_lsb, lsb_decode, lsb_encode, payload_perturbation, perturbation, tile_index, tile_modules,
    to_qrcode, PixelArray, StegoError, Watermark, FFT_STRENGTH, QR_MODULE_COUNT, QR_MODULE_SIZE,
};

fn gray_image(width: usize, height: usize, level: u8) -> PixelArray {
    PixelArray::new(width, height, 3, vec![level; width * height * 3]).unwrap()
}

#[test]
fn tile_index_values() {
    assert_eq!(tile_index(0, 0, 177), 0);
    assert_eq!(tile_index(178, 3, 177), 180);
    assert_eq!(tile_index(176, 176, 177), 177 * 177 - 1);
    assert_eq!(tile_index(354, 531, 177), 0);
    assert_eq!(tile_index(7, 9, 4), 3 * 4 + 1);
}

#[test]
fn tile_index_stays_in_range() {
    for m in 1..20usize {
        for x in 0..50usize {
            for y in 0..50usize {
                assert!(tile_index(x, y, m) < m * m);
            }
        }
    }
}

#[test]
fn qrcode_has_full_grid() {
    let grid = to_qrcode(b"HELLO").unwrap();
    assert_eq!(grid.len(), QR_MODULE_COUNT);
    assert_eq!(QR_MODULE_SIZE * QR_MODULE_SIZE, QR_MODULE_COUNT);
    // finder pattern corner is dark
    assert!(grid[0]);
    assert!(grid.iter().any(|b| !*b));
}

#[test]
fn qrcode_is_deterministic() {
    assert_eq!(to_qrcode(b"HELLO").unwrap(), to_qrcode(b"HELLO").unwrap());
    assert_ne!(to_qrcode(b"HELLO").unwrap(), to_qrcode(b"WORLD").unwrap());
}

#[test]
fn qrcode_of_empty_payload() {
    assert_eq!(to_qrcode(b"").unwrap().len(), QR_MODULE_COUNT);
}

#[test]
fn lsb_encode_empty_image() {
    let mut image = PixelArray::new(0, 5, 3, vec![]).unwrap();
    assert_eq!(lsb_encode(&mut image, b"x"), Ok(()));
    assert!(image.as_samples().is_empty());
    assert!(lsb_decode(&image).is_empty());
}

#[test]
fn qrcode_rejects_large_payload() {
    let data = vec![0xa5u8; 4000];
    assert_eq!(to_qrcode(&data), Err(StegoError::PayloadTooLarge));
}

#[test]
fn pixel_array_shape_errors() {
    assert!(matches!(PixelArray::new(2, 2, 4, vec![0; 16]), Err(StegoError::DimensionMismatch)));
    assert!(matches!(PixelArray::new(2, 2, 3, vec![0; 11]), Err(StegoError::DimensionMismatch)));
    assert!(matches!(PixelArray::new(usize::MAX, 2, 3, vec![]), Err(StegoError::DimensionMismatch)));
    let a = PixelArray::new(2, 3, 3, vec![7; 18]).unwrap();
    assert_eq!(a.width(), 2);
    assert_eq!(a.height(), 3);
    assert_eq!(a.as_samples().len(), 18);
}

#[test]
fn rgb_rows_layout() {
    // 2 wide, 3 high; pixel (x, y) has samples [10*y + x, 100 + x, 200 + y]
    let mut rows = Vec::new();
    for y in 0..3u8 {
        for x in 0..2u8 {
            rows.extend_from_slice(&[10 * y + x, 100 + x, 200 + y]);
        }
    }
    let a = PixelArray::from_rgb_rows(2, 3, &rows).unwrap();
    let s = a.as_samples();
    for x in 0..2usize {
        for y in 0..3usize {
            let i = (x * 3 + y) * 3;
            assert_eq!(s[i..i + 3], [10 * y as u8 + x as u8, 100 + x as u8, 200 + y as u8]);
        }
    }
    assert_eq!(a.to_rgb_rows(), rows);
    assert!(matches!(PixelArray::from_rgb_rows(2, 3, &rows[1..]), Err(StegoError::DimensionMismatch)));
}

#[test]
fn tiled_modules_repeat() {
    let grid = to_qrcode(b"tile").unwrap();
    let t = tile_modules(&grid, 200, 190);
    assert_eq!(t.len(), 200 * 190);
    for (x, y) in [(0usize, 0usize), (5, 180), (178, 2), (199, 189)] {
        assert_eq!(t[x * 190 + y], grid[tile_index(x, y, QR_MODULE_SIZE)]);
    }
    assert_eq!(t[178 * 190 + 2], grid[QR_MODULE_SIZE + 2]);
}

#[test]
fn lsb_encode_sets_low_bits_only() {
    let mut image = gray_image(200, 200, 0x80 | 0x01);
    lsb_encode(&mut image, b"HELLO").unwrap();
    let grid = to_qrcode(b"HELLO").unwrap();
    let s = image.as_samples();
    for x in 0..200usize {
        for y in 0..200usize {
            let bit = grid[tile_index(x, y, QR_MODULE_SIZE)] as u8;
            for c in 0..3 {
                assert_eq!(s[(x * 200 + y) * 3 + c], 0x80 | bit);
            }
        }
    }
}

#[test]
fn lsb_encode_too_large_leaves_image() {
    let mut image = gray_image(10, 10, 77);
    let data = vec![0xa5u8; 4000];
    assert_eq!(lsb_encode(&mut image, &data), Err(StegoError::PayloadTooLarge));
    assert!(image.as_samples().iter().all(|v| *v == 77));
}

#[test]
fn lsb_encode_is_deterministic() {
    let mut a = gray_image(180, 190, 0x37);
    let mut b = gray_image(180, 190, 0x37);
    lsb_encode(&mut a, b"same message").unwrap();
    lsb_encode(&mut b, b"same message").unwrap();
    assert_eq!(a.as_samples(), b.as_samples());
}

#[test]
fn lsb_decode_reads_red_low_bit() {
    let a = PixelArray::new(1, 3, 3, vec![1, 0, 0, 0, 1, 1, 255, 2, 2]).unwrap();
    assert_eq!(lsb_decode(&a), vec![255, 0, 255]);
}

#[test]
fn lsb_decode_returns_tiled_grid() {
    let mut image = gray_image(200, 200, 128);
    let grid = to_qrcode(b"HELLO").unwrap();
    embed_lsb(&mut image, &grid);
    let plane = lsb_decode(&image);
    let tiles = tile_modules(&grid, 200, 200);
    assert_eq!(plane.len(), 200 * 200);
    for p in 0..plane.len() {
        assert_eq!(plane[p], if tiles[p] { 255 } else { 0 });
    }
}

#[test]
fn perturbation_values() {
    let grid = to_qrcode(b"spectrum").unwrap();
    let w = perturbation(&grid, 180, 200);
    assert_eq!(w.len(), 180 * 200);
    for x in [0usize, 17, 176, 177, 179] {
        for y in [0usize, 3, 176, 199] {
            let want = if grid[tile_index(x, y, QR_MODULE_SIZE)] { FFT_STRENGTH } else { 0 };
            assert_eq!(w[x * 200 + y], want);
        }
    }
    assert_eq!(FFT_STRENGTH, 32);
    assert!(w.iter().all(|v| *v == 0 || *v == 32));
    assert_eq!(payload_perturbation(b"spectrum", 180, 200).unwrap(), w);
    assert_eq!(payload_perturbation(&vec![1u8; 4000], 4, 4), Err(StegoError::PayloadTooLarge));
}

#[test]
fn watermark_new_copies() {
    let w = Watermark::new(b"abc");
    assert_eq!(w.message, b"abc".to_vec());
}

#[test]
fn codewords_lengths() {
    for (n, want) in [(0usize, 0usize), (1, 33), (100, 132), (223, 255), (224, 255 + 33), (446, 510), (500, 510 + 54 + 32)] {
        let m: Vec<u8> = (0..n).map(|i| (i * 7 % 256) as u8).collect();
        assert_eq!(Watermark::new(&m).codewords().len(), want, "n = {}", n);
    }
}

#[test]
fn codewords_match_encoder() {
    let data = b"Hello World";
    let code = Watermark::new(data).codewords();
    let expected = reed_solomon::Encoder::new(32).encode(data);
    assert_eq!(code, expected.to_vec());
    assert_eq!(&code[..11], data);
    assert_ne!(&code[11..], &[0u8; 32]);
}

#[test]
fn codewords_decode_in_order() {
    for n in [1usize, 223, 300, 700] {
        let m: Vec<u8> = (0..n).map(|i| (i * 13 % 251) as u8).collect();
        let code = Watermark::new(&m).codewords();
        let decoder = reed_solomon::Decoder::new(32);
        let mut out = Vec::new();
        for block in code.chunks(255) {
            let mut damaged = block.to_vec();
            damaged[0] ^= 0xff;
            let fixed = decoder.correct(&damaged, None).unwrap();
            out.extend_from_slice(fixed.data());
        }
        assert_eq!(out, m);
        assert_eq!(Watermark::message_of_codewords(&code), Some(m));
    }
}

#[test]
fn message_of_short_codewords() {
    assert_eq!(Watermark::message_of_codewords(&[]), Some(vec![]));
    assert_eq!(Watermark::message_of_codewords(&[1u8; 32]), None);
    assert_eq!(Watermark::message_of_codewords(&[1u8; 287]), None);
    assert_eq!(Watermark::message_of_codewords(&[9u8; 40]), Some(vec![9u8; 8]));
}
