use imgviewer::{
    command_for_key, crop, decode_strategy, fit_ratio, is_supported_extension, navigate,
    navigate_index, pack_heif_plane, pack_interleaved, position_of, step_index, tile_count,
    tile_image, tile_rects, Command, DecodeStrategy, Direction, Key, RasterImage, Rotation,
    Session, TileRect,
};

fn rect(x: u32, y: u32, w: u32, h: u32) -> TileRect {
    TileRect { x, y, w, h }
}

fn album(names: &[&str]) -> Vec<String> {
    names.iter().map(|s| s.to_string()).collect()
}

fn gradient(width: u32, height: u32) -> RasterImage {
    let mut bytes = Vec::new();
    for y in 0..height {
        for x in 0..width {
            bytes.push(x as u8);
            bytes.push(y as u8);
            bytes.push(7);
            bytes.push(255);
        }
    }
    RasterImage::from_rgba(width, height, bytes).unwrap()
}

#[test]
fn tiles_of_4000_by_3000_at_2048() {
    let tiles = tile_rects(4000, 3000, 2048);
    assert_eq!(
        tiles,
        vec![
            rect(0, 0, 2048, 2048),
            rect(2048, 0, 1952, 2048),
            rect(0, 2048, 2048, 952),
            rect(2048, 2048, 1952, 952),
        ]
    );
}

#[test]
fn tile_count_is_product_of_rounded_up_quotients() {
    assert_eq!(tile_count(4000, 3000, 2048), 4);
    assert_eq!(tile_count(4096, 2048, 2048), 2);
    assert_eq!(tile_count(4097, 1, 2048), 3);
    assert_eq!(tile_count(0, 100, 2048), 0);
    assert_eq!(tile_count(u32::MAX, u32::MAX, 1), (u32::MAX as u64) * (u32::MAX as u64));
    assert_eq!(tile_rects(4097, 1, 2048).len() as u64, tile_count(4097, 1, 2048));
}

#[test]
fn image_smaller_than_limit_is_one_tile() {
    assert_eq!(tile_rects(10, 20, 2048), vec![rect(0, 0, 10, 20)]);
}

#[test]
fn exact_multiple_has_no_empty_tiles() {
    let tiles = tile_rects(4096, 2048, 2048);
    assert_eq!(tiles, vec![rect(0, 0, 2048, 2048), rect(2048, 0, 2048, 2048)]);
}

#[test]
fn empty_image_has_no_tiles() {
    assert!(tile_rects(0, 0, 16).is_empty());
    assert!(tile_rects(5, 0, 16).is_empty());
}

#[test]
fn tiles_partition_image_on_many_sizes() {
    for &(w, h, l) in &[(7u32, 5u32, 3u32), (6, 6, 3), (2, 9, 4), (1, 1, 1), (13, 4, 13), (4, 13, 5)] {
        let tiles = tile_rects(w, h, l);
        let mut hits = vec![0u32; (w * h) as usize];
        for t in &tiles {
            assert!(t.w > 0 && t.h > 0 && t.w <= l && t.h <= l);
            assert!(t.x + t.w <= w && t.y + t.h <= h);
            for y in t.y..t.y + t.h {
                for x in t.x..t.x + t.w {
                    hits[(y * w + x) as usize] += 1;
                }
            }
        }
        assert!(hits.iter().all(|&n| n == 1), "{}x{} at {}", w, h, l);
        let cols = (w + l - 1) / l;
        let rows = (h + l - 1) / l;
        assert_eq!(tiles.len() as u32, cols * rows);
    }
}

#[test]
fn tile_pixels_are_the_covered_pixels() {
    let img = gradient(5, 3);
    let tiles = tile_image(&img, 2);
    assert_eq!(tiles.len(), 6);
    let last = &tiles[5];
    assert_eq!(last.rect, rect(4, 2, 1, 1));
    assert_eq!(last.rgba, vec![4, 2, 7, 255]);
    let second = &tiles[1];
    assert_eq!(second.rect, rect(2, 0, 2, 2));
    assert_eq!(second.rgba, vec![2, 0, 7, 255, 3, 0, 7, 255, 2, 1, 7, 255, 3, 1, 7, 255]);
}

#[test]
fn crop_drops_pixels_outside_rect() {
    let img = gradient(4, 4);
    assert_eq!(crop(&img, rect(1, 2, 2, 1)), vec![1, 2, 7, 255, 2, 2, 7, 255]);
    assert!(crop(&img, rect(1, 2, 2, 0)).is_empty());
}

#[test]
fn raster_rejects_wrong_length() {
    assert!(RasterImage::from_rgba(2, 2, vec![0; 15]).is_none());
    assert!(RasterImage::from_rgba(2, 2, vec![0; 16]).is_some());
}

#[test]
fn pack_interleaved_strips_row_padding() {
    // two rows of one pixel each, rows 6 bytes apart
    let data = vec![1, 2, 3, 4, 0, 0, 5, 6, 7, 8, 0, 0];
    assert_eq!(pack_interleaved(&data, 6, 1, 2), vec![1, 2, 3, 4, 5, 6, 7, 8]);
    // no padding: unchanged
    let tight = vec![1, 2, 3, 4, 5, 6, 7, 8];
    assert_eq!(pack_interleaved(&tight, 4, 1, 2), tight);
}

#[test]
fn four_quarter_turns_restore_orientation() {
    let mut r = Rotation::new();
    for start in 0..4u8 {
        assert_eq!(r.steps(), start);
        let before = r.effective_size(4000, 3000);
        for _ in 0..4 {
            r.rotate_cw();
        }
        assert_eq!(r.steps(), start);
        assert_eq!(r.effective_size(4000, 3000), before);
        r.rotate_cw();
    }
}

#[test]
fn quarter_turn_swaps_effective_size() {
    let mut r = Rotation::new();
    assert!(!r.is_sideways());
    assert_eq!(r.effective_size(4000, 3000), (4000, 3000));
    r.rotate_cw();
    assert!(r.is_sideways());
    assert_eq!(r.steps(), 1);
    assert_eq!(r.effective_size(4000, 3000), (3000, 4000));
    r.rotate_cw();
    assert_eq!(r.effective_size(4000, 3000), (4000, 3000));
    r.rotate_cw();
    r.rotate_cw();
    assert_eq!(r.steps(), 0);
}

#[test]
fn rotate_vec_turns_clockwise() {
    let mut r = Rotation::new();
    assert_eq!(r.rotate_vec(3, 1), (3, 1));
    r.rotate_cw();
    assert_eq!(r.rotate_vec(3, 1), (-1, 3));
    r.rotate_cw();
    assert_eq!(r.rotate_vec(3, 1), (-3, -1));
    r.rotate_cw();
    assert_eq!(r.rotate_vec(3, 1), (1, -3));
}

#[test]
fn fit_ratio_picks_constraining_axis() {
    // width constrains: 1920/4000 < 1080/2000
    assert_eq!(fit_ratio(1920, 1080, 4000, 2000), (1920, 4000));
    // height constrains: 1080/3000 < 1920/4000
    assert_eq!(fit_ratio(1920, 1080, 4000, 3000), (1080, 3000));
    // sideways image: 1080/4000 < 1920/3000
    assert_eq!(fit_ratio(1920, 1080, 3000, 4000), (1080, 4000));
    let (n, d) = fit_ratio(1920, 1080, 4000, 3000);
    assert!((n as u64) * 4000 <= 1920 * (d as u64));
    assert!((n as u64) * 3000 == 1080 * (d as u64));
}

#[test]
fn navigate_from_middle_of_album() {
    let a = album(&["a.png", "b.png", "c.png"]);
    let cur = "b.png".to_string();
    assert_eq!(navigate(&a, &cur, Direction::Next), Some("c.png".to_string()));
    assert_eq!(navigate(&a, &cur, Direction::Previous), Some("a.png".to_string()));
}

#[test]
fn navigate_wraps_around_ends() {
    let a = album(&["a.png", "b.png", "c.png"]);
    assert_eq!(navigate_index(&a, &"c.png".to_string(), Direction::Next), Some(0));
    assert_eq!(navigate_index(&a, &"a.png".to_string(), Direction::Previous), Some(2));
    assert_eq!(step_index(2, 3, Direction::Next), 0);
    assert_eq!(step_index(0, 3, Direction::Previous), 2);
    assert_eq!(step_index(0, 1, Direction::Next), 0);
    assert_eq!(step_index(0, 1, Direction::Previous), 0);
}

#[test]
fn navigate_from_missing_path_is_none() {
    let a = album(&["a.png", "b.png"]);
    assert_eq!(navigate(&a, &"z.png".to_string(), Direction::Next), None);
    assert_eq!(navigate(&Vec::new(), &"a.png".to_string(), Direction::Previous), None);
    assert_eq!(position_of(&a, &"b.png".to_string()), Some(1));
}

#[test]
fn supported_extensions_ignore_case() {
    for ext in ["jpg", "JPEG", "png", "WebP", "bmp", "gif", "HEIC", "heif", "tiff", "Tga"] {
        assert!(is_supported_extension(ext), "{}", ext);
    }
    for ext in ["", "txt", "jp", "jpgg", "tif", "pn g"] {
        assert!(!is_supported_extension(ext), "{}", ext);
    }
}

#[test]
fn heif_family_uses_its_own_decoder() {
    assert_eq!(decode_strategy("heic"), DecodeStrategy::HeicFamily);
    assert_eq!(decode_strategy("HEIF"), DecodeStrategy::HeicFamily);
    assert_eq!(decode_strategy("png"), DecodeStrategy::Generic);
    assert_eq!(decode_strategy(""), DecodeStrategy::Generic);
}

#[test]
fn heif_plane_is_packed_or_refused() {
    let data = vec![1, 2, 3, 4, 9, 5, 6, 7, 8, 9];
    let img = pack_heif_plane(&data, 5, 1, 2).unwrap();
    assert_eq!((img.width, img.height), (1, 2));
    assert_eq!(img.rgba, vec![1, 2, 3, 4, 5, 6, 7, 8]);
    // rows closer than a row's length overlap, and are copied as they stand
    assert_eq!(pack_heif_plane(&data, 2, 1, 2).unwrap().rgba, vec![1, 2, 3, 4, 3, 4, 9, 5]);
    // plane too short for its last row
    assert!(pack_heif_plane(&data, 5, 1, 3).is_none());
    // an empty image needs no bytes
    assert!(pack_heif_plane(&Vec::new(), 0, 0, 0).unwrap().rgba.is_empty());
}

#[test]
fn keys_map_to_commands() {
    assert_eq!(command_for_key(Key::ArrowRight), Command::Navigate(Direction::Next));
    assert_eq!(command_for_key(Key::ArrowLeft), Command::Navigate(Direction::Previous));
    assert_eq!(command_for_key(Key::Escape), Command::Exit);
    assert_eq!(command_for_key(Key::R), Command::Rotate);
    assert_eq!(command_for_key(Key::F), Command::ToggleFit);
}

#[test]
fn session_resets_on_new_image() {
    let mut s = Session::new(album(&["a.png", "b.png", "c.png"]), "c.png".to_string());
    assert_eq!(s.target(Direction::Next), Some("a.png".to_string()));
    s.rotate_cw();
    assert_eq!(s.rotation.steps(), 1);
    assert!(!s.take_fit(false));
    assert!(s.needs_fit);
    assert!(s.take_fit(true));
    assert!(!s.take_fit(true));
    s.apply_loaded("a.png".to_string());
    assert_eq!(s.current, "a.png");
    assert_eq!(s.rotation.steps(), 0);
    assert!(s.needs_fit);
    assert_eq!(s.target(Direction::Previous), Some("c.png".to_string()));
}
