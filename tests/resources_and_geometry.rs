use slint_model::embedded_resources::{
    BitmapGlyph, BitmapGlyphs, CharacterMapEntry, PixelFormat, Size, Texture,
};
use slint_model::listview::{
    clamp_offset_y, content_height, initial_count, initial_offset, measured_height, min_height,
    next_window,
};
use slint_model::model::StandardListViewItem;

#[test]
fn empty_texture_is_one_transparent_pixel() {
    let t = Texture::new_empty();
    assert_eq!(t.total_size.width, 0);
    assert_eq!(t.total_size.height, 0);
    assert_eq!(t.rect.x(), 0);
    assert_eq!(t.rect.y(), 0);
    assert_eq!(t.rect.width(), 1);
    assert_eq!(t.rect.height(), 1);
    assert_eq!(t.data, vec![0, 0, 0, 0]);
    assert!(matches!(t.format, PixelFormat::Rgba));
}

#[test]
fn plain_resource_types() {
    let s = Size::default();
    assert_eq!((s.width, s.height), (0, 0));
    let g = BitmapGlyph::default();
    assert!(g.data.is_empty());
    let glyphs = BitmapGlyphs { pixel_size: 12, glyph_data: vec![g] };
    assert_eq!(glyphs.glyph_data.len(), 1);
    let e = CharacterMapEntry { code_point: 'a', glyph_index: 3 };
    assert_eq!(e.code_point, 'a');
    assert!(matches!(PixelFormat::AlphaMap([1, 2, 3]), PixelFormat::AlphaMap([1, 2, 3])));
    let item = StandardListViewItem { text: "hello".to_string() };
    assert_eq!(item.clone(), item);
    assert_eq!(StandardListViewItem::default().text, "");
}

#[test]
fn row_height_estimates() {
    assert_eq!(min_height(0, 10), 1);
    assert_eq!(min_height(7, 10), 7);
    assert_eq!(min_height(12, 10), 10);
    assert_eq!(measured_height(240, 10, 20, 4), 10);
    assert_eq!(measured_height(100, 10, 20, 4), 0);
    assert_eq!(measured_height(55, 3, 0, 0), 3);
}

#[test]
fn window_estimates() {
    assert_eq!(initial_count(35, 10, 1, 100), 4);
    assert_eq!(initial_count(30, 10, 1, 100), 3);
    assert_eq!(initial_count(30, 10, 6, 100), 6);
    assert_eq!(initial_count(500, 10, 1, 3), 3);
    assert_eq!(initial_offset(200, 10, 100, 4), 20);
    assert_eq!(initial_offset(200, 10, 22, 4), 18);
    assert_eq!(initial_offset(200, 0, 1000, 4), 200);
}

#[test]
fn scroll_position_is_clamped_to_the_content() {
    assert_eq!(clamp_offset_y(0, 10, 100, 35, 0), 0);
    assert_eq!(clamp_offset_y(-200, 10, 100, 35, 1000), 200);
    assert_eq!(clamp_offset_y(50, 10, 100, 35, 1000), 0);
    // Scrolled past the end: pulled back to the last full page.
    assert_eq!(clamp_offset_y(-990, 10, 100, 35, 1000), 965);
    // Content smaller than the viewport.
    assert_eq!(clamp_offset_y(-5, 10, 2, 35, 0), 0);
}

#[test]
fn window_grows_until_the_viewport_is_covered() {
    // 3 rows of 10 from row 0, viewport 35: one more row needed.
    assert_eq!(next_window(3, 0, 0, 30, 10, 35, 100), Some((4, 0, 0)));
    assert_eq!(next_window(4, 0, 0, 40, 10, 35, 100), None);
    // All rows shown already.
    assert_eq!(next_window(3, 0, 0, 30, 10, 35, 3), None);
    // Past the end: the window is moved back.
    assert_eq!(next_window(2, 8, 85, 100, 10, 35, 10), Some((4, 6, 65)));
    assert_eq!(content_height(10, 100, 240), 1000);
    assert_eq!(content_height(10, 3, 45), 45);
}
