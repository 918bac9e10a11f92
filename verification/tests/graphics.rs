use edgecore_kernel::boot::BootInfo;
use edgecore_kernel::compositor::{draw_string, get_char_bitmap, to_ascii_upper, Canvas, Compositor, Rect, Span, Terminal, TERM_BG};
use edgecore_kernel::mouse::{clamp_to_screen, MouseDecoder, MouseEvent};
use edgecore_kernel::vga::{push_glyph_writes, PixelWrite, VgaWriter};

const WHITE: u32 = 0xFFFFFF;

fn boot_info(fb: u64, width: usize, height: usize, stride: usize) -> BootInfo {
    BootInfo {
        framebuffer_base: fb,
        framebuffer_size: height * stride * 4,
        width,
        height,
        stride,
        memory_map_size: 0,
        acpi2_rsdp_addr: 0,
        memory_map_addr: 0,
        memory_map_desc_size: 0,
    }
}

fn px(c: &Canvas, x: usize, y: usize) -> u32 {
    c.pixels[y * c.width + x]
}

#[test]
fn canvas_starts_filled() {
    let c = Canvas::new(1, 2, 3, 2, 7);
    assert_eq!((c.x, c.y, c.width, c.height), (1, 2, 3, 2));
    assert_eq!(c.pixels, vec![7; 6]);
}

#[test]
fn draw_pixel_sets_one_pixel_and_ignores_outside() {
    let mut c = Canvas::new(0, 0, 3, 2, 7);
    c.draw_pixel(2, 1, 9);
    assert_eq!(c.pixels, vec![7, 7, 7, 7, 7, 9]);
    c.draw_pixel(3, 0, 1);
    c.draw_pixel(0, 2, 1);
    assert_eq!(c.pixels, vec![7, 7, 7, 7, 7, 9]);
}

#[test]
fn fill_rect_is_clipped_to_the_canvas() {
    let mut c = Canvas::new(0, 0, 3, 2, 0);
    c.fill_rect(1, 0, 5, 5, 4);
    assert_eq!(c.pixels, vec![0, 4, 4, 0, 4, 4]);
    c.fill_rect(0, 1, 1, 1, 8);
    assert_eq!(c.pixels, vec![0, 4, 4, 8, 4, 4]);
    c.fill_rect(0, 0, 0, 2, 5);
    assert_eq!(c.pixels, vec![0, 4, 4, 8, 4, 4]);
}

#[test]
fn scroll_up_moves_rows_and_clears_the_bottom() {
    let mut c = Canvas::new(0, 0, 3, 3, 0);
    for i in 0..9 {
        c.pixels[i] = i as u32 + 1;
    }
    c.scroll_up(1, 0xAA);
    assert_eq!(c.pixels, vec![4, 5, 6, 7, 8, 9, 0xAA, 0xAA, 0xAA]);
    c.scroll_up(3, 0xBB);
    assert_eq!(c.pixels, vec![0xBB; 9]);
    c.scroll_up(0, 0xCC);
    assert_eq!(c.pixels, vec![0xBB; 9]);
}

#[test]
fn font_bitmaps() {
    assert_eq!(get_char_bitmap('A'), [0x18, 0x24, 0x42, 0x42, 0x7E, 0x42, 0x42, 0x00]);
    assert_eq!(get_char_bitmap('Z'), [0x7E, 0x04, 0x08, 0x10, 0x20, 0x40, 0x7E, 0x00]);
    assert_eq!(get_char_bitmap('1'), [0x18, 0x28, 0x08, 0x08, 0x08, 0x08, 0x3E, 0x00]);
    assert_eq!(get_char_bitmap(' '), [0; 8]);
    assert_eq!(get_char_bitmap('!'), [0x18, 0x18, 0x18, 0x18, 0x00, 0x18, 0x18, 0x00]);
    assert_eq!(get_char_bitmap('z'), [0xFF; 8]);
    assert_eq!(get_char_bitmap('#'), [0xFF; 8]);
}

#[test]
fn ascii_uppercase() {
    assert_eq!(to_ascii_upper('q'), 'Q');
    assert_eq!(to_ascii_upper('a'), 'A');
    assert_eq!(to_ascii_upper('z'), 'Z');
    assert_eq!(to_ascii_upper('Q'), 'Q');
    assert_eq!(to_ascii_upper('1'), '1');
    assert_eq!(to_ascii_upper('é'), 'é');
}

#[test]
fn glyph_drawn_at_scale() {
    let mut c = Canvas::new(0, 0, 16, 16, 0);
    c.draw_glyph(0, 0, &get_char_bitmap('A'), 2, 5);
    assert_eq!(px(&c, 6, 0), 5);
    assert_eq!(px(&c, 7, 1), 5);
    assert_eq!(px(&c, 5, 0), 0);
    assert_eq!(px(&c, 8, 0), 5);
    assert_eq!(px(&c, 10, 0), 0);
    assert_eq!(px(&c, 2, 8), 5);
    assert_eq!(px(&c, 0, 14), 0);
    let lit = c.pixels.iter().filter(|&&p| p == 5).count();
    assert_eq!(lit, 18 * 4);
}

#[test]
fn glyph_clipped_at_canvas_edge() {
    let mut c = Canvas::new(0, 0, 4, 4, 0);
    c.draw_glyph(2, 2, &[0xFF; 8], 1, 3);
    assert_eq!(c.pixels, vec![0, 0, 0, 0, 0, 0, 0, 0, 0, 0, 3, 3, 0, 0, 3, 3]);
}

#[test]
fn terminal_prints_a_character_and_advances() {
    let mut c = Canvas::new(0, 40, 100, 100, WHITE);
    let mut t = Terminal::new();
    t.terminal_print(&mut c, "A", 0);
    assert_eq!((t.x, t.y), (50, 20));
    assert_eq!(px(&c, 29, 20), 0);
    assert_eq!(px(&c, 34, 22), 0);
    assert_eq!(px(&c, 28, 20), WHITE);
    assert_eq!(px(&c, 35, 20), WHITE);
    assert_eq!(px(&c, 26, 23), 0);
    assert_eq!(px(&c, 35, 23), 0);
    assert_eq!(px(&c, 29, 23), WHITE);
}

#[test]
fn terminal_uppercases_and_wraps() {
    let mut a = Canvas::new(0, 0, 100, 100, WHITE);
    let mut b = Canvas::new(0, 0, 100, 100, WHITE);
    let mut ta = Terminal::new();
    let mut tb = Terminal::new();
    ta.terminal_print(&mut a, "ab", 0x10B981);
    tb.terminal_print(&mut b, "AB", 0x10B981);
    assert_eq!(a.pixels, b.pixels);
    assert_eq!((ta.x, ta.y), (20, 50));
    assert_eq!((tb.x, tb.y), (20, 50));
}

#[test]
fn terminal_scrolls_when_the_next_line_does_not_fit() {
    let mut c = Canvas::new(0, 0, 100, 100, WHITE);
    c.draw_pixel(5, 40, 0x123);
    let mut t = Terminal::new();
    t.terminal_print(&mut c, "\n", 0);
    assert_eq!((t.x, t.y), (20, 50));
    assert_eq!(px(&c, 5, 40), 0x123);
    t.terminal_print(&mut c, "\n", 0);
    assert_eq!((t.x, t.y), (20, 50));
    assert_eq!(px(&c, 5, 10), 0x123);
    assert_eq!(px(&c, 5, 40), WHITE);
    for y in 70..100 {
        for x in 0..100 {
            assert_eq!(px(&c, x, y), TERM_BG);
        }
    }
}

#[test]
fn printing_in_two_parts_equals_printing_at_once() {
    let mut a = Canvas::new(0, 0, 120, 90, WHITE);
    let mut b = Canvas::new(0, 0, 120, 90, WHITE);
    let mut ta = Terminal::new();
    let mut tb = Terminal::new();
    ta.terminal_print(&mut a, "HEL", 7);
    ta.terminal_print(&mut a, "LO\nOK", 7);
    tb.terminal_print(&mut b, "HELLO\nOK", 7);
    assert_eq!(a.pixels, b.pixels);
    assert_eq!((ta.x, ta.y), (tb.x, tb.y));
}

#[test]
fn unknown_characters_print_as_blocks() {
    let mut c = Canvas::new(0, 0, 100, 100, WHITE);
    let mut t = Terminal::new();
    t.terminal_print(&mut c, "?", 0);
    for y in 20..44 {
        for x in 20..44 {
            assert_eq!(px(&c, x, y), 0);
        }
    }
    assert_eq!(px(&c, 44, 20), WHITE);
}

#[test]
fn compositor_takes_geometry_from_boot_info() {
    let mut s = Compositor::new();
    assert!(s.terminal_layer.is_none());
    s.init(&boot_info(0x8000_0000, 64, 48, 80));
    assert_eq!((s.framebuffer, s.width, s.height, s.stride), (0x8000_0000, 64, 48, 80));
    let layer = s.terminal_layer.as_ref().unwrap();
    assert_eq!((layer.x, layer.y, layer.width, layer.height), (0, 40, 64, 8));
    assert!(layer.pixels.iter().all(|&p| p == TERM_BG));
}

#[test]
fn pixel_addresses_on_and_off_screen() {
    let mut s = Compositor::new();
    s.init(&boot_info(0x8000_0000, 64, 48, 80));
    assert_eq!(s.pixel_address(3, 2), Some(0x8000_0000 + (2 * 80 + 3) * 4));
    assert_eq!(s.pixel_address(63, 47), Some(0x8000_0000 + (47 * 80 + 63) * 4));
    assert_eq!(s.pixel_address(64, 0), None);
    assert_eq!(s.pixel_address(0, 48), None);
}

#[test]
fn fill_spans_are_clipped_rows() {
    let mut s = Compositor::new();
    s.init(&boot_info(0x8000_0000, 64, 48, 80));
    let spans = s.fill_spans(60, 46, 10, 5);
    assert_eq!(
        spans,
        vec![
            Span { address: 0x8000_0000 + (46 * 80 + 60) * 4, count: 4 },
            Span { address: 0x8000_0000 + (47 * 80 + 60) * 4, count: 4 },
        ]
    );
    assert!(s.fill_spans(64, 0, 10, 5).is_empty());
    assert!(s.fill_spans(0, 0, 0, 5).is_empty());
    assert!(s.fill_spans(0, 50, 4, 5).is_empty());
    assert_eq!(s.fill_spans(0, 0, 64, 48).len(), 48);
}

#[test]
fn blit_copies_visible_rows() {
    let mut s = Compositor::new();
    s.init(&boot_info(0x8000_0000, 64, 48, 80));
    let layer = s.terminal_layer.take().unwrap();
    let rows = s.blit_canvas(&layer);
    assert_eq!(rows.len(), 8);
    for (k, r) in rows.iter().enumerate() {
        assert_eq!(*r, (k * 64, 0x8000_0000 + (((40 + k) * 80) as u64) * 4));
    }
    let low = Canvas::new(5, 44, 10, 10, 0);
    let rows = s.blit_canvas(&low);
    assert_eq!(rows, vec![(0, 0x8000_0000 + (44 * 80 + 5) * 4), (10, 0x8000_0000 + (45 * 80 + 5) * 4), (20, 0x8000_0000 + (46 * 80 + 5) * 4), (30, 0x8000_0000 + (47 * 80 + 5) * 4)]);
    let below = Canvas::new(0, 48, 10, 10, 0);
    assert!(s.blit_canvas(&below).is_empty());
}

#[test]
fn draw_string_lists_lit_cells() {
    let cells = draw_string(10, 5, "Hi", 1);
    assert_eq!(cells.len(), 18 + 15);
    assert_eq!(cells[0], Rect { x: 11, y: 5, w: 1, h: 1 });
    assert_eq!(cells[1], Rect { x: 16, y: 5, w: 1, h: 1 });
    assert_eq!(cells[18], Rect { x: 22, y: 5, w: 1, h: 1 });
    let dash = draw_string(0, 0, "-", 2);
    assert_eq!(
        dash,
        vec![
            Rect { x: 4, y: 6, w: 2, h: 2 },
            Rect { x: 6, y: 6, w: 2, h: 2 },
            Rect { x: 8, y: 6, w: 2, h: 2 },
            Rect { x: 10, y: 6, w: 2, h: 2 },
        ]
    );
    assert!(draw_string(0, 0, "", 3).is_empty());
    assert!(draw_string(0, 0, "  ", 3).is_empty());
}

#[test]
fn vga_writer_draws_font8x8_glyphs() {
    let info = boot_info(0x1000_0000, 100, 50, 128);
    let mut w = VgaWriter::new(&info);
    let writes = w.write_string("A");
    assert_eq!(writes.len(), 64);
    let base = (10 * 128 + 10) * 4;
    assert_eq!(writes[0], PixelWrite { offset: base, value: 0 });
    assert_eq!(writes[2], PixelWrite { offset: base + 8, value: 0xFF });
    assert_eq!(writes[3], PixelWrite { offset: base + 12, value: 0xFF });
    assert_eq!(writes[4], PixelWrite { offset: base + 16, value: 0 });
    assert_eq!(writes[8 + 1], PixelWrite { offset: base + 128 * 4 + 4, value: 0xFF });
    assert_eq!(writes[63], PixelWrite { offset: (17 * 128 + 17) * 4, value: 0 });
    let lit = writes.iter().filter(|p| p.value == 0xFF).count();
    assert_eq!(lit, 2 + 4 + 4 + 4 + 6 + 4 + 4);
    assert_eq!(w.write_address(writes[2]), 0x1000_0000 + base as u64 + 8);
}

#[test]
fn vga_writer_wraps_long_lines() {
    let info = boot_info(0x1000_0000, 30, 50, 128);
    let mut w = VgaWriter::new(&info);
    let writes = w.write_string("AAA");
    assert_eq!(writes.len(), 192);
    assert_eq!(writes[0].offset, (10 * 128 + 10) * 4);
    assert_eq!(writes[64].offset, (10 * 128 + 18) * 4);
    assert_eq!(writes[128].offset, (20 * 128 + 10) * 4);
}

#[test]
fn vga_writer_newline_and_bytes_outside_the_font() {
    let info = boot_info(0x1000_0000, 100, 50, 128);
    let mut w = VgaWriter::new(&info);
    assert!(w.write_string("\u{e9}").is_empty());
    let writes = w.write_string("A");
    assert_eq!(writes[0].offset, (10 * 128 + 26) * 4);
    assert!(w.write_string("\n").is_empty());
    let writes = w.write_string("A");
    assert_eq!(writes[0].offset, (20 * 128 + 10) * 4);
}

#[test]
fn mouse_packets_decode_every_third_byte() {
    let mut d = MouseDecoder::new();
    assert_eq!(d.process_packet_byte(0x08), None);
    assert_eq!(d.process_packet_byte(5), None);
    assert_eq!(d.process_packet_byte(3), Some(MouseEvent { dx: 5, dy: -3, buttons: 0 }));
    assert_eq!(d.process_packet_byte(0x39), None);
    assert_eq!(d.process_packet_byte(0xFB), None);
    assert_eq!(d.process_packet_byte(0xFE), Some(MouseEvent { dx: -5, dy: 2, buttons: 1 }));
}

#[test]
fn mouse_resynchronises_on_bad_first_byte() {
    let mut d = MouseDecoder::new();
    assert_eq!(d.process_packet_byte(0x00), None);
    assert_eq!(d.process_packet_byte(0x0A), None);
    assert_eq!(d.process_packet_byte(1), None);
    assert_eq!(d.process_packet_byte(1), Some(MouseEvent { dx: 1, dy: -1, buttons: 2 }));
}

#[test]
fn cursor_is_kept_on_screen() {
    assert_eq!(clamp_to_screen(-5, 700, 800, 600), (0, 590));
    assert_eq!(clamp_to_screen(800, 10, 800, 600), (790, 10));
    assert_eq!(clamp_to_screen(799, 599, 800, 600), (799, 599));
    assert_eq!(clamp_to_screen(-1, -1, 800, 600), (0, 0));
}

#[test]
fn vga_writer_reports_whether_text_fits() {
    let info = boot_info(0x1000_0000, 100, 50, 128);
    let w = VgaWriter::new(&info);
    assert!(w.can_write("hello"));
    let wide = boot_info(0, 100, 50, usize::MAX / 8);
    let w = VgaWriter::new(&wide);
    assert!(!w.can_write("hello"));
}

#[test]
fn narrow_canvas_takes_line_breaks() {
    let mut c = Canvas::new(0, 0, 30, 100, WHITE);
    let mut t = Terminal::new();
    t.terminal_print(&mut c, "\n\n", 0);
    assert_eq!((t.x, t.y), (20, 50));
    assert!(c.pixels.iter().all(|&p| p == WHITE));
}

#[test]
fn glyph_pixel_writes_follow_the_bitmap() {
    let mut out = vec![PixelWrite { offset: 7, value: 1 }];
    push_glyph_writes(&mut out, &[0x81, 0, 0, 0, 0, 0, 0, 0xFF], 2, 3, 10);
    assert_eq!(out.len(), 65);
    assert_eq!(out[0], PixelWrite { offset: 7, value: 1 });
    assert_eq!(out[1], PixelWrite { offset: (3 * 10 + 2) * 4, value: 0xFF });
    assert_eq!(out[2], PixelWrite { offset: (3 * 10 + 3) * 4, value: 0 });
    assert_eq!(out[8], PixelWrite { offset: (3 * 10 + 9) * 4, value: 0xFF });
    assert_eq!(out[9], PixelWrite { offset: (4 * 10 + 2) * 4, value: 0 });
    assert!(out[57..].iter().all(|p| p.value == 0xFF));
    assert_eq!(out[64].offset, (10 * 10 + 9) * 4);
}

#[test]
fn font_glyphs_are_distinct_with_a_blank_last_row() {
    let font: Vec<char> = "ABCDEFGHIJKLMNOPQRSTUVWXYZ01 :->().!".chars().collect();
    assert_eq!(font.len(), 36);
    for (i, &c) in font.iter().enumerate() {
        let g = get_char_bitmap(c);
        assert_eq!(g[7], 0, "{c}");
        assert_ne!(g, [0xFF; 8], "{c}");
        for &d in &font[i + 1..] {
            assert_ne!(g, get_char_bitmap(d), "{c} {d}");
        }
    }
    for c in ['a', '2', '9', '#', '\n', '~', 'é'] {
        assert_eq!(get_char_bitmap(c), [0xFF; 8]);
    }
}

#[test]
fn terminal_cursor_stays_in_the_canvas() {
    let mut c = Canvas::new(0, 40, 130, 70, WHITE);
    let mut t = Terminal::new();
    for text in ["HELLO", " WORLD\n", "\n\n\n", "A", "LONG LINE OF TEXT THAT WRAPS", "\nX"] {
        t.terminal_print(&mut c, text, 0);
        assert!(t.y + 30 <= 70, "{text}");
        assert!(t.x == 20 || t.x + 40 <= 130, "{text}");
    }
    assert_eq!(t.y, 20);
}
