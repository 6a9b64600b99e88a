use cosmic_toys::applet;
use cosmic_toys::config::{Config, Format, MouseFindField};

#[test]
fn defaults() {
    let c = Config::default();
    assert!(c.history.is_empty());
    assert!(c.format_hex && c.format_rgb && c.format_hsl && c.format_hsv && !c.format_oklch);
    assert_eq!(c.mouse_find_radius_px, 90);
    assert_eq!(c.mouse_find_ring_color, "#FFFFFF");
    assert_eq!(c.screen_ruler_line_style, "solid");
    assert!(c.applet_show_color_picker && !c.applet_show_ocr);
    assert_eq!(c.shown_formats(), vec![Format::Hex, Format::Rgb, Format::Hsl, Format::Hsv]);
}

#[test]
fn applet_defaults_agree_with_gui() {
    let a = applet::Config::default();
    let g = Config::default();
    assert_eq!(a.applet_show_color_picker, g.applet_show_color_picker);
    assert_eq!(a.applet_show_find_mouse, g.applet_show_find_mouse);
    assert_eq!(a.applet_show_screen_ruler, g.applet_show_screen_ruler);
    assert_eq!(a.applet_show_ocr, g.applet_show_ocr);
    assert!(a.history.is_empty());
}

#[test]
fn format_toggles() {
    let mut c = Config::default();
    c.set_format(Format::Oklch, true);
    c.set_format(Format::Rgb, false);
    assert_eq!(c.shown_formats(), vec![Format::Hex, Format::Hsl, Format::Hsv, Format::Oklch]);
}

#[test]
fn mouse_find_fields_clamp_alphas() {
    let mut c = Config::default();
    c.set_mouse_find_field(MouseFindField::RingAlpha, 999);
    c.set_mouse_find_field(MouseFindField::DimAlpha, 12);
    c.set_mouse_find_field(MouseFindField::Radius, 500);
    assert_eq!(c.mouse_find_ring_alpha, 255);
    assert_eq!(c.mouse_find_dim_alpha, 12);
    assert_eq!(c.mouse_find_radius_px, 500);
    c.set_mouse_find_ring_color("#00FF00".to_string());
    assert_eq!(c.mouse_find_ring_color, "#00FF00");
    c.reset_mouse_find();
    let d = Config::default();
    assert_eq!(c.mouse_find_ring_alpha, d.mouse_find_ring_alpha);
    assert_eq!(c.mouse_find_dim_alpha, d.mouse_find_dim_alpha);
    assert_eq!(c.mouse_find_radius_px, d.mouse_find_radius_px);
    assert_eq!(c.mouse_find_ring_color, d.mouse_find_ring_color);
}
