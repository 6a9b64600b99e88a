//! Persistent settings of the GUI (the `com.pyxyll.CosmicToys` namespace)
//! and the updates the settings page makes to them.

use vstd::prelude::*;

verus! {

broadcast use vstd::string::group_string_axioms;

/// The GUI's settings. One value per field is stored by cosmic-config.
#[derive(Debug)]
pub struct Config {
    /// Recent picks as hex strings (`#RRGGBB`), newest first.
    pub history: Vec<String>,
    /// Per-format toggles for the result view.
    pub format_hex: bool,
    pub format_rgb: bool,
    pub format_hsl: bool,
    pub format_hsv: bool,
    pub format_oklch: bool,
    /// Find Mouse: spotlight cutout radius in pixels.
    pub mouse_find_radius_px: u32,
    /// Width of the bright ring at the cutout boundary, pixels.
    pub mouse_find_ring_thickness_px: u32,
    /// Alpha of the bright ring (0 = invisible, 255 = solid white).
    pub mouse_find_ring_alpha: u8,
    /// Alpha of the dim wash outside the cutout (0 = no dim, 255 = black).
    pub mouse_find_dim_alpha: u8,
    /// Soft-edge transition width between the cutout and the dim, pixels.
    pub mouse_find_feather_px: u32,
    /// Ring color as hex `#RRGGBB`.
    pub mouse_find_ring_color: String,
    /// Screen Ruler: measurement line / rectangle stroke thickness, px.
    pub screen_ruler_line_thickness_px: u32,
    /// Screen Ruler line + endpoint + rect color as `#RRGGBB`.
    pub screen_ruler_line_color: String,
    /// Alpha (0..255) of the faint crosshair following the cursor.
    pub screen_ruler_crosshair_alpha: u8,
    /// Magnifier loupe zoom factor (pixels per source pixel).
    pub screen_ruler_magnifier_zoom: u32,
    /// Whether the magnifier loupe is on the moment the overlay opens.
    pub screen_ruler_magnifier_default: bool,
    /// One of `"solid"`, `"dotted"`, `"dashed"`.
    pub screen_ruler_line_style: String,
    /// Angle groups a Shift-held drag snaps to: 0/90, 45, 30/60, 15/75.
    pub screen_ruler_snap_cardinals: bool,
    pub screen_ruler_snap_diagonals: bool,
    pub screen_ruler_snap_thirds: bool,
    pub screen_ruler_snap_octants: bool,
    /// Which tool launchers the panel applet shows.
    pub applet_show_color_picker: bool,
    pub applet_show_find_mouse: bool,
    pub applet_show_screen_ruler: bool,
    pub applet_show_ocr: bool,
}

/// The values a fresh install starts from: HEX/RGB/HSL/HSV shown, OKLCH
/// hidden; the spotlight and ruler defaults; only the Color Picker in the
/// applet.
pub open spec fn is_default(c: Config) -> bool {
    &&& c.history@.len() == 0
    &&& c.format_hex && c.format_rgb && c.format_hsl && c.format_hsv && !c.format_oklch
    &&& c.mouse_find_radius_px == 90
    &&& c.mouse_find_ring_thickness_px == 4
    &&& c.mouse_find_ring_alpha == 220
    &&& c.mouse_find_dim_alpha == 140
    &&& c.mouse_find_feather_px == 28
    &&& c.mouse_find_ring_color@ == "#FFFFFF"@
    &&& c.screen_ruler_line_thickness_px == 2
    &&& c.screen_ruler_line_color@ == "#FFFFFF"@
    &&& c.screen_ruler_crosshair_alpha == 90
    &&& c.screen_ruler_magnifier_zoom == 8
    &&& !c.screen_ruler_magnifier_default
    &&& c.screen_ruler_line_style@ == "solid"@
    &&& c.screen_ruler_snap_cardinals && c.screen_ruler_snap_diagonals
    &&& !c.screen_ruler_snap_thirds && !c.screen_ruler_snap_octants
    &&& c.applet_show_color_picker
    &&& !c.applet_show_find_mouse && !c.applet_show_screen_ruler && !c.applet_show_ocr
}

impl Default for Config {
    fn default() -> (c: Self)
        ensures
            is_default(c),
    {
        Config {
            history: Vec::new(),
            format_hex: true,
            format_rgb: true,
            format_hsl: true,
            format_hsv: true,
            format_oklch: false,
            mouse_find_radius_px: 90,
            mouse_find_ring_thickness_px: 4,
            mouse_find_ring_alpha: 220,
            mouse_find_dim_alpha: 140,
            mouse_find_feather_px: 28,
            mouse_find_ring_color: "#FFFFFF".to_owned(),
            screen_ruler_line_thickness_px: 2,
            screen_ruler_line_color: "#FFFFFF".to_owned(),
            screen_ruler_crosshair_alpha: 90,
            screen_ruler_magnifier_zoom: 8,
            screen_ruler_magnifier_default: false,
            screen_ruler_line_style: "solid".to_owned(),
            screen_ruler_snap_cardinals: true,
            screen_ruler_snap_diagonals: true,
            screen_ruler_snap_thirds: false,
            screen_ruler_snap_octants: false,
            applet_show_color_picker: true,
            applet_show_find_mouse: false,
            applet_show_screen_ruler: false,
            applet_show_ocr: false,
        }
    }
}

/// A colour format the result view can show.
#[derive(Debug, Clone, Copy, PartialEq, Eq, Structural)]
pub enum Format {
    Hex,
    Rgb,
    Hsl,
    Hsv,
    Oklch,
}

/// A Find Mouse spotlight setting adjustable by slider.
#[derive(Debug, Clone, Copy, PartialEq, Eq, Structural)]
pub enum MouseFindField {
    Radius,
    RingThickness,
    RingAlpha,
    DimAlpha,
    Feather,
}

/// Drill-in state for the Settings sidebar entry. Each tool gets its own
/// sub-page; selecting Settings from the sidebar always returns to Hub.
#[derive(Debug, Clone, Copy, PartialEq, Eq, Structural)]
pub enum SettingsSubPage {
    Hub,
    ColorPicker,
    MouseFind,
    ScreenRuler,
    App,
}

/// Whether the result view shows `format`.
pub open spec fn shows(c: Config, format: Format) -> bool {
    match format {
        Format::Hex => c.format_hex,
        Format::Rgb => c.format_rgb,
        Format::Hsl => c.format_hsl,
        Format::Hsv => c.format_hsv,
        Format::Oklch => c.format_oklch,
    }
}

/// The formats shown, in the fixed order HEX, RGB, HSL, HSV, OKLCH.
pub open spec fn shown_formats_of(c: Config) -> Seq<Format> {
    let all = seq![Format::Hex, Format::Rgb, Format::Hsl, Format::Hsv, Format::Oklch];
    all.filter(|f: Format| shows(c, f))
}

/// An alpha slider value clamped to a byte.
pub open spec fn alpha_of(value: u32) -> u8 {
    if value > 255 {
        255
    } else {
        value as u8
    }
}

/// The Screen Ruler and applet fields are the same.
pub open spec fn same_ruler_and_applet(a: Config, b: Config) -> bool {
    &&& a.screen_ruler_line_thickness_px == b.screen_ruler_line_thickness_px
    &&& a.screen_ruler_line_color == b.screen_ruler_line_color
    &&& a.screen_ruler_crosshair_alpha == b.screen_ruler_crosshair_alpha
    &&& a.screen_ruler_magnifier_zoom == b.screen_ruler_magnifier_zoom
    &&& a.screen_ruler_magnifier_default == b.screen_ruler_magnifier_default
    &&& a.screen_ruler_line_style == b.screen_ruler_line_style
    &&& a.screen_ruler_snap_cardinals == b.screen_ruler_snap_cardinals
    &&& a.screen_ruler_snap_diagonals == b.screen_ruler_snap_diagonals
    &&& a.screen_ruler_snap_thirds == b.screen_ruler_snap_thirds
    &&& a.screen_ruler_snap_octants == b.screen_ruler_snap_octants
    &&& a.applet_show_color_picker == b.applet_show_color_picker
    &&& a.applet_show_find_mouse == b.applet_show_find_mouse
    &&& a.applet_show_screen_ruler == b.applet_show_screen_ruler
    &&& a.applet_show_ocr == b.applet_show_ocr
}

/// Every field outside the Find Mouse spotlight group is the same.
pub open spec fn same_outside_spotlight(a: Config, b: Config) -> bool {
    &&& a.history == b.history
    &&& a.format_hex == b.format_hex && a.format_rgb == b.format_rgb && a.format_hsl == b.format_hsl
    &&& a.format_hsv == b.format_hsv && a.format_oklch == b.format_oklch
    &&& same_ruler_and_applet(a, b)
}

/// The spotlight group is the same.
pub open spec fn same_spotlight(a: Config, b: Config) -> bool {
    &&& a.mouse_find_radius_px == b.mouse_find_radius_px
    &&& a.mouse_find_ring_thickness_px == b.mouse_find_ring_thickness_px
    &&& a.mouse_find_ring_alpha == b.mouse_find_ring_alpha
    &&& a.mouse_find_dim_alpha == b.mouse_find_dim_alpha
    &&& a.mouse_find_feather_px == b.mouse_find_feather_px
    &&& a.mouse_find_ring_color == b.mouse_find_ring_color
}

impl Config {
    /// Shows or hides one format in the result view.
    pub fn set_format(&mut self, format: Format, on: bool)
        ensures
            shows(*final(self), format) == on,
            forall|f: Format| f != format ==> shows(*final(self), f) == shows(*old(self), f),
            final(self).history == old(self).history,
            same_spotlight(*old(self), *final(self)),
            same_ruler_and_applet(*old(self), *final(self)),
    {
        match format {
            Format::Hex => self.format_hex = on,
            Format::Rgb => self.format_rgb = on,
            Format::Hsl => self.format_hsl = on,
            Format::Hsv => self.format_hsv = on,
            Format::Oklch => self.format_oklch = on,
        }
    }

    /// Stores a spotlight slider value; the two alphas are clamped to 255.
    pub fn set_mouse_find_field(&mut self, field: MouseFindField, value: u32)
        ensures
            final(self).mouse_find_radius_px == if field == MouseFindField::Radius { value } else { old(self).mouse_find_radius_px },
            final(self).mouse_find_ring_thickness_px == if field == MouseFindField::RingThickness { value } else { old(self).mouse_find_ring_thickness_px },
            final(self).mouse_find_ring_alpha == if field == MouseFindField::RingAlpha { alpha_of(value) } else { old(self).mouse_find_ring_alpha },
            final(self).mouse_find_dim_alpha == if field == MouseFindField::DimAlpha { alpha_of(value) } else { old(self).mouse_find_dim_alpha },
            final(self).mouse_find_feather_px == if field == MouseFindField::Feather { value } else { old(self).mouse_find_feather_px },
            final(self).mouse_find_ring_color == old(self).mouse_find_ring_color,
            same_outside_spotlight(*old(self), *final(self)),
    {
        let alpha: u8 = if value > 255 {
            255
        } else {
            value as u8
        };
        let mut radius = self.mouse_find_radius_px;
        let mut thickness = self.mouse_find_ring_thickness_px;
        let mut ring_alpha = self.mouse_find_ring_alpha;
        let mut dim_alpha = self.mouse_find_dim_alpha;
        let mut feather = self.mouse_find_feather_px;
        match field {
            MouseFindField::Radius => radius = value,
            MouseFindField::RingThickness => thickness = value,
            MouseFindField::RingAlpha => ring_alpha = alpha,
            MouseFindField::DimAlpha => dim_alpha = alpha,
            MouseFindField::Feather => feather = value,
        }
        self.mouse_find_radius_px = radius;
        self.mouse_find_ring_thickness_px = thickness;
        self.mouse_find_ring_alpha = ring_alpha;
        self.mouse_find_dim_alpha = dim_alpha;
        self.mouse_find_feather_px = feather;
    }

    /// Stores the spotlight ring colour as typed; it is parsed when the
    /// spotlight is drawn.
    pub fn set_mouse_find_ring_color(&mut self, hex: String)
        ensures
            final(self).mouse_find_ring_color == hex,
            final(self).mouse_find_radius_px == old(self).mouse_find_radius_px,
            final(self).mouse_find_ring_thickness_px == old(self).mouse_find_ring_thickness_px,
            final(self).mouse_find_ring_alpha == old(self).mouse_find_ring_alpha,
            final(self).mouse_find_dim_alpha == old(self).mouse_find_dim_alpha,
            final(self).mouse_find_feather_px == old(self).mouse_find_feather_px,
            same_outside_spotlight(*old(self), *final(self)),
    {
        self.mouse_find_ring_color = hex;
    }

    /// Snaps every spotlight field back to its default, leaving the rest.
    pub fn reset_mouse_find(&mut self)
        ensures
            final(self).mouse_find_radius_px == 90,
            final(self).mouse_find_ring_thickness_px == 4,
            final(self).mouse_find_ring_alpha == 220,
            final(self).mouse_find_dim_alpha == 140,
            final(self).mouse_find_feather_px == 28,
            final(self).mouse_find_ring_color@ == "#FFFFFF"@,
            same_outside_spotlight(*old(self), *final(self)),
    {
        let defaults = Config::default();
        self.mouse_find_radius_px = defaults.mouse_find_radius_px;
        self.mouse_find_ring_thickness_px = defaults.mouse_find_ring_thickness_px;
        self.mouse_find_ring_alpha = defaults.mouse_find_ring_alpha;
        self.mouse_find_dim_alpha = defaults.mouse_find_dim_alpha;
        self.mouse_find_feather_px = defaults.mouse_find_feather_px;
        self.mouse_find_ring_color = defaults.mouse_find_ring_color;
    }

    /// The formats the result view lists, in its fixed order.
    pub fn shown_formats(&self) -> (r: Vec<Format>)
        ensures
            r@ == shown_formats_of(*self),
    {
        let mut r: Vec<Format> = Vec::new();
        if self.format_hex {
            r.push(Format::Hex);
        }
        if self.format_rgb {
            r.push(Format::Rgb);
        }
        if self.format_hsl {
            r.push(Format::Hsl);
        }
        if self.format_hsv {
            r.push(Format::Hsv);
        }
        if self.format_oklch {
            r.push(Format::Oklch);
        }
        proof {
            reveal_with_fuel(Seq::filter, 6);
            let all = seq![Format::Hex, Format::Rgb, Format::Hsl, Format::Hsv, Format::Oklch];
            assert(all.drop_last() =~= seq![Format::Hex, Format::Rgb, Format::Hsl, Format::Hsv]);
            assert(all.drop_last().drop_last() =~= seq![Format::Hex, Format::Rgb, Format::Hsl]);
            assert(all.drop_last().drop_last().drop_last() =~= seq![Format::Hex, Format::Rgb]);
            assert(all.drop_last().drop_last().drop_last().drop_last() =~= seq![Format::Hex]);
            assert(seq![Format::Hex].drop_last() =~= Seq::<Format>::empty());
            assert(r@ =~= shown_formats_of(*self));
        }
        r
    }
}

} // verus!
