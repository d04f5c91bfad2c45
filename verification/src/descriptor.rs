//! Material descriptors: the structured-text document naming a
//! material's textures and scalar parameters, and its parser.
//!
//! The grammar is fixed: a `PBRMaterial` tag, then a parenthesized
//! field list in declaration order, every field ending in a comma.
//! String fields are double-quoted paths; numeric fields are exact
//! decimals (`digits` or `digits.digits`, at most nine digits each
//! side). The parser is defined by [`parse_material_s`]; the
//! executable parser returns exactly what it says, and
//! `MalformedDescriptor` exactly when it says no parse exists.

use vstd::prelude::*;

use crate::errors::LoadError;
use crate::image::{ImageFormat, ImageRon};
use crate::path::AssetPath;
use crate::text::{after_byte, after_byte_s, after_lit, after_lit_s, digits_end, digits_end_s,
    digits_val_s, digits_value, parse_string, parse_string_s, skip_ws, skip_ws_s};

verus! {

/// An exact decimal scalar: `units` then `frac` scaled by ten to the
/// `frac_digits`, each side at most nine digits as written.
#[derive(Debug, Clone, Copy, PartialEq, Eq, Structural)]
pub struct Scalar {
    pub units: u32,
    pub frac: u32,
    pub frac_digits: u8,
}

/// A base color of four scalar components.
#[derive(Debug, Clone, Copy, PartialEq, Eq, Structural)]
pub struct Color {
    pub r: Scalar,
    pub g: Scalar,
    pub b: Scalar,
    pub a: Scalar,
}

/// A parsed, immutable material descriptor; the sole kind is a
/// physically-based material naming three textures and its scalar
/// parameters.
#[derive(Debug, PartialEq, Eq)]
pub enum MaterialRon {
    PBRMaterial {
        main_texture: AssetPath,
        roughness_texture: AssetPath,
        normal_texture: AssetPath,
        roughness: Scalar,
        metallic: Scalar,
        color: Color,
    },
}

impl MaterialRon {
    /// The descriptor's content as plain mathematical values.
    pub open spec fn model(self) -> (Seq<u8>, Seq<u8>, Seq<u8>, Scalar, Scalar, Color) {
        match self {
            MaterialRon::PBRMaterial {
                main_texture,
                roughness_texture,
                normal_texture,
                roughness,
                metallic,
                color,
            } => (main_texture@, roughness_texture@, normal_texture@, roughness, metallic, color),
        }
    }
}

impl Clone for MaterialRon {
    fn clone(&self) -> (r: Self)
        ensures
            r.model() == self.model(),
    {
        match self {
            MaterialRon::PBRMaterial {
                main_texture,
                roughness_texture,
                normal_texture,
                roughness,
                metallic,
                color,
            } => MaterialRon::PBRMaterial {
                main_texture: main_texture.clone(),
                roughness_texture: roughness_texture.clone(),
                normal_texture: normal_texture.clone(),
                roughness: *roughness,
                metallic: *metallic,
                color: *color,
            },
        }
    }
}

/// The bytes of `PBRMaterial`.
pub open spec fn tag_pbr() -> Seq<u8> {
    seq![80u8, 66, 82, 77, 97, 116, 101, 114, 105, 97, 108]
}

/// The bytes of `main_texture`.
pub open spec fn lit_main_texture() -> Seq<u8> {
    seq![109u8, 97, 105, 110, 95, 116, 101, 120, 116, 117, 114, 101]
}

/// The bytes of `roughness_texture`.
pub open spec fn lit_roughness_texture() -> Seq<u8> {
    seq![114u8, 111, 117, 103, 104, 110, 101, 115, 115, 95, 116, 101, 120, 116, 117, 114, 101]
}

/// The bytes of `normal_texture`.
pub open spec fn lit_normal_texture() -> Seq<u8> {
    seq![110u8, 111, 114, 109, 97, 108, 95, 116, 101, 120, 116, 117, 114, 101]
}

/// The bytes of `roughness`.
pub open spec fn lit_roughness() -> Seq<u8> {
    seq![114u8, 111, 117, 103, 104, 110, 101, 115, 115]
}

/// The bytes of `metallic`.
pub open spec fn lit_metallic() -> Seq<u8> {
    seq![109u8, 101, 116, 97, 108, 108, 105, 99]
}

/// The bytes of `color`.
pub open spec fn lit_color() -> Seq<u8> {
    seq![99u8, 111, 108, 111, 114]
}

/// The bytes of `format`.
pub open spec fn lit_format() -> Seq<u8> {
    seq![102u8, 111, 114, 109, 97, 116]
}

/// The bytes of `RGB`.
pub open spec fn lit_rgb() -> Seq<u8> {
    seq![82u8, 71, 66]
}

/// The bytes of `SRGB`.
pub open spec fn lit_srgb() -> Seq<u8> {
    seq![83u8, 82, 71, 66]
}

/// The bytes of `HDR16`.
pub open spec fn lit_hdr16() -> Seq<u8> {
    seq![72u8, 68, 82, 49, 54]
}

/// The bytes of `HDR32`.
pub open spec fn lit_hdr32() -> Seq<u8> {
    seq![72u8, 68, 82, 51, 50]
}

/// An exact decimal at exactly `i`: the scalar and the position
/// after it.
pub open spec fn parse_scalar_s(s: Seq<u8>, i: int) -> Option<(Scalar, int)> {
    let de = digits_end_s(s, i);
    if de == i || de - i > 9 {
        None
    } else {
        let units = digits_val_s(s, i, de) as u32;
        if de < s.len() && s[de] == 46 {
            let fe = digits_end_s(s, de + 1);
            if fe == de + 1 || fe - (de + 1) > 9 {
                None
            } else {
                Some(
                    (
                        Scalar {
                            units,
                            frac: digits_val_s(s, de + 1, fe) as u32,
                            frac_digits: (fe - (de + 1)) as u8,
                        },
                        fe,
                    ),
                )
            }
        } else {
            Some((Scalar { units, frac: 0, frac_digits: 0 }, de))
        }
    }
}

/// A field name followed by a colon.
pub open spec fn named_s(s: Seq<u8>, i: int, name: Seq<u8>) -> Option<int> {
    match after_lit_s(s, i, name) {
        Some(j) => after_byte_s(s, j, 58),
        None => None,
    }
}

/// A named string field ending in a comma: its content and the
/// position after the comma.
pub open spec fn str_field_s(s: Seq<u8>, i: int, name: Seq<u8>) -> Option<(Seq<u8>, int)> {
    match named_s(s, i, name) {
        Some(j) => {
            let j2 = skip_ws_s(s, j);
            match parse_string_s(s, j2) {
                Some(p) => match after_byte_s(s, p.1, 44) {
                    Some(j3) => Some((p.0, j3)),
                    None => None,
                },
                None => None,
            }
        },
        None => None,
    }
}

/// An exact decimal after optional whitespace.
pub open spec fn scalar_item_s(s: Seq<u8>, i: int) -> Option<(Scalar, int)> {
    parse_scalar_s(s, skip_ws_s(s, i))
}

/// A named scalar field ending in a comma.
pub open spec fn num_field_s(s: Seq<u8>, i: int, name: Seq<u8>) -> Option<(Scalar, int)> {
    match named_s(s, i, name) {
        Some(j) => match scalar_item_s(s, j) {
            Some(p) => match after_byte_s(s, p.1, 44) {
                Some(j2) => Some((p.0, j2)),
                None => None,
            },
            None => None,
        },
        None => None,
    }
}

/// The `color` field: four comma-separated scalars in parentheses,
/// ending in a comma.
pub open spec fn color_field_s(s: Seq<u8>, i: int) -> Option<(Color, int)> {
    match named_s(s, i, lit_color()) {
        Some(j) => match after_byte_s(s, j, 40) {
            Some(j0) => match scalar_item_s(s, j0) {
                Some(p1) => match after_byte_s(s, p1.1, 44) {
                    Some(k1) => match scalar_item_s(s, k1) {
                        Some(p2) => match after_byte_s(s, p2.1, 44) {
                            Some(k2) => match scalar_item_s(s, k2) {
                                Some(p3) => match after_byte_s(s, p3.1, 44) {
                                    Some(k3) => match scalar_item_s(s, k3) {
                                        Some(p4) => match after_byte_s(s, p4.1, 41) {
                                            Some(k4) => match after_byte_s(s, k4, 44) {
                                                Some(k5) => Some(
                                                    (
                                                        Color {
                                                            r: p1.0,
                                                            g: p2.0,
                                                            b: p3.0,
                                                            a: p4.0,
                                                        },
                                                        k5,
                                                    ),
                                                ),
                                                None => None,
                                            },
                                            None => None,
                                        },
                                        None => None,
                                    },
                                    None => None,
                                },
                                None => None,
                            },
                            None => None,
                        },
                        None => None,
                    },
                    None => None,
                },
                None => None,
            },
            None => None,
        },
        None => None,
    }
}

/// The whole descriptor document: tag, field list in order, closing
/// parenthesis, trailing whitespace to the end.
pub open spec fn parse_material_s(s: Seq<u8>) -> Option<
    (Seq<u8>, Seq<u8>, Seq<u8>, Scalar, Scalar, Color),
> {
    match after_lit_s(s, 0, tag_pbr()) {
        Some(i1) => match after_byte_s(s, i1, 40) {
            Some(i2) => match str_field_s(s, i2, lit_main_texture()) {
                Some(m) => match str_field_s(s, m.1, lit_roughness_texture()) {
                    Some(rt) => match str_field_s(s, rt.1, lit_normal_texture()) {
                        Some(nt) => match num_field_s(s, nt.1, lit_roughness()) {
                            Some(ro) => match num_field_s(s, ro.1, lit_metallic()) {
                                Some(me) => match color_field_s(s, me.1) {
                                    Some(co) => match after_byte_s(s, co.1, 41) {
                                        Some(i3) => if skip_ws_s(s, i3) == s.len() {
                                            Some((m.0, rt.0, nt.0, ro.0, me.0, co.0))
                                        } else {
                                            None
                                        },
                                        None => None,
                                    },
                                    None => None,
                                },
                                None => None,
                            },
                            None => None,
                        },
                        None => None,
                    },
                    None => None,
                },
                None => None,
            },
            None => None,
        },
        None => None,
    }
}

/// Parses an exact decimal at exactly `i`.
fn parse_scalar(s: &Vec<u8>, i: usize) -> (r: Option<(Scalar, usize)>)
    requires
        i <= s@.len(),
    ensures
        match r {
            Some(p) => parse_scalar_s(s@, i as int) == Some((p.0, p.1 as int)) && i <= p.1
                <= s@.len(),
            None => parse_scalar_s(s@, i as int) is None,
        },
{
    let de = digits_end(s, i);
    if de == i || de - i > 9 {
        return None;
    }
    let units = digits_value(s, i, de);
    if de < s.len() && s[de] == 46 {
        let fe = digits_end(s, de + 1);
        if fe == de + 1 || fe - (de + 1) > 9 {
            return None;
        }
        let frac = digits_value(s, de + 1, fe);
        Some((Scalar { units, frac, frac_digits: (fe - de - 1) as u8 }, fe))
    } else {
        Some((Scalar { units, frac: 0, frac_digits: 0 }, de))
    }
}

/// Parses a field name followed by a colon.
fn named(s: &Vec<u8>, i: usize, name: &[u8]) -> (r: Option<usize>)
    requires
        i <= s@.len(),
    ensures
        match r {
            Some(j) => named_s(s@, i as int, name@) == Some(j as int) && i <= j <= s@.len(),
            None => named_s(s@, i as int, name@) is None,
        },
{
    match after_lit(s, i, name) {
        Some(j) => after_byte(s, j, 58),
        None => None,
    }
}

/// Parses a named string field ending in a comma.
fn str_field(s: &Vec<u8>, i: usize, name: &[u8]) -> (r: Option<(Vec<u8>, usize)>)
    requires
        i <= s@.len(),
    ensures
        match r {
            Some(p) => str_field_s(s@, i as int, name@) == Some((p.0@, p.1 as int)) && i <= p.1
                <= s@.len(),
            None => str_field_s(s@, i as int, name@) is None,
        },
{
    match named(s, i, name) {
        Some(j) => {
            let j2 = skip_ws(s, j);
            match parse_string(s, j2) {
                Some((content, j3)) => match after_byte(s, j3, 44) {
                    Some(j4) => Some((content, j4)),
                    None => None,
                },
                None => None,
            }
        },
        None => None,
    }
}

/// Parses an exact decimal after optional whitespace.
fn scalar_item(s: &Vec<u8>, i: usize) -> (r: Option<(Scalar, usize)>)
    requires
        i <= s@.len(),
    ensures
        match r {
            Some(p) => scalar_item_s(s@, i as int) == Some((p.0, p.1 as int)) && i <= p.1
                <= s@.len(),
            None => scalar_item_s(s@, i as int) is None,
        },
{
    let j = skip_ws(s, i);
    parse_scalar(s, j)
}

/// Parses a named scalar field ending in a comma.
fn num_field(s: &Vec<u8>, i: usize, name: &[u8]) -> (r: Option<(Scalar, usize)>)
    requires
        i <= s@.len(),
    ensures
        match r {
            Some(p) => num_field_s(s@, i as int, name@) == Some((p.0, p.1 as int)) && i <= p.1
                <= s@.len(),
            None => num_field_s(s@, i as int, name@) is None,
        },
{
    match named(s, i, name) {
        Some(j) => match scalar_item(s, j) {
            Some((sc, j2)) => match after_byte(s, j2, 44) {
                Some(j3) => Some((sc, j3)),
                None => None,
            },
            None => None,
        },
        None => None,
    }
}

/// Parses the `color` field.
fn color_field(s: &Vec<u8>, i: usize) -> (r: Option<(Color, usize)>)
    requires
        i <= s@.len(),
    ensures
        match r {
            Some(p) => color_field_s(s@, i as int) == Some((p.0, p.1 as int)) && i <= p.1
                <= s@.len(),
            None => color_field_s(s@, i as int) is None,
        },
{
    let lit_color_a: [u8; 5] = [99, 111, 108, 111, 114];
    assert(lit_color_a@ =~= lit_color());
    let j = match named(s, i, lit_color_a.as_slice()) {
        Some(j) => j,
        None => {
            return None;
        },
    };
    let j0 = match after_byte(s, j, 40) {
        Some(j0) => j0,
        None => {
            return None;
        },
    };
    let (c1, k0) = match scalar_item(s, j0) {
        Some(p) => p,
        None => {
            return None;
        },
    };
    let k1 = match after_byte(s, k0, 44) {
        Some(k) => k,
        None => {
            return None;
        },
    };
    let (c2, k2) = match scalar_item(s, k1) {
        Some(p) => p,
        None => {
            return None;
        },
    };
    let k3 = match after_byte(s, k2, 44) {
        Some(k) => k,
        None => {
            return None;
        },
    };
    let (c3, k4) = match scalar_item(s, k3) {
        Some(p) => p,
        None => {
            return None;
        },
    };
    let k5 = match after_byte(s, k4, 44) {
        Some(k) => k,
        None => {
            return None;
        },
    };
    let (c4, k6) = match scalar_item(s, k5) {
        Some(p) => p,
        None => {
            return None;
        },
    };
    let k7 = match after_byte(s, k6, 41) {
        Some(k) => k,
        None => {
            return None;
        },
    };
    let k8 = match after_byte(s, k7, 44) {
        Some(k) => k,
        None => {
            return None;
        },
    };
    Some((Color { r: c1, g: c2, b: c3, a: c4 }, k8))
}

/// Parses a material descriptor document.
///
/// Returns the descriptor exactly when [`parse_material_s`] accepts
/// the bytes, and `MalformedDescriptor` exactly when it does not.
pub fn parse_material(bytes: &Vec<u8>) -> (r: Result<MaterialRon, LoadError>)
    ensures
        match r {
            Ok(d) => parse_material_s(bytes@) == Some(d.model()),
            Err(e) => parse_material_s(bytes@) is None && e == LoadError::MalformedDescriptor,
        },
{
    let tag_pbr_a: [u8; 11] = [80, 66, 82, 77, 97, 116, 101, 114, 105, 97, 108];
    assert(tag_pbr_a@ =~= tag_pbr());
    let lit_main_texture_a: [u8; 12] = [109, 97, 105, 110, 95, 116, 101, 120, 116, 117, 114, 101];
    assert(lit_main_texture_a@ =~= lit_main_texture());
    let lit_roughness_texture_a: [u8; 17] = [114, 111, 117, 103, 104, 110, 101, 115, 115, 95, 116,
        101, 120, 116, 117, 114, 101];
    assert(lit_roughness_texture_a@ =~= lit_roughness_texture());
    let lit_normal_texture_a: [u8; 14] = [110, 111, 114, 109, 97, 108, 95, 116, 101, 120, 116,
        117, 114, 101];
    assert(lit_normal_texture_a@ =~= lit_normal_texture());
    let lit_roughness_a: [u8; 9] = [114, 111, 117, 103, 104, 110, 101, 115, 115];
    assert(lit_roughness_a@ =~= lit_roughness());
    let lit_metallic_a: [u8; 8] = [109, 101, 116, 97, 108, 108, 105, 99];
    assert(lit_metallic_a@ =~= lit_metallic());
    let i1 = match after_lit(bytes, 0, tag_pbr_a.as_slice()) {
        Some(j) => j,
        None => {
            return Err(LoadError::MalformedDescriptor);
        },
    };
    let i2 = match after_byte(bytes, i1, 40) {
        Some(j) => j,
        None => {
            return Err(LoadError::MalformedDescriptor);
        },
    };
    let (main, i3) = match str_field(bytes, i2, lit_main_texture_a.as_slice()) {
        Some(p) => p,
        None => {
            return Err(LoadError::MalformedDescriptor);
        },
    };
    let (rough_tex, i4) = match str_field(bytes, i3, lit_roughness_texture_a.as_slice()) {
        Some(p) => p,
        None => {
            return Err(LoadError::MalformedDescriptor);
        },
    };
    let (normal_tex, i5) = match str_field(bytes, i4, lit_normal_texture_a.as_slice()) {
        Some(p) => p,
        None => {
            return Err(LoadError::MalformedDescriptor);
        },
    };
    let (roughness, i6) = match num_field(bytes, i5, lit_roughness_a.as_slice()) {
        Some(p) => p,
        None => {
            return Err(LoadError::MalformedDescriptor);
        },
    };
    let (metallic, i7) = match num_field(bytes, i6, lit_metallic_a.as_slice()) {
        Some(p) => p,
        None => {
            return Err(LoadError::MalformedDescriptor);
        },
    };
    let (color, i8) = match color_field(bytes, i7) {
        Some(p) => p,
        None => {
            return Err(LoadError::MalformedDescriptor);
        },
    };
    let i9 = match after_byte(bytes, i8, 41) {
        Some(j) => j,
        None => {
            return Err(LoadError::MalformedDescriptor);
        },
    };
    let i10 = skip_ws(bytes, i9);
    if i10 != bytes.len() {
        return Err(LoadError::MalformedDescriptor);
    }
    Ok(
        MaterialRon::PBRMaterial {
            main_texture: AssetPath::new(main),
            roughness_texture: AssetPath::new(rough_tex),
            normal_texture: AssetPath::new(normal_tex),
            roughness,
            metallic,
            color,
        },
    )
}

/// One of the four format words, after optional whitespace.
pub open spec fn format_word_s(s: Seq<u8>, i: int) -> Option<(ImageFormat, int)> {
    match after_lit_s(s, i, lit_rgb()) {
        Some(j) => Some((ImageFormat::RGB, j)),
        None => match after_lit_s(s, i, lit_srgb()) {
            Some(j) => Some((ImageFormat::SRGB, j)),
            None => match after_lit_s(s, i, lit_hdr16()) {
                Some(j) => Some((ImageFormat::HDR16, j)),
                None => match after_lit_s(s, i, lit_hdr32()) {
                    Some(j) => Some((ImageFormat::HDR32, j)),
                    None => None,
                },
            },
        },
    }
}

/// The whole companion document for an image: `(format: WORD)` with
/// optional whitespace, to the end of the input.
pub open spec fn parse_image_ron_s(s: Seq<u8>) -> Option<ImageFormat> {
    match after_byte_s(s, 0, 40) {
        Some(i1) => match named_s(s, i1, lit_format()) {
            Some(i2) => match format_word_s(s, i2) {
                Some(p) => match after_byte_s(s, p.1, 41) {
                    Some(i3) => if skip_ws_s(s, i3) == s.len() {
                        Some(p.0)
                    } else {
                        None
                    },
                    None => None,
                },
                None => None,
            },
            None => None,
        },
        None => None,
    }
}

/// Parses one of the four format words.
fn format_word(s: &Vec<u8>, i: usize) -> (r: Option<(ImageFormat, usize)>)
    requires
        i <= s@.len(),
    ensures
        match r {
            Some(p) => format_word_s(s@, i as int) == Some((p.0, p.1 as int)) && i <= p.1
                <= s@.len(),
            None => format_word_s(s@, i as int) is None,
        },
{
    let lit_rgb_a: [u8; 3] = [82, 71, 66];
    assert(lit_rgb_a@ =~= lit_rgb());
    let lit_srgb_a: [u8; 4] = [83, 82, 71, 66];
    assert(lit_srgb_a@ =~= lit_srgb());
    let lit_hdr16_a: [u8; 5] = [72, 68, 82, 49, 54];
    assert(lit_hdr16_a@ =~= lit_hdr16());
    let lit_hdr32_a: [u8; 5] = [72, 68, 82, 51, 50];
    assert(lit_hdr32_a@ =~= lit_hdr32());
    match after_lit(s, i, lit_rgb_a.as_slice()) {
        Some(j) => Some((ImageFormat::RGB, j)),
        None => match after_lit(s, i, lit_srgb_a.as_slice()) {
            Some(j) => Some((ImageFormat::SRGB, j)),
            None => match after_lit(s, i, lit_hdr16_a.as_slice()) {
                Some(j) => Some((ImageFormat::HDR16, j)),
                None => match after_lit(s, i, lit_hdr32_a.as_slice()) {
                    Some(j) => Some((ImageFormat::HDR32, j)),
                    None => None,
                },
            },
        },
    }
}

impl ImageRon {
    /// Parses an image companion document.
    ///
    /// Returns the declared format exactly when [`parse_image_ron_s`]
    /// accepts the bytes, and `MalformedDescriptor` exactly when it
    /// does not.
    pub fn parse(bytes: &Vec<u8>) -> (r: Result<ImageRon, LoadError>)
        ensures
            match r {
                Ok(ir) => parse_image_ron_s(bytes@) == Some(ir.format),
                Err(e) => parse_image_ron_s(bytes@) is None && e
                    == LoadError::MalformedDescriptor,
            },
    {
        let lit_format_a: [u8; 6] = [102, 111, 114, 109, 97, 116];
        assert(lit_format_a@ =~= lit_format());
        let i1 = match after_byte(bytes, 0, 40) {
            Some(j) => j,
            None => {
                return Err(LoadError::MalformedDescriptor);
            },
        };
        let i2 = match named(bytes, i1, lit_format_a.as_slice()) {
            Some(j) => j,
            None => {
                return Err(LoadError::MalformedDescriptor);
            },
        };
        let (format, i3) = match format_word(bytes, i2) {
            Some(p) => p,
            None => {
                return Err(LoadError::MalformedDescriptor);
            },
        };
        let i4 = match after_byte(bytes, i3, 41) {
            Some(j) => j,
            None => {
                return Err(LoadError::MalformedDescriptor);
            },
        };
        let i5 = skip_ws(bytes, i4);
        if i5 != bytes.len() {
            return Err(LoadError::MalformedDescriptor);
        }
        Ok(ImageRon { format })
    }
}

} // verus!
