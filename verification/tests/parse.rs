//! Tests for the descriptor and companion-document parsers.

use material_pipeline::{parse_material, ImageFormat, ImageRon, LoadError, MaterialRon, Scalar};

fn desc(rough: &str, metal: &str) -> String {
    format!(
        "PBRMaterial(\n    main_texture: \"tex/brick_albedo.png\",\n    roughness_texture: \"tex/brick_rough.png\",\n    normal_texture: \"tex/brick_normal.png\",\n    roughness: {},\n    metallic: {},\n    color: (1.0, 0.5, 0.25, 1.0),\n)\n",
        rough, metal
    )
}

#[test]
fn parses_full_descriptor() {
    let text = desc("0.5", "0.25");
    let d = parse_material(&text.as_bytes().to_vec()).unwrap();
    let MaterialRon::PBRMaterial {
        main_texture,
        roughness_texture,
        normal_texture,
        roughness,
        metallic,
        color,
    } = d;
    assert_eq!(main_texture.bytes().as_slice(), b"tex/brick_albedo.png");
    assert_eq!(roughness_texture.bytes().as_slice(), b"tex/brick_rough.png");
    assert_eq!(normal_texture.bytes().as_slice(), b"tex/brick_normal.png");
    assert_eq!(roughness, Scalar { units: 0, frac: 5, frac_digits: 1 });
    assert_eq!(metallic, Scalar { units: 0, frac: 25, frac_digits: 2 });
    assert_eq!(color.r, Scalar { units: 1, frac: 0, frac_digits: 1 });
    assert_eq!(color.g, Scalar { units: 0, frac: 5, frac_digits: 1 });
    assert_eq!(color.b, Scalar { units: 0, frac: 25, frac_digits: 2 });
    assert_eq!(color.a, Scalar { units: 1, frac: 0, frac_digits: 1 });
}

#[test]
fn parses_integer_scalars() {
    let text = desc("1", "42");
    let d = parse_material(&text.as_bytes().to_vec()).unwrap();
    let MaterialRon::PBRMaterial { roughness, metallic, .. } = d;
    assert_eq!(roughness, Scalar { units: 1, frac: 0, frac_digits: 0 });
    assert_eq!(metallic, Scalar { units: 42, frac: 0, frac_digits: 0 });
}

#[test]
fn missing_comma_is_malformed() {
    let text = desc("0.5", "0.25").replace("albedo.png\",", "albedo.png\"");
    assert_eq!(
        parse_material(&text.as_bytes().to_vec()),
        Err(LoadError::MalformedDescriptor)
    );
}

#[test]
fn wrong_tag_is_malformed() {
    let text = desc("0.5", "0.25").replace("PBRMaterial", "OtherMaterial");
    assert_eq!(
        parse_material(&text.as_bytes().to_vec()),
        Err(LoadError::MalformedDescriptor)
    );
}

#[test]
fn unterminated_string_is_malformed() {
    let text = desc("0.5", "0.25").replace("\"tex/brick_normal.png\"", "\"tex/brick_normal.png");
    assert_eq!(
        parse_material(&text.as_bytes().to_vec()),
        Err(LoadError::MalformedDescriptor)
    );
}

#[test]
fn overlong_number_is_malformed() {
    let text = desc("0.1234567891", "0.25");
    assert_eq!(
        parse_material(&text.as_bytes().to_vec()),
        Err(LoadError::MalformedDescriptor)
    );
}

#[test]
fn trailing_garbage_is_malformed() {
    let mut text = desc("0.5", "0.25");
    text.push_str("x");
    assert_eq!(
        parse_material(&text.as_bytes().to_vec()),
        Err(LoadError::MalformedDescriptor)
    );
}

#[test]
fn image_ron_parses_all_formats() {
    let cases = [
        ("(format: RGB)", ImageFormat::RGB),
        ("(format: SRGB)", ImageFormat::SRGB),
        ("(format: HDR16)", ImageFormat::HDR16),
        ("( format : HDR32 )", ImageFormat::HDR32),
    ];
    for (text, expect) in cases {
        let r = ImageRon::parse(&text.as_bytes().to_vec()).unwrap();
        assert_eq!(r, ImageRon { format: expect });
    }
}

#[test]
fn image_ron_rejects_unknown_format() {
    assert_eq!(
        ImageRon::parse(&"(format: XYZ)".as_bytes().to_vec()),
        Err(LoadError::MalformedDescriptor)
    );
}
