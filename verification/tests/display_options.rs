use oxideav_tga::TgaDisplayOptions;

// ---------------------------------------------------------------------------
// (a) parse_tga stays raw — composed NONE == parse_tga, bit for bit
// ---------------------------------------------------------------------------

#[test]
fn passthrough_is_default_is_all_constants() {
    assert!(TgaDisplayOptions::none().is_passthrough());
    assert!(!TgaDisplayOptions::all().is_passthrough());
    assert_eq!(TgaDisplayOptions::default(), TgaDisplayOptions::all());
}

// ---------------------------------------------------------------------------
// builder ergonomics
// ---------------------------------------------------------------------------

#[test]
fn builder_composes_individual_toggles() {
    let opts = TgaDisplayOptions::none()
        .with_resolve_alpha(true)
        .with_apply_tone(true);
    assert!(opts.resolve_alpha);
    assert!(opts.apply_tone);
    assert!(!opts.apply_key_color);
    assert!(!opts.apply_pixel_aspect);
    assert!(!opts.is_passthrough());
}

