//! The integer facts of the ratio fields, the software version and the
//! job time: unset sentinels, identity and square checks, tuples.

use oxideav_tga::{GammaValue, JobTime, PixelAspectRatio, SoftwareVersion};

#[test]
fn software_version_unset_sentinel_fields() {
    let v = SoftwareVersion::unset();
    assert_eq!(v, SoftwareVersion::default());
    assert!(v.is_unset());
    assert_eq!(v.as_tuple(), (0, ' '));
    assert!(!SoftwareVersion::new(117, 'b').is_unset());
}

#[test]
fn gamma_identity_for_equal_non_zero_fields() {
    assert!(GammaValue::new(13, 13).is_identity());
    let one = GammaValue::one();
    assert_eq!(one, GammaValue::new(1, 1));
    assert!(!one.is_unset());
    assert!(one.is_identity());
    assert!(!GammaValue::new(22, 10).is_identity());
}

#[test]
fn gamma_unset_sentinel_fields() {
    let g = GammaValue::unset();
    assert_eq!(g, GammaValue::default());
    assert!(g.is_unset());
    assert!(!g.is_identity());
}

#[test]
fn pixel_aspect_square_and_unset_fields() {
    let sq = PixelAspectRatio::new(7, 7);
    assert!(!sq.is_unset());
    assert!(sq.is_square());
    assert_eq!(sq.corrected_display_dimensions(456, 123), Some((456, 123)));
    let unset = PixelAspectRatio::unset();
    assert_eq!(unset, PixelAspectRatio::default());
    assert!(unset.is_unset());
    assert!(unset.is_square());
    assert_eq!(unset.as_tuple(), (0, 0));
    assert_eq!(unset.corrected_display_dimensions(640, 480), None);
    assert!(!PixelAspectRatio::new(4, 3).is_square());
}

#[test]
fn job_time_default_is_the_unset_sentinel() {
    let j = JobTime::default();
    assert_eq!(j, JobTime::unset());
    assert!(j.is_unset());
    assert!(j.is_valid());
    assert_eq!(j.total_seconds(), 0);
    assert_eq!(j.hms_string(), "00:00:00");
}
