use skean_raytracer::resolution::{sizing, ConfigError, Sizing, DEFAULT_HEIGHT};

#[test]
fn all_three_given_is_a_conflict() {
    assert_eq!(sizing(true, Some(256), Some(144)), Err(ConfigError::ResolutionConflict));
    assert_eq!(
        ConfigError::ResolutionConflict.message(),
        "Can only specify one resolution dimension along with an aspect ratio."
    );
}

#[test]
fn width_and_height_without_ratio_are_taken_as_given() {
    assert_eq!(sizing(false, Some(256), Some(144)), Ok(Sizing::Exact { width: 256, height: 144 }));
    assert_eq!(sizing(false, Some(0), Some(0)), Ok(Sizing::Exact { width: 0, height: 0 }));
}

#[test]
fn width_alone_fixes_the_width() {
    assert_eq!(sizing(true, Some(400), None), Ok(Sizing::FromWidth { width: 400 }));
    assert_eq!(sizing(false, Some(400), None), Ok(Sizing::FromWidth { width: 400 }));
}

#[test]
fn height_alone_fixes_the_height() {
    assert_eq!(sizing(true, None, Some(90)), Ok(Sizing::FromHeight { height: 90 }));
    assert_eq!(sizing(false, None, Some(90)), Ok(Sizing::FromHeight { height: 90 }));
}

#[test]
fn no_dimension_gives_the_default_height() {
    assert_eq!(sizing(true, None, None), Ok(Sizing::FromHeight { height: 144 }));
    assert_eq!(sizing(false, None, None), Ok(Sizing::FromHeight { height: DEFAULT_HEIGHT }));
}

#[test]
fn defaults() {
    assert_eq!(DEFAULT_HEIGHT, 144);
}
