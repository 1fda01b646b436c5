use artop::fill::{get_filler, FillMethod};

#[test]
fn known_fill_methods_are_found() {
    assert_eq!(get_filler("smooth"), Some(FillMethod::Smooth));
    assert_eq!(get_filler("gradient"), Some(FillMethod::Gradient));
}

#[test]
fn unknown_fill_method_is_a_configuration_error() {
    assert_eq!(get_filler("rainbow"), None);
    assert_eq!(get_filler(""), None);
    assert_eq!(get_filler("Smooth"), None);
    assert_eq!(get_filler("gradient "), None);
}
