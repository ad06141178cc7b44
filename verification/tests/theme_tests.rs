use homebrewconfig::theme::{index_of, names, themes};

#[test]
fn default_theme_is_brew() {
    assert_eq!(themes()[0].name, "brew");
}

#[test]
fn theme_names_are_unique() {
    for (i, t) in themes().iter().enumerate() {
        assert_eq!(index_of(t.name), Some(i));
    }
}

#[test]
fn index_of_unknown_is_none() {
    assert_eq!(index_of("nope"), None);
}

#[test]
fn names_lists_every_theme() {
    let listed = names();
    for t in themes() {
        assert!(listed.contains(t.name));
    }
}

#[test]
fn names_are_comma_separated_in_order() {
    assert_eq!(names(), "brew, midnight, forest, rose, mono");
    let brew = themes()[0];
    assert_eq!((brew.primary.r, brew.primary.g, brew.primary.b), (255, 180, 0));
    assert_eq!(themes().len(), 5);
}
