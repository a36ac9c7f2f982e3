use kludgine::style::Style;

#[test]
fn push_replaces_component_of_same_kind() {
    let mut style = Style::new();
    style.push(1, "red");
    style.push(2, "large");
    style.push(1, "blue");
    assert_eq!(style.get(1), Some(&"blue"));
    assert_eq!(style.get(2), Some(&"large"));
    assert_eq!(style.get(3), None);
}

#[test]
fn inherit_prefers_own_components() {
    let child = Style::new().with(1, String::from("child color"));
    let parent = Style::new()
        .with(1, String::from("parent color"))
        .with(2, String::from("parent size"));
    let merged = child.inherit_from(&parent);
    assert_eq!(merged.get(1).map(String::as_str), Some("child color"));
    assert_eq!(merged.get(2).map(String::as_str), Some("parent size"));
    assert_eq!(merged.get(3), None);
}
