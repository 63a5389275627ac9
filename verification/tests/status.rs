use pearl_calculator::status::{DimensionOption, StatusKind, StatusMessage};
use pearl_calculator::Dimension;

#[test]
fn status_lines() {
    let m = StatusMessage::success("success".to_string());
    assert_eq!(m.kind, StatusKind::Success);
    assert_eq!(m.text, "success");
    let m = StatusMessage::error("bad".to_string());
    assert_eq!(m.kind, StatusKind::Error);
    assert_eq!(m.text, "bad");
}

#[test]
fn dimension_options() {
    assert_eq!(DimensionOption::default(), DimensionOption::Nether);
    assert_eq!(DimensionOption::Overworld.to_dimension(), Dimension::Overworld);
    assert_eq!(DimensionOption::Nether.to_dimension(), Dimension::Nether);
    assert_eq!(DimensionOption::End.to_dimension(), Dimension::End);
}
