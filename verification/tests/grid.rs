use summer::display::styles::Style;
use summer::display::Row;

#[test]
fn compute_row_width() {
    let mut row = Row::new();
    row.add_text("α = 0".to_string(), None);
    let mut bold = Style::new();
    bold.is_bold = true;
    row.add_text("(＠)".to_string(), Some(bold));

    assert_eq!(row.width, 9);
}
