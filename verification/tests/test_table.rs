//! Checks of the table builders: widths, styles, alignment, separators.

use zfish::table::{Alignment, BoxStyle, Table};

#[test]
fn test_table_test_table_creation() {
    let _table = Table::new(vec!["Col1", "Col2", "Col3"]);
    // Table created successfully
}

#[test]
fn test_add_single_row() {
    let mut table = Table::new(vec!["Name", "Age"]);
    table.add_row(vec!["Alice", "25"]);
    // Row added successfully
}

#[test]
fn test_add_multiple_rows() {
    let mut table = Table::new(vec!["Name", "Age", "City"]);
    table.add_row(vec!["Alice", "25", "NYC"]);
    table.add_row(vec!["Bob", "30", "LA"]);
    table.add_row(vec!["Charlie", "35", "Chicago"]);
    // Multiple rows added successfully
}

#[test]
fn test_column_width_expands_with_content() {
    let mut table = Table::new(vec!["Name", "Age"]);
    // Initial width is 4 for "Name"

    table.add_row(vec!["Alexander", "25"]);
    // Width should expand to 9 for "Alexander"
}

#[test]
fn test_set_box_style_single() {
    let mut table = Table::new(vec!["Col1"]);
    table.set_box_style(BoxStyle::Single);
}

#[test]
fn test_set_box_style_double() {
    let mut table = Table::new(vec!["Col1"]);
    table.set_box_style(BoxStyle::Double);
}

#[test]
fn test_set_box_style_heavy() {
    let mut table = Table::new(vec!["Col1"]);
    table.set_box_style(BoxStyle::Heavy);
}

#[test]
fn test_set_box_style_rounded() {
    let mut table = Table::new(vec!["Col1"]);
    table.set_box_style(BoxStyle::Rounded);
}

#[test]
fn test_set_box_style_ascii() {
    let mut table = Table::new(vec!["Col1"]);
    table.set_box_style(BoxStyle::Ascii);
}

#[test]
fn test_set_alignment_left() {
    let mut table = Table::new(vec!["Col1", "Col2"]);
    table.set_column_alignment(0, Alignment::Left);
}

#[test]
fn test_set_alignment_right() {
    let mut table = Table::new(vec!["Col1", "Col2"]);
    table.set_column_alignment(0, Alignment::Right);
}

#[test]
fn test_set_alignment_center() {
    let mut table = Table::new(vec!["Col1", "Col2"]);
    table.set_column_alignment(0, Alignment::Center);
}

#[test]
fn test_set_indent_zero() {
    let mut table = Table::new(vec!["Col1"]);
    table.set_indent(0);
}

#[test]
fn test_set_indent_custom() {
    let mut table = Table::new(vec!["Col1"]);
    table.set_indent(10);
}

#[test]
fn test_header_separator_enabled() {
    let mut table = Table::new(vec!["Col1"]);
    table.set_header_separator(true);
}

#[test]
fn test_header_separator_disabled() {
    let mut table = Table::new(vec!["Col1"]);
    table.set_header_separator(false);
}

#[test]
fn test_footer_separator_enabled() {
    let mut table = Table::new(vec!["Col1"]);
    table.set_footer_separator(true);
}

#[test]
fn test_footer_separator_disabled() {
    let mut table = Table::new(vec!["Col1"]);
    table.set_footer_separator(false);
}

#[test]
fn test_method_chaining() {
    let mut table = Table::new(vec!["Col1", "Col2"]);
    table.set_box_style(BoxStyle::Double);
    table.set_indent(5);
    table.set_column_alignment(0, Alignment::Center);
    table.set_header_separator(true);
    table.set_footer_separator(true);
}

#[test]
fn table_test_table_creation() {
    let table = Table::new(vec!["Col1", "Col2", "Col3"]);
    assert_eq!(table.headers.len(), 3);
    assert_eq!(table.col_widths.len(), 3);
    assert_eq!(table.rows.len(), 0);
}

#[test]
fn test_add_row() {
    let mut table = Table::new(vec!["Name", "Age"]);
    table.add_row(vec!["Alice", "25"]);
    table.add_row(vec!["Bob", "30"]);
    assert_eq!(table.rows.len(), 2);
}

#[test]
fn test_column_width_calculation() {
    let mut table = Table::new(vec!["Name", "Age"]);
    assert_eq!(table.col_widths[0], 4); // "Name".len()

    table.add_row(vec!["Alexander", "25"]);
    assert_eq!(table.col_widths[0], 9); // "Alexander".len()
}

#[test]
fn test_box_style_setting() {
    let mut table = Table::new(vec!["Col1"]);
    table.set_box_style(BoxStyle::Double);
    assert_eq!(table.box_style, BoxStyle::Double);
}

#[test]
fn test_alignment_setting() {
    let mut table = Table::new(vec!["Name", "Age", "Salary"]);
    table.set_column_alignment(1, Alignment::Right);
    assert_eq!(table.col_alignments[1], Alignment::Right);
}

#[test]
fn test_cell_formatting_left() {
    let table = Table::new(vec!["Test"]);
    let result = table.format_cell("Hi", 5, Alignment::Left);
    assert_eq!(result, "Hi   ");
}

#[test]
fn test_cell_formatting_right() {
    let table = Table::new(vec!["Test"]);
    let result = table.format_cell("Hi", 5, Alignment::Right);
    assert_eq!(result, "   Hi");
}

#[test]
fn test_cell_formatting_center() {
    let table = Table::new(vec!["Test"]);
    let result = table.format_cell("Hi", 6, Alignment::Center);
    assert_eq!(result, "  Hi  ");
}

#[test]
fn test_box_chars_single() {
    let chars = BoxStyle::Single.chars();
    assert_eq!(chars.top_left, '┌');
    assert_eq!(chars.horizontal, '─');
}

#[test]
fn test_box_chars_double() {
    let chars = BoxStyle::Double.chars();
    assert_eq!(chars.top_left, '╔');
    assert_eq!(chars.horizontal, '═');
}

#[test]
fn test_box_chars_ascii() {
    let chars = BoxStyle::Ascii.chars();
    assert_eq!(chars.top_left, '+');
    assert_eq!(chars.horizontal, '-');
}
