use tabular::Row;
use tabular::Table;

#[test]
fn alignment() {
    let mut table = Table::new("{:>}  ({:<}) {:<}");
    table.add_row(Row::new().with_cell(1).with_cell("I").with_cell("one"));
    table.add_row(Row::new().with_cell(5).with_cell("V").with_cell("five"));
    table.add_row(Row::new().with_cell(10).with_cell("X").with_cell("ten"));
    table.add_row(Row::new().with_cell(50).with_cell("L").with_cell("fifty"));
    table.add_row(Row::new().with_cell(100).with_cell("C").with_cell("hundred"));
    assert_eq!(
        format!("\n{}", table.render()),
        r#"
  1  (I) one
  5  (V) five
 10  (X) ten
 50  (L) fifty
100  (C) hundred
"#
    );
}

#[test]
fn heading() {
    let _row = Row::from_cells(vec!["a", "b", "c"]);

    let table = Table::new("{:<} {:<} {:>}")
        .with_row(Row::from_cells(vec!["a", "b", "d"]))
        .with_heading("This is my table")
        .with_row(Row::from_cells(vec!["ab", "bc", "cd"]));

    assert_eq!(
        format!("\n{}", table.render()),
        r#"
a  b   d
This is my table
ab bc cd
"#
    );
}

#[test]
fn temporary() {}

#[test]
fn padding_exact() {
    let mut table = Table::new("{:>}  ({:<}) {:<}");
    table.add_row(Row::new().with_cell(1).with_cell("I").with_cell("one"));
    table.add_row(Row::new().with_cell(5).with_cell("V").with_cell("five"));
    table.add_row(Row::new().with_cell(10).with_cell("X").with_cell("ten"));
    table.add_row(Row::new().with_cell(50).with_cell("L").with_cell("fifty"));
    table.add_row(Row::new().with_cell(100).with_cell("C").with_cell("one-hundred"));
    assert_eq!(
        table.render(),
        "  1  (I) one\n  5  (V) five\n 10  (X) ten\n 50  (L) fifty\n100  (C) one-hundred\n"
    );
}

#[test]
fn heading_does_not_widen_columns() {
    let mut table = Table::new("{:<} {:>}");
    table.add_row(Row::from_cells(vec!["a", "b"]));
    table.add_heading("a heading much longer than any cell");
    table.add_row(Row::from_cells(vec!["cc", "dd"]));
    assert_eq!(
        table.render(),
        "a   b\na heading much longer than any cell\ncc dd\n"
    );
}

#[test]
fn empty_table_renders_empty() {
    let table = Table::new("{:>}  ({:<}) {:<}");
    assert_eq!(table.render(), "");
    let plain = Table::new("just literal text");
    assert_eq!(plain.render(), "");
    let no_template = Table::new("");
    assert_eq!(no_template.render(), "");
}

#[test]
fn widths_grow_monotonically() {
    let mut table = Table::new("{:>} {:<}");
    table.add_row(Row::from_cells(vec!["a", "b"]));
    assert_eq!(table.render(), "a b\n");
    table.add_row(Row::from_cells(vec!["ccc", "d"]));
    assert_eq!(table.render(), "  a b\nccc d\n");
    table.add_row(Row::from_cells(vec!["e", "f"]));
    assert_eq!(table.render(), "  a b\nccc d\n  e f\n");
}

#[test]
fn try_add_row_rejects_mismatch() {
    let mut table = Table::new("{:<} {:<}");
    assert_eq!(table.column_count(), 2);
    let added = table.try_add_row(Row::from_cells(vec!["a", "b"]));
    assert!(added);
    let before = table.render();
    let rejected = table.try_add_row(Row::from_cells(vec!["only-one"]));
    assert!(!rejected);
    let three = table.try_add_row(Row::from_cells(vec!["x", "y", "z"]));
    assert!(!three);
    assert_eq!(table.render(), before);
    assert_eq!(table.render(), "a b\n");
}

#[test]
fn row_len_counts_cells() {
    let mut row = Row::new();
    assert_eq!(row.len(), 0);
    row.add_cell("a");
    row.add_cell(17);
    assert_eq!(row.len(), 2);
    assert_eq!(Row::from_cells(vec!["x", "y", "z"]).len(), 3);
}

#[test]
fn with_and_add_build_the_same_table() {
    let chained = Table::new("{:<}: {:>}")
        .with_heading("totals")
        .with_row(Row::new().with_cell("items").with_cell(42));
    let mut sequenced = Table::new("{:<}: {:>}");
    sequenced.add_heading("totals");
    let mut row = Row::new();
    row.add_cell("items");
    row.add_cell(42);
    sequenced.add_row(row);
    assert_eq!(chained.render(), sequenced.render());
    assert_eq!(chained.render(), "totals\nitems: 42\n");
}

#[test]
fn wide_characters_pad_by_display_width() {
    let mut table = Table::new("{:>} {:<}");
    table.add_row(Row::from_cells(vec!["日本", "x"]));
    table.add_row(Row::from_cells(vec!["ab", "y"]));
    assert_eq!(table.render(), "日本 x\n  ab y\n");
}

#[test]
fn zero_width_column_pads_nothing() {
    let mut table = Table::new("{:<}|{:>}");
    table.add_row(Row::from_cells(vec!["", ""]));
    table.add_row(Row::from_cells(vec!["", "b"]));
    assert_eq!(table.render(), "| \n|b\n");
}

#[test]
fn literal_template_renders_per_row() {
    let mut table = Table::new("{{braces}} and {:<}!");
    table.add_row(Row::new().with_cell("x"));
    table.add_row(Row::new().with_cell("yz"));
    assert_eq!(table.render(), "{braces} and x !\n{braces} and yz!\n");
}
