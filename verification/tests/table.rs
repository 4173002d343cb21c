use ns2_stat::helpers::format_with;
use ns2_stat::table::{column_widths, print_table, push_blanks, push_padded, Alignment};

fn row(cells: [&str; 3]) -> [String; 3] {
    [cells[0].to_string(), cells[1].to_string(), cells[2].to_string()]
}

#[test]
fn columns_are_as_wide_as_their_widest_text() {
    let rows = vec![row(["alice", "12", "3.50"]), row(["bob", "7", "10.25"])];
    let text = print_table(
        ["NAME", "KILLS", "KD"],
        [Alignment::Left, Alignment::Right, Alignment::Center],
        &rows,
    );
    let expected = "\
NAME     KILLS    KD       \n\
alice       12    3.50     \n\
bob          7    10.25    \n";
    assert_eq!(text, expected);
    assert_eq!(column_widths(["NAME", "KILLS", "KD"], &rows), vec![5, 5, 5]);
}

#[test]
fn a_table_without_rows_is_its_titles() {
    let rows: Vec<[String; 2]> = Vec::new();
    let text = print_table(["MAP", "ROUNDS"], [Alignment::Left, Alignment::Right], &rows);
    assert_eq!(text, "MAP    ROUNDS    \n");
    let nothing: Vec<[String; 0]> = vec![[], []];
    assert_eq!(print_table([], [], &nothing), "\n\n\n");
}

#[test]
fn text_is_padded_on_the_side_of_its_alignment() {
    let mut text = String::from(">");
    push_padded(&mut text, "ab", 5, Alignment::Left);
    text.push('|');
    push_padded(&mut text, "ab", 5, Alignment::Right);
    text.push('|');
    push_padded(&mut text, "ab", 5, Alignment::Center);
    text.push('|');
    push_padded(&mut text, "abc", 6, Alignment::Center);
    text.push('|');
    push_padded(&mut text, "abcdef", 3, Alignment::Right);
    text.push('|');
    push_padded(&mut text, "", 2, Alignment::Center);
    text.push('|');
    assert_eq!(text, ">ab   |   ab| ab  | abc  |abcdef|  |");
    assert_eq!(text, format!(">{:<5}|{:>5}|{:^5}|{:^6}|{:>3}|{:^2}|", "ab", "ab", "ab", "abc", "abcdef", ""));
    let mut blanks = String::new();
    push_blanks(&mut blanks, 3);
    assert_eq!(blanks, "   ");
    push_blanks(&mut blanks, 0);
    assert_eq!(blanks, "   ");
}

#[test]
fn widths_are_bytes_and_padding_is_characters() {
    let rows = vec![["né".to_string()], ["abc".to_string()]];
    assert_eq!(column_widths(["é"], &rows), vec![3]);
    let text = print_table(["é"], [Alignment::Right], &rows);
    assert_eq!(text, "é      \n né    \nabc    \n");
    let width = 3;
    assert_eq!(
        text,
        format!("{:width$}    \n{:>width$}    \n{:>width$}    \n", "é", "né", "abc")
    );
}

#[test]
fn items_are_joined_with_the_separator() {
    let players = vec!["ann", "bob", "cy"];
    let commander = "bob";
    let joined = format_with(&players, ", ", |p: &&str| {
        if *p == commander {
            format!("[{}]", p)
        } else {
            p.to_string()
        }
    });
    assert_eq!(joined.pieces, vec!["ann", "[bob]", "cy"]);
    assert_eq!(joined.separator, ", ");
    assert_eq!(joined.text(), "ann, [bob], cy");
    let one = format_with(&vec![7], "-", |n: &i32| n.to_string());
    assert_eq!(one.text(), "7");
    let none = format_with(&Vec::<i32>::new(), "-", |n: &i32| n.to_string());
    assert_eq!(none.text(), "");
    let empty_pieces = format_with(&vec![1, 2, 3], "", |_: &i32| String::new());
    assert_eq!(empty_pieces.text(), "");
    let dashes = format_with(&vec![1, 2, 3], "-", |_: &i32| String::new());
    assert_eq!(dashes.text(), "--");
}
