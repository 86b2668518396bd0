use number_viewer::banner::{ascii_digits, banner};

#[test]
fn banner_of_minus_ten_has_minus_one_zero_stencils() {
    let expected = [
        "        #    ### ",
        " ---   ##   #   #",
        "        #   #   #",
        "        #   #   #",
        "       ###   ### ",
    ]
    .join("\n");
    assert_eq!(ascii_digits(-10), expected);
}

#[test]
fn banner_of_unknown_character_uses_placeholder() {
    let out = banner("7x");
    let rows: Vec<&str> = out.split('\n').collect();
    assert_eq!(rows.len(), 5);
    assert_eq!(rows[0], "##### ?????");
    assert_eq!(rows[4], "  #   ?????");
}

#[test]
fn banner_of_every_digit() {
    let expected = [
        " ###    #    ###   ###  #   # #####  ###  #####  ###   ### ",
        "#   #  ##   #   #     # #   # #     #         # #   # #   #",
        "#   #   #      #   ###  ##### ####  ####     #   ###   ####",
        "#   #   #     #       #     #     # #   #   #   #   #     #",
        " ###   ###  #####  ###      # ####   ###    #    ###   ### ",
    ]
    .join("\n");
    assert_eq!(banner("0123456789"), expected);
}

#[test]
fn banner_of_nothing_is_five_empty_rows() {
    assert_eq!(banner(""), "\n\n\n\n");
}

#[test]
fn banner_rows_are_six_columns_a_character_less_one() {
    for n in [0i64, 7, -7, 1337, i64::MIN, i64::MAX] {
        let out = ascii_digits(n);
        let rows: Vec<&str> = out.split('\n').collect();
        assert_eq!(rows.len(), 5);
        for row in rows {
            assert_eq!(row.chars().count(), 6 * n.to_string().len() - 1);
        }
    }
}

#[test]
fn banner_of_smallest_integer_starts_with_the_minus_stencil() {
    let out = ascii_digits(i64::MIN);
    let rows: Vec<&str> = out.split('\n').collect();
    assert_eq!(&rows[0][..5], "     ");
    assert_eq!(&rows[1][..5], " --- ");
    assert_eq!(&rows[1][5..11], " #   #");
}
