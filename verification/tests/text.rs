use bl3_save_edit_core::text::{push_decimal, push_number_line, push_text_line, text_from};

fn decimal(n: u32) -> String {
    let mut out = String::new();
    push_decimal(&mut out, n);
    out
}

#[test]
fn numbers_are_written_in_decimal() {
    for n in [0u32, 1, 9, 10, 11, 99, 100, 101, 12345, 4_000_000_000, u32::MAX] {
        assert_eq!(decimal(n), n.to_string());
    }
}

#[test]
fn decimal_is_appended() {
    let mut out = String::from("x=");
    push_decimal(&mut out, 70);
    assert_eq!(out, "x=70");
}

#[test]
fn lines_end_with_a_line_feed() {
    let mut out = String::new();
    push_text_line(&mut out, "Name: ", "Moze");
    push_number_line(&mut out, "Level: ", 65);
    push_text_line(&mut out, "", "");
    assert_eq!(out, "Name: Moze\nLevel: 65\n\n");
}

#[test]
fn bytes_that_are_no_text_give_the_empty_text() {
    assert_eq!(text_from(Some(&b"Amara".to_vec())), "Amara");
    assert_eq!(text_from(Some(&"é".as_bytes().to_vec())), "é");
    assert_eq!(text_from(Some(&vec![0xc3])), "");
    assert_eq!(text_from(Some(&vec![])), "");
    assert_eq!(text_from(None), "");
}
