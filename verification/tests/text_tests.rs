use distributed_doc_system::text::{parse_decimal, push_decimal, str_lt, text_after_first_dot, text_before_first_dot};

#[test]
fn str_lt_is_string_order() {
    let words = ["", "a", "ab", "b", "B", "é", "e", "Doc1", "Doc1.1", "Doc_Demo", "📜 x", "zz"];
    for a in words {
        for b in words {
            assert_eq!(str_lt(a, b), a < b, "{} < {}", a, b);
        }
    }
}

#[test]
fn parse_decimal_is_usize_parse() {
    for s in ["0", "42", "+7", "", "+", "-1", "-", "007", "1x", "18446744073709551615", "18446744073709551616", "99999999999999999999999a", " 1"] {
        assert_eq!(parse_decimal(s), s.parse::<usize>().ok(), "{:?}", s);
    }
}

#[test]
fn push_decimal_is_display() {
    for n in [0usize, 5, 10, 99, 1000, usize::MAX] {
        let mut s = "v".to_string();
        push_decimal(&mut s, n);
        assert_eq!(s, format!("v{}", n));
    }
}

#[test]
fn dot_split_parts() {
    assert_eq!(text_before_first_dot("a.b.c"), "a");
    assert_eq!(text_before_first_dot("abc"), "abc");
    assert_eq!(text_before_first_dot(".x"), "");
    assert_eq!(text_after_first_dot("a.b.c"), "b.c");
    assert_eq!(text_after_first_dot("a."), "");
}
