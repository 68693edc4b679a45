use agent_block_core::table::Table;
use agent_block_core::text::{
    chars_of, decimal, decimal_padded, decimal_signed, fault_text, find_chars, hex_string,
    join_strings, lines_of, parse_i64, parse_u64, same, split_chars, to_lower, trimmed,
};

fn chars(s: &str) -> Vec<char> {
    chars_of(s)
}

#[test]
fn a_text_is_cut_and_joined() {
    let parts = split_chars(&chars("a,b,,c"), ',');
    assert_eq!(parts, vec!["a", "b", "", "c"]);
    assert_eq!(join_strings(&parts, ","), "a,b,,c");
    assert_eq!(split_chars(&[], ','), vec![""]);
    assert_eq!(join_strings(&[], ","), "");
}

#[test]
fn lines_are_those_of_the_standard_library() {
    for s in ["", "a", "a\n", "a\r\nb", "a\r", "\n\n", "a\nb\r\n", "\r\n"] {
        let expected: Vec<&str> = s.lines().collect();
        assert_eq!(lines_of(&chars(s)), expected, "{s:?}");
    }
}

#[test]
fn white_space_is_taken_off_both_ends() {
    for s in ["  a b\t", "", "\u{3000}x\u{a0}", "\n", "none"] {
        assert_eq!(trimmed(&chars(s), 0), s.trim(), "{s:?}");
    }
}

#[test]
fn numbers_are_written_and_read_back() {
    for n in [0u64, 7, 10, 4096, u64::MAX] {
        assert_eq!(decimal(n), n.to_string());
        assert_eq!(parse_u64(&decimal(n)).ok(), Some(n));
    }
    for n in [0i64, -1, i64::MIN, i64::MAX] {
        assert_eq!(decimal_signed(n), n.to_string());
        assert_eq!(parse_i64(&decimal_signed(n)).ok(), Some(n));
    }
    assert_eq!(decimal_padded(7, 3), "007");
    for bad in ["", "x", "+", "99999999999999999999"] {
        let expected = bad.parse::<i64>().unwrap_err().to_string();
        assert_eq!(fault_text(parse_i64(bad).err().expect("a fault")), expected, "{bad:?}");
    }
}

#[test]
fn bytes_are_written_in_hexadecimal() {
    assert_eq!(hex_string(&[0, 15, 255]), "000fff");
    assert_eq!(to_lower("AbÉ"), "AbÉ".to_ascii_lowercase());
}

#[test]
fn a_text_is_found_where_it_first_stands() {
    assert_eq!(find_chars(&chars("abcabc"), &chars("ca"), 0), Some(2));
    assert_eq!(find_chars(&chars("abcabc"), &chars("bc"), 2), Some(4));
    assert_eq!(find_chars(&chars("abc"), &chars("x"), 0), None);
    assert!(same("a", "a") && !same("a", "b") && !same("a", "ab"));
}

#[test]
fn a_table_holds_each_name_once() {
    let mut t: Table<u32> = Table::new();
    t.set("a", 1);
    t.set("b", 2);
    t.set("a", 3);
    assert_eq!((t.len(), t.get("a"), t.get("c")), (2, Some(&3), None));
    assert_eq!(t.entry(0), ("a", &3));
    assert_eq!(t.take("a"), Some(3));
    assert_eq!(t.pop(), Some(("b".to_string(), 2)));
    assert_eq!(t.pop(), None);
}
