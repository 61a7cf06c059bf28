use eggviz::text::{chars_of, decimal_string, push_decimal, read_index, string_of};

#[test]
fn characters_of_a_text() {
    assert_eq!(chars_of("a(ü)"), vec!['a', '(', 'ü', ')']);
    assert_eq!(chars_of(""), Vec::<char>::new());
}

#[test]
fn string_of_a_range_of_characters() {
    let v = vec!['h', 'e', 'l', 'l', 'o'];
    assert_eq!(string_of(&v, 1, 4), "ell");
    assert_eq!(string_of(&v, 2, 2), "");
    assert_eq!(string_of(&v, 0, 5), "hello");
}

#[test]
fn decimal_of_numbers() {
    assert_eq!(decimal_string(0), "0");
    assert_eq!(decimal_string(7), "7");
    assert_eq!(decimal_string(10), "10");
    assert_eq!(decimal_string(1203), "1203");
    assert_eq!(decimal_string(usize::MAX), usize::MAX.to_string());
    let mut s = String::from("n=");
    push_decimal(&mut s, 42);
    assert_eq!(s, "n=42");
}

#[test]
fn index_of_a_text() {
    let read = |s: &str| read_index(&s.chars().collect(), 0);
    assert_eq!(read("0"), Some(0));
    assert_eq!(read("17"), Some(17));
    assert_eq!(read("+17"), Some(17));
    assert_eq!(read("0017"), Some(17));
    assert_eq!(read(""), None);
    assert_eq!(read("+"), None);
    assert_eq!(read("-1"), None);
    assert_eq!(read("1 "), None);
    assert_eq!(read("1_0"), None);
    assert_eq!(read("++1"), None);
    assert_eq!(read(&usize::MAX.to_string()), Some(usize::MAX));
    assert_eq!(read(&format!("{}0", usize::MAX)), None);
    assert_eq!(read("99999999999999999999999999x"), None);
}

#[test]
fn index_after_a_prefix() {
    let v: Vec<char> = "rwr#12".chars().collect();
    assert_eq!(read_index(&v, 4), Some(12));
    assert_eq!(read_index(&v, 6), None);
}

#[test]
fn index_reads_back_decimal() {
    for n in [0usize, 1, 9, 10, 99, 100, 12345, usize::MAX] {
        let text: Vec<char> = decimal_string(n).chars().collect();
        assert_eq!(read_index(&text, 0), Some(n));
        assert_eq!(decimal_string(n).parse::<usize>().unwrap(), n);
    }
}
