use django_templates::integer::Integer;

#[test]
fn integers_read_back() {
    for text in ["0", "7", "-7", "255", "256", "99999999999999999", "-340282366920938463463374607431768211456"] {
        assert_eq!(Integer::parse(text).unwrap().to_text(), text);
    }
}
