use laspad::item::{parse_u64_radix, u64_to_dec, u64_to_hex_upper, Item};

#[test]
fn url_names_the_workshop_page() {
    assert_eq!(
        Item(106).url(),
        "https://steamcommunity.com/sharedfiles/filedetails/?id=106"
    );
}

#[test]
fn hex_rendering_is_uppercase() {
    assert_eq!(u64_to_hex_upper(0x4292cdec), "4292CDEC");
    assert_eq!(u64_to_hex_upper(0), "0");
    assert_eq!(u64_to_hex_upper(u64::MAX), "FFFFFFFFFFFFFFFF");
}

#[test]
fn decimal_rendering_is_exact() {
    assert_eq!(u64_to_dec(0), "0");
    assert_eq!(u64_to_dec(10), "10");
    assert_eq!(u64_to_dec(18446744073709551615), "18446744073709551615");
}

#[test]
fn radix_parse_follows_the_standard_rules() {
    assert_eq!(parse_u64_radix("4292cdec", 16), Some(0x4292cdec));
    assert_eq!(parse_u64_radix("4292CDEC", 16), Some(0x4292cdec));
    assert_eq!(parse_u64_radix("+ff", 16), Some(255));
    assert_eq!(parse_u64_radix("", 16), None);
    assert_eq!(parse_u64_radix("+", 16), None);
    assert_eq!(parse_u64_radix("xyz", 16), None);
    assert_eq!(parse_u64_radix("ffffffffffffffff", 16), Some(u64::MAX));
    assert_eq!(parse_u64_radix("10000000000000000", 16), None);
    assert_eq!(parse_u64_radix("42", 10), Some(42));
    assert_eq!(parse_u64_radix("4a", 10), None);
    assert_eq!(parse_u64_radix("-0", 10), Some(0));
    assert_eq!(parse_u64_radix("-000", 16), Some(0));
    assert_eq!(parse_u64_radix("-5", 10), None);
    assert_eq!(parse_u64_radix("-", 10), None);
}

#[test]
fn item_parses_hex_or_address_query() {
    assert_eq!(Item::parse_str("4292cdec").unwrap(), Item(0x4292cdec));
    assert_eq!(
        Item::parse_str("https://steamcommunity.com/sharedfiles/filedetails/?id=106")
            .unwrap(),
        Item(106)
    );
    assert_eq!(Item::parse_str("see id=123 there").unwrap(), Item(123));
    // A digit run closed by a word character captures nothing.
    assert!(Item::parse_str("id=123abc rest").is_err());
    assert!(Item::parse_str("no item here").is_err());
    assert!(Item::parse_str("id= nothing").is_err());
    assert!(Item::parse_str("id=99999999999999999999999999").is_err());
}
