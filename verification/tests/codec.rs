use mcpi_rs::McpiError;
use mcpi_rs::items::Block;
use mcpi_rs::items::Item;
use mcpi_rs::numbers::i32_to_string;
use mcpi_rs::numbers::parse_i32;
use mcpi_rs::numbers::parse_u32;
use mcpi_rs::numbers::u32_to_string;

#[test]
fn u32_formatting_exact() {
    assert_eq!(u32_to_string(0), "0");
    assert_eq!(u32_to_string(7), "7");
    assert_eq!(u32_to_string(10), "10");
    assert_eq!(u32_to_string(4294967295), "4294967295");
}

#[test]
fn i32_formatting_exact() {
    assert_eq!(i32_to_string(0), "0");
    assert_eq!(i32_to_string(246), "246");
    assert_eq!(i32_to_string(-1), "-1");
    assert_eq!(i32_to_string(2147483647), "2147483647");
    assert_eq!(i32_to_string(-2147483648), "-2147483648");
}

#[test]
fn u32_parsing_round_trips() {
    assert_eq!(parse_u32("0"), Ok(0));
    assert_eq!(parse_u32("0050"), Ok(50));
    assert_eq!(parse_u32("4294967295"), Ok(4294967295));
    for n in [0u32, 1, 9, 10, 57, 4096, 4294967295] {
        assert_eq!(parse_u32(&u32_to_string(n)), Ok(n));
    }
}

#[test]
fn u32_parsing_rejects_bad_shapes() {
    assert_eq!(parse_u32(""), Err(McpiError::UnexpectedShape));
    assert_eq!(parse_u32(" 5"), Err(McpiError::UnexpectedShape));
    assert_eq!(parse_u32("5 "), Err(McpiError::UnexpectedShape));
    assert_eq!(parse_u32("-5"), Err(McpiError::UnexpectedShape));
    assert_eq!(parse_u32("12a"), Err(McpiError::UnexpectedShape));
    assert_eq!(parse_u32("4294967296"), Err(McpiError::UnexpectedShape));
    assert_eq!(parse_u32("99999999999999999999"), Err(McpiError::UnexpectedShape));
}

#[test]
fn i32_parsing_signed_values() {
    assert_eq!(parse_i32("35"), Ok(35));
    assert_eq!(parse_i32("-35"), Ok(-35));
    assert_eq!(parse_i32("2147483647"), Ok(2147483647));
    assert_eq!(parse_i32("-2147483648"), Ok(-2147483648));
    assert_eq!(parse_i32("2147483648"), Err(McpiError::UnexpectedShape));
    assert_eq!(parse_i32("-2147483649"), Err(McpiError::UnexpectedShape));
    assert_eq!(parse_i32("-"), Err(McpiError::UnexpectedShape));
    assert_eq!(parse_i32("--1"), Err(McpiError::UnexpectedShape));
    assert_eq!(parse_i32(""), Err(McpiError::UnexpectedShape));
    for n in [0i32, 1, -1, 1000, -1000, 2147483647, -2147483648] {
        assert_eq!(parse_i32(&i32_to_string(n)), Ok(n));
    }
}

#[test]
fn block_encodes_id_alone_when_data_is_zero() {
    let b = Block::new(0, Item::Id(5));
    assert_eq!(b.encode(), "5");
    assert_eq!(Block::new_without_data(Item::Id(57)).encode(), "57");
    assert_eq!(Block::from_item(Item::Id(0)).encode(), "0");
}

#[test]
fn block_encodes_id_and_data() {
    assert_eq!(Block::new(2, Item::Id(5)).encode(), "5,2");
    assert_eq!(Block::new(-3, Item::Id(35)).encode(), "35,-3");
}

#[test]
fn block_round_trip_with_zero_data() {
    let b = Block::new(0, Item::Id(5));
    assert_eq!(Block::decode(b.encode()), Ok(b));
}

#[test]
fn block_round_trip_with_data() {
    let b = Block::new(2, Item::Id(5));
    assert_eq!(Block::decode(b.encode()), Ok(b));
    let c = Block::new(-7, Item::Id(98));
    assert_eq!(Block::decode(c.encode()), Ok(c));
}

#[test]
fn block_decode_without_comma_defaults_data_to_zero() {
    assert_eq!(Block::decode(String::from("5")), Ok(Block::new(0, Item::Id(5))));
    assert_eq!(Block::decode(String::from("246")), Ok(Block::new(0, Item::Id(246))));
}

#[test]
fn block_decode_rejects_bad_shapes() {
    assert_eq!(Block::decode(String::from("")), Err(McpiError::UnexpectedShape));
    assert_eq!(Block::decode(String::from("x")), Err(McpiError::UnexpectedShape));
    assert_eq!(Block::decode(String::from("5,")), Err(McpiError::UnexpectedShape));
    assert_eq!(Block::decode(String::from(",2")), Err(McpiError::UnexpectedShape));
    assert_eq!(Block::decode(String::from("5,2,9")), Err(McpiError::UnexpectedShape));
    assert_eq!(Block::decode(String::from("-5,2")), Err(McpiError::UnexpectedShape));
    assert_eq!(Block::decode(String::from("4294967296")), Err(McpiError::UnexpectedShape));
}

#[test]
fn item_unwrap_returns_the_id() {
    assert_eq!(Item::Id(35).unwrap(), 35);
    assert_eq!(Item::Id(0).unwrap(), 0);
}
