use mcpi_rs::McpiError;
use mcpi_rs::events::BlockEvent;
use mcpi_rs::events::decode_xyz;
use mcpi_rs::minecraft::decode_first_int;
use mcpi_rs::minecraft::pos_decode_int;
use mcpi_rs::minecraft::pos_to_string;

#[test]
fn pos_to_string_joins_with_commas() {
    assert_eq!(pos_to_string((1, 2, 3)), "1,2,3");
    assert_eq!(pos_to_string((-1, 0, -3)), "-1,0,-3");
    assert_eq!(pos_to_string((2147483647, -2147483648, 0)), "2147483647,-2147483648,0");
}

#[test]
fn pos_decode_int_reads_three_fields() {
    assert_eq!(pos_decode_int(String::from("1,2,3")), Ok((1, 2, 3)));
    assert_eq!(pos_decode_int(String::from("3,5,4")), Ok((3, 5, 4)));
    assert_eq!(pos_decode_int(String::from("-10,75,-30")), Ok((-10, 75, -30)));
}

#[test]
fn pos_decode_int_round_trips_pos_to_string() {
    for p in [(1, 2, 3), (0, 0, 0), (-2147483648, 2147483647, -1)] {
        assert_eq!(pos_decode_int(pos_to_string(p)), Ok(p));
    }
}

#[test]
fn pos_decode_int_rejects_bad_shapes() {
    assert_eq!(pos_decode_int(String::from("")), Err(McpiError::UnexpectedShape));
    assert_eq!(pos_decode_int(String::from("1,2")), Err(McpiError::UnexpectedShape));
    assert_eq!(pos_decode_int(String::from("1,2,3,4")), Err(McpiError::UnexpectedShape));
    assert_eq!(pos_decode_int(String::from("1, 2,3")), Err(McpiError::UnexpectedShape));
    assert_eq!(pos_decode_int(String::from("1,2,x")), Err(McpiError::UnexpectedShape));
    assert_eq!(pos_decode_int(String::from("1.5,2,3")), Err(McpiError::UnexpectedShape));
}

#[test]
fn decode_first_int_keeps_the_first_field() {
    assert_eq!(decode_first_int(String::from("42")), Ok(42));
    assert_eq!(decode_first_int(String::from("42 1.0")), Ok(42));
    assert_eq!(decode_first_int(String::from("  -7\tjunk junk")), Ok(-7));
    assert_eq!(decode_first_int(String::from("12\n")), Ok(12));
}

#[test]
fn decode_first_int_rejects_bad_first_fields() {
    assert_eq!(decode_first_int(String::from("")), Err(McpiError::UnexpectedShape));
    assert_eq!(decode_first_int(String::from("   ")), Err(McpiError::UnexpectedShape));
    assert_eq!(decode_first_int(String::from("h 42")), Err(McpiError::UnexpectedShape));
}

#[test]
fn decode_xyz_reads_plain_triples() {
    assert_eq!(decode_xyz(String::from("1,2,3")), Ok((1, 2, 3)));
    assert_eq!(decode_xyz(String::from("-4,0,9")), Ok((-4, 0, 9)));
}

#[test]
fn decode_xyz_passes_over_filler_fields() {
    assert_eq!(decode_xyz(String::from("1,,2, ,3")), Ok((1, 2, 3)));
    assert_eq!(decode_xyz(String::from(",1,2,3")), Ok((1, 2, 3)));
    assert_eq!(decode_xyz(String::from("1,2,3,")), Ok((1, 2, 3)));
}

#[test]
fn decode_xyz_defaults_missing_values_to_zero() {
    assert_eq!(decode_xyz(String::from("")), Ok((0, 0, 0)));
    assert_eq!(decode_xyz(String::from("5")), Ok((5, 0, 0)));
    assert_eq!(decode_xyz(String::from("5,6")), Ok((5, 6, 0)));
}

#[test]
fn decode_xyz_stops_after_three_values() {
    assert_eq!(decode_xyz(String::from("1,2,3,4")), Ok((1, 2, 3)));
    assert_eq!(decode_xyz(String::from("1,2,3,junk")), Ok((1, 2, 3)));
}

#[test]
fn decode_xyz_rejects_a_bad_field_among_the_first_three() {
    assert_eq!(decode_xyz(String::from("a,b,c")), Err(McpiError::UnexpectedShape));
    assert_eq!(decode_xyz(String::from("1,2,x,4")), Err(McpiError::UnexpectedShape));
    assert_eq!(decode_xyz(String::from("1.0,2,3")), Err(McpiError::UnexpectedShape));
}

#[test]
fn block_event_keeps_its_parts() {
    let ev = BlockEvent::hit((4, 5, 6), 1, 9);
    assert_eq!(ev.pos, (4, 5, 6));
    assert_eq!(ev.face, 1);
    assert_eq!(ev.entity_id, 9);
}
