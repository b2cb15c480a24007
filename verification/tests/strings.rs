use windows_permissions::parse::parse_string_sid;
use windows_permissions::Sid;

#[test]
fn string_sid_renders_the_canonical_form() {
    let sid = Sid::new([0, 0, 0, 0, 0, 5], &[32, 544]).unwrap();
    assert_eq!(sid.string_sid(), "S-1-5-32-544");
}

#[test]
fn string_sid_renders_a_zero_authority() {
    let sid = Sid::new([0, 0, 0, 0, 0, 0], &[0]).unwrap();
    assert_eq!(sid.string_sid(), "S-1-0-0");
}

#[test]
fn string_sid_renders_a_large_authority_in_hex() {
    let sid = Sid::new([1, 0, 0, 0, 0, 0], &[1]).unwrap();
    assert_eq!(sid.string_sid(), "S-1-0x010000000000-1");
}

#[test]
fn string_sid_renders_the_largest_decimal_authority() {
    let sid = Sid::new([0, 0, 255, 255, 255, 255], &[7]).unwrap();
    assert_eq!(sid.string_sid(), "S-1-4294967295-7");
}

#[test]
fn parse_round_trips_a_simple_sid() {
    let sid = Sid::new([0, 0, 0, 0, 0, 5], &[32, 544]).unwrap();
    let back = parse_string_sid(&sid.string_sid()).unwrap();
    assert!(back == sid);
    assert_eq!(back.id_authority(), &[0, 0, 0, 0, 0, 5]);
    assert_eq!(back.sub_authority(0), Some(32));
    assert_eq!(back.sub_authority(1), Some(544));
}

#[test]
fn parse_round_trips_a_hex_authority_sid() {
    let sid = Sid::new([18, 52, 86, 120, 154, 188], &[1, 2, 3, 4, 5, 6, 7, 8]).unwrap();
    let back = parse_string_sid(&sid.string_sid()).unwrap();
    assert!(back == sid);
}

#[test]
fn parse_round_trips_boundary_authorities() {
    // largest value still rendered in decimal, smallest rendered in hex
    for auth in [[0u8, 0, 255, 255, 255, 255], [0u8, 1, 0, 0, 0, 0]] {
        let sid = Sid::new(auth, &[99]).unwrap();
        let back = parse_string_sid(&sid.string_sid()).unwrap();
        assert!(back == sid);
    }
}

#[test]
fn parse_reads_a_well_known_literal() {
    let sid = parse_string_sid("S-1-5-18").unwrap();
    assert_eq!(sid.id_authority(), &[0, 0, 0, 0, 0, 5]);
    assert_eq!(sid.sub_authority_count(), 1);
    assert_eq!(sid.sub_authority(0), Some(18));
}

#[test]
fn parse_accepts_redundant_leading_zeros() {
    let sid = parse_string_sid("S-1-05-032").unwrap();
    assert!(sid == Sid::new([0, 0, 0, 0, 0, 5], &[32]).unwrap());
}

#[test]
fn parse_rejects_malformed_strings() {
    for s in [
        "",
        "S",
        "S-1-",
        "S-1-5",
        "S-1-5-",
        "S-1--5",
        "S-2-5-32",
        "X-1-5-32",
        "s-1-5-32",
        "S-1-5-32-",
        "S-1-5-32x",
        "S-1-0x01-1",
        "S-1-0x01000000000g-1",
        "S-1-4294967296-1",
        "S-1-5-4294967296",
        "S-1-5-1-2-3-4-5-6-7-8-9",
        "S-1-5-32 ",
    ] {
        assert!(parse_string_sid(s).is_none(), "accepted: {}", s);
    }
}

#[test]
fn debug_string_labels_every_slot() {
    let sid = Sid::new([0, 0, 0, 0, 0, 5], &[32, 544]).unwrap();
    assert_eq!(
        sid.debug_string(),
        "{id_auth: [0, 0, 0, 0, 0, 5], sub_auth_count: 2, \
         sub_auths[0]: Some(32), sub_auths[1]: Some(544), sub_auths[2]: None, \
         sub_auths[3]: None, sub_auths[4]: None, sub_auths[5]: None, \
         sub_auths[6]: None, sub_auths[7]: None}"
    );
}

#[test]
fn debug_string_with_all_slots_present() {
    let sid = Sid::new([9, 0, 0, 0, 0, 1], &[1, 2, 3, 4, 5, 6, 7, 8]).unwrap();
    assert_eq!(
        sid.debug_string(),
        "{id_auth: [9, 0, 0, 0, 0, 1], sub_auth_count: 8, \
         sub_auths[0]: Some(1), sub_auths[1]: Some(2), sub_auths[2]: Some(3), \
         sub_auths[3]: Some(4), sub_auths[4]: Some(5), sub_auths[5]: Some(6), \
         sub_auths[6]: Some(7), sub_auths[7]: Some(8)}"
    );
}
