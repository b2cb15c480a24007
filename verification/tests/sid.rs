use windows_permissions::error::Error;
use windows_permissions::record::{sid_from_record, sid_record_bytes};
use windows_permissions::wrappers::GetSidIdentifierAuthority;
use windows_permissions::Sid;

#[test]
fn new_round_trips_authority_and_sub_authorities() {
    let auth = [1u8, 2, 3, 4, 5, 6];
    let subs = [7u32, 8, 9];
    let sid = Sid::new(auth, &subs).unwrap();
    assert_eq!(sid.sub_authority_count(), 3);
    assert_eq!(sid.id_authority(), &[1, 2, 3, 4, 5, 6]);
    assert_eq!(GetSidIdentifierAuthority(&sid), &[1, 2, 3, 4, 5, 6]);
    assert_eq!(sid.sub_authority(0), Some(7));
    assert_eq!(sid.sub_authority(1), Some(8));
    assert_eq!(sid.sub_authority(2), Some(9));
    assert_eq!(sid.sub_authority(3), None);
}

#[test]
fn new_succeeds_for_every_count_from_1_to_8() {
    for count in 1u8..=8 {
        let subs: Vec<u32> = (0..count as u32).map(|i| i * 1000 + 17).collect();
        let sid = Sid::new([0, 0, 0, 0, 0, 1], &subs).unwrap();
        assert_eq!(sid.sub_authority_count(), count);
        for (i, v) in subs.iter().enumerate() {
            assert_eq!(sid.sub_authority(i as u8), Some(*v));
        }
    }
}

#[test]
fn new_rejects_zero_sub_authorities() {
    let r = Sid::new([0, 0, 0, 0, 0, 5], &[]);
    assert_eq!(r.unwrap_err(), Error::InvalidSubAuthorityCount);
    assert!(!Error::InvalidSubAuthorityCount.is_contract_violation());
}

#[test]
fn new_rejects_nine_sub_authorities() {
    let subs = [1u32, 2, 3, 4, 5, 6, 7, 8, 9];
    let r = Sid::new([0, 0, 0, 0, 0, 5], &subs);
    assert_eq!(r.unwrap_err(), Error::InvalidSubAuthorityCount);
}

#[test]
fn sub_authority_present_below_count_absent_above() {
    for count in 1u8..=8 {
        let subs: Vec<u32> = (0..count as u32).collect();
        let sid = Sid::new([0, 0, 0, 0, 0, 5], &subs).unwrap();
        for index in 0u16..=255 {
            let got = sid.sub_authority(index as u8);
            if (index as u8) < count {
                assert_eq!(got, Some(index as u32));
            } else {
                assert_eq!(got, None);
            }
        }
    }
}

#[test]
fn equality_is_reflexive_and_symmetric() {
    let a = Sid::new([0, 0, 0, 0, 0, 5], &[32, 544]).unwrap();
    let b = Sid::new([0, 0, 0, 0, 0, 5], &[32, 544]).unwrap();
    assert!(a == a);
    assert!(a == b);
    assert!(b == a);
}

#[test]
fn equality_differs_on_any_changed_sub_authority() {
    let base = Sid::new([0, 0, 0, 0, 0, 5], &[1, 2, 3]).unwrap();
    for i in 0..3u32 {
        let mut subs = [1u32, 2, 3];
        subs[i as usize] += 1;
        let other = Sid::new([0, 0, 0, 0, 0, 5], &subs).unwrap();
        assert!(base != other);
    }
}

#[test]
fn equality_differs_on_changed_authority() {
    let a = Sid::new([0, 0, 0, 0, 0, 5], &[32]).unwrap();
    let b = Sid::new([0, 0, 0, 0, 0, 6], &[32]).unwrap();
    assert!(a != b);
}

#[test]
fn equality_differs_on_sub_authority_count() {
    let a = Sid::new([0, 0, 0, 0, 0, 5], &[32]).unwrap();
    let b = Sid::new([0, 0, 0, 0, 0, 5], &[32, 544]).unwrap();
    assert!(a != b);
}

#[test]
fn record_bytes_have_the_documented_layout() {
    let sid = Sid::new([0, 0, 0, 0, 0, 5], &[32]).unwrap();
    let bytes = sid_record_bytes(&sid);
    assert_eq!(bytes, vec![1, 1, 0, 0, 0, 0, 0, 5, 32, 0, 0, 0]);
}

#[test]
fn record_bytes_encode_sub_authorities_little_endian() {
    let sid = Sid::new([9, 8, 7, 6, 5, 4], &[0x01020304, 0xA0B0C0D0]).unwrap();
    let bytes = sid_record_bytes(&sid);
    assert_eq!(
        bytes,
        vec![1, 2, 9, 8, 7, 6, 5, 4, 0x04, 0x03, 0x02, 0x01, 0xD0, 0xC0, 0xB0, 0xA0]
    );
}

#[test]
fn record_round_trips_through_the_checked_reader() {
    let sid = Sid::new([1, 2, 3, 4, 5, 6], &[10, 20, 30, 40, 50, 60, 70, 80]).unwrap();
    let bytes = sid_record_bytes(&sid);
    let back = sid_from_record(&bytes, 0).unwrap();
    assert!(back == sid);
}

#[test]
fn record_reader_finds_a_record_at_an_offset() {
    let sid = Sid::new([0, 0, 0, 0, 0, 5], &[32, 544]).unwrap();
    let mut buf = vec![0xFFu8; 3];
    buf.extend(sid_record_bytes(&sid));
    let back = sid_from_record(&buf, 3).unwrap();
    assert!(back == sid);
}

#[test]
fn record_reader_rejects_bad_records() {
    let sid = Sid::new([0, 0, 0, 0, 0, 5], &[32]).unwrap();
    let good = sid_record_bytes(&sid);

    // wrong revision
    let mut bad = good.clone();
    bad[0] = 2;
    assert!(sid_from_record(&bad, 0).is_none());

    // zero sub-authority count
    let mut bad = good.clone();
    bad[1] = 0;
    assert!(sid_from_record(&bad, 0).is_none());

    // count larger than 8
    let mut bad = good.clone();
    bad[1] = 9;
    assert!(sid_from_record(&bad, 0).is_none());

    // truncated buffer
    let mut bad = good.clone();
    bad.pop();
    assert!(sid_from_record(&bad, 0).is_none());

    // offset past the end
    assert!(sid_from_record(&good, good.len()).is_none());
}
