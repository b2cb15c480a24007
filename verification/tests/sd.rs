use windows_permissions::error::Error;
use windows_permissions::record::sid_record_bytes;
use windows_permissions::SecurityDescriptor;
use windows_permissions::Sid;

#[test]
fn all_null_sub_pointers_yield_no_owner_and_no_group() {
    let buffer = vec![0u8; 24];
    let sd = SecurityDescriptor::from_raw(Some(buffer), None, None, None, None).unwrap();
    assert!(sd.owner().is_none());
    assert!(sd.group().is_none());
}

#[test]
fn a_present_owner_reads_back_from_the_buffer_bytes() {
    let owner = Sid::new([0, 0, 0, 0, 0, 5], &[32, 544]).unwrap();
    let buffer = sid_record_bytes(&owner);
    let sd = SecurityDescriptor::from_raw(Some(buffer), Some(0), None, None, None).unwrap();
    let got = sd.owner().unwrap();
    assert!(got == owner);
    assert_eq!(got.id_authority(), &[0, 0, 0, 0, 0, 5]);
    assert_eq!(got.sub_authority_count(), 2);
    assert_eq!(got.sub_authority(0), Some(32));
    assert_eq!(got.sub_authority(1), Some(544));
    assert!(sd.group().is_none());
}

#[test]
fn owner_and_group_read_from_their_own_offsets() {
    let owner = Sid::new([0, 0, 0, 0, 0, 5], &[18]).unwrap();
    let group = Sid::new([0, 0, 0, 0, 0, 22], &[1, 2, 3]).unwrap();
    let mut buffer = sid_record_bytes(&owner);
    let group_off = buffer.len();
    buffer.extend(sid_record_bytes(&group));
    let sd = SecurityDescriptor::from_raw(Some(buffer), Some(0), Some(group_off), None, None)
        .unwrap();
    assert!(sd.owner().unwrap() == owner);
    assert!(sd.group().unwrap() == group);
}

#[test]
fn acl_offsets_are_carried_without_being_read() {
    let owner = Sid::new([0, 0, 0, 0, 0, 5], &[113]).unwrap();
    let buffer = sid_record_bytes(&owner);
    let end = buffer.len();
    let sd = SecurityDescriptor::from_raw(Some(buffer), Some(0), None, Some(end), Some(end))
        .unwrap();
    assert!(sd.owner().unwrap() == owner);
    assert!(sd.group().is_none());
}

#[test]
fn a_null_descriptor_buffer_is_rejected_before_any_offset_is_used() {
    let r = SecurityDescriptor::from_raw(None, Some(0), Some(4), Some(8), Some(12));
    match r {
        Ok(_) => panic!("a null descriptor buffer was accepted"),
        Err(e) => {
            assert_eq!(e, Error::NullDescriptorBuffer);
            assert!(e.is_contract_violation());
        }
    }
}
