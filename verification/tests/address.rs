use mac_address::{MacAddress, ParseError};

#[test]
pub fn deser_test() -> Result<(), ParseError> {
    let bytes = [0, 1, 20, 30, 40, 50];
    let mac = MacAddress { bytes }.to_string().parse::<MacAddress>();
    assert_eq!(bytes, mac?.bytes);

    let str = "0f0f0f0f0f0f";
    assert_eq!([15; 6], str.parse::<MacAddress>()?.bytes);

    let str = "0F0F0F0F0F0F";
    assert_eq!([15; 6], str.parse::<MacAddress>()?.bytes);
    Ok(())
}

#[test]
pub fn unicast_test() {
    let bytes = [0, 1, 2, 3, 4, 5];
    let mut mac = MacAddress { bytes };
    assert!(mac.unicast());

    mac.bytes[0] = 1;
    assert!(!mac.unicast());
}

#[test]
pub fn multicast_test() {
    let bytes = [0, 1, 2, 3, 4, 5];
    let mut mac = MacAddress { bytes };
    assert!(!mac.multicast());

    mac.bytes[0] = 1;
    assert!(mac.multicast());
}

#[test]
pub fn local_test() {
    let bytes = [0, 1, 2, 3, 4, 5];
    let mut mac = MacAddress { bytes };
    assert!(!mac.local());

    mac.bytes[0] = 3;
    assert!(mac.local());
}

#[test]
pub fn tofrom_u64_test() {
    let int = u32::MAX as u64;
    let mac: MacAddress = int.into();
    assert_eq!(int, mac.into());
}

#[test]
fn bytes_round_trip() {
    let samples: [[u8; 6]; 4] = [
        [0, 0, 0, 0, 0, 0],
        [255, 255, 255, 255, 255, 255],
        [0, 1, 20, 30, 40, 50],
        [0xDE, 0xAD, 0xBE, 0xEF, 0x00, 0x7F],
    ];
    for b in samples {
        let mac = MacAddress::from(b);
        assert_eq!(mac.bytes, b);
        let back: [u8; 6] = mac.into();
        assert_eq!(back, b);
        assert_eq!(back.len(), 6);
    }
}

#[test]
fn u64_first_octet_is_lowest() {
    let mac = MacAddress { bytes: [0x01, 0x02, 0x03, 0x04, 0x05, 0x06] };
    let value: u64 = mac.into();
    assert_eq!(value, 0x0000_0605_0403_0201);
    let back = MacAddress::from(0x0000_0605_0403_0201u64);
    assert_eq!(back.bytes, [0x01, 0x02, 0x03, 0x04, 0x05, 0x06]);
}

#[test]
fn u64_round_trip_from_address() {
    let samples: [[u8; 6]; 4] = [
        [0, 0, 0, 0, 0, 0],
        [255, 255, 255, 255, 255, 255],
        [0, 1, 20, 30, 40, 50],
        [0x80, 0x00, 0xFF, 0x01, 0x7F, 0xFE],
    ];
    for b in samples {
        let value = u64::from(MacAddress { bytes: b });
        assert!(value < (1u64 << 48));
        assert_eq!(MacAddress::from(value).bytes, b);
    }
}

#[test]
fn u64_high_bytes_are_dropped() {
    let mac = MacAddress::from(0xABCD_0605_0403_0201u64);
    assert_eq!(mac.bytes, [0x01, 0x02, 0x03, 0x04, 0x05, 0x06]);
    assert_eq!(u64::from(mac), 0x0000_0605_0403_0201);

    let all = MacAddress::from(u64::MAX);
    assert_eq!(all.bytes, [255; 6]);
    assert_eq!(u64::from(all), (1u64 << 48) - 1);

    assert_eq!(MacAddress::from(1u64 << 48).bytes, [0; 6]);
    assert_eq!(u64::from(MacAddress::from(0u64)), 0);
}

#[test]
fn multicast_is_complement_of_unicast() {
    for first in 0..=255u8 {
        let mac = MacAddress { bytes: [first, 9, 8, 7, 6, 5] };
        assert_eq!(mac.multicast(), !mac.unicast());
        assert_eq!(mac.unicast(), first % 2 == 0);
        assert_eq!(mac.local(), (first >> 1) % 2 == 1);
    }
}

#[test]
fn classification_reads_first_octet_only() {
    let mac = MacAddress { bytes: [0, 0xFF, 0xFF, 0xFF, 0xFF, 0xFF] };
    assert!(mac.unicast());
    assert!(!mac.multicast());
    assert!(!mac.local());

    let local_unicast = MacAddress { bytes: [2, 0, 0, 0, 0, 0] };
    assert!(local_unicast.unicast());
    assert!(local_unicast.local());

    let broadcast = MacAddress { bytes: [0xFF; 6] };
    assert!(broadcast.multicast());
    assert!(broadcast.local());
}
