use w5500::bytes::{u16_from_be, u16_to_be};
use w5500::net::{Ipv4Addr, MacAddress};
use w5500::{ArpResponses, ConnectionType, Mode, OnPingRequest, OnWakeOnLan};

#[test]
fn mac_address_keeps_its_octets() {
    let mac = MacAddress::new(0x00, 0x00, 0x5E, 0x00, 0x00, 0x01);
    assert_eq!(mac.octets(), [0x00, 0x00, 0x5E, 0x00, 0x00, 0x01]);
}

#[test]
fn unspecified_mac_address_is_all_zero() {
    assert_eq!(MacAddress::unspecified(), MacAddress::new(0, 0, 0, 0, 0, 0));
    assert_eq!(MacAddress::unspecified(), MacAddress::default());
    assert_eq!(MacAddress::unspecified().octets(), [0u8; 6]);
}

#[test]
fn mac_address_text_is_upper_case_hex_with_colons() {
    let mac = MacAddress::new(0x00, 0x00, 0x5E, 0x00, 0x00, 0x00);
    assert_eq!(&mac.to_text(), b"00:00:5E:00:00:00");
    let mac = MacAddress::new(0x02, 0x9A, 0xBC, 0xDE, 0xF0, 0x19);
    assert_eq!(&mac.to_text(), b"02:9A:BC:DE:F0:19");
    let mac = MacAddress::new(0xFF, 0xFF, 0xFF, 0xFF, 0xFF, 0xFF);
    assert_eq!(&mac.to_text(), b"FF:FF:FF:FF:FF:FF");
}

#[test]
fn mac_addresses_order_by_their_octets() {
    assert!(MacAddress::new(0, 0, 0, 0, 0, 1) < MacAddress::new(0, 0, 0, 0, 1, 0));
    assert!(MacAddress::new(1, 0, 0, 0, 0, 0) > MacAddress::new(0, 9, 9, 9, 9, 9));
}

#[test]
fn ipv4_address_keeps_its_octets() {
    let ip = Ipv4Addr::new(192, 0, 2, 1);
    assert_eq!(ip.octets(), [192, 0, 2, 1]);
}

#[test]
fn big_endian_values() {
    assert_eq!(u16_to_be(9999), [0x27, 0x0F]);
    assert_eq!(u16_to_be(0), [0, 0]);
    assert_eq!(u16_to_be(0xFFFF), [0xFF, 0xFF]);
    assert_eq!(u16_to_be(0x0100), [1, 0]);
    assert_eq!(u16_from_be([0x27, 0x0F]), 9999);
    assert_eq!(u16_from_be([0xFF, 0xFA]), 65530);
    for value in [0u16, 1, 255, 256, 2047, 2048, 40000, 65535] {
        assert_eq!(u16_from_be(u16_to_be(value)), value);
    }
}

#[test]
fn default_mode() {
    let mode = Mode::default();
    assert!(mode.on_wake_on_lan == OnWakeOnLan::Ignore);
    assert!(mode.on_ping_request == OnPingRequest::Respond);
    assert!(mode.connection_type == ConnectionType::Ethernet);
    assert!(mode.arp_responses == ArpResponses::DropAfterUse);
    assert_eq!(mode.to_u8(), 0b0000_0010);
}

#[test]
fn mode_bits() {
    assert_eq!(OnWakeOnLan::InvokeInterrupt.to_u8(), 0b0010_0000);
    assert_eq!(OnWakeOnLan::Ignore.to_u8(), 0);
    assert_eq!(OnPingRequest::Respond.to_u8(), 0);
    assert_eq!(OnPingRequest::Ignore.to_u8(), 0b0001_0000);
    assert_eq!(ConnectionType::PPoE.to_u8(), 0b0000_1000);
    assert_eq!(ConnectionType::Ethernet.to_u8(), 0);
    assert_eq!(ArpResponses::Cache.to_u8(), 0);
    assert_eq!(ArpResponses::DropAfterUse.to_u8(), 0b0000_0010);
    let mode = Mode {
        on_wake_on_lan: OnWakeOnLan::InvokeInterrupt,
        on_ping_request: OnPingRequest::Ignore,
        connection_type: ConnectionType::PPoE,
        arp_responses: ArpResponses::DropAfterUse,
    };
    assert_eq!(mode.to_u8(), 0b0011_1010);
}

#[test]
fn settings_order_as_their_register_bits_do() {
    assert!(OnWakeOnLan::InvokeInterrupt > OnWakeOnLan::Ignore);
    assert!(OnPingRequest::Ignore > OnPingRequest::Respond);
    assert!(ConnectionType::PPoE > ConnectionType::Ethernet);
    assert!(ArpResponses::DropAfterUse > ArpResponses::Cache);
}
