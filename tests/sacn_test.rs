use lumen::address::Address;
use lumen::dmx::{Dmx, DmxString};
use lumen::sacn::{DataPacket, NetworkState, MAX_PACKET_LENGTH};
use lumen::universe::Universe;

fn example_universe() -> Universe {
    let mut universe = Universe::new(2);
    let mut string = DmxString::new(3);
    string.set(0, Dmx::new(10));
    string.set(1, Dmx::new(20));
    string.set(2, Dmx::new(255));
    universe.map_string(&Address::new(3, 1), &string);
    universe
}

#[test]
fn packet_layout() {
    let universe = example_universe();
    let cid = [7u8; 16];
    let packet = DataPacket::new(&universe, "Candela Test", None, 0, 42, 0, &cid);
    let mut buf = vec![0xeeu8; MAX_PACKET_LENGTH + 2];
    packet.pack(&mut buf);

    assert_eq!(&buf[0..4], &[0x00, 0x10, 0x00, 0x00]);
    assert_eq!(&buf[4..16], b"ASC-E1.17\0\0\0");
    assert_eq!(&buf[16..18], &[0x72, 0x6e]);
    assert_eq!(&buf[18..22], &[0, 0, 0, 4]);
    assert_eq!(&buf[22..38], &[7u8; 16]);
    assert_eq!(&buf[38..40], &[0x72, 0x58]);
    assert_eq!(&buf[40..44], &[0, 0, 0, 2]);
    assert_eq!(&buf[44..56], b"Candela Test");
    assert!(buf[56..107].iter().all(|b| *b == b' '));
    assert_eq!(buf[107], 0);
    assert_eq!(buf[108], 100);
    assert_eq!(&buf[109..111], &[0, 0]);
    assert_eq!(buf[111], 42);
    assert_eq!(buf[112], 0);
    assert_eq!(&buf[113..115], &[0, 3]);
    assert_eq!(&buf[115..117], &[0x72, 0x0b]);
    assert_eq!(&buf[117..119], &[0x02, 0xa1]);
    assert_eq!(&buf[119..125], &[0, 0, 0, 1, 0x02, 0x01]);
    assert_eq!(buf[125], 0);
    assert_eq!(&buf[126..130], &[10, 20, 255, 0]);
    assert_eq!(&buf[638..640], &[0xee, 0xee]);
    assert_eq!(packet.to_bytes().len(), MAX_PACKET_LENGTH);
}

#[test]
fn packet_priority_and_long_names() {
    let universe = example_universe();
    let cid = [0u8; 16];
    let name = "x".repeat(80);
    let packet = DataPacket::new(&universe, &name, Some(250), 513, 0, 0x40, &cid);
    let bytes = packet.to_bytes();

    assert!(bytes[44..107].iter().all(|b| *b == b'x'));
    assert_eq!(bytes[107], 0);
    assert_eq!(bytes[108], 200);
    assert_eq!(&bytes[109..111], &[0x02, 0x01]);
    assert_eq!(bytes[112], 0x40);
}

#[test]
fn network_states_compare() {
    assert_ne!(NetworkState::Bound, NetworkState::Connected);
    assert_eq!(NetworkState::Uninitialized, NetworkState::Uninitialized);
}
