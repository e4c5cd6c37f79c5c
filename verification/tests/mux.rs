//! Frames of the mux protocol: building, reading and reassembly.
use meridian_relay::daemon::mux::{
    build_control_packet, build_control_result, build_mux_frame, build_mux_header, build_packet,
    build_setup_connect, build_setup_packet, build_tcp_packet, build_version_request,
    increment_seq, parse_mux_header, parse_packet, parse_tcp_packet, scaled_window, MuxError,
    MuxPacket, PacketReassembler, ParseTcp, TcpFlag, TcpHeader, TcpPacket, TcpPacketExt,
    HEADER_CONTROL, HEADER_SETUP, HEADER_SIZE, HEADER_TCP, HEADER_VERSION, INITIAL_WINDOW,
    INITIAL_WINDOW_UNITS, TCP_ACK, TCP_SYN,
};

#[test]
fn test_parse_mux_header() {
    let data = build_version_request();
    let header = parse_mux_header(&data).unwrap();
    assert_eq!(header.protocol, 0);
    assert_eq!(header.length, 20);
}

#[test]
fn test_parse_mux_header_too_short() {
    assert!(parse_mux_header(&[0, 0, 0, 2]).is_err());
}

#[test]
fn test_parse_tcp_packet() {
    let packet = parse_tcp_packet(&[0, 80, 0, 50, 0, 0, 0, 1, 0, 0, 0, 2, 0x50, 0x02, 0, 0, 0, 0, 0, 0]).unwrap();
    assert_eq!(packet.header.source_port, 80);
    assert_eq!(packet.header.dest_port, 50);
    assert_eq!(packet.header.flags(), 0x002);
}

#[test]
fn test_build_control_result() {
    let result = build_control_result(1, 0);
    assert_eq!(result.len(), 24);
}

#[test]
fn test_build_setup_connect() {
    let result = build_setup_connect(80, 50);
    assert_eq!(result.len(), 25);
}

#[test]
fn test_build_version_request() {
    let data = build_version_request();
    assert_eq!(data.len(), 20, "version request: 8 hdr + 12 version_body");
    let header = parse_mux_header(&data).unwrap();
    assert!(!header.is_v2);
    assert_eq!(header.protocol, HEADER_VERSION);
    assert_eq!(header.length, 20);
    // major=2, minor=0 (BE u32s at offsets 8..16).
    assert_eq!(&data[8..12], &2u32.to_be_bytes());
    assert_eq!(&data[12..16], &0u32.to_be_bytes());
}

#[test]
fn test_build_setup_packet_v2() {
    let data = build_setup_packet(0, 0xFFFF);
    let header = parse_mux_header(&data).unwrap();
    assert!(header.is_v2, "setup is v2-framed");
    assert_eq!(header.protocol, HEADER_SETUP);
    assert_eq!(header.rx_seq, 0xFFFF);
    assert_eq!(header.tx_seq, 0);
    assert_eq!(*data.last().unwrap(), 0x07); // content byte
}

#[test]
fn test_build_tcp_packet_v2_layout() {
    let pkt = build_tcp_packet(Some((42, 21)), 1100, 62078, 1, 77, TCP_SYN, (INITIAL_WINDOW >> 8) as u16, None);
    // 16 mux-v2 header + 20 tcp header
    assert_eq!(pkt.len(), 36);
    assert_eq!(u32::from_be_bytes([pkt[0], pkt[1], pkt[2], pkt[3]]), HEADER_TCP as u32);
    assert_eq!(u32::from_be_bytes([pkt[4], pkt[5], pkt[6], pkt[7]]), 36);
    assert_eq!(&pkt[8..12], &[0xFE, 0xED, 0xFA, 0xCE]);
    assert_eq!(u16::from_be_bytes([pkt[12], pkt[13]]), 42);
    assert_eq!(u16::from_be_bytes([pkt[14], pkt[15]]), 21);
}

#[test]
fn test_build_control_result_with_tag() {
    let result = build_control_result(42, 0);
    assert_eq!(result[16], 0);
    assert_eq!(result[17], 0);
    assert_eq!(result[18], 0);
    assert_eq!(result[19], 42);
}

#[test]
fn test_increment_seq_wraps() {
    let seq = u16::MAX;
    let next = increment_seq(seq);
    assert_eq!(next, 0);
}

#[test]
fn test_parse_mux_header_length_exceeds_data() {
    let data = [0, 0, 0, 2, 0, 0, 0, 200];
    let header = parse_mux_header(&data).unwrap();
    assert_eq!(header.length, 200);
    assert_eq!(header.protocol, 2);
}

/// Build a well-formed synthetic frame: [protocol: BE u32][length: BE u32][body].
/// `length` is the total frame size, matching parse_packet's interpretation.
fn synthetic_frame(protocol: u32, body: &[u8]) -> Vec<u8> {
    let mut f = Vec::with_capacity(8 + body.len());
    f.extend_from_slice(&protocol.to_be_bytes());
    f.extend_from_slice(&((8 + body.len()) as u32).to_be_bytes());
    f.extend_from_slice(body);
    f
}

#[test]
fn test_reassembler_single_packet() {
    let mut r = PacketReassembler::new(1024);
    let pkt = synthetic_frame(HEADER_TCP, &[1, 2, 3, 4]);
    let out = r.feed(&pkt);
    assert_eq!(out.len(), 1);
    assert_eq!(out[0], pkt);
    assert!(r.is_empty());
}

#[test]
fn test_reassembler_drains_multiple_packets() {
    let mut r = PacketReassembler::new(1024);
    let p1 = synthetic_frame(HEADER_TCP, &[1, 2, 3]);
    let p2 = synthetic_frame(HEADER_CONTROL, &[9]);
    let p3 = synthetic_frame(HEADER_TCP, &[5, 6, 7, 8, 9]);
    let mut blob = Vec::new();
    blob.extend_from_slice(&p1);
    blob.extend_from_slice(&p2);
    blob.extend_from_slice(&p3);
    let out = r.feed(&blob);
    assert_eq!(out.len(), 3, "all complete packets must be drained in one feed");
    assert_eq!(out[0], p1);
    assert_eq!(out[1], p2);
    assert_eq!(out[2], p3);
}

#[test]
fn test_reassembler_partial_then_complete() {
    let mut r = PacketReassembler::new(1024);
    let pkt = synthetic_frame(HEADER_TCP, &[1, 2, 3, 4]);
    let (first, second) = pkt.split_at(5);
    assert!(r.feed(first).is_empty());
    assert_eq!(r.len(), 5);
    let out = r.feed(second);
    assert_eq!(out.len(), 1);
    assert_eq!(out[0], pkt);
}

#[test]
fn test_reassembler_overflow_clears() {
    let mut r = PacketReassembler::new(64);
    // Header claims a frame larger than the cap — impossible to ever
    // complete, so the buffer must be drained via resync (never growing
    // unboundedly and never emitting the bogus frame).
    let mut data = vec![0u8; 100];
    data[0..4].copy_from_slice(&2u32.to_be_bytes());
    data[4..8].copy_from_slice(&1_000_000u32.to_be_bytes());
    let out = r.feed(&data);
    assert!(out.is_empty());
    assert!(r.len() < HEADER_SIZE, "over-limit stream must be fully resynced away, got {}", r.len());
}

#[test]
fn test_reassembler_buffer_never_exceeds_cap() {
    // Invariant: regardless of input shape, the retained buffer never
    // exceeds the configured cap after a feed call.
    let mut r = PacketReassembler::new(64);
    let mut rng_state = 0x12345678u32;
    let mut next = move || {
        rng_state = rng_state.wrapping_mul(1664525).wrapping_add(1013904223);
        (rng_state >> 16) as u8
    };
    for _ in 0..200 {
        let chunk: Vec<u8> = (0..37).map(|_| next()).collect();
        r.feed(&chunk);
        assert!(r.len() <= 64, "buffer {} exceeds cap 64", r.len());
    }
}

#[test]
fn test_reassembler_resync_on_garbage_length() {
    let mut r = PacketReassembler::new(1024);
    let data = vec![0xAA, 0xBB, 0xCC, 0xDD, 0x11, 0x22, 0x33, 0x44]; // garbage, length < 8
    let pkt = synthetic_frame(HEADER_TCP, &[7, 7, 7]);
    let out1 = r.feed(&data);
    assert!(out1.is_empty());
    // Follow-up valid frame must be recoverable after byte-wise resync.
    let mut stream = Vec::new();
    stream.extend_from_slice(&pkt);
    let out2 = r.feed(&stream);
    assert!(
        out2.iter().any(|p| p == &pkt),
        "reassembler must resync and recover the valid frame"
    );
}

#[test]
fn test_scaled_window() {
    assert_eq!(scaled_window(0), 0);
    assert_eq!(scaled_window(256), 1);
    assert_eq!(scaled_window(1024 * 1024), 4096);
    assert_eq!(scaled_window(usize::MAX), u16::MAX);
}

#[test]
fn chunks_make_no_difference() {
    let mut stream = Vec::new();
    for i in 0..20u8 {
        stream.extend_from_slice(&synthetic_frame(HEADER_CONTROL, &vec![i; i as usize]));
    }
    let whole = PacketReassembler::new(1024).feed(&stream);
    let mut r = PacketReassembler::new(1024);
    let mut pieces = Vec::new();
    for chunk in stream.chunks(7) {
        pieces.extend(r.feed(chunk));
    }
    assert_eq!(whole.len(), 20);
    assert_eq!(pieces, whole);
    assert_eq!(r.len(), 0);
    r.feed(&[1, 2, 3]);
    assert_eq!(r.len(), 3);
    r.clear();
    assert!(r.is_empty());
}

#[test]
fn segments_read_back() {
    for v2 in [None, Some((7u16, 9u16))] {
        let pkt = build_tcp_packet(v2, 1024, 62078, 5, 6, TCP_ACK, 512, Some(&[1, 2, 3]));
        match parse_packet(&pkt) {
            Ok(MuxPacket::Tcp { header, payload }) => {
                assert_eq!(header.source_port, 1024);
                assert_eq!(header.dest_port, 62078);
                assert_eq!(header.seq, 5);
                assert_eq!(header.ack, 6);
                assert_eq!(header.offset(), 5);
                assert_eq!(header.flags(), TCP_ACK);
                assert_eq!(header.window, 512);
                assert_eq!(payload, vec![1, 2, 3]);
            }
            other => panic!("{other:?}"),
        }
    }
}

#[test]
fn ports_that_spell_the_magic_are_taken_for_it() {
    let pkt = build_tcp_packet(None, 0xFEED, 0xFACE, 0, 0, TCP_ACK, 0, None);
    let header = parse_mux_header(&pkt).unwrap();
    assert!(header.is_v2);
}

#[test]
fn other_frames_read_back() {
    match parse_packet(&build_version_request()).unwrap() {
        MuxPacket::Version { major, minor } => assert_eq!((major, minor), (2, 0)),
        other => panic!("{other:?}"),
    }
    assert!(matches!(parse_packet(&build_setup_packet(0, 0xFFFF)), Ok(MuxPacket::Setup)));
    match parse_packet(&build_control_packet(Some((1, 2)), &[5, b'h', b'i'])).unwrap() {
        MuxPacket::Control { payload } => assert_eq!(payload, vec![5, b'h', b'i']),
        other => panic!("{other:?}"),
    }
}

#[test]
fn both_magics_are_known() {
    let mut frame = build_mux_frame(HEADER_CONTROL, Some((3, 4)), &[1]);
    assert!(parse_mux_header(&frame).unwrap().is_v2);
    frame[8..12].copy_from_slice(&[0xFA, 0xCE, 0xFA, 0xCE]);
    let header = parse_mux_header(&frame).unwrap();
    assert!(header.is_v2);
    assert_eq!((header.tx_seq, header.rx_seq, header.header_len()), (3, 4, 16));
    frame[8] = 0;
    assert!(!parse_mux_header(&frame).unwrap().is_v2);
}

#[test]
fn bad_frames_say_why() {
    match parse_packet(&[0, 0]).unwrap_err() {
        MuxError::InvalidHeader(m) => assert_eq!(m, "too short: 2 bytes"),
        other => panic!("{other:?}"),
    }
    let text = parse_packet(&[0, 0, 0, 6, 0, 0, 0, 9]).unwrap_err().to_text();
    assert_eq!(
        text,
        "invalid header: declared length 9 inconsistent with buffer 8 (header 8 bytes)"
    );
    match parse_packet(&synthetic_frame(HEADER_TCP, &[1, 2])).unwrap_err() {
        MuxError::InvalidHeader(m) => assert_eq!(m, "TCP packet too short"),
        other => panic!("{other:?}"),
    }
    match parse_packet(&synthetic_frame(77, &[])).unwrap_err() {
        MuxError::UnsupportedProtocol(p) => assert_eq!(p, 77),
        other => panic!("{other:?}"),
    }
    assert!(TcpHeader::parse_tcp_header(&[0; 19]).is_err());
    assert!(parse_tcp_packet(&[0; 19]).is_err());
}

#[test]
fn small_builders() {
    assert_eq!(build_mux_header(6, 20), vec![0, 0, 0, 6, 0, 0, 0, 20]);
    assert_eq!(build_packet(2, &[9, 8]), vec![0, 0, 0, 2, 0, 0, 0, 2, 9, 8]);
    assert_eq!(&build_setup_connect(80, 50)[20..], &[7, 0, 80, 0, 50]);
    assert_eq!(INITIAL_WINDOW_UNITS as u32, INITIAL_WINDOW >> 8);
    let packet = TcpPacket {
        header: TcpHeader {
            source_port: 1,
            dest_port: 2,
            seq: 3,
            ack: 4,
            offset_flags: 0x5010,
            window: 6,
        },
        payload: vec![7],
    };
    assert_eq!(
        packet.to_bytes(),
        vec![0, 1, 0, 2, 0, 0, 0, 3, 0, 0, 0, 4, 0x50, 0x10, 0, 6, 0, 0, 7]
    );
}

#[test]
fn flags_have_names() {
    let names: Vec<String> = TcpFlag::from_u16(0x12).iter().map(|f| f.to_text()).collect();
    assert_eq!(names, vec!["SYN", "ACK"]);
    assert!(TcpFlag::from_u16(0).is_empty());
}
