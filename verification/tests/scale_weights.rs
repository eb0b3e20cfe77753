use openbarista::binary32::Binary32;
use openbarista::scale_weight::{
    candidate_distance, encode_bookoo_command, parse_ascii, parse_bookoo, parse_generic,
    parse_standard, parse_weight, BookooCommand, ScaleProtocol, WeightCandidate,
};

fn b(x: f32) -> Binary32 {
    Binary32::from_bits(x.to_bits())
}

fn f(x: Binary32) -> f32 {
    f32::from_bits(x.to_bits())
}

fn approx_eq(left: f32, right: f32, tolerance: f32) {
    assert!((left - right).abs() <= tolerance, "left={left}, right={right}");
}

fn weight(protocol: ScaleProtocol, packet: &[u8]) -> f32 {
    f(parse_weight(protocol, packet, b(0.0)).expect("should parse"))
}

const PACKET_44_8: [u8; 20] = [
    0x03, 0x0B, 0x00, 0x00, 0x00, 0x01, 0x2B, 0x00, 0x11, 0x80, 0x2B, 0x00, 0x02, 0x50, 0x00, 0x96,
    0x01, 0x00, 0x00, 0x5D,
];

const PACKET_0: [u8; 20] = [
    0x03, 0x0B, 0x00, 0x00, 0x00, 0x01, 0x2B, 0x00, 0x00, 0x00, 0x2B, 0x00, 0x00, 0x50, 0x00, 0x96,
    0x01, 0x00, 0x00, 0xCE,
];

#[test]
fn ascii_payload() {
    let parsed = parse_ascii(b"WT: 18.3 g").expect("ascii payload should parse");
    approx_eq(f(parsed), 18.3, 1e-6);
}

#[test]
fn scale_ble_generic_parser_reads_ascii_payloads() {
    let parsed = parse_ascii(b"WT: 18.3 g").expect("ascii payload should parse");
    approx_eq(f(parsed), 18.3, 1e-6);
}

#[test]
fn protocol_generic_parser_reads_ascii_payloads() {
    let parsed = parse_ascii(b"WT: 18.3 g").expect("ascii payload should parse");
    approx_eq(f(parsed), 18.3, 1e-6);
}

#[test]
fn generic_finds_weight_in_binary_packet() {
    // The generic parser brute-forces all byte interpretations; we can't
    // expect it to find one specific protocol's encoding in an ambiguous
    // blob.  Verify it returns *some* positive weight.
    let w = f(parse_generic(&PACKET_44_8, b(0.0)).expect("should parse"));
    assert!(w > 0.0, "expected positive weight, got {w}");
}

#[test]
fn generic_tracks_weight_change() {
    // First reading (unseeded) — just needs to be positive.
    let w1 = parse_generic(&PACKET_44_8, b(0.0)).expect("should parse");
    assert!(f(w1) > 0.0);

    // With the first reading as seed, the second should still return
    // a value (the seeded scoring finds the closest candidate).
    let _w2 = parse_generic(&PACKET_0, w1);
}

#[test]
fn generic_rejects_noise_from_trailer() {
    if let Some(weight) = parse_generic(&PACKET_0, b(44.8)) {
        let weight = f(weight);
        assert!(weight < 50.0, "expected reasonable value, got {weight}");
    }
}

#[test]
fn scale_ble_generic_parser_rejects_noise_from_trailer() {
    if let Some(weight) = parse_generic(&PACKET_0, b(44.8)) {
        let weight = f(weight);
        assert!(weight < 50.0, "expected reasonable value, got {weight}");
    }
}

#[test]
fn protocol_generic_parser_rejects_noise_from_trailer() {
    if let Some(weight) = parse_generic(&PACKET_0, b(44.8)) {
        let weight = f(weight);
        assert!(weight < 50.0, "expected reasonable value, got {weight}");
    }
}

fn prefers_positive() -> bool {
    let zero = WeightCandidate {
        weight_g: b(0.0),
        offset: 0,
        raw_abs: 0,
        in_trailer: false,
    };
    let positive = WeightCandidate {
        weight_g: b(2.4),
        offset: 2,
        raw_abs: 240,
        in_trailer: false,
    };
    f(candidate_distance(&positive, b(0.0))) < f(candidate_distance(&zero, b(0.0)))
}

fn penalizes_low_raw() -> bool {
    let noise = WeightCandidate {
        weight_g: b(1.0),
        offset: 15,
        raw_abs: 1,
        in_trailer: true,
    };
    let real = WeightCandidate {
        weight_g: b(44.8),
        offset: 8,
        raw_abs: 4480,
        in_trailer: false,
    };
    f(candidate_distance(&real, b(0.0))) < f(candidate_distance(&noise, b(0.0)))
}

#[test]
fn candidate_distance_prefers_positive_when_unseeded() {
    assert!(prefers_positive());
}

#[test]
fn scale_ble_candidate_distance_prefers_positive_values_when_scale_is_unseeded() {
    assert!(prefers_positive());
}

#[test]
fn protocol_candidate_distance_prefers_positive_values_when_scale_is_unseeded() {
    assert!(prefers_positive());
}

#[test]
fn candidate_distance_penalizes_low_raw() {
    assert!(penalizes_low_raw());
}

#[test]
fn scale_ble_candidate_distance_penalizes_low_raw_values() {
    assert!(penalizes_low_raw());
}

#[test]
fn protocol_candidate_distance_penalizes_low_raw_values() {
    assert!(penalizes_low_raw());
}

#[test]
fn bookoo_parses_positive_weight() {
    // 44.80 g: sign='+' (0x2B), raw BE24 = 0x001180 = 4480 → /100 = 44.80
    let w = parse_bookoo(&PACKET_44_8).expect("should parse");
    approx_eq(f(w), 44.8, 0.01);
}

#[test]
fn bookoo_parses_negative_weight() {
    // -12.34 g: sign='-' (0x2D), raw BE24 = 0x0004D2 = 1234 → /100 = 12.34
    let mut pkt = [0u8; 20];
    pkt[0] = 0x03;
    pkt[1] = 0x0B;
    pkt[6] = 0x2D;
    pkt[7] = 0x00;
    pkt[8] = 0x04;
    pkt[9] = 0xD2;
    let w = parse_bookoo(&pkt).expect("should parse");
    approx_eq(f(w), -12.34, 0.01);
}

#[test]
fn bookoo_clamps_unrealistic_weight() {
    let mut pkt = [0u8; 20];
    pkt[0] = 0x03;
    pkt[1] = 0x0B;
    pkt[6] = 0x2B;
    pkt[7] = 0x0F;
    pkt[8] = 0x42;
    pkt[9] = 0x40; // 1,000,000 -> 10,000.00 g, clamp to 5,000 g
    let w = parse_bookoo(&pkt).expect("should parse");
    approx_eq(f(w), 5_000.0, 0.01);
}

#[test]
fn bookoo_rejects_non_weight_packet() {
    let pkt = [0x01, 0x02, 0x00, 0x00, 0x00, 0x00, 0x00, 0x00, 0x00, 0x00];
    assert!(parse_bookoo(&pkt).is_none());
}

#[test]
fn bookoo_rejects_short_packet() {
    assert!(parse_bookoo(&[0x03, 0x0B]).is_none());
}

#[test]
fn standard_parses_si_weight() {
    // flags=0x00 (SI), raw LE u16 = 100 → 100 * 5 = 500 g
    let pkt = [0x00, 0x64, 0x00];
    let w = parse_standard(&pkt).expect("should parse");
    approx_eq(f(w), 500.0, 0.01);
}

#[test]
fn standard_parses_imperial_weight() {
    // flags=0x01 (Imperial), raw LE u16 = 100 → 100 * 4.535… = 453.59 g
    let pkt = [0x01, 0x64, 0x00];
    let w = parse_standard(&pkt).expect("should parse");
    approx_eq(f(w), 453.59, 0.1);
}

#[test]
fn standard_rejects_short_packet() {
    assert!(parse_standard(&[0x00, 0x01]).is_none());
}

#[test]
fn parse_weight_dispatches_correctly() {
    // Standard
    let std_pkt = [0x00, 0x0A, 0x00]; // 10 * 5 = 50 g
    approx_eq(weight(ScaleProtocol::StandardWeight, &std_pkt), 50.0, 0.01);

    // Bookoo
    let mut bookoo_pkt = [0u8; 20];
    bookoo_pkt[0] = 0x03;
    bookoo_pkt[1] = 0x0B;
    bookoo_pkt[6] = 0x2B;
    bookoo_pkt[8] = 0x03;
    bookoo_pkt[9] = 0xE8; // 1000 → /100 = 10.00 g
    approx_eq(weight(ScaleProtocol::Bookoo, &bookoo_pkt), 10.0, 0.01);

    // GenericNotify falls through to generic parser
    let ascii = b"WT: 25.5 g";
    approx_eq(weight(ScaleProtocol::GenericNotify, ascii), 25.5, 0.01);

    // Unknown also falls through to generic parser
    approx_eq(weight(ScaleProtocol::Unknown, ascii), 25.5, 0.01);
}

#[test]
fn encodes_bookoo_tare_and_start_command() {
    assert_eq!(
        encode_bookoo_command(BookooCommand::TareAndStart),
        [0x03, 0x0A, 0x07, 0x00, 0x00, 0x0E],
    );
}

#[test]
fn encodes_bookoo_flow_smoothing_commands() {
    assert_eq!(
        encode_bookoo_command(BookooCommand::SetFlowSmoothing(false)),
        [0x03, 0x0A, 0x08, 0x00, 0x00, 0x01],
    );
    assert_eq!(
        encode_bookoo_command(BookooCommand::SetFlowSmoothing(true)),
        [0x03, 0x0A, 0x08, 0x01, 0x00, 0x00],
    );
}

#[test]
fn every_command_has_a_checksum() {
    for command in [
        BookooCommand::TareAndStart,
        BookooCommand::SetFlowSmoothing(false),
        BookooCommand::SetFlowSmoothing(true),
    ] {
        let p = encode_bookoo_command(command);
        assert_eq!(p[0] ^ p[1] ^ p[2] ^ p[3] ^ p[4], p[5]);
    }
}

#[test]
fn protocols_have_names() {
    assert_eq!(ScaleProtocol::StandardWeight.as_str(), "standard-weight");
    assert_eq!(ScaleProtocol::Bookoo.as_str(), "bookoo");
    assert_eq!(ScaleProtocol::GenericNotify.as_str(), "generic-notify");
    assert_eq!(ScaleProtocol::Unknown.as_str(), "unknown");
}

/// The best reading of a packet, found in machine arithmetic.
fn nearest_reading(value: &[u8], previous: f32) -> Option<f32> {
    let mut best: Option<(f32, usize, f32)> = None;
    for start in 0..value.len() {
        let w = &value[start..];
        let mut raws: Vec<i64> = Vec::new();
        if w.len() >= 4 {
            raws.push(i32::from_le_bytes([w[0], w[1], w[2], w[3]]) as i64);
            raws.push(i32::from_be_bytes([w[0], w[1], w[2], w[3]]) as i64);
        }
        if w.len() >= 3 {
            raws.push(i32::from_le_bytes([w[0], w[1], w[2], 0]) as i64);
            raws.push(i32::from_be_bytes([0, w[0], w[1], w[2]]) as i64);
        }
        if w.len() >= 2 {
            raws.push(i16::from_le_bytes([w[0], w[1]]) as i64);
            raws.push(u16::from_le_bytes([w[0], w[1]]) as i64);
            raws.push(i16::from_be_bytes([w[0], w[1]]) as i64);
            raws.push(u16::from_be_bytes([w[0], w[1]]) as i64);
        }
        for raw in raws {
            for divisor in [1.0f32, 10.0, 100.0, 1000.0] {
                let weight = raw as f32 / divisor;
                if weight <= 0.0 || weight > 5000.0 {
                    continue;
                }
                let seeded = previous > 0.0;
                let mut d = if seeded { (weight - previous).abs() } else { weight };
                if raw.unsigned_abs() < 10 {
                    d += if seeded { 500.0 } else { 5_000.0 };
                }
                if start > value.len() / 2 {
                    d += if seeded { 200.0 } else { 1_000.0 };
                }
                let better = match best {
                    None => d <= f32::MAX,
                    Some((bd, at, _)) => d < bd || (d == bd && start < at),
                };
                if better {
                    best = Some((d, start, weight));
                }
            }
        }
    }
    best.map(|(_, _, weight)| weight)
}

#[test]
fn the_nearest_reading_is_chosen() {
    assert_eq!(f(parse_generic(&[0x10, 0x27], b(99.0)).unwrap()), 100.0);
    let mut state = 1u64;
    for round in 0..400 {
        let mut packet: Vec<u8> = Vec::new();
        for _ in 0..(round % 12) {
            state = state.wrapping_mul(6364136223846793005).wrapping_add(1442695040888963407);
            let byte = (state >> 56) as u8;
            packet.push(if byte.is_ascii_digit() || byte == b'.' { 0 } else { byte });
        }
        for previous in [0.0f32, 18.3, 250.0, -3.0] {
            let ours = parse_generic(&packet, b(previous)).map(f);
            assert_eq!(ours, nearest_reading(&packet, previous), "{packet:?} after {previous}");
        }
    }
}

#[test]
fn a_packet_without_a_plausible_weight_has_none() {
    assert!(parse_generic(&[], b(0.0)).is_none());
    assert!(parse_generic(&[0, 0, 0, 0], b(12.0)).is_none());
    assert!(parse_ascii(b"no weight").is_none());
    assert!(parse_ascii(b"1.2.3 g").is_none());
}
