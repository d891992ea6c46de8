use directrf::comm_messages::{
    encode_message, message_from, pll_change_from, try_decode_message, uplink_to_str, UplinkMsg,
    MAX_UPLINK_MSG_SIZE,
};
use directrf::sequence::PLLChange;

fn sample_change() -> PLLChange {
    PLLChange { for_ticks: 3, start_tick: 0, divn: 300, vcosel: true, divp: 5, tim_us: 1000 }
}

fn sample_values() -> [u16; 32] {
    let mut values = [0u16; 32];
    for (i, v) in values.iter_mut().enumerate() {
        *v = (i as u16) * 257;
    }
    values
}

fn all_messages() -> Vec<UplinkMsg> {
    vec![
        UplinkMsg::Ping(),
        UplinkMsg::PushPLLChange(sample_change()),
        UplinkMsg::PushPLLChange(PLLChange {
            for_ticks: 12000,
            start_tick: 11999,
            divn: u16::MAX,
            vcosel: false,
            divp: u8::MAX,
            tim_us: u32::MAX,
        }),
        UplinkMsg::PushFracn(32, sample_values()),
        UplinkMsg::PushFracn(0, [0u16; 32]),
        UplinkMsg::PushFracn(7, [8191u16; 32]),
        UplinkMsg::ClearBuffer(),
        UplinkMsg::UploadDone(),
        UplinkMsg::StartNow(),
        UplinkMsg::StopNow(),
    ]
}

#[test]
fn ping_frame_bytes() {
    assert_eq!(encode_message(&UplinkMsg::Ping()), Some(vec![0x01, 0x01, 0x00]));
}

#[test]
fn bare_command_frame_bytes() {
    assert_eq!(encode_message(&UplinkMsg::ClearBuffer()), Some(vec![0x02, 0x03, 0x00]));
    assert_eq!(encode_message(&UplinkMsg::UploadDone()), Some(vec![0x02, 0x04, 0x00]));
    assert_eq!(encode_message(&UplinkMsg::StartNow()), Some(vec![0x02, 0x05, 0x00]));
    assert_eq!(encode_message(&UplinkMsg::StopNow()), Some(vec![0x02, 0x06, 0x00]));
}

#[test]
fn pll_change_frame_bytes() {
    // Record: 01 | 03 | 00 | ac 02 | 01 | 05 | e8 07, then stuffed around the zero.
    assert_eq!(
        encode_message(&UplinkMsg::PushPLLChange(sample_change())),
        Some(vec![0x03, 0x01, 0x03, 0x07, 0xac, 0x02, 0x01, 0x05, 0xe8, 0x07, 0x00])
    );
}

#[test]
fn fracn_frame_bytes() {
    let mut values = [0u16; 32];
    values[0] = 1;
    values[1] = 128;
    let frame = encode_message(&UplinkMsg::PushFracn(2, values)).unwrap();
    // Record: 02 | 02 | 01 | 80 01 | thirty zeros.
    let mut expected = vec![0x06, 0x02, 0x02, 0x01, 0x80, 0x01];
    expected.extend(std::iter::repeat(0x01).take(30));
    expected.push(0x00);
    assert_eq!(frame, expected);
}

#[test]
fn frames_hold_one_zero_at_the_end() {
    for msg in all_messages() {
        let frame = encode_message(&msg).unwrap();
        assert!(frame.len() <= MAX_UPLINK_MSG_SIZE);
        assert_eq!(frame.last(), Some(&0));
        assert!(frame[..frame.len() - 1].iter().all(|b| *b != 0));
    }
}

#[test]
fn decode_inverts_encode() {
    for msg in all_messages() {
        let frame = encode_message(&msg).unwrap();
        assert_eq!(try_decode_message(&frame), Some(msg));
    }
}

#[test]
fn decode_known_bytes() {
    assert_eq!(try_decode_message(&[0x01, 0x01, 0x00]), Some(UplinkMsg::Ping()));
    assert_eq!(try_decode_message(&[0x02, 0x06, 0x00]), Some(UplinkMsg::StopNow()));
    assert_eq!(
        try_decode_message(&[0x03, 0x01, 0x03, 0x07, 0xac, 0x02, 0x01, 0x05, 0xe8, 0x07, 0x00]),
        Some(UplinkMsg::PushPLLChange(sample_change()))
    );
}

#[test]
fn decode_agrees_with_postcard() {
    let mut buf = [0u8; 64];
    let frame =
        postcard::to_slice_cobs(&(1u32, 40u64, 7u64, 77u16, false, 9u8, 123456u32), &mut buf)
            .unwrap();
    assert_eq!(
        try_decode_message(frame),
        Some(UplinkMsg::PushPLLChange(PLLChange {
            for_ticks: 40,
            start_tick: 7,
            divn: 77,
            vcosel: false,
            divp: 9,
            tim_us: 123456,
        }))
    );
    let mut buf = [0u8; 128];
    let frame = postcard::to_slice_cobs(&(2u32, 32u8, sample_values()), &mut buf).unwrap();
    assert_eq!(try_decode_message(frame), Some(UplinkMsg::PushFracn(32, sample_values())));
}

#[test]
fn encode_agrees_with_postcard() {
    let mut frame = encode_message(&UplinkMsg::PushFracn(32, sample_values())).unwrap();
    let back: (u32, u8, [u16; 32]) = postcard::from_bytes_cobs(&mut frame).unwrap();
    assert_eq!(back, (2, 32, sample_values()));
}

#[test]
fn decode_rejects_unknown_tag() {
    assert_eq!(try_decode_message(&[0x02, 0x07, 0x00]), None);
    assert_eq!(try_decode_message(&[0x02, 0x7f, 0x00]), None);
    // 200 as a two-byte number.
    assert_eq!(try_decode_message(&[0x03, 0xc8, 0x01, 0x00]), None);
}

#[test]
fn decode_rejects_empty_and_bare_terminator() {
    assert_eq!(try_decode_message(&[]), None);
    assert_eq!(try_decode_message(&[0x00]), None);
}

#[test]
fn decode_rejects_malformed_stuffing() {
    // The first byte promises four more before the next zero; two follow.
    assert_eq!(try_decode_message(&[0x05, 0x01, 0x03, 0x00]), None);
}

#[test]
fn decode_rejects_truncated_record() {
    let frame = encode_message(&UplinkMsg::PushPLLChange(sample_change())).unwrap();
    // The record without its last field, stuffed anew.
    assert_eq!(
        try_decode_message(&[0x03, 0x01, 0x03, 0x05, 0xac, 0x02, 0x01, 0x05, 0x00]),
        None
    );
    assert_eq!(try_decode_message(&frame[..frame.len() - 3]), None);
    assert_eq!(try_decode_message(&[0x02, 0x01, 0x00]), None);
    assert_eq!(try_decode_message(&[0x02, 0x02, 0x00]), None);
}

#[test]
fn decode_rejects_bad_flag() {
    // As the sample change, its flag 2 instead of 1.
    assert_eq!(
        try_decode_message(&[0x03, 0x01, 0x03, 0x07, 0xac, 0x02, 0x02, 0x05, 0xe8, 0x07, 0x00]),
        None
    );
}

#[test]
fn decode_ignores_bytes_behind_the_record() {
    assert_eq!(try_decode_message(&[0x03, 0x04, 0x55, 0x00]), Some(UplinkMsg::UploadDone()));
}

#[test]
fn corrupt_frames_are_rejected_or_differ() {
    for msg in all_messages() {
        let frame = encode_message(&msg).unwrap();
        for at in 0..frame.len() - 1 {
            for bit in 0..8 {
                let mut broken = frame.clone();
                broken[at] ^= 1 << bit;
                match try_decode_message(&broken) {
                    None => {}
                    Some(other) => assert_ne!(other, msg),
                }
            }
        }
    }
}

#[test]
fn message_from_parts() {
    let fields = (3u64, 0u64, 300u16, true, 5u8, 1000u32);
    let fracn = (4u8, sample_values());
    assert_eq!(message_from(None, Some(fields), Some(fracn)), None);
    assert_eq!(message_from(Some(0), None, None), Some(UplinkMsg::Ping()));
    assert_eq!(
        message_from(Some(1), Some(fields), None),
        Some(UplinkMsg::PushPLLChange(sample_change()))
    );
    assert_eq!(message_from(Some(1), None, Some(fracn)), None);
    assert_eq!(
        message_from(Some(2), None, Some(fracn)),
        Some(UplinkMsg::PushFracn(4, sample_values()))
    );
    assert_eq!(message_from(Some(2), Some(fields), None), None);
    assert_eq!(message_from(Some(3), None, None), Some(UplinkMsg::ClearBuffer()));
    assert_eq!(message_from(Some(4), None, None), Some(UplinkMsg::UploadDone()));
    assert_eq!(message_from(Some(5), None, None), Some(UplinkMsg::StartNow()));
    assert_eq!(message_from(Some(6), Some(fields), Some(fracn)), Some(UplinkMsg::StopNow()));
    assert_eq!(message_from(Some(7), Some(fields), Some(fracn)), None);
    assert_eq!(message_from(Some(u32::MAX), None, None), None);
}

#[test]
fn pll_change_from_fields() {
    assert_eq!(pll_change_from((3, 0, 300, true, 5, 1000)), Some(sample_change()));
    if usize::BITS < 64 {
        assert_eq!(pll_change_from((u64::MAX, 0, 1, false, 1, 1)), None);
        assert_eq!(pll_change_from((0, u64::MAX, 1, false, 1, 1)), None);
    } else {
        assert_eq!(
            pll_change_from((u64::MAX, 1, 2, false, 3, 4)),
            Some(PLLChange {
                for_ticks: usize::MAX,
                start_tick: 1,
                divn: 2,
                vcosel: false,
                divp: 3,
                tim_us: 4,
            })
        );
    }
}

#[test]
fn uplink_names() {
    assert_eq!(uplink_to_str(&UplinkMsg::Ping()), "Ping");
    assert_eq!(uplink_to_str(&UplinkMsg::PushPLLChange(sample_change())), "PLLChange");
    assert_eq!(uplink_to_str(&UplinkMsg::PushFracn(1, [0; 32])), "PushFracn");
    assert_eq!(uplink_to_str(&UplinkMsg::UploadDone()), "UploadDone");
    assert_eq!(uplink_to_str(&UplinkMsg::ClearBuffer()), "ClearBuffer");
    assert_eq!(uplink_to_str(&UplinkMsg::StartNow()), "StartNow");
    assert_eq!(uplink_to_str(&UplinkMsg::StopNow()), "StopNow");
}
