use directrf::comm::{get_message, setup, usart3_rx, Received, ACK, NACK, RX_RING_SIZE};
use directrf::comm_messages::{encode_message, UplinkMsg, MAX_UPLINK_MSG_SIZE};
use directrf::sequence::PLLChange;

const QUIET: Received = Received { msg: None, reply: None };

fn messages() -> Vec<UplinkMsg> {
    let mut values = [0u16; 32];
    for (i, v) in values.iter_mut().enumerate() {
        *v = 8191 - i as u16;
    }
    vec![
        UplinkMsg::Ping(),
        UplinkMsg::PushPLLChange(PLLChange {
            for_ticks: 500,
            start_tick: 0,
            divn: 40,
            vcosel: true,
            divp: 2,
            tim_us: 100,
        }),
        UplinkMsg::PushFracn(32, values),
        UplinkMsg::ClearBuffer(),
        UplinkMsg::UploadDone(),
        UplinkMsg::StartNow(),
        UplinkMsg::StopNow(),
    ]
}

#[test]
fn fresh_link_has_nothing() {
    let mut link = setup();
    assert_eq!(link.rx_free(), RX_RING_SIZE);
    assert_eq!(get_message(&mut link), QUIET);
}

#[test]
fn frame_round_trip() {
    let mut link = setup();
    for msg in messages() {
        let frame = encode_message(&msg).unwrap();
        usart3_rx(&mut link, &frame);
        assert_eq!(get_message(&mut link), Received { msg: Some(msg), reply: Some(ACK) });
        assert_eq!(get_message(&mut link), QUIET);
    }
}

#[test]
fn reply_bytes() {
    assert_eq!(ACK, 0x01);
    assert_eq!(NACK, 0x00);
}

#[test]
fn frames_queued_in_the_ring_come_out_one_by_one() {
    let mut link = setup();
    for msg in messages() {
        usart3_rx(&mut link, &encode_message(&msg).unwrap());
    }
    for msg in messages() {
        assert_eq!(get_message(&mut link), Received { msg: Some(msg), reply: Some(ACK) });
    }
    assert_eq!(get_message(&mut link), QUIET);
}

#[test]
fn frame_in_pieces() {
    let mut link = setup();
    let msg = messages()[2];
    let frame = encode_message(&msg).unwrap();
    let (head, tail) = frame.split_at(frame.len() / 2);
    usart3_rx(&mut link, head);
    assert_eq!(get_message(&mut link), QUIET);
    assert_eq!(get_message(&mut link), QUIET);
    usart3_rx(&mut link, tail);
    assert_eq!(get_message(&mut link), Received { msg: Some(msg), reply: Some(ACK) });
}

#[test]
fn frame_byte_by_byte() {
    let mut link = setup();
    let msg = messages()[1];
    let frame = encode_message(&msg).unwrap();
    for (i, byte) in frame.iter().enumerate() {
        usart3_rx(&mut link, &[*byte]);
        let got = get_message(&mut link);
        if i + 1 < frame.len() {
            assert_eq!(got, QUIET);
        } else {
            assert_eq!(got, Received { msg: Some(msg), reply: Some(ACK) });
        }
    }
}

#[test]
fn corrupt_frame_is_refused_and_link_recovers() {
    let mut link = setup();
    usart3_rx(&mut link, &[0x05, 0x01, 0x03, 0x00]);
    assert_eq!(get_message(&mut link), Received { msg: None, reply: Some(NACK) });
    usart3_rx(&mut link, &encode_message(&UplinkMsg::Ping()).unwrap());
    assert_eq!(
        get_message(&mut link),
        Received { msg: Some(UplinkMsg::Ping()), reply: Some(ACK) }
    );
}

#[test]
fn corrupt_frames_through_the_link() {
    for msg in messages() {
        let frame = encode_message(&msg).unwrap();
        for at in 0..frame.len() - 1 {
            let mut broken = frame.clone();
            broken[at] ^= 0x10;
            let mut link = setup();
            usart3_rx(&mut link, &broken);
            let got = get_message(&mut link);
            match got.msg {
                None => assert_eq!(got.reply, Some(NACK)),
                Some(other) => {
                    assert_ne!(other, msg);
                    assert_eq!(got.reply, Some(ACK));
                }
            }
            assert_eq!(get_message(&mut link), QUIET);
        }
    }
}

#[test]
fn unknown_command_is_refused() {
    let mut link = setup();
    usart3_rx(&mut link, &[0x02, 0x07, 0x00]);
    assert_eq!(get_message(&mut link), Received { msg: None, reply: Some(NACK) });
}

#[test]
fn bare_terminator_is_refused() {
    let mut link = setup();
    usart3_rx(&mut link, &[0x00]);
    assert_eq!(get_message(&mut link), Received { msg: None, reply: Some(NACK) });
    assert_eq!(get_message(&mut link), QUIET);
}

#[test]
fn overlong_frame_is_refused() {
    let mut link = setup();
    let junk = vec![0x11u8; 300];
    usart3_rx(&mut link, &junk);
    // The frame buffer fills without a terminator in sight.
    assert_eq!(get_message(&mut link), Received { msg: None, reply: Some(NACK) });
    // The rest of the junk is gathered as the start of another frame ...
    assert_eq!(get_message(&mut link), QUIET);
    usart3_rx(&mut link, &[0x00]);
    // ... which ends here and does not decode.
    assert_eq!(get_message(&mut link), Received { msg: None, reply: Some(NACK) });
    usart3_rx(&mut link, &encode_message(&UplinkMsg::StartNow()).unwrap());
    assert_eq!(
        get_message(&mut link),
        Received { msg: Some(UplinkMsg::StartNow()), reply: Some(ACK) }
    );
}

#[test]
fn frame_of_full_size_is_taken_whole() {
    let mut link = setup();
    let mut frame = vec![0x01u8; MAX_UPLINK_MSG_SIZE - 1];
    frame.push(0x00);
    usart3_rx(&mut link, &frame);
    // 255 stuffing bytes decode to 254 zeros: a ping with bytes behind it.
    assert_eq!(
        get_message(&mut link),
        Received { msg: Some(UplinkMsg::Ping()), reply: Some(ACK) }
    );
    assert_eq!(get_message(&mut link), QUIET);
}

#[test]
fn rx_free_counts_down() {
    let mut link = setup();
    usart3_rx(&mut link, &[1, 2, 3]);
    assert_eq!(link.rx_free(), RX_RING_SIZE - 3);
    assert_eq!(get_message(&mut link), QUIET);
    assert_eq!(link.rx_free(), RX_RING_SIZE);
}
