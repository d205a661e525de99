//! FIX messages: timestamps, frames, fields, reports and the session.

use orderhub::amount::Amount;
use orderhub::bridge::{OrderSide, TimeInForce};
use orderhub::local_client::{
    cancel_id, check_channel, order_message, reported_order, submit_message, translate,
    translate_for, wire_side, CancelIds, KnownOrder, LiquiditySide, OrderChange, ReportKind,
    SubmitRefusal,
};
use orderhub::local_exchange::{
    build_body, build_body_at, checksum, decode_execution_report, decode_message, field,
    find_frame_end, frame, logon_reply, parse_fields, take_frame, ExecEvent, FixError, FixWriter,
    Side, SOH,
};
use orderhub::utc::{civil_from_days, format_timestamp, timestamp_now};

#[test]
fn timestamp_is_valid_fix_utc() {
    let ts = timestamp_now();
    println!("TS={ts}");
    assert_eq!(ts.len(), 17, "got {ts}");
    assert!(ts.as_bytes()[8] == b'-', "got {ts}");
}

#[test]
fn frame_roundtrip_parses_fields_and_checksum() {
    let body = format!("35=0{SOH}49=ORDERHUB{SOH}56=EXCHANGE{SOH}");
    let framed = frame(&body);
    let fields = parse_fields(&framed).unwrap();
    assert_eq!(field(&fields, 35), Some("0"));
    assert_eq!(field(&fields, 49), Some("ORDERHUB"));
    let check = field(&fields, 10).unwrap();
    let pos = framed.rfind("10=").expect("checksum field");
    assert_eq!(
        check,
        format!("{:03}", checksum(&framed[..pos])),
        "checksum covers everything before tag 10"
    );
}

#[test]
fn submit_order_body_matches_exchange_profile() {
    let body = build_body(
        "D",
        "ORDERHUB",
        "EXCHANGE",
        5,
        &[
            (21, "1".into()),
            (11, "O-1".into()),
            (55, "AAPL".into()),
            (54, "1".into()),
            (38, "10".into()),
            (40, "2".into()),
            (44, "150.00".into()),
        ],
    );
    assert!(body.contains("21=1\u{1}"), "HandlInst=1 required");
    assert!(body.contains("49=ORDERHUB\u{1}"));
    assert!(body.contains("56=EXCHANGE\u{1}"));
    assert!(body.contains("34=5\u{1}"), "sequence number in body");
    assert!(body.contains("40=2\u{1}") && body.contains("44=150.00\u{1}"));
}

#[test]
fn execution_report_decode_covers_lifecycle() {
    let report = format!(
        "8=FIX.4.2{SOH}9=1{SOH}35=8{SOH}37=V1{SOH}11=O-1{SOH}150=2{SOH}32=10{SOH}31=150.25{SOH}14=10{SOH}"
    );
    let fields = parse_fields(&report).unwrap();
    match decode_execution_report(&fields).unwrap() {
        ExecEvent::Fill {
            cl_ord_id,
            order_id,
            complete,
            last_qty,
            last_px,
            cum_qty,
        } => {
            assert!(complete);
            assert_eq!(cl_ord_id, "O-1");
            assert_eq!(order_id, "V1");
            assert_eq!(last_qty, Amount::new(10, 0));
            assert_eq!(last_px, Amount::new(15025, 2));
            assert_eq!(cum_qty, Amount::new(10, 0));
        }
        other => panic!("expected fill, got {other:?}"),
    }
}

fn report(parts: &[(u32, &str)]) -> ExecEvent {
    let fields: Vec<(u32, String)> =
        parts.iter().map(|(tag, value)| (*tag, value.to_string())).collect();
    decode_execution_report(&fields).unwrap()
}

#[test]
fn each_exec_type_has_its_event() {
    let new = ExecEvent::New { cl_ord_id: "C".to_string(), order_id: "V".to_string() };
    assert_eq!(report(&[(11, "C"), (37, "V"), (150, "0")]), new);
    assert_eq!(report(&[(11, "C"), (37, "V")]), new, "no ExecType means new");
    assert!(matches!(
        report(&[(11, "C"), (150, "1"), (32, "4"), (31, "9.5"), (14, "4")]),
        ExecEvent::Fill { complete: false, .. }
    ));
    assert_eq!(
        report(&[(11, "C"), (37, "V"), (150, "4")]),
        ExecEvent::Canceled { cl_ord_id: "C".to_string(), order_id: "V".to_string() }
    );
    assert_eq!(
        report(&[(11, "C"), (150, "8"), (58, "no such symbol")]),
        ExecEvent::Rejected { cl_ord_id: "C".to_string(), reason: "no such symbol".to_string() }
    );
    assert_eq!(
        report(&[(150, "8")]),
        ExecEvent::Rejected { cl_ord_id: String::new(), reason: "unspecified".to_string() }
    );
    assert_eq!(report(&[(150, "5")]), ExecEvent::Session("ExecType 5".to_string()));
}

#[test]
fn a_fill_with_a_bad_decimal_is_malformed() {
    let fields = vec![(150, "2".to_string()), (32, "ten".to_string())];
    let error = decode_execution_report(&fields).unwrap_err();
    assert_eq!(error.message(), "FIX malformed message: invalid decimal ten");
    let fields = vec![(150, "1".to_string()), (31, "x".to_string()), (14, "y".to_string())];
    let error = decode_execution_report(&fields).unwrap_err();
    assert_eq!(error.message(), "FIX malformed message: invalid decimal x");
}

#[test]
fn messages_decode_by_their_type() {
    let text = |parts: &str| parts.replace('|', "\u{1}");
    assert!(matches!(
        decode_message(&text("35=8|11=C|150=0|")).unwrap(),
        ExecEvent::New { .. }
    ));
    assert_eq!(
        decode_message(&text("35=3|11=C|58=bad tag|")).unwrap(),
        ExecEvent::Rejected { cl_ord_id: "C".to_string(), reason: "bad tag".to_string() }
    );
    assert_eq!(decode_message(&text("35=0|")).unwrap(), ExecEvent::Session("0".to_string()));
    assert!(matches!(
        decode_message(&text("11=C|")),
        Err(FixError::Malformed(reason)) if reason == "no MsgType"
    ));
    assert!(matches!(
        decode_message(&text("35|")),
        Err(FixError::Malformed(reason)) if reason == "field without '=': 35"
    ));
    assert!(matches!(
        decode_message(&text("35=8|x=1|")),
        Err(FixError::Malformed(reason)) if reason == "invalid tag x"
    ));
}

#[test]
fn parsing_skips_nothing_between_separators_and_keeps_equals_in_values() {
    let fields = parse_fields("\u{1}\u{1}58=a=b\u{1}\u{1}11=\u{1}").unwrap();
    assert_eq!(fields, [(58, "a=b".to_string()), (11, String::new())]);
    assert_eq!(field(&fields, 58), Some("a=b"));
    assert_eq!(field(&fields, 99), None);
    assert!(parse_fields("").unwrap().is_empty());
    assert!(parse_fields("4294967296=x").is_err());
    assert_eq!(parse_fields("4294967295=x").unwrap()[0].0, u32::MAX);
}

#[test]
fn the_first_field_of_a_tag_counts() {
    let fields = parse_fields("58=one\u{1}58=two\u{1}").unwrap();
    assert_eq!(field(&fields, 58), Some("one"));
}

#[test]
fn a_frame_is_written_as_the_protocol_says() {
    let framed = frame("35=0\u{1}");
    assert_eq!(framed, "8=FIX.4.2\u{1}9=5\u{1}35=0\u{1}10=161\u{1}");
    assert_eq!(checksum("8=FIX.4.2\u{1}9=5\u{1}35=0\u{1}"), 161);
    assert_eq!(checksum(""), 0);
    assert_eq!(checksum("\u{e9}"), (0xc3 + 0xa9) % 256);
}

#[test]
fn what_is_framed_is_cut_out_and_parsed_back() {
    let payload = [(11u32, "O-1".to_string()), (58, "caf\u{e9}".to_string())];
    let body = build_body_at("D", "ORDERHUB", "GOX", 7, "20260920-10:11:12", &payload);
    let framed = frame(&body);
    let mut buffer = framed.as_bytes().to_vec();
    assert_eq!(find_frame_end(&buffer), Some(buffer.len()));
    let taken = take_frame(&mut buffer).unwrap().unwrap();
    assert_eq!(taken, framed);
    assert!(buffer.is_empty());
    let fields = parse_fields(&taken).unwrap();
    let tags: Vec<u32> = fields.iter().map(|(tag, _)| *tag).collect();
    assert_eq!(tags, [8, 9, 35, 49, 56, 34, 52, 11, 58, 10]);
    assert_eq!(field(&fields, 9), Some(body.len().to_string().as_str()));
    assert_eq!(field(&fields, 52), Some("20260920-10:11:12"));
    assert_eq!(field(&fields, 58), Some("caf\u{e9}"));
}

#[test]
fn an_incomplete_frame_stays_in_the_buffer() {
    let mut buffer = b"8=FIX.4.2\x0135=0\x0110=1".to_vec();
    assert!(find_frame_end(&buffer).is_none());
    assert!(take_frame(&mut buffer).is_none());
    assert_eq!(buffer.len(), 19);
    buffer.extend_from_slice(b"23\x01rest");
    assert_eq!(take_frame(&mut buffer).unwrap().unwrap(), "8=FIX.4.2\u{1}35=0\u{1}10=123\u{1}");
    assert_eq!(buffer, b"rest");
    assert!(find_frame_end(b"10=00\x01").is_none());
}

#[test]
fn frames_are_taken_one_by_one() {
    let a = frame("35=0\u{1}58=one\u{1}");
    // What looks like a checksum field inside a body does not end the frame.
    let b = frame("35=0\u{1}58=caf\u{e9}\u{1}10=000\u{1}110=456\u{1}");
    let mut buffer = format!("{a}{b}{a}").into_bytes();
    assert_eq!(take_frame(&mut buffer).unwrap().unwrap(), a);
    assert_eq!(take_frame(&mut buffer).unwrap().unwrap(), b);
    assert_eq!(take_frame(&mut buffer).unwrap().unwrap(), a);
    assert!(buffer.is_empty());
    assert!(take_frame(&mut buffer).is_none());
}

#[test]
fn a_frame_waits_for_its_last_byte() {
    let whole = frame("35=8\u{1}110=123456789\u{1}58=10=123456\u{1}58=end\u{1}").into_bytes();
    for arrived in 0..whole.len() {
        let mut buffer = whole[..arrived].to_vec();
        assert!(take_frame(&mut buffer).is_none(), "{arrived}");
        assert_eq!(buffer, whole[..arrived]);
    }
    let mut behind = whole.clone();
    behind.extend_from_slice(&whole[..5]);
    assert_eq!(find_frame_end(&behind), Some(whole.len()));
}

#[test]
fn a_body_length_that_leads_nowhere_is_not_followed() {
    // No checksum where the length says: the last one ends the frame.
    let mut buffer = b"8=FIX.4.2\x019=2\x0135=0\x0110=161\x01rest".to_vec();
    let taken = take_frame(&mut buffer).unwrap().unwrap();
    assert_eq!(taken, "8=FIX.4.2\u{1}9=2\u{1}35=0\u{1}10=161\u{1}");
    assert_eq!(buffer, b"rest");
    let mut buffer = b"8=FIX.4.2\x019=x\x0135=0\x0110=161\x01".to_vec();
    assert!(take_frame(&mut buffer).unwrap().is_ok());
    assert!(buffer.is_empty());
    // A length that the message does not have: its checksum field ends it.
    for length in ["6", "500", "9".repeat(60).as_str()] {
        let message = format!("8=FIX.4.2\u{1}9={length}\u{1}35=0\u{1}10=161\u{1}");
        let mut buffer = message.clone().into_bytes();
        assert_eq!(take_frame(&mut buffer).unwrap().unwrap(), message);
        assert!(buffer.is_empty());
    }
}

#[test]
fn a_buffer_without_a_heading_ends_at_its_last_checksum() {
    let ends = |bytes: &[u8]| find_frame_end(bytes);
    assert_eq!(ends(b"10=000\x01"), Some(7));
    assert_eq!(ends(b"8=FIX10=000\x01"), Some(12));
    assert_eq!(ends(b"35=0\x0110=000\x0135=0\x0110=123\x01rest"), Some(24));
    assert_eq!(ends(b"35=0\x01110=000\x01"), Some(13));
    assert_eq!(ends(b"35=0\x0110=00"), None);
    assert_eq!(ends(b""), None);
}

#[test]
fn a_frame_that_is_no_text_is_malformed() {
    let mut buffer = b"8=FIX.4.2\x019=3\x01".to_vec();
    buffer.extend_from_slice(&[0xff, 0xfe, 1]);
    buffer.extend_from_slice(b"10=000\x01");
    let error = take_frame(&mut buffer).unwrap().unwrap_err();
    assert_eq!(error.message(), "FIX malformed message: non-UTF8 frame");
    assert!(buffer.is_empty());
}

#[test]
fn the_handshake_waits_for_the_acceptors_logon() {
    assert!(logon_reply("35=A\u{1}").unwrap());
    assert!(!logon_reply("35=0\u{1}").unwrap());
    assert_eq!(
        logon_reply("35=5\u{1}58=unknown CompID\u{1}").unwrap_err().message(),
        "FIX rejected: logged out during handshake: unknown CompID"
    );
    assert_eq!(
        logon_reply("35=5\u{1}").unwrap_err().message(),
        "FIX rejected: logged out during handshake: no text"
    );
    assert_eq!(
        logon_reply("35=3\u{1}").unwrap_err().message(),
        "FIX rejected: session reject: unspecified"
    );
    assert!(matches!(logon_reply("11=x\u{1}"), Err(FixError::Malformed(_))));
    let io = FixError::Io("broken pipe".to_string());
    assert_eq!(io.message(), "FIX transport error: broken pipe");
}

#[test]
fn a_session_numbers_its_messages() {
    let mut writer = FixWriter::new("ORDERHUB", "GOX");
    let logon = writer.logon_at(30, "20260920-00:00:00").unwrap();
    let fields = parse_fields(&logon).unwrap();
    assert_eq!(field(&fields, 35), Some("A"));
    assert_eq!(field(&fields, 34), Some("1"));
    assert_eq!(field(&fields, 98), Some("0"));
    assert_eq!(field(&fields, 108), Some("30"));
    let order = writer.submit_order_at(
        "O-1",
        "AAPL",
        Side::Buy,
        Amount::new(10, 0),
        Some(Amount::new(15000, 2)),
        "20260920-00:00:01",
        "20260920-00:00:02",
    );
    let fields = parse_fields(&order).unwrap();
    let expected = [
        (35, "D"),
        (49, "ORDERHUB"),
        (56, "GOX"),
        (34, "2"),
        (52, "20260920-00:00:02"),
        (21, "1"),
        (11, "O-1"),
        (55, "AAPL"),
        (54, "1"),
        (60, "20260920-00:00:01"),
        (38, "10"),
        (40, "2"),
        (59, "0"),
        (44, "150.00"),
    ];
    for (i, (tag, value)) in expected.iter().enumerate() {
        assert_eq!(fields[i + 2], (*tag, value.to_string()));
    }
    let cancel = writer.cancel_order("C-1", "O-1", "AAPL", Side::Sell);
    let fields = parse_fields(&cancel).unwrap();
    assert_eq!(field(&fields, 35), Some("F"));
    assert_eq!(field(&fields, 34), Some("3"));
    assert_eq!(field(&fields, 41), Some("O-1"));
    assert_eq!(field(&fields, 54), Some("2"));
}

#[test]
fn an_order_without_a_price_is_a_market_order() {
    let mut writer = FixWriter::new("ORDERHUB", "GOX");
    let order = writer.submit_order("O-1", "AAPL", Side::Sell, Amount::new(5, 0), None);
    let fields = parse_fields(&order).unwrap();
    assert_eq!(field(&fields, 40), Some("1"));
    assert_eq!(field(&fields, 44), None);
    assert_eq!(field(&fields, 60).unwrap().len(), 17);
}

#[test]
fn a_heartbeat_interval_of_zero_is_refused() {
    let mut writer = FixWriter::new("ORDERHUB", "GOX");
    assert_eq!(
        writer.logon(0).unwrap_err().message(),
        "FIX rejected: HeartBtInt must be positive"
    );
    let logon = writer.logon(1).unwrap();
    assert!(logon.contains("34=1\u{1}"), "a refused logon takes no number");
}

#[test]
fn timestamps_are_utc() {
    assert_eq!(format_timestamp(0), "19700101-00:00:00");
    assert_eq!(format_timestamp(951_782_399), "20000228-23:59:59");
    assert_eq!(format_timestamp(951_782_400), "20000229-00:00:00");
    assert_eq!(format_timestamp(1_789_862_400), "20260920-00:00:00");
    assert_eq!(format_timestamp(253_402_300_799), "99991231-23:59:59");
}

#[test]
fn dates_come_from_day_numbers() {
    assert_eq!(civil_from_days(0), (1970, 1, 1));
    assert_eq!(civil_from_days(-1), (1969, 12, 31));
    assert_eq!(civil_from_days(-719_468), (0, 3, 1));
    assert_eq!(civil_from_days(-719_469), (0, 2, 29));
    assert_eq!(civil_from_days(11_016), (2000, 2, 29));
    assert_eq!(civil_from_days(11_017), (2000, 3, 1));
    assert_eq!(civil_from_days(-25_508), (1900, 3, 1));
    assert_eq!(civil_from_days(-25_509), (1900, 2, 28));
}

#[test]
fn the_channel_refuses_what_it_cannot_carry() {
    assert!(check_channel(TimeInForce::Day, false, false).is_ok());
    assert_eq!(
        check_channel(TimeInForce::Gtc, true, true).unwrap_err(),
        "UNSUPPORTED_TIME_IN_FORCE"
    );
    assert_eq!(
        check_channel(TimeInForce::Day, true, true).unwrap_err(),
        "UNSUPPORTED_POST_ONLY"
    );
    assert_eq!(
        check_channel(TimeInForce::Day, false, true).unwrap_err(),
        "UNSUPPORTED_REDUCE_ONLY"
    );
    assert_eq!(wire_side(OrderSide::Buy), Side::Buy);
    assert_eq!(wire_side(OrderSide::Sell).tag(), 2);
}

#[test]
fn an_order_message_carries_the_orders_decimals() {
    let mut writer = FixWriter::new("ORDERHUB", "GOX");
    let message =
        order_message(&mut writer, "O-1", "AAPL", OrderSide::Buy, "10.50", Some("99.990")).unwrap();
    let fields = parse_fields(&message).unwrap();
    assert_eq!(field(&fields, 38), Some("10.50"));
    assert_eq!(field(&fields, 44), Some("99.990"));
    let message =
        order_message(&mut writer, "O-2", "AAPL", OrderSide::Buy, "1", Some("none")).unwrap();
    assert_eq!(field(&parse_fields(&message).unwrap(), 44), Some("0"));
    assert!(order_message(&mut writer, "O-3", "AAPL", OrderSide::Buy, "many", None).is_err());
    let message = order_message(&mut writer, "O-4", "AAPL", OrderSide::Buy, "1", None).unwrap();
    assert_eq!(field(&parse_fields(&message).unwrap(), 34), Some("3"));
}

#[test]
fn cancel_ids_name_the_client() {
    assert_eq!(cancel_id("GOX", 42), "C-GOX-42");
    let mut ids = CancelIds::new("GOX");
    assert!(ids.has_next());
    assert!(ids.fresh_cancel_id().starts_with("C-GOX-"));
}

#[test]
fn cancel_ids_are_never_given_out_twice() {
    let mut ids = CancelIds::new("GOX");
    let mut given = std::collections::HashSet::new();
    for _ in 0..1000 {
        assert!(ids.has_next());
        assert!(given.insert(ids.fresh_cancel_id()));
    }
}

#[test]
fn a_refused_order_takes_no_sequence_number() {
    let mut writer = FixWriter::new("ORDERHUB", "GOX");
    let mut submit = |quantity: &str, time_in_force: TimeInForce, post_only: bool| {
        let answer = submit_message(
            &mut writer,
            "O-1",
            "AAPL",
            OrderSide::Sell,
            quantity,
            Some("99.90"),
            time_in_force,
            post_only,
            false,
        );
        (answer, writer.next_seq())
    };
    let (answer, next) = submit("10", TimeInForce::Gtc, false);
    assert!(matches!(
        answer,
        Err(SubmitRefusal::Unsupported(code)) if code == "UNSUPPORTED_TIME_IN_FORCE"
    ));
    assert_eq!(next, 1);
    let (answer, next) = submit("10", TimeInForce::Day, true);
    assert!(matches!(
        answer,
        Err(SubmitRefusal::Unsupported(code)) if code == "UNSUPPORTED_POST_ONLY"
    ));
    assert_eq!(next, 1);
    let (answer, next) = submit("many", TimeInForce::Day, false);
    assert!(matches!(answer, Err(SubmitRefusal::Quantity(_))));
    assert_eq!(next, 1);
    let (answer, next) = submit("10", TimeInForce::Day, false);
    let fields = parse_fields(&answer.unwrap()).unwrap();
    assert_eq!(field(&fields, 34), Some("1"));
    assert_eq!(field(&fields, 54), Some("2"));
    assert_eq!(field(&fields, 38), Some("10"));
    assert_eq!(field(&fields, 44), Some("99.90"));
    assert_eq!(next, 2);
}

#[test]
fn reports_on_known_orders_become_changes() {
    let fill = |complete| ExecEvent::Fill {
        cl_ord_id: "O-1".to_string(),
        order_id: "V1".to_string(),
        complete,
        last_qty: Amount::new(4, 0),
        last_px: Amount::new(15025, 2),
        cum_qty: Amount::new(4, 0),
    };
    let known = |price: Option<&str>| {
        Some(KnownOrder { quantity: "10".to_string(), price: price.map(str::to_string) })
    };
    let report = translate_for(&fill(true), known(None)).unwrap();
    assert_eq!((report.client_order_id.as_str(), report.venue_order_id.as_str()), ("O-1", "V1"));
    match report.change {
        OrderChange::Filled { trade_id, last_qty, last_px, liquidity_side } => {
            assert_eq!(trade_id, "T-O-1");
            assert_eq!((last_qty.as_str(), last_px.as_str()), ("4", "150.25"));
            assert_eq!(liquidity_side, LiquiditySide::Taker);
        }
        other => panic!("expected fill, got {other:?}"),
    }
    // A partial fill keeps the order's own quantity and price.
    for own in [Some("151.00"), None] {
        match translate_for(&fill(false), known(own)).unwrap().change {
            OrderChange::Updated { quantity, price } => {
                assert_eq!(quantity, "10");
                assert_eq!(price.as_deref(), own);
            }
            other => panic!("expected update, got {other:?}"),
        }
    }
    let new = ExecEvent::New { cl_ord_id: "O-1".to_string(), order_id: "V1".to_string() };
    assert!(matches!(translate_for(&new, known(None)).unwrap().change, OrderChange::Accepted));
    let canceled = ExecEvent::Canceled { cl_ord_id: "O-1".to_string(), order_id: "V1".to_string() };
    assert!(matches!(translate_for(&canceled, known(None)).unwrap().change, OrderChange::Canceled));
    let rejected = ExecEvent::Rejected { cl_ord_id: "O-1".to_string(), reason: "no".to_string() };
    let report = translate_for(&rejected, known(None)).unwrap();
    assert_eq!(report.venue_order_id, "0");
    assert!(matches!(report.change, OrderChange::Rejected { reason } if reason == "no"));

    // Nothing comes of an order that is not known, nor of the session.
    let session = ExecEvent::Session("0".to_string());
    for event in [fill(true), fill(false), new, canceled, rejected] {
        assert_eq!(reported_order(&event).as_deref(), Some("O-1"));
        assert!(translate_for(&event, None).is_none());
    }
    assert!(reported_order(&session).is_none());
    assert!(translate_for(&session, known(None)).is_none());
}

#[test]
fn events_translate_into_reports() {
    let fill = |complete| ExecEvent::Fill {
        cl_ord_id: "O-1".to_string(),
        order_id: "V1".to_string(),
        complete,
        last_qty: Amount::new(10, 0),
        last_px: Amount::new(15025, 2),
        cum_qty: Amount::new(10, 0),
    };
    let report = translate(&fill(true)).unwrap();
    assert_eq!(report.client_order_id, "O-1");
    assert_eq!(report.venue_order_id, "V1");
    match report.kind {
        ReportKind::Filled { trade_id, last_qty, last_px } => {
            assert_eq!(trade_id, "T-O-1");
            assert_eq!(last_qty, "10");
            assert_eq!(last_px, "150.25");
        }
        other => panic!("expected fill, got {other:?}"),
    }
    assert!(matches!(translate(&fill(false)).unwrap().kind, ReportKind::Updated));
    let new = ExecEvent::New { cl_ord_id: "O-1".to_string(), order_id: "V1".to_string() };
    assert!(matches!(translate(&new).unwrap().kind, ReportKind::Accepted));
    let canceled = ExecEvent::Canceled { cl_ord_id: "O-1".to_string(), order_id: "V1".to_string() };
    assert!(matches!(translate(&canceled).unwrap().kind, ReportKind::Canceled));
    let rejected = ExecEvent::Rejected { cl_ord_id: "O-1".to_string(), reason: "no".to_string() };
    let report = translate(&rejected).unwrap();
    assert_eq!(report.venue_order_id, "0");
    assert!(matches!(report.kind, ReportKind::Rejected { reason } if reason == "no"));
    assert!(translate(&ExecEvent::Session("0".to_string())).is_none());
}
