use disney_infinity::commands::{ACTIVATE, GET_TAG, INDEXES, NOTIFY_OBSERVERS, RESPONSE, SOLID_COLOR};
use disney_infinity::frame::{MessageBuilder, MAX_DATA_LEN, REPORT_LEN};
use disney_infinity::pending::{
    decode_report, is_readable_report, MessageFuture, PendingMessages, Report, ReportAction,
    MESSAGE_SLOTS,
};
use disney_infinity::tags::{
    activate_data, assemble_tags, get_tag_data, parse_indexes, presence_color, set_color_data,
    tag_from_reply,
};
use disney_infinity::InfinityError;

fn sum_mod_256(bytes: &[u8]) -> u8 {
    bytes.iter().fold(0u8, |a, b| a.wrapping_add(*b))
}

#[test]
fn first_message_number_is_one() {
    let mut b = MessageBuilder::new();
    assert_eq!(b.message_number(), 0);
    assert_eq!(b.next_message_num(), 1);
    assert_eq!(b.message_number(), 1);
    assert_eq!(b.next_message_num(), 2);
}

#[test]
fn message_numbers_wrap_after_255() {
    let mut b = MessageBuilder::new();
    let mut ids = Vec::new();
    for _ in 0..256 {
        ids.push(b.next_message_num());
    }
    assert_eq!(ids[254], 255);
    assert_eq!(ids[255], 0);
    let mut sorted = ids.clone();
    sorted.sort();
    sorted.dedup();
    assert_eq!(sorted.len(), 256);
    assert_eq!(b.next_message_num(), 1);
}

#[test]
fn set_color_frame_bytes() {
    let mut b = MessageBuilder::new();
    let data = set_color_data(2, [10, 20, 30]);
    let (id, m) = b.construct_message(SOLID_COLOR, &data).unwrap();
    assert_eq!(id, 1);
    let checksum = (0u32 + 0xff + 6 + 0x90 + 1 + 2 + 10 + 20 + 30) % 256;
    let mut expected = [0u8; 33];
    expected[..10].copy_from_slice(&[0x00, 0xff, 0x06, 0x90, 0x01, 0x02, 10, 20, 30, checksum as u8]);
    assert_eq!(m, expected);
}

#[test]
fn indexes_request_frame_bytes() {
    let mut b = MessageBuilder::new();
    b.next_message_num();
    let (id, m) = b.construct_message(INDEXES, &[]).unwrap();
    assert_eq!(id, 2);
    assert_eq!(&m[..6], &[0x00, 0xff, 0x02, 0xa1, 0x02, 0xa4]);
    assert!(m[6..].iter().all(|x| *x == 0));
}

#[test]
fn checksum_wraps_modulo_256() {
    let mut b = MessageBuilder::new();
    let data = [0xffu8; 4];
    let (_, m) = b.construct_message(0xff, &data).unwrap();
    // 0 + 0xff + 6 + 0xff + 1 + 4 * 0xff = 1537 = 6 * 256 + 1
    assert_eq!(m[9], 1);
    assert_eq!(m[9], sum_mod_256(&m[..9]));
}

#[test]
fn activate_frame_carries_the_text() {
    let data = activate_data();
    assert_eq!(data, "(c) Disney 2013".as_bytes());
    let mut b = MessageBuilder::new();
    let (id, m) = b.construct_message(ACTIVATE, &data).unwrap();
    assert_eq!(id, 1);
    assert_eq!(m.len(), REPORT_LEN);
    assert_eq!(m[2] as usize, data.len() + 2);
    assert_eq!(m[3], ACTIVATE);
    assert_eq!(&m[5..20], "(c) Disney 2013".as_bytes());
    assert_eq!(m[20], sum_mod_256(&m[..20]));
    assert!(m[21..].iter().all(|x| *x == 0));
}

#[test]
fn longest_data_fills_the_report() {
    let mut b = MessageBuilder::new();
    let data: Vec<u8> = (1..=MAX_DATA_LEN as u8).collect();
    let (_, m) = b.construct_message(GET_TAG, &data).unwrap();
    assert_eq!(m[2], 29);
    assert_eq!(&m[5..32], &data[..]);
    assert_eq!(m[32], sum_mod_256(&m[..32]));
}

#[test]
fn request_data_builders() {
    assert_eq!(set_color_data(3, [1, 2, 3]), vec![3, 1, 2, 3]);
    assert_eq!(get_tag_data(7), vec![7]);
}

#[test]
fn message_future_holds_what_was_set() {
    let mut f = MessageFuture::default();
    assert_eq!(f.get_state(), None);
    f.set_data(vec![1, 2, 3]);
    assert_eq!(f.get_state(), Some(vec![1, 2, 3]));
    f.set_data(vec![]);
    assert_eq!(f.get_state(), Some(vec![]));
}

fn response_report(id: u8, payload: &[u8]) -> [u8; 32] {
    let mut r = [0u8; 32];
    r[0] = RESPONSE;
    r[1] = payload.len() as u8 + 1;
    r[2] = id;
    r[3..3 + payload.len()].copy_from_slice(payload);
    r
}

#[test]
fn decode_response_report() {
    let mut r = response_report(5, &[9, 8, 7]);
    r[10] = 0x55; // beyond the length, not part of the payload
    assert_eq!(decode_report(&r), Report::Response { id: 5, payload: vec![9, 8, 7] });
}

#[test]
fn decode_response_with_empty_payload() {
    let r = response_report(200, &[]);
    assert_eq!(decode_report(&r), Report::Response { id: 200, payload: vec![] });
}

#[test]
fn decode_longest_response() {
    let payload: Vec<u8> = (0..29).collect();
    let r = response_report(1, &payload);
    assert_eq!(r[1], 30);
    assert_eq!(decode_report(&r), Report::Response { id: 1, payload });
}

#[test]
fn decode_notify_and_other_reports() {
    let mut r = [0u8; 32];
    assert_eq!(decode_report(&r), Report::Other);
    r[0] = NOTIFY_OBSERVERS;
    r[1] = 0xff;
    assert_eq!(decode_report(&r), Report::NotifyObservers);
    r[0] = 0x12;
    assert_eq!(decode_report(&r), Report::Other);
}

#[test]
fn readable_reports() {
    let mut r = [0u8; 32];
    assert!(is_readable_report(&r));
    r[0] = RESPONSE;
    assert!(!is_readable_report(&r));
    r[1] = 1;
    assert!(is_readable_report(&r));
    r[1] = 30;
    assert!(is_readable_report(&r));
    r[1] = 31;
    assert!(!is_readable_report(&r));
    r[0] = NOTIFY_OBSERVERS;
    assert!(is_readable_report(&r));
}

#[test]
fn poll_gives_back_the_delivered_payload() {
    let mut p = PendingMessages::new();
    for id in 0..MESSAGE_SLOTS {
        assert_eq!(p.poll_reply(id as u8), None);
    }
    p.deliver(7, vec![1, 2, 3]);
    assert_eq!(p.poll_reply(7), Some((RESPONSE, vec![1, 2, 3])));
    // polling does not consume the answer
    assert_eq!(p.poll_reply(7), Some((RESPONSE, vec![1, 2, 3])));
    assert_eq!(p.poll_reply(6), None);
    assert_eq!(p.poll_reply(8), None);
}

#[test]
fn clear_empties_only_its_slot() {
    let mut p = PendingMessages::new();
    p.deliver(1, vec![4]);
    p.deliver(2, vec![5]);
    p.clear(1);
    assert_eq!(p.poll_reply(1), None);
    assert_eq!(p.poll_reply(2), Some((RESPONSE, vec![5])));
    p.deliver(1, vec![]);
    assert_eq!(p.poll_reply(1), Some((RESPONSE, vec![])));
}

#[test]
fn handle_report_stores_answers_and_flags_notifications() {
    let mut p = PendingMessages::new();
    let r = response_report(255, &[0xde, 0xad]);
    assert_eq!(p.handle_report(&r), ReportAction::Stored(255));
    assert_eq!(p.poll_reply(255), Some((RESPONSE, vec![0xde, 0xad])));
    let mut n = [0u8; 32];
    n[0] = NOTIFY_OBSERVERS;
    n[2] = 255;
    assert_eq!(p.handle_report(&n), ReportAction::NotifyObservers);
    assert_eq!(p.poll_reply(255), Some((RESPONSE, vec![0xde, 0xad])));
    assert_eq!(p.handle_report(&[0u8; 32]), ReportAction::Ignored);
    assert_eq!(p.poll_reply(0), None);
}

#[test]
fn later_answer_replaces_earlier_one() {
    let mut p = PendingMessages::new();
    p.handle_report(&response_report(3, &[1]));
    p.handle_report(&response_report(3, &[2, 2]));
    assert_eq!(p.poll_reply(3), Some((RESPONSE, vec![2, 2])));
}

#[test]
fn parse_indexes_splits_nibbles_and_skips_no_index() {
    assert_eq!(parse_indexes(vec![0x12, 0x09, 0x31, 0x2f]), vec![(1, 2), (3, 1), (2, 15)]);
    assert_eq!(parse_indexes(vec![]), vec![]);
    assert_eq!(parse_indexes(vec![0x09, 0x09]), vec![]);
    assert_eq!(parse_indexes(vec![0x00, 0xff]), vec![(0, 0), (15, 15)]);
}

#[test]
fn parse_indexes_recomposes_to_the_reply() {
    let bytes: Vec<u8> = (0..=255).collect();
    let pairs = parse_indexes(bytes.clone());
    let back: Vec<u8> = pairs.iter().map(|(p, i)| p * 16 + i).collect();
    let kept: Vec<u8> = bytes.into_iter().filter(|b| *b != 0x09).collect();
    assert_eq!(back, kept);
}

#[test]
fn tag_from_reply_takes_first_eight_bytes() {
    let reply: Vec<u8> = (1..=10).collect();
    assert_eq!(tag_from_reply(&reply), [1, 2, 3, 4, 5, 6, 7, 8]);
}

#[test]
fn assemble_tags_places_each_tag_on_its_platform() {
    let indexes = vec![(1u8, 0u8), (3, 1)];
    let replies = vec![vec![1u8; 9], vec![3u8; 8]];
    assert_eq!(assemble_tags(&indexes, &replies), [Some([1u8; 8]), None, Some([3u8; 8])]);
}

#[test]
fn assemble_tags_keeps_the_last_reply_for_a_platform() {
    let indexes = vec![(2u8, 0u8), (2, 1)];
    let replies = vec![vec![5u8; 8], vec![6u8; 8]];
    assert_eq!(assemble_tags(&indexes, &replies), [None, Some([6u8; 8]), None]);
}

#[test]
fn assemble_tags_of_an_empty_base() {
    assert_eq!(assemble_tags(&vec![], &vec![]), [None, None, None]);
}

#[test]
fn presence_colors() {
    assert_eq!(presence_color(&Some([0u8; 8])), [126, 126, 126]);
    assert_eq!(presence_color(&None), [0, 0, 0]);
}

#[test]
fn hid_errors_convert_into_infinity_errors() {
    let e: InfinityError = hidapi::HidError::InitializationError.into();
    assert!(matches!(e, InfinityError::HidError(hidapi::HidError::InitializationError)));
    let e = InfinityError::from(hidapi::HidError::HidApiErrorEmpty);
    assert!(matches!(e, InfinityError::HidError(hidapi::HidError::HidApiErrorEmpty)));
}
