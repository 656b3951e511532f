use mock_broker::nodes::{
    decode_int16, encode_int16, COUNTER_PAYLOAD, COUNTER_PERIOD, COUNTER_TOPIC,
};
use mock_broker::slots::claim;
use mock_broker::{BrokerError, Counter};

#[test]
fn int16_is_two_bytes_low_byte_first() {
    assert_eq!(encode_int16(0), vec![0, 0]);
    assert_eq!(encode_int16(1), vec![1, 0]);
    assert_eq!(encode_int16(258), vec![2, 1]);
    assert_eq!(encode_int16(-1), vec![255, 255]);
    assert_eq!(encode_int16(i16::MAX), vec![255, 127]);
    assert_eq!(encode_int16(i16::MIN), vec![0, 128]);
    for value in [0i16, 1, -1, 258, -300, i16::MAX, i16::MIN] {
        assert_eq!(encode_int16(value), value.to_le_bytes().to_vec());
        assert_eq!(decode_int16(&encode_int16(value)), Some(value));
    }
}

#[test]
fn int16_payload_has_exactly_two_bytes() {
    assert_eq!(decode_int16(&vec![]), None);
    assert_eq!(decode_int16(&vec![1]), None);
    assert_eq!(decode_int16(&vec![1, 0, 0]), None);
    assert_eq!(decode_int16(&vec![2, 1]), Some(258));
    assert_eq!(decode_int16(&vec![0, 128]), Some(i16::MIN));
}

#[test]
fn counter_counts_from_zero_once_a_second() {
    assert_eq!(COUNTER_TOPIC, "example_counter");
    assert_eq!(COUNTER_PAYLOAD, "std_msgs/Int16");
    assert_eq!(COUNTER_PERIOD, 1_000_000_000);
    let mut node = Counter::new(250);
    assert_eq!(node.value(), 0);
    assert_eq!(node.next_wake(), 250);
    assert!(node.check_can_tick());
    assert_eq!(node.on_tick(), vec![0, 0]);
    assert_eq!(node.next_wake(), 1_000_000_250);
    assert_eq!(node.on_tick(), vec![1, 0]);
    assert_eq!(node.on_tick(), vec![2, 0]);
    assert_eq!(node.value(), 3);
    assert_eq!(node.next_wake(), 3_000_000_250);
}

#[test]
fn counter_stops_before_it_would_overflow() {
    let mut node = Counter::new(0);
    let mut published: i32 = 0;
    while node.check_can_tick() {
        let payload = node.on_tick();
        assert_eq!(decode_int16(&payload), Some(published as i16));
        published += 1;
    }
    assert_eq!(published, 32_767);
    assert_eq!(node.value(), i16::MAX);

    let late = Counter::new(u64::MAX - 5);
    assert!(!late.check_can_tick());
}

#[test]
fn claim_takes_the_first_free_slot() {
    let mut slots: Vec<Option<char>> = Vec::new();
    assert_eq!(claim(&mut slots, 'a'), 0);
    assert_eq!(claim(&mut slots, 'b'), 1);
    assert_eq!(claim(&mut slots, 'c'), 2);
    slots[1] = None;
    slots[0] = None;
    assert_eq!(claim(&mut slots, 'd'), 0);
    assert_eq!(claim(&mut slots, 'e'), 1);
    assert_eq!(claim(&mut slots, 'f'), 3);
    assert_eq!(slots, vec![Some('d'), Some('e'), Some('c'), Some('f')]);
}

#[test]
fn only_a_missing_provider_is_worth_a_retry() {
    assert!(BrokerError::NoProvider.is_retriable());
    assert!(!BrokerError::TypeMismatch.is_retriable());
    assert!(!BrokerError::AlreadyRegistered.is_retriable());
    assert!(!BrokerError::ProviderGone.is_retriable());
    assert!(!BrokerError::ChannelClosed.is_retriable());
    assert!(!BrokerError::Application("out of range".to_string()).is_retriable());
}
