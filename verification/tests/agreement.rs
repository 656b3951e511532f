//! The library beside roslibrust's own mock: the counter node publishing
//! through it under tokio's paused clock, and the same scripts run on both
//! brokers with the same observations.

use std::time::Duration;

use mock_broker::nodes::{decode_int16, encode_int16, COUNTER_PERIOD, COUNTER_TOPIC};
use mock_broker::{BrokerError, ClientHandle, Counter, MockBroker};
use roslibrust::mock::MockRos;
use roslibrust::{
    MessageDescriptor, Publish, RosMessageType, RosServiceType, Service, ServiceError,
    ServiceProvider, Subscribe, TopicProvider,
};

type Handler = fn(Vec<u8>) -> Result<Vec<u8>, String>;

#[derive(Clone, Debug, Default, PartialEq)]
struct Int16 {
    data: i16,
}

impl serde::Serialize for Int16 {
    fn serialize<S: serde::Serializer>(&self, serializer: S) -> Result<S::Ok, S::Error> {
        serializer.serialize_i16(self.data)
    }
}

impl<'de> serde::Deserialize<'de> for Int16 {
    fn deserialize<D: serde::Deserializer<'de>>(deserializer: D) -> Result<Self, D::Error> {
        <i16 as serde::Deserialize>::deserialize(deserializer).map(|data| Int16 { data })
    }
}

impl RosMessageType for Int16 {
    const DESCRIPTION: MessageDescriptor = MessageDescriptor::new::<Self>(
        "std_msgs/Int16",
        "8524586e34fbd7cb1c08c5f5f1ca0e57",
        "int16 data",
        "std_msgs::msg::dds_::Int16_",
        &[0; 32],
    );
}

#[derive(Clone, Debug, Default, PartialEq)]
struct Empty;

impl serde::Serialize for Empty {
    fn serialize<S: serde::Serializer>(&self, serializer: S) -> Result<S::Ok, S::Error> {
        serializer.serialize_unit()
    }
}

impl<'de> serde::Deserialize<'de> for Empty {
    fn deserialize<D: serde::Deserializer<'de>>(deserializer: D) -> Result<Self, D::Error> {
        <() as serde::Deserialize>::deserialize(deserializer).map(|_| Empty)
    }
}

impl RosMessageType for Empty {
    const DESCRIPTION: MessageDescriptor = MessageDescriptor::new::<Self>(
        "std_msgs/Empty",
        "d41d8cd98f00b204e9800998ecf8427e",
        "",
        "std_msgs::msg::dds_::Empty_",
        &[0; 32],
    );
}

fn paused_runtime() -> tokio::runtime::Runtime {
    tokio::runtime::Builder::new_current_thread()
        .enable_time()
        .start_paused(true)
        .build()
        .unwrap()
}

/// The counter node as a task: the library decides what to publish and
/// when the next tick is due; tokio waits and roslibrust sends.
async fn pub_counter(ros: impl TopicProvider) {
    let publisher = ros
        .advertise::<Int16>(format!("/{COUNTER_TOPIC}"))
        .await
        .unwrap();
    let mut node = Counter::new(0);
    let mut interval = tokio::time::interval(Duration::from_nanos(COUNTER_PERIOD));
    loop {
        interval.tick().await;
        assert!(node.check_can_tick());
        let payload = node.on_tick();
        let data = decode_int16(&payload).unwrap();
        publisher.publish(&Int16 { data }).await.unwrap();
    }
}

#[test]
fn counter_node_publishes_through_the_outside_mock() {
    paused_runtime().block_on(async {
        let ros = MockRos::new();

        let mut subscriber = ros.subscribe::<Int16>("/example_counter").await.unwrap();

        tokio::spawn(pub_counter(ros.clone()));

        // Confirm we get the first message
        let msg = subscriber.next().await.unwrap();
        assert_eq!(msg.data, 0);

        // Confirm second message quickly times out
        let msg = tokio::time::timeout(Duration::from_millis(10), subscriber.next()).await;
        assert!(msg.is_err());

        // Wait a bit
        tokio::time::sleep(Duration::from_secs(1)).await;
        // Now get second message
        let msg = subscriber.next().await.unwrap();
        assert_eq!(msg.data, 1);
    });
}

/// What each of two subscribers has received at the end of the script: the
/// first subscribes before anything is published, the second after three
/// of the five messages.
fn delivery_on_the_outside_mock(values: [i16; 5]) -> (Vec<i16>, Vec<i16>) {
    paused_runtime().block_on(async {
        let ros = MockRos::new();
        let mut early = ros.subscribe::<Int16>("/numbers").await.unwrap();
        let publisher = ros.advertise::<Int16>("/numbers").await.unwrap();
        for data in &values[..3] {
            publisher.publish(&Int16 { data: *data }).await.unwrap();
        }
        let mut late = ros.subscribe::<Int16>("/numbers").await.unwrap();
        for data in &values[3..] {
            publisher.publish(&Int16 { data: *data }).await.unwrap();
        }
        let mut seen_early = Vec::new();
        while let Ok(msg) = tokio::time::timeout(Duration::from_millis(1), early.next()).await {
            seen_early.push(msg.unwrap().data);
        }
        let mut seen_late = Vec::new();
        while let Ok(msg) = tokio::time::timeout(Duration::from_millis(1), late.next()).await {
            seen_late.push(msg.unwrap().data);
        }
        (seen_early, seen_late)
    })
}

fn delivery_on_the_broker(values: [i16; 5]) -> (Vec<i16>, Vec<i16>) {
    let mut ros: MockBroker<Handler> = MockBroker::paused();
    let early = ros.subscribe("/numbers", "std_msgs/Int16").unwrap();
    let publisher = ros.advertise("/numbers", "std_msgs/Int16").unwrap();
    for data in &values[..3] {
        ros.publish(&publisher, &encode_int16(*data));
    }
    let late = ros.subscribe("/numbers", "std_msgs/Int16").unwrap();
    for data in &values[3..] {
        ros.publish(&publisher, &encode_int16(*data));
    }
    let decode = |messages: Vec<Vec<u8>>| -> Vec<i16> {
        messages.iter().map(|m| decode_int16(m).unwrap()).collect()
    };
    let seen_early = decode(ros.take_pending(&early));
    let seen_late = decode(ros.take_pending(&late));
    (seen_early, seen_late)
}

#[test]
fn both_brokers_deliver_the_same() {
    let values = [7, -3, 300, 0, i16::MIN];
    let expected = (vec![7, -3, 300, 0, i16::MIN], vec![0, i16::MIN]);
    assert_eq!(delivery_on_the_broker(values), expected);
    assert_eq!(delivery_on_the_outside_mock(values), expected);
}

#[test]
fn both_brokers_refuse_another_type_on_a_topic() {
    let outside = paused_runtime().block_on(async {
        let ros = MockRos::new();
        let first = ros.advertise::<Int16>("/numbers").await.is_ok();
        let same = ros.subscribe::<Int16>("/numbers").await.is_ok();
        let other = ros.subscribe::<Empty>("/numbers").await.is_ok();
        let other_publisher = ros.advertise::<Empty>("/numbers").await.is_ok();
        (first, same, other, other_publisher)
    });
    assert_eq!(outside, (true, true, false, false));

    let mut ros: MockBroker<Handler> = MockBroker::paused();
    assert!(ros.advertise("/numbers", "std_msgs/Int16").is_ok());
    assert!(ros.subscribe("/numbers", "std_msgs/Int16").is_ok());
    assert_eq!(ros.subscribe("/numbers", "std_msgs/Empty"), Err(BrokerError::TypeMismatch));
    assert_eq!(ros.advertise("/numbers", "std_msgs/Empty"), Err(BrokerError::TypeMismatch));
}

struct Triple;

impl RosServiceType for Triple {
    const ROS_SERVICE_NAME: &'static str = "test_msgs/Triple";
    type Request = Int16;
    type Response = Int16;
}

fn triple(request: Int16) -> Result<Int16, ServiceError> {
    Ok(Int16 { data: request.data.wrapping_mul(3) })
}

fn triple_bytes(request: Vec<u8>) -> Result<Vec<u8>, String> {
    match decode_int16(&request) {
        Some(data) => Ok(encode_int16(data.wrapping_mul(3))),
        None => Err(format!("expected 2 bytes, got {}", request.len())),
    }
}

#[test]
fn both_brokers_answer_a_call_alike() {
    let requests = [0i16, 1, -7, 1000, i16::MAX];
    let expected: Vec<i16> = requests.iter().map(|r| r.wrapping_mul(3)).collect();

    let outside: Vec<i16> = tokio::runtime::Builder::new_current_thread()
        .enable_time()
        .build()
        .unwrap()
        .block_on(async {
            let ros = MockRos::new();
            let _server = ros
                .advertise_service::<Triple, _>("/triple", triple)
                .await
                .unwrap();
            let client = ros.service_client::<Triple>("/triple").await.unwrap();
            let mut responses = Vec::new();
            for data in requests {
                responses.push(client.call(&Int16 { data }).await.unwrap().data);
            }
            responses
        });
    assert_eq!(outside, expected);

    let mut ros: MockBroker<Handler> = MockBroker::paused();
    ros.advertise_service("/triple", triple_bytes as Handler).unwrap();
    let client = ros.service_client("/triple").unwrap();
    let responses: Vec<i16> = requests
        .iter()
        .map(|data| decode_int16(&ros.call(&client, encode_int16(*data)).unwrap()).unwrap())
        .collect();
    assert_eq!(responses, expected);
}
