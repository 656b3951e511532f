use mock_broker::{BrokerError, TopicRegistry};

#[test]
fn subscriber_receives_every_publish_in_order() {
    let mut topics = TopicRegistry::new();
    let subscriber = topics.subscribe("/chatter", "std_msgs/String").unwrap();
    let publisher = topics.advertise("/chatter", "std_msgs/String").unwrap();
    let messages: Vec<Vec<u8>> = vec![vec![1], vec![2, 2], vec![], vec![1], vec![9, 8, 7]];
    for m in &messages {
        topics.publish(&publisher, m);
    }
    assert_eq!(topics.pending(&subscriber), 5);
    for m in &messages {
        assert_eq!(topics.try_next(&subscriber), Ok(Some(m.clone())));
    }
    assert_eq!(topics.try_next(&subscriber), Ok(None));
    assert_eq!(topics.pending(&subscriber), 0);
}

#[test]
fn late_subscriber_misses_earlier_publishes() {
    let mut topics = TopicRegistry::new();
    let publisher = topics.advertise("/chatter", "std_msgs/String").unwrap();
    let early = topics.subscribe("/chatter", "std_msgs/String").unwrap();
    topics.publish(&publisher, &vec![1]);
    topics.publish(&publisher, &vec![2]);
    let late = topics.subscribe("/chatter", "std_msgs/String").unwrap();
    assert_eq!(topics.pending(&late), 0);
    assert_eq!(topics.try_next(&late), Ok(None));
    topics.publish(&publisher, &vec![3]);
    assert_eq!(topics.try_next(&late), Ok(Some(vec![3])));
    assert_eq!(topics.try_next(&late), Ok(None));
    assert_eq!(topics.try_next(&early), Ok(Some(vec![1])));
    assert_eq!(topics.try_next(&early), Ok(Some(vec![2])));
    assert_eq!(topics.try_next(&early), Ok(Some(vec![3])));
    assert_eq!(topics.try_next(&early), Ok(None));
}

#[test]
fn publish_without_subscribers_is_dropped() {
    let mut topics = TopicRegistry::new();
    let publisher = topics.advertise("/void", "std_msgs/Empty").unwrap();
    topics.publish(&publisher, &vec![1, 2, 3]);
    topics.publish(&publisher, &vec![4]);
    let subscriber = topics.subscribe("/void", "std_msgs/Empty").unwrap();
    assert_eq!(topics.pending(&subscriber), 0);
    assert_eq!(topics.try_next(&subscriber), Ok(None));
}

#[test]
fn every_subscriber_gets_its_own_copy() {
    let mut topics = TopicRegistry::new();
    let a = topics.subscribe("/scan", "sensor_msgs/LaserScan").unwrap();
    let b = topics.subscribe("/scan", "sensor_msgs/LaserScan").unwrap();
    assert_ne!(a, b);
    let publisher = topics.advertise("/scan", "sensor_msgs/LaserScan").unwrap();
    topics.publish(&publisher, &vec![5, 6]);
    let mut taken = topics.try_next(&a).unwrap().unwrap();
    taken[0] = 0;
    assert_eq!(topics.try_next(&b), Ok(Some(vec![5, 6])));
    assert_eq!(topics.try_next(&a), Ok(None));
}

#[test]
fn topics_do_not_leak_into_each_other() {
    let mut topics = TopicRegistry::new();
    let a = topics.subscribe("/a", "std_msgs/Int16").unwrap();
    let b = topics.subscribe("/b", "std_msgs/Int16").unwrap();
    let pub_a = topics.advertise("/a", "std_msgs/Int16").unwrap();
    let pub_b = topics.advertise("/b", "std_msgs/Int16").unwrap();
    assert_ne!(pub_a, pub_b);
    topics.publish(&pub_a, &vec![1]);
    topics.publish(&pub_b, &vec![2]);
    topics.publish(&pub_a, &vec![3]);
    assert_eq!(topics.try_next(&a), Ok(Some(vec![1])));
    assert_eq!(topics.try_next(&a), Ok(Some(vec![3])));
    assert_eq!(topics.try_next(&a), Ok(None));
    assert_eq!(topics.try_next(&b), Ok(Some(vec![2])));
    assert_eq!(topics.try_next(&b), Ok(None));
}

#[test]
fn advertise_with_another_type_is_a_mismatch() {
    let mut topics = TopicRegistry::new();
    let first = topics.advertise("/odom", "nav_msgs/Odometry").unwrap();
    assert_eq!(topics.advertise("/odom", "std_msgs/Int16"), Err(BrokerError::TypeMismatch));
    assert_eq!(topics.subscribe("/odom", "std_msgs/Int16"), Err(BrokerError::TypeMismatch));
    assert_eq!(topics.topic_type("/odom"), Some("nav_msgs/Odometry".to_string()));
    // The same type joins the same topic.
    assert_eq!(topics.advertise("/odom", "nav_msgs/Odometry"), Ok(first));
    assert!(topics.subscribe("/odom", "nav_msgs/Odometry").is_ok());
}

#[test]
fn subscriber_fixes_the_type_too() {
    let mut topics = TopicRegistry::new();
    assert_eq!(topics.topic_type("/imu"), None);
    let subscriber = topics.subscribe("/imu", "sensor_msgs/Imu").unwrap();
    assert_eq!(topics.topic_type("/imu"), Some("sensor_msgs/Imu".to_string()));
    assert_eq!(topics.advertise("/imu", "std_msgs/Int16"), Err(BrokerError::TypeMismatch));
    // A refused registration changes nothing.
    assert!(topics.has_subscriber(&subscriber));
    assert_eq!(topics.pending(&subscriber), 0);
}

#[test]
fn unsubscribe_releases_the_queue_and_the_slot_is_used_again() {
    let mut topics = TopicRegistry::new();
    let publisher = topics.advertise("/t", "std_msgs/Int16").unwrap();
    let first = topics.subscribe("/t", "std_msgs/Int16").unwrap();
    let second = topics.subscribe("/t", "std_msgs/Int16").unwrap();
    topics.publish(&publisher, &vec![1]);
    assert!(topics.has_subscriber(&first));
    topics.unsubscribe(first);
    // Publishing goes on for the one that stayed.
    topics.publish(&publisher, &vec![2]);
    assert_eq!(topics.pending(&second), 2);
    // A new subscriber takes the free slot and starts empty.
    let third = topics.subscribe("/t", "std_msgs/Int16").unwrap();
    assert!(topics.has_subscriber(&third));
    assert_ne!(third, second);
    assert_eq!(topics.pending(&third), 0);
    topics.publish(&publisher, &vec![3]);
    assert_eq!(topics.try_next(&third), Ok(Some(vec![3])));
    assert_eq!(topics.try_next(&second), Ok(Some(vec![1])));
}

#[test]
fn shutdown_closes_after_the_queue_is_drained() {
    let mut topics = TopicRegistry::new();
    let publisher = topics.advertise("/t", "std_msgs/Int16").unwrap();
    let subscriber = topics.subscribe("/t", "std_msgs/Int16").unwrap();
    topics.publish(&publisher, &vec![1]);
    assert!(!topics.is_closed());
    topics.shutdown();
    assert!(topics.is_closed());
    // Nothing is delivered any more, and publishing still does not fail.
    topics.publish(&publisher, &vec![2]);
    assert_eq!(topics.pending(&subscriber), 1);
    assert_eq!(topics.try_next(&subscriber), Ok(Some(vec![1])));
    assert_eq!(topics.try_next(&subscriber), Err(BrokerError::ChannelClosed));
    assert_eq!(topics.try_next(&subscriber), Err(BrokerError::ChannelClosed));
}

#[test]
fn handles_of_an_empty_registry_are_unknown() {
    let mut full = TopicRegistry::new();
    let publisher = full.advertise("/t", "std_msgs/Int16").unwrap();
    let subscriber = full.subscribe("/t", "std_msgs/Int16").unwrap();
    let empty = TopicRegistry::new();
    assert!(full.has_publisher(&publisher));
    assert!(!empty.has_publisher(&publisher));
    assert!(!empty.has_subscriber(&subscriber));
}

#[test]
fn registrations_elsewhere_leave_a_payload_type_alone() {
    let mut topics = TopicRegistry::new();
    topics.advertise("/a", "std_msgs/Int16").unwrap();
    topics.advertise("/b", "std_msgs/String").unwrap();
    topics.subscribe("/c", "std_msgs/Empty").unwrap();
    assert_eq!(topics.advertise("/a", "std_msgs/String"), Err(BrokerError::TypeMismatch));
    assert_eq!(topics.topic_type("/a"), Some("std_msgs/Int16".to_string()));
    assert_eq!(topics.topic_type("/b"), Some("std_msgs/String".to_string()));
    assert_eq!(topics.topic_type("/c"), Some("std_msgs/Empty".to_string()));
    assert_eq!(topics.topic_type("/d"), None);
}

/// A small generator of repeatable pseudo-random numbers.
struct Dice(u64);

impl Dice {
    fn roll(&mut self, sides: usize) -> usize {
        self.0 = self.0.wrapping_mul(6364136223846793005).wrapping_add(1442695040888963407);
        ((self.0 >> 33) as usize) % sides
    }
}

/// One live subscriber as the test sees it: what was published on its topic
/// since it subscribed, and what it has been handed so far.
struct Watched {
    handle: mock_broker::SubscriberHandle,
    topic: usize,
    published: Vec<Vec<u8>>,
    received: Vec<Vec<u8>>,
}

#[test]
fn nothing_is_lost_or_reordered_under_interleaving() {
    let names = ["/a", "/b", "/c"];
    let mut dice = Dice(2024);
    let mut topics = TopicRegistry::new();
    let publishers: Vec<_> =
        names.iter().map(|n| topics.advertise(n, "std_msgs/UInt8MultiArray").unwrap()).collect();
    let mut live: Vec<Watched> = Vec::new();
    let mut checked = 0;

    for step in 0..4000u32 {
        match dice.roll(5) {
            0 if live.len() < 8 => {
                let topic = dice.roll(names.len());
                let handle = topics.subscribe(names[topic], "std_msgs/UInt8MultiArray").unwrap();
                assert_eq!(topics.pending(&handle), 0);
                live.push(Watched { handle, topic, published: Vec::new(), received: Vec::new() });
            },
            1 | 2 => {
                let topic = dice.roll(names.len());
                let message = step.to_le_bytes().to_vec();
                topics.publish(&publishers[topic], &message);
                for watched in live.iter_mut().filter(|w| w.topic == topic) {
                    watched.published.push(message.clone());
                }
            },
            3 if !live.is_empty() => {
                let who = dice.roll(live.len());
                let watched = &mut live[who];
                let expected = watched.published.get(watched.received.len()).cloned();
                let taken = topics.try_next(&watched.handle).unwrap();
                assert_eq!(taken, expected);
                watched.received.extend(taken);
            },
            4 if !live.is_empty() => {
                let who = dice.roll(live.len());
                let mut watched = live.swap_remove(who);
                while let Some(message) = topics.try_next(&watched.handle).unwrap() {
                    watched.received.push(message);
                }
                assert_eq!(watched.received, watched.published);
                checked += watched.received.len();
                topics.unsubscribe(watched.handle);
            },
            _ => {
                let topic = dice.roll(names.len());
                assert_eq!(
                    topics.subscribe(names[topic], "std_msgs/Int16"),
                    Err(BrokerError::TypeMismatch)
                );
            },
        }
    }
    for mut watched in live {
        let waiting = watched.published.len() - watched.received.len();
        assert_eq!(topics.pending(&watched.handle), waiting);
        while let Some(message) = topics.try_next(&watched.handle).unwrap() {
            watched.received.push(message);
        }
        assert_eq!(watched.received, watched.published);
        checked += watched.received.len();
    }
    assert!(checked > 1000);
}
