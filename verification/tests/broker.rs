use mock_broker::clock::seconds;
use mock_broker::{BrokerError, ClientHandle, ClockMode, MockBroker};

type Handler = fn(Vec<u8>) -> Result<Vec<u8>, String>;

fn echo(request: Vec<u8>) -> Result<Vec<u8>, String> {
    Ok(request)
}

#[test]
fn the_parts_of_the_broker_do_not_disturb_each_other() {
    let mut ros: MockBroker<Handler> = MockBroker::new(ClockMode::Paused);
    let subscriber = ros.subscribe("/t", "std_msgs/Int16").unwrap();
    let publisher = ros.advertise("/t", "std_msgs/Int16").unwrap();
    let provider = ros.advertise_service("/t", echo as Handler).unwrap();
    let client = ros.service_client("/t").unwrap();
    ros.sleep(1, seconds(2).unwrap());

    ros.publish(&publisher, &vec![1]);
    let call = ros.start_call(&client, vec![2]).unwrap();
    assert!(ros.advance(seconds(1).unwrap()).is_empty());

    assert!(ros.has_publisher(&publisher));
    assert!(ros.has_subscriber(&subscriber));
    assert!(ros.has_provider(&provider));
    assert!(ros.has_client(&client));
    assert!(ros.has_call(&call));
    assert_eq!(ros.pending(&subscriber), 1);
    assert_eq!(ros.poll_call(&call), None);
    assert_eq!(ros.run_pending(&provider), 1);
    assert_eq!(ros.advance(seconds(1).unwrap()).len(), 1);
    assert_eq!(ros.poll_call(&call), Some(Ok(vec![2])));
    assert_eq!(ros.try_next(&subscriber), Ok(Some(vec![1])));
    assert_eq!(ros.now(), 2_000_000_000);
}

#[test]
fn shutdown_ends_subscriptions_and_leaves_services_running() {
    let mut ros: MockBroker<Handler> = MockBroker::paused();
    let subscriber = ros.subscribe("/t", "std_msgs/Int16").unwrap();
    let publisher = ros.advertise("/t", "std_msgs/Int16").unwrap();
    ros.advertise_service("/echo", echo as Handler).unwrap();
    let client = ros.service_client("/echo").unwrap();
    assert!(!ros.is_closed());
    ros.shutdown();
    assert!(ros.is_closed());
    ros.publish(&publisher, &vec![1]);
    assert_eq!(ros.try_next(&subscriber), Err(BrokerError::ChannelClosed));
    assert_eq!(ros.call(&client, vec![7]), Ok(vec![7]));
}

#[test]
fn provider_gone_through_the_broker() {
    let mut ros: MockBroker<Handler> = MockBroker::paused();
    let provider = ros.advertise_service("/echo", echo as Handler).unwrap();
    assert_eq!(
        ros.advertise_service("/echo", echo as Handler),
        Err(BrokerError::AlreadyRegistered)
    );
    let client = ros.service_client("/echo").unwrap();
    let call = ros.start_call(&client, vec![1]).unwrap();
    let given_up = ros.start_call(&client, vec![2]).unwrap();
    ros.abandon_call(given_up);
    ros.unadvertise_service(provider);
    ros.run_call(&call);
    assert_eq!(ros.poll_call(&call), Some(Err(BrokerError::ProviderGone)));
    assert_eq!(ros.service_client("/echo"), Err(BrokerError::NoProvider));
    assert_eq!(ros.service_client("/never"), Err(BrokerError::NoProvider));
}

#[test]
fn sleepers_wake_through_the_broker() {
    let mut ros: MockBroker<Handler> = MockBroker::paused();
    ros.sleep(1, 300);
    ros.sleep(2, 100);
    ros.sleep_until(3, 200);
    ros.sleep(4, 100);
    assert_eq!(ros.cancel_sleep(3), 1);
    assert_eq!(ros.fire_next(1_000).map(|t| t.task), Some(2));
    assert_eq!(ros.now(), 100);
    let rest: Vec<u64> = ros.run_until_idle().iter().map(|t| t.task).collect();
    assert_eq!(rest, vec![4, 1]);
    assert_eq!(ros.now(), 300);
    assert!(ros.observe(5_000).is_empty());
    assert_eq!(ros.now(), 300);
    let mut subscriber = ros.subscribe("/t", "std_msgs/Int16").unwrap();
    subscriber = {
        ros.unsubscribe(subscriber);
        ros.subscribe("/t", "std_msgs/Int16").unwrap()
    };
    assert!(ros.has_subscriber(&subscriber));
}

#[test]
fn take_pending_empties_the_queue_in_order() {
    let mut ros: MockBroker<Handler> = MockBroker::paused();
    let subscriber = ros.subscribe("/t", "std_msgs/Int16").unwrap();
    let other = ros.subscribe("/t", "std_msgs/Int16").unwrap();
    let publisher = ros.advertise("/t", "std_msgs/Int16").unwrap();
    assert!(ros.take_pending(&subscriber).is_empty());
    ros.publish(&publisher, &vec![1]);
    ros.publish(&publisher, &vec![2, 2]);
    ros.publish(&publisher, &vec![3]);
    assert_eq!(ros.take_pending(&subscriber), vec![vec![1], vec![2, 2], vec![3]]);
    assert_eq!(ros.pending(&subscriber), 0);
    assert_eq!(ros.try_next(&subscriber), Ok(None));
    // The other subscriber still has its own copies.
    assert_eq!(ros.pending(&other), 3);
    ros.shutdown();
    assert_eq!(ros.take_pending(&other), vec![vec![1], vec![2, 2], vec![3]]);
    assert_eq!(ros.try_next(&other), Err(BrokerError::ChannelClosed));
}

/// Node code that knows the broker only by what a client handle offers.
fn relay<R: ClientHandle>(ros: &mut R, from: &str, to: &str, payload_type: &str) -> usize {
    let source = ros.subscribe(from, payload_type).unwrap();
    let sink = ros.advertise(to, payload_type).unwrap();
    let feed = ros.advertise(from, payload_type).unwrap();
    ros.publish(&feed, &vec![10]);
    ros.publish(&feed, &vec![20]);
    let mut relayed = 0;
    for message in ros.take_pending(&source) {
        ros.publish(&sink, &message);
        relayed += 1;
    }
    ros.unsubscribe(source);
    relayed
}

#[test]
fn node_code_runs_on_a_client_handle() {
    let mut ros: MockBroker<Handler> = MockBroker::paused();
    let listener = ros.subscribe("/out", "std_msgs/Int16").unwrap();
    assert_eq!(relay(&mut ros, "/in", "/out", "std_msgs/Int16"), 2);
    assert_eq!(ros.take_pending(&listener), vec![vec![10], vec![20]]);
}
