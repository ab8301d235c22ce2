use btracked::config::{HttpConfig, MeasurementDestination};
use btracked::dest::{new_destination, DestinationKind, HttpSender, RetryLoop};
use btracked::packet::BeaconPacket;

fn sample_packet(n: u8) -> BeaconPacket {
    BeaconPacket { time: n as u64, mac: [n; 6], rssi: -(n as i8), sequence: n, session: n }
}

fn http_config(endpoint: &str) -> HttpConfig {
    HttpConfig {
        endpoint: endpoint.to_owned(),
        http_proxy: None,
        https_proxy: None,
        identity_cert: None,
        identity_cert_pass: None,
        root_certs: Vec::new(),
        timeout_ms: Some(30),
    }
}

#[test]
fn failing_server_receives_exactly_three_posts() {
    // With retry_attempts = 2 a server that answers 500 every time sees
    // the same batch three times, and the batch is gone afterwards.
    let mut sender = HttpSender::new("http://server/api".to_owned(), 2);
    sender.buffer_measurement(sample_packet(1));
    sender.buffer_measurement(sample_packet(2));

    let (batch, mut retry) = sender.begin_send().unwrap();
    assert_eq!(batch.len(), 2);
    assert_eq!(sender.measurement_buffer.len(), 0);

    let mut posts = 0;
    while retry.should_post() {
        posts += 1;
        retry.record(false); // the server answered with an error
    }
    assert_eq!(posts, 3);
    assert_eq!(sender.measurement_buffer.len(), 0);
}

#[test]
fn successful_post_stops_the_retries() {
    let mut sender = HttpSender::new("http://server/api".to_owned(), 5);
    sender.buffer_measurement(sample_packet(3));
    let (_batch, mut retry) = sender.begin_send().unwrap();

    let mut posts = 0;
    while retry.should_post() {
        posts += 1;
        retry.record(posts == 2); // the second attempt succeeds
    }
    assert_eq!(posts, 2);
}

#[test]
fn empty_buffer_sends_nothing() {
    let mut sender = HttpSender::new("http://server/api".to_owned(), 2);
    assert!(sender.begin_send().is_none());
}

#[test]
fn batch_carries_buffered_packets_in_order() {
    let mut sender = HttpSender::new("e".to_owned(), 0);
    for n in 1..=5u8 {
        sender.buffer_measurement(sample_packet(n));
    }
    let (batch, retry) = sender.begin_send().unwrap();
    assert_eq!(batch.len(), 5);
    for (k, p) in batch.iter().enumerate() {
        assert_eq!(p.sequence, (k + 1) as u8);
    }
    assert_eq!(retry.total_attempts, 1);
}

#[test]
fn new_destination_builds_http_batcher() {
    let dest = new_destination(MeasurementDestination::Http {
        config: http_config("http://server/api"),
        retry_attempts: 2,
        queue_rate_ms: 100,
    })
    .unwrap();
    match dest {
        DestinationKind::Http { sender, queue_rate_ms, config } => {
            assert_eq!(sender.endpoint, "http://server/api");
            assert_eq!(sender.retry_attempts, 2);
            assert_eq!(sender.measurement_buffer.len(), 0);
            assert_eq!(queue_rate_ms, 100);
            assert_eq!(config.endpoint, "http://server/api");
        },
        _ => panic!("expected an HTTP destination"),
    }
}

#[test]
fn new_destination_requires_certificate_password() {
    let mut config = http_config("http://server/api");
    config.identity_cert = Some("client.p12".to_owned());
    let dest = new_destination(MeasurementDestination::Http {
        config,
        retry_attempts: 1,
        queue_rate_ms: 100,
    });
    assert!(dest.is_err());
}

#[test]
fn new_destination_passes_file_and_stdout_through() {
    match new_destination(MeasurementDestination::File {
        path: "out.jsonl".to_owned(),
        append: true,
    })
    .unwrap()
    {
        DestinationKind::File { path, append } => {
            assert_eq!(path, "out.jsonl");
            assert!(append);
        },
        _ => panic!("expected a file destination"),
    }
    assert!(matches!(
        new_destination(MeasurementDestination::Stdout).unwrap(),
        DestinationKind::Stdout
    ));
}

#[test]
fn retry_loop_counts_attempts() {
    let mut retry = RetryLoop::new(0);
    assert!(retry.should_post());
    retry.record(false);
    assert!(!retry.should_post());
}
