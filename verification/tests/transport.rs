use profinet_rt::eth::{is_profinet_frame, EthTransport, MockTransport};

#[test]
fn mock_records_sent_frames() {
    let mut t = MockTransport::new();
    t.send(&[1, 2, 3]).unwrap();
    t.send(&[4, 5]).unwrap();
    assert_eq!(t.sent(), vec![vec![1, 2, 3], vec![4, 5]]);
}

#[test]
fn mock_returns_pushed_rx_in_order_then_none() {
    let mut t = MockTransport::new();
    t.push_rx(vec![9, 9]);
    assert_eq!(t.recv(None).unwrap(), Some(vec![9, 9]));
    assert_eq!(t.recv(None).unwrap(), None);
}

#[test]
fn mock_receive_is_fifo_and_independent_of_sends() {
    let mut t = MockTransport::default();
    assert!(t.sent().is_empty());
    t.push_rx(vec![1]);
    t.push_rx(vec![2, 2]);
    t.send(&[7]).unwrap();
    assert_eq!(t.recv(Some(std::time::Duration::from_millis(5))).unwrap(), Some(vec![1]));
    assert_eq!(t.recv(None).unwrap(), Some(vec![2, 2]));
    assert_eq!(t.recv(None).unwrap(), None);
    assert_eq!(t.sent(), vec![vec![7]]);
}

#[test]
fn only_untagged_profinet_frames_pass_the_receive_filter() {
    let mut f = vec![0u8; 14];
    f[12] = 0x88;
    f[13] = 0x92;
    assert!(is_profinet_frame(&f));
    assert!(!is_profinet_frame(&f[..13]));
    f[13] = 0x93;
    assert!(!is_profinet_frame(&f));
    f[12] = 0x81;
    f[13] = 0x00;
    assert!(!is_profinet_frame(&f));
}
