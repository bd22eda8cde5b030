use std::collections::VecDeque;

use exocore::transport::p2p::bytes_channel::{BytesChannelReceiver, ChannelPoll};

/// Reads into a buffer of `size` bytes, polling `chunks` only when the
/// receiver asks for it.
fn read(receiver: &mut BytesChannelReceiver, chunks: &mut VecDeque<Vec<u8>>, size: usize) -> Vec<u8> {
    let polled = if receiver.needs_poll() {
        match chunks.pop_front() {
            Some(chunk) => ChannelPoll::Ready(chunk),
            None => ChannelPoll::Closed,
        }
    } else {
        ChannelPoll::Pending
    };
    receiver.poll_read(polled, size).expect("read should not be pending")
}

#[test]
fn test_bytes_channel() {
    let mut receiver = BytesChannelReceiver::new();

    // send data in chunks of random size
    let tx_sizes: [u8; 9] = [1, 11, 23, 46, 31, 67, 112, 23, 41];
    let mut chunks = VecDeque::new();
    let mut sent = Vec::new();
    for size in tx_sizes {
        let mut data = Vec::new();
        for _ in 0..size {
            data.push(size);
        }
        sent.extend_from_slice(&data);
        chunks.push_back(data);
    }

    // receive data in chunks of random size
    let mut received = Vec::new();
    let rx_sizes = [
        31, 1, 52, 143, 3, 113, 23, 98, 15, 312, 31, 321, 2, 41, 33, 2, 44, 11, 134,
    ];
    for size in rx_sizes {
        let buf = read(&mut receiver, &mut chunks, size);
        assert!(buf.len() <= size);
        if buf.is_empty() {
            break;
        }
        received.extend_from_slice(&buf);
    }

    // expect received data to be equal to sent data
    let expected_size = tx_sizes.iter().map(|i| usize::from(*i)).sum::<usize>();
    assert_eq!(received.len(), expected_size);
    assert_eq!(received, sent);
}

#[test]
fn bytes_channel_keeps_what_does_not_fit_in_the_buffer() {
    let mut receiver = BytesChannelReceiver::new();
    assert!(receiver.needs_poll());

    let first = receiver.poll_read(ChannelPoll::Ready(vec![1, 2, 3, 4, 5]), 2);
    assert_eq!(first, Some(vec![1, 2]));
    assert!(!receiver.needs_poll());

    // the reserve is read first, and what is polled is not looked at
    let second = receiver.poll_read(ChannelPoll::Ready(vec![9, 9]), 2);
    assert_eq!(second, Some(vec![3, 4]));
    let third = receiver.poll_read(ChannelPoll::Pending, 10);
    assert_eq!(third, Some(vec![5]));
    assert!(receiver.needs_poll());

    // a chunk that fits exactly leaves no reserve
    let fourth = receiver.poll_read(ChannelPoll::Ready(vec![6, 7]), 2);
    assert_eq!(fourth, Some(vec![6, 7]));
    assert!(receiver.needs_poll());
}

#[test]
fn bytes_channel_pending_and_closed() {
    let mut receiver = BytesChannelReceiver::new();
    assert_eq!(receiver.poll_read(ChannelPoll::Pending, 4), None);
    assert!(receiver.needs_poll());
    assert_eq!(receiver.poll_read(ChannelPoll::Closed, 4), Some(Vec::new()));

    // a zero-sized buffer keeps the whole chunk in reserve
    let read = receiver.poll_read(ChannelPoll::Ready(vec![1, 2]), 0);
    assert_eq!(read, Some(Vec::new()));
    assert!(!receiver.needs_poll());
    assert_eq!(receiver.poll_read(ChannelPoll::Closed, 8), Some(vec![1, 2]));
}
