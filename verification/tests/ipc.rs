use kernelcore::ring_buffer::RingBuffer;
use kernelcore::mail::Mails;
use kernelcore::pipe::Pipe;

#[test]
fn ring_read_write_conservation() {
    let mut rb = RingBuffer::new(4);
    assert_eq!(rb.available_read(), 0);
    assert_eq!(rb.available_write(), 4);
    rb.write_byte(1);
    rb.write_byte(2);
    rb.write_byte(3);
    assert_eq!(rb.available_read() + rb.available_write(), 4);
    rb.write_byte(4);
    assert_eq!(rb.available_read(), 4);
    assert_eq!(rb.available_write(), 0);
}

#[test]
fn ring_fifo_order_across_wrap() {
    let mut rb = RingBuffer::new(4);
    rb.write_byte(10);
    rb.write_byte(11);
    rb.write_byte(12);
    assert_eq!(rb.read_byte(), 10);
    assert_eq!(rb.read_byte(), 11);
    rb.write_byte(13);
    rb.write_byte(14);
    rb.write_byte(15);
    assert_eq!(rb.read_byte(), 12);
    assert_eq!(rb.read_byte(), 13);
    assert_eq!(rb.read_byte(), 14);
    assert_eq!(rb.read_byte(), 15);
    assert_eq!(rb.available_read(), 0);
}

#[test]
fn mailbox_probe_never_moves_cursors() {
    let mut mails = Mails::new();
    let mut probe: Vec<u8> = Vec::new();
    // Empty mailbox: probe reports nothing available.
    assert_eq!(mails.read(&mut probe), 0);
    assert_eq!(mails.prev_read_mail_idx, 0);
    // A write makes the write probe report "full" for the used slot chain
    // only after sixteen messages; right now the next slot is free.
    assert_eq!(mails.write(&probe), 1);
    assert_eq!(mails.prev_write_mail_idx, 0);
    let msg = vec![1u8, 2, 3, 4];
    assert_eq!(mails.write(&msg), 4);
    assert_eq!(mails.prev_write_mail_idx, 1);
    // Read probe now reports a waiting message without consuming it.
    assert_eq!(mails.read(&mut probe), 1);
    assert_eq!(mails.prev_read_mail_idx, 0);
    let mut buf = vec![0u8; 16];
    assert_eq!(mails.read(&mut buf), 4);
    assert_eq!(&buf[..4], &[1, 2, 3, 4]);
}

#[test]
fn mailbox_short_buffer_consumes_whole_slot() {
    let mut mails = Mails::new();
    let msg = vec![9u8, 8, 7, 6, 5, 4];
    assert_eq!(mails.write(&msg), 6);
    let mut buf = vec![0u8; 2];
    assert_eq!(mails.read(&mut buf), 2);
    assert_eq!(&buf[..], &[9, 8]);
    // The rest of the message was discarded with the slot.
    let mut buf2 = vec![0u8; 16];
    assert_eq!(mails.read(&mut buf2), 0);
}

#[test]
fn mailbox_two_messages_in_order() {
    let mut mails = Mails::new();
    assert_eq!(mails.write(&b"msg1".to_vec()), 4);
    assert_eq!(mails.write(&b"msg2".to_vec()), 4);
    let mut buf = vec![0u8; 3];
    assert_eq!(mails.read(&mut buf), 3);
    assert_eq!(&buf[..], b"msg");
    let mut buf2 = vec![0u8; 16];
    assert_eq!(mails.read(&mut buf2), 4);
    assert_eq!(&buf2[..4], b"msg2");
    let mut probe: Vec<u8> = Vec::new();
    assert_eq!(mails.read(&mut probe), 0);
}

#[test]
fn mailbox_sixteen_slots_then_full() {
    let mut mails = Mails::new();
    let msg = vec![1u8, 2, 3, 4];
    for _ in 0..16 {
        assert_eq!(mails.write(&msg), 4);
    }
    // Seventeenth write finds its slot still holding an unread message.
    assert_eq!(mails.write(&msg), 0);
}

#[test]
fn mailbox_write_advances_to_next_empty_slot() {
    let mut mails = Mails::new();
    assert_eq!(mails.write(&vec![1u8]), 1);
    assert_eq!(mails.prev_write_mail_idx, 1);
    assert_eq!(mails.write(&vec![2u8]), 1);
    assert_eq!(mails.prev_write_mail_idx, 2);
    let mut buf = vec![0u8; 4];
    assert_eq!(mails.read(&mut buf), 1);
    assert_eq!(mails.prev_read_mail_idx, 1);
    assert_eq!(buf[0], 1);
    assert_eq!(mails.read(&mut buf), 1);
    assert_eq!(mails.prev_read_mail_idx, 2);
    assert_eq!(buf[0], 2);
}

#[test]
fn pipe_partial_reads_then_empty() {
    let mut pipe = Pipe::new();
    assert_eq!(pipe.write(&b"hello".to_vec()), 5);
    let mut buf = vec![0u8; 3];
    assert_eq!(pipe.read(&mut buf), 3);
    assert_eq!(&buf[..], b"hel");
    let mut buf2 = vec![0u8; 3];
    assert_eq!(pipe.read(&mut buf2), 2);
    assert_eq!(&buf2[..2], b"lo");
    // Write end still open: an empty pipe asks the reader to wait.
    assert!(pipe.read_would_block());
    pipe.close_write();
    assert!(!pipe.read_would_block());
    let mut buf3 = vec![0u8; 3];
    assert_eq!(pipe.read(&mut buf3), 0);
}

#[test]
fn pipe_capacity_and_blocking_write() {
    let mut pipe = Pipe::new();
    let big = vec![7u8; 40];
    // Only the ring's capacity fits.
    assert_eq!(pipe.write(&big), 32);
    assert!(pipe.write_would_block());
    let mut buf = vec![0u8; 32];
    assert_eq!(pipe.read(&mut buf), 32);
    for b in buf.iter() {
        assert_eq!(*b, 7);
    }
}
