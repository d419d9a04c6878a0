use meowmic::backlog::BgmBacklog;

#[test]
fn blocks_come_out_in_order() {
    let mut b: BgmBacklog<i32> = BgmBacklog::new();
    b.extend(&[1, 2, 3, 4, 5, 6]);
    assert_eq!(b.take_block(4), Some(vec![1, 2, 3, 4]));
    assert_eq!(b.unread_len(), 2);
    assert_eq!(b.take_block(4), None);
    assert_eq!(b.unread_len(), 2);
    b.extend(&[7, 8]);
    assert_eq!(b.take_block(4), Some(vec![5, 6, 7, 8]));
    assert_eq!(b.buffered_len(), 0);
}

#[test]
fn empty_backlog_gives_nothing() {
    let mut b: BgmBacklog<i32> = BgmBacklog::new();
    assert_eq!(b.take_block(0), None);
    assert_eq!(b.take_available(3), Vec::<i32>::new());
}

#[test]
fn compaction_keeps_unread_samples() {
    let mut b: BgmBacklog<i32> = BgmBacklog::new();
    b.extend(&[1, 2, 3, 4, 5, 6]);
    b.take_block(4);
    assert_eq!(b.buffered_len(), 6);
    b.compact();
    assert_eq!(b.buffered_len(), 2);
    assert_eq!(b.take_available(10), vec![5, 6]);
}

#[test]
fn compaction_waits_for_half_the_buffer() {
    let mut b: BgmBacklog<i32> = BgmBacklog::new();
    b.extend(&[1, 2, 3, 4, 5, 6]);
    b.take_block(3);
    b.compact();
    assert_eq!(b.buffered_len(), 6);
    assert_eq!(b.unread_len(), 3);
}

#[test]
fn cap_drops_the_oldest_samples() {
    let mut b: BgmBacklog<i32> = BgmBacklog::new();
    b.extend(&[1, 2, 3, 4, 5, 6, 7, 8, 9, 10]);
    b.cap(4);
    assert_eq!(b.buffered_len(), 4);
    assert_eq!(b.take_available(10), vec![7, 8, 9, 10]);
}

#[test]
fn cap_drops_consumed_samples_first() {
    let mut b: BgmBacklog<i32> = BgmBacklog::new();
    b.extend(&[1, 2, 3, 4, 5, 6]);
    b.take_block(2);
    b.cap(5);
    assert_eq!(b.buffered_len(), 5);
    assert_eq!(b.unread_len(), 4);
    assert_eq!(b.take_available(10), vec![3, 4, 5, 6]);
}

#[test]
fn take_available_takes_what_is_there() {
    let mut b: BgmBacklog<i16> = BgmBacklog::new();
    b.extend(&[1, 2, 3]);
    assert_eq!(b.take_available(2), vec![1, 2]);
    assert_eq!(b.take_available(5), vec![3]);
    assert_eq!(b.buffered_len(), 0);
}

#[test]
fn a_frame_turn_caps_then_takes() {
    let mut b: BgmBacklog<i32> = BgmBacklog::new();
    let incoming: Vec<i32> = (0..30).collect();
    let block = b.frame_take_block(true, &incoming, 20, 4);
    assert_eq!(block, Some(vec![10, 11, 12, 13]));
    assert!(b.buffered_len() <= 20);
    assert_eq!(b.unread_len(), 16);
    let rest = b.frame_take_available(true, &[100, 101], 20, 40);
    assert_eq!(rest.len(), 18);
    assert_eq!(rest[0], 14);
    assert_eq!(rest[17], 101);
    assert_eq!(b.buffered_len(), 0);
    assert_eq!(b.frame_take_block(true, &[], 20, 4), None);
}

#[test]
fn nothing_moves_while_music_is_off() {
    let mut b: BgmBacklog<i32> = BgmBacklog::new();
    b.extend(&[1, 2, 3, 4]);
    assert_eq!(b.frame_take_block(false, &[5, 6], 20, 2), None);
    assert_eq!(b.frame_take_available(false, &[5, 6], 20, 2), Vec::<i32>::new());
    assert_eq!(b.buffered_len(), 4);
    assert_eq!(b.unread_len(), 4);
}
