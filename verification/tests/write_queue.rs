use jterm3::write_queue::{
    push_queue_copy, queue_accepts_entry, PtyWriteChunk, MAX_PTY_QUEUE_ENTRIES,
    PTY_QUEUE_COALESCE_BYTES,
};

#[test]
fn tiny_pty_writes_are_coalesced_and_entry_bounded() {
    let mut queue = std::collections::VecDeque::new();
    for _ in 0..1000 {
        push_queue_copy(&mut queue, b"x", false);
    }
    assert_eq!(queue.len(), 1);
    assert_eq!(queue[0].data.len(), 1000);

    push_queue_copy(&mut queue, b"response", true);
    push_queue_copy(&mut queue, b"later-input", false);
    assert_eq!(queue.len(), 3, "different classes must preserve FIFO order");
    assert!(!queue[0].response);
    assert!(queue[1].response);
    assert!(!queue[2].response);

    queue.resize_with(MAX_PTY_QUEUE_ENTRIES, || PtyWriteChunk {
        data: Vec::new(),
        response: false,
    });
    queue.back_mut().expect("queue is populated").data = vec![0; PTY_QUEUE_COALESCE_BYTES];
    assert!(!queue_accepts_entry(&queue, 1, false));
}
