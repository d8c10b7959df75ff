use physics_grid::{Circle, CommandQueue, GridMessage};

fn circle(x: i64, y: i64) -> Circle {
    Circle { x_pos: x, y_pos: y, radius: 1000, velocity: (0, 0) }
}

#[test]
fn drain_returns_messages_in_fifo_order() {
    let mut q = CommandQueue::new(10);
    assert!(q.try_send(GridMessage::AddCircle(circle(1, 0))).is_ok());
    assert!(q.try_send(GridMessage::AddCircle(circle(2, 0))).is_ok());
    assert!(q.try_send(GridMessage::AddCircle(circle(3, 0))).is_ok());
    let backlog = q.drain();
    assert_eq!(backlog.len(), 3);
    for (k, message) in backlog.iter().enumerate() {
        match message {
            GridMessage::AddCircle(c) => assert_eq!(c.x_pos, k as i64 + 1),
            _ => panic!("unexpected message kind"),
        }
    }
    assert_eq!(q.len(), 0);
}

#[test]
fn full_queue_fails_fast_and_returns_the_message() {
    let mut q = CommandQueue::new(2);
    assert!(q.try_send(GridMessage::AddCircle(circle(1, 0))).is_ok());
    assert!(q.try_send(GridMessage::AddCircle(circle(2, 0))).is_ok());
    match q.try_send(GridMessage::AddCircle(circle(3, 0))) {
        Ok(()) => panic!("queue accepted a message beyond its capacity"),
        Err(GridMessage::AddCircle(c)) => assert_eq!(c.x_pos, 3),
        Err(_) => panic!("a different message came back"),
    }
    assert_eq!(q.len(), 2);
    assert_eq!(q.capacity(), 2);
    let backlog = q.drain();
    assert_eq!(backlog.len(), 2);
}

#[test]
fn drained_queue_accepts_again() {
    let mut q = CommandQueue::new(1);
    assert!(q.try_send(GridMessage::Resize(100, 100)).is_ok());
    assert!(q.try_send(GridMessage::Resize(200, 200)).is_err());
    let backlog = q.drain();
    assert_eq!(backlog.len(), 1);
    assert!(q.try_send(GridMessage::Resize(300, 300)).is_ok());
}
