use lc3_vm::input::InputQueue;
use lc3_vm::memory::{
    KEYBOARD_DATA_ADDRESS, KEYBOARD_STATUS_ADDRESS, KEYBOARD_READY, Memory,
};

#[test]
fn input_queue_poll_empty_is_none() {
    let mut queue = InputQueue::new();
    assert!(queue.is_empty());
    assert_eq!(queue.len(), 0);
    assert_eq!(queue.poll(), None);
}

#[test]
fn input_queue_is_first_in_first_out() {
    let mut queue = InputQueue::new();
    queue.push(1);
    queue.push(2);
    queue.push(3);
    assert_eq!(queue.len(), 3);
    assert_eq!(queue.poll(), Some(1));
    assert_eq!(queue.poll(), Some(2));
    assert_eq!(queue.poll(), Some(3));
    assert_eq!(queue.poll(), None);
}

#[test]
fn memory_starts_zeroed() {
    let memory = Memory::new();
    assert_eq!(memory.peek(0x0000), 0);
    assert_eq!(memory.peek(0x3000), 0);
    assert_eq!(memory.peek(0xFFFF), 0);
}

#[test]
fn memory_write_then_read() {
    let mut memory = Memory::new();
    let mut input = InputQueue::new();
    memory.write(0x3000, 0xABCD);
    assert_eq!(memory.read(0x3000, &mut input), 0xABCD);
    memory.write(0x3000, 0x0001);
    assert_eq!(memory.read(0x3000, &mut input), 0x0001);
}

#[test]
fn keyboard_status_read_without_input() {
    let mut memory = Memory::new();
    let mut input = InputQueue::new();
    memory.write(KEYBOARD_DATA_ADDRESS, 0x0042);
    assert_eq!(memory.read(KEYBOARD_STATUS_ADDRESS, &mut input), 0x0000);
    assert_eq!(memory.peek(KEYBOARD_STATUS_ADDRESS), 0x0000);
    // keyboard data is left unchanged by a poll that found nothing
    assert_eq!(memory.peek(KEYBOARD_DATA_ADDRESS), 0x0042);
}

#[test]
fn keyboard_status_read_with_pending_byte() {
    let mut memory = Memory::new();
    let mut input = InputQueue::new();
    input.push(b'a');
    assert_eq!(
        memory.read(KEYBOARD_STATUS_ADDRESS, &mut input),
        KEYBOARD_READY
    );
    assert_eq!(memory.peek(KEYBOARD_STATUS_ADDRESS), 0x8000);
    assert_eq!(memory.peek(KEYBOARD_DATA_ADDRESS), b'a' as u16);
    assert!(input.is_empty());
}

#[test]
fn keyboard_poll_consumes_one_byte_per_read() {
    let mut memory = Memory::new();
    let mut input = InputQueue::new();
    input.push(1);
    input.push(2);
    assert_eq!(
        memory.read(KEYBOARD_STATUS_ADDRESS, &mut input),
        KEYBOARD_READY
    );
    assert_eq!(memory.peek(KEYBOARD_DATA_ADDRESS), 1);
    assert_eq!(
        memory.read(KEYBOARD_STATUS_ADDRESS, &mut input),
        KEYBOARD_READY
    );
    assert_eq!(memory.peek(KEYBOARD_DATA_ADDRESS), 2);
    assert_eq!(memory.read(KEYBOARD_STATUS_ADDRESS, &mut input), 0x0000);
    // the last byte delivered stays at keyboard data
    assert_eq!(memory.peek(KEYBOARD_DATA_ADDRESS), 2);
}

#[test]
fn ordinary_reads_do_not_poll() {
    let mut memory = Memory::new();
    let mut input = InputQueue::new();
    input.push(7);
    assert_eq!(memory.read(0x3000, &mut input), 0);
    assert_eq!(input.len(), 1);
    assert_eq!(memory.peek(KEYBOARD_STATUS_ADDRESS), 0);
}
