use azimuth::engine::stack::{Stack, StackFrame};

#[test]
fn stack_init_works() {
    let stack: Stack = Stack::new(1024);
    assert_eq!(stack.capacity(), 1024);
}

#[test]
fn new_stack_frame_correct_info() {
    let mut stack: Stack = Stack::new(1024);
    let frame = stack.initial_frame(4, 4).unwrap();

    assert_eq!(frame.locals_base, 0);
    assert_eq!(frame.stack_base, 4);
    assert_eq!(frame.stack_pointer, 0);
}

#[test]
fn stack_frame_nesting() {
    let mut stack: Stack = Stack::new(1024);
    let mut frame1 = stack.initial_frame(4, 4).unwrap();
    assert!(frame1.with_next_frame(4, 4, |f| {
        assert_eq!(f.locals_base, 8);
        assert_eq!(f.stack_base, 12);
        assert_eq!(f.stack_pointer, 0);
    }));
}

#[test]
fn stack_overflow_detected() {
    let mut stack: Stack = Stack::new(1024);
    let frame1 = stack.initial_frame(513, 513);

    assert!(frame1.is_none());
    let mut frame2 = stack.initial_frame(512, 512).unwrap();

    assert!(!frame2.with_next_frame(20, 20, |_| {}));
}

#[test]
fn stack_frame_singles() {
    let mut stack = Stack::new(1024);
    let mut frame = stack.initial_frame(4, 4).unwrap();

    frame.push(10);
    frame.push(20);

    assert_eq!(frame.pop().unwrap(), 20);
    assert_eq!(frame.pop().unwrap(), 10);
    assert!(frame.pop().is_none());
}

#[test]
fn stack_frame_doubles() {
    let mut stack = Stack::new(1024);
    let mut frame = stack.initial_frame(4, 4).unwrap();

    frame.push(1 << 33);

    assert_eq!(frame.pop().unwrap(), 1 << 33);
    assert!(frame.pop().is_none());
}

#[test]
fn stack_frame_locals() {
    let mut stack = Stack::new(1024);
    let mut frame = stack.initial_frame(4, 4).unwrap();

    frame.set_local(0, 10);
    frame.set_local(1, 1 << 33);

    assert_eq!(frame.get_local(0), Some(10));
    assert_eq!(frame.get_local(1), Some(1 << 33));
}

#[test]
fn push_on_full_stack_fails_and_keeps_contents() {
    let mut stack = Stack::new(8);
    let mut frame = stack.initial_frame(1, 2).unwrap();
    assert!(frame.push(7));
    assert!(frame.push(8));
    assert!(!frame.push(9));
    assert_eq!(frame.stack_pointer(), 2);
    assert_eq!(frame.peek(), Some(&8));
    assert_eq!(frame.pop(), Some(8));
    assert_eq!(frame.pop(), Some(7));
}

#[test]
fn pop_on_empty_stack_keeps_stack_pointer() {
    let mut stack = Stack::new(8);
    let mut frame = stack.initial_frame(0, 2).unwrap();
    assert_eq!(frame.pop(), None);
    assert_eq!(frame.peek(), None);
    assert_eq!(frame.stack_pointer(), 0);
    assert!(frame.push(1));
    assert_eq!(frame.stack_pointer(), 1);
}

#[test]
fn locals_are_bounded_by_the_operand_base() {
    let mut stack = Stack::new(8);
    let mut frame = stack.initial_frame(2, 2).unwrap();
    assert_eq!(frame.set_local(1, 5), Some(0));
    assert_eq!(frame.set_local(1, 6), Some(5));
    assert_eq!(frame.set_local(2, 9), None);
    assert_eq!(frame.get_local(2), None);
    assert_eq!(frame.get_local(usize::MAX), None);
    assert!(frame.push(3));
    assert_eq!(frame.get_local(1), Some(6));
}

#[test]
fn child_writes_leave_the_parent_window() {
    let mut stack = Stack::new(16);
    let mut parent = stack.initial_frame(2, 2).unwrap();
    parent.set_local(0, 11);
    parent.set_local(1, 12);
    parent.push(21);
    parent.push(22);
    let created = parent.with_next_frame(2, 2, |child| {
        assert_eq!(child.size(), 2);
        assert_eq!(child.set_local(0, 100), Some(0));
        assert_eq!(child.set_local(1, 101), Some(0));
        assert!(child.push(102));
        assert!(child.push(103));
        assert!(!child.push(104));
    });
    assert!(created);
    assert_eq!(parent.locals_base(), 0);
    assert_eq!(parent.stack_base(), 2);
    assert_eq!(parent.size(), 2);
    assert_eq!(parent.stack_pointer(), 2);
    assert_eq!(parent.get_local(0), Some(11));
    assert_eq!(parent.get_local(1), Some(12));
    assert_eq!(parent.pop(), Some(22));
    assert_eq!(parent.pop(), Some(21));
}

#[test]
fn initial_frame_takes_exactly_the_capacity() {
    let mut stack = Stack::new(8);
    assert!(stack.initial_frame(4, 5).is_none());
    assert!(stack.initial_frame(usize::MAX, 1).is_none());
    let mut frame = stack.initial_frame(4, 4).unwrap();
    assert!(!frame.with_next_frame(0, 1, |_| {}));
    assert!(frame.with_next_frame(0, 0, |_| {}));
}

#[test]
fn frame_over_a_given_window() {
    let mut stack = Stack::new(8);
    let mut frame = StackFrame::new(&mut stack, 2, 4, 3);
    assert_eq!(frame.locals_base(), 2);
    assert_eq!(frame.stack_base(), 4);
    assert_eq!(frame.size(), 3);
    assert_eq!(frame.stack_pointer(), 0);
    assert_eq!(frame.get_local(1), Some(0));
    assert_eq!(frame.get_local(2), None);
    assert!(frame.push(1));
}

#[test]
fn the_stack_holds_what_its_frames_left() {
    let mut stack = Stack::new(8);
    {
        let mut frame = stack.initial_frame(2, 2).unwrap();
        frame.set_local(0, 11);
        frame.set_local(1, 12);
        frame.push(21);
        frame.with_next_frame(1, 1, |child| {
            child.set_local(0, 31);
            child.push(41);
        });
    }
    let mut again = stack.initial_frame(8, 0).unwrap();
    let held: Vec<u64> = (0..8).map(|i| again.get_local(i).unwrap()).collect();
    assert_eq!(held, vec![11, 12, 21, 0, 31, 41, 0, 0]);
    assert_eq!(again.set_local(7, 1), Some(0));
}
