use sim_kernel::register::RegisterFile;

#[test]
fn new_file_holds_the_initial_value_on_every_port() {
    let file: RegisterFile<u32> = RegisterFile::new(3, 5);
    assert_eq!(file.ports(), 3);
    assert_eq!(file.pending_writes(), 0);
    assert_eq!(file.read(0), 5);
    assert_eq!(file.read(1), 5);
    assert_eq!(file.read(2), 5);
}

#[test]
fn write_is_invisible_until_commit() {
    let mut file: RegisterFile<u32> = RegisterFile::new(1, 0);
    file.buffer_write(0, 150, 7);
    assert_eq!(file.read(0), 0);
    file.commit(100);
    assert_eq!(file.read(0), 0);
    assert_eq!(file.pending_writes(), 1);
    file.commit(149);
    assert_eq!(file.read(0), 0);
    file.commit(150);
    assert_eq!(file.read(0), 7);
    assert_eq!(file.pending_writes(), 0);
}

#[test]
fn commit_takes_the_due_write_with_the_largest_timestamp() {
    let mut file: RegisterFile<u32> = RegisterFile::new(1, 0);
    file.buffer_write(0, 250, 9);
    file.buffer_write(0, 50, 7);
    file.buffer_write(0, 150, 8);
    file.buffer_write(0, 350, 10);
    file.commit(300);
    assert_eq!(file.read(0), 9);
    assert_eq!(file.pending_writes(), 1);
    file.commit(350);
    assert_eq!(file.read(0), 10);
    assert_eq!(file.pending_writes(), 0);
}

#[test]
fn writes_with_one_timestamp_take_effect_in_buffer_order() {
    let mut file: RegisterFile<u32> = RegisterFile::new(1, 0);
    file.buffer_write(0, 50, 1);
    file.buffer_write(0, 50, 2);
    file.buffer_write(0, 50, 3);
    file.commit(50);
    assert_eq!(file.read(0), 3);
    assert_eq!(file.pending_writes(), 0);
}

#[test]
fn earlier_write_buffered_later_does_not_overrule_a_later_one() {
    let mut file: RegisterFile<u32> = RegisterFile::new(1, 0);
    file.buffer_write(0, 150, 2);
    file.buffer_write(0, 50, 1);
    file.commit(200);
    assert_eq!(file.read(0), 2);
}

#[test]
fn commit_without_due_write_keeps_the_committed_value() {
    let mut file: RegisterFile<u32> = RegisterFile::new(2, 4);
    file.buffer_write(1, 500, 6);
    file.commit(100);
    file.commit(100);
    assert_eq!(file.read(0), 4);
    assert_eq!(file.read(1), 4);
    assert_eq!(file.pending_writes(), 1);
}

#[test]
fn ports_commit_independently() {
    let mut file: RegisterFile<u32> = RegisterFile::new(3, 0);
    file.buffer_write(0, 50, 10);
    file.buffer_write(2, 50, 30);
    file.buffer_write(1, 150, 20);
    file.commit(50);
    assert_eq!(file.read(0), 10);
    assert_eq!(file.read(1), 0);
    assert_eq!(file.read(2), 30);
    file.commit(150);
    assert_eq!(file.read(0), 10);
    assert_eq!(file.read(1), 20);
    assert_eq!(file.read(2), 30);
}

#[test]
fn due_write_to_a_missing_port_is_forgotten() {
    let mut file: RegisterFile<u32> = RegisterFile::new(1, 1);
    file.buffer_write(4, 50, 9);
    assert_eq!(file.pending_writes(), 1);
    file.commit(50);
    assert_eq!(file.pending_writes(), 0);
    assert_eq!(file.read(0), 1);
}

#[test]
fn register_of_booleans() {
    let mut file: RegisterFile<bool> = RegisterFile::new(1, false);
    file.buffer_write(0, 50, true);
    assert!(!file.read(0));
    file.commit(50);
    assert!(file.read(0));
}
