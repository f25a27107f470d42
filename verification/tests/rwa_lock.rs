use binvec::config::{get_config, ONE_GB};
use binvec::error::CustomErrors;
use binvec::store::page::rwa_lock::{RWABuffer, RWAInner};

fn buffer() -> RWABuffer {
    RWABuffer::new(vec![1u8, 2, 3, 0, 0, 0, 0, 0].into_boxed_slice(), 3)
}

#[test]
fn the_committed_part_and_the_rest_are_apart() {
    let mut inner = RWAInner::new(vec![1u8, 2, 3, 4, 5].into_boxed_slice(), 2);
    assert_eq!(inner.active_data(), &[1, 2]);
    assert_eq!(inner.in_use(), 2);
    assert_eq!(inner.capacity(), 5);
    inner.active_data_mut()[0] = 9;
    assert_eq!(inner.active_data(), &[9, 2]);
    {
        let (reserve, in_use) = inner.reserve_data_mut();
        assert_eq!(reserve, &[3, 4, 5]);
        assert_eq!(*in_use, 2);
        reserve[0] = 7;
        *in_use += 1;
    }
    assert_eq!(inner.active_data(), &[9, 2, 7]);
    inner.commit(2);
    assert_eq!(inner.active_data(), &[9, 2, 7, 4, 5]);
    assert_eq!(inner.in_use(), 5);
}

#[test]
fn nothing_or_everything_may_be_committed() {
    let empty = RWAInner::new(vec![0u8; 4].into_boxed_slice(), 0);
    assert_eq!(empty.active_data().len(), 0);
    let mut full = RWAInner::new(vec![5u8; 4].into_boxed_slice(), 4);
    assert_eq!(full.active_data(), &[5, 5, 5, 5]);
    assert_eq!(full.reserve_data_mut().0.len(), 0);
}

#[test]
fn the_pool_has_as_many_permits_as_a_semaphore_holds() {
    let shared = buffer();
    let most = tokio::sync::Semaphore::MAX_PERMITS;
    let expected = if most > u32::MAX as usize { u32::MAX } else { most as u32 };
    assert_eq!(shared.num_permits(), expected);
    assert_eq!(shared.num_permits(), tokio::sync::Semaphore::MAX_PERMITS as u32);
    assert_eq!(tokio::sync::Semaphore::MAX_PERMITS, usize::MAX >> 3);
}

#[test]
fn readers_do_not_wait_for_one_another() {
    let mut shared = buffer();
    let mut guards = Vec::new();
    for _ in 0..1000 {
        guards.push(shared.read().unwrap().expect("a reader waits for readers"));
    }
    assert_eq!(shared.read_data(&guards[0]), &[1, 2, 3]);
    assert_eq!(shared.read_data(&guards[999]), &[1, 2, 3]);
    for guard in guards {
        shared.release_read(guard);
    }
    assert!(shared.write().unwrap().is_some());
}

#[test]
fn the_writer_waits_for_readers_and_readers_for_the_writer() {
    let mut shared = buffer();
    let first = shared.read().unwrap().unwrap();
    let second = shared.read().unwrap().unwrap();
    assert!(shared.write().unwrap().is_none());
    shared.release_read(first);
    assert!(shared.write().unwrap().is_none());
    shared.release_read(second);
    let writer = shared.write().unwrap().expect("nothing is held");
    assert!(shared.read().unwrap().is_none());
    assert!(shared.write().unwrap().is_none());
    assert!(shared.append().unwrap().is_none());
    shared.write_data(&writer)[1] = 20;
    shared.release_write(writer);
    let reader = shared.read().unwrap().unwrap();
    assert_eq!(shared.read_data(&reader), &[1, 20, 3]);
}

#[test]
fn the_appender_and_readers_do_not_wait_for_one_another() {
    let mut shared = buffer();
    let reader = shared.read().unwrap().unwrap();
    let mut appender = shared.append().unwrap().expect("an appender waits for a reader");
    let late = shared.read().unwrap().expect("a reader waits for the appender");
    assert!(shared.append().unwrap().is_none());
    assert!(shared.write().unwrap().is_none());
    {
        let reserve = shared.append_data(&appender);
        assert_eq!(reserve.len(), 5);
        reserve[0] = 4;
        reserve[1] = 5;
    }
    assert!(appender.report(2));
    assert_eq!(shared.read_data(&reader), &[1, 2, 3]);
    assert_eq!(shared.in_use(), 3);
    shared.release_append(appender);
    assert_eq!(shared.in_use(), 5);
    assert_eq!(shared.read_data(&late), &[1, 2, 3, 4, 5]);
    shared.release_read(reader);
    shared.release_read(late);
    assert!(shared.append().unwrap().is_some());
}

#[test]
fn the_writer_waits_for_the_appender() {
    let mut shared = buffer();
    let appender = shared.append().unwrap().unwrap();
    assert!(shared.write().unwrap().is_none());
    shared.release_append(appender);
    assert_eq!(shared.in_use(), 3);
    assert!(shared.write().unwrap().is_some());
}

#[test]
fn a_report_that_cannot_be_counted_is_refused() {
    let mut shared = buffer();
    let mut appender = shared.append().unwrap().unwrap();
    assert!(appender.report(1));
    assert!(!appender.report(usize::MAX));
    assert!(appender.report(1));
    shared.release_append(appender);
    assert_eq!(shared.in_use(), 5);
}

#[test]
fn a_pool_that_was_shut_down_grants_nothing() {
    let mut shared = buffer();
    let reader = shared.read().unwrap().unwrap();
    shared.close();
    match shared.read() {
        Err(CustomErrors::InvalidState(text)) => assert_eq!(text, "semaphore closed"),
        _ => panic!("the pool was shut down"),
    }
    assert!(matches!(shared.write(), Err(CustomErrors::InvalidState(_))));
    assert_eq!(shared.read_data(&reader), &[1, 2, 3]);
    shared.release_read(reader);
    assert!(shared.append().unwrap().is_some());
}

#[test]
fn the_settings_are_a_gigabyte_of_cache_under_tmp() {
    let config = get_config();
    assert_eq!(config.page_cache_size, 1_000_000_000);
    assert_eq!(config.page_cache_size, ONE_GB);
    assert_eq!(config.data_directory, "/tmp");
}
