use gj::handle_table::Handle;
use gj::io::{check_read, read_start, read_step, short_read_check, timed_out, write_start, write_step, CallOutcome,
             Error, FdObserver, Observers, Slice, Step, Stream, Timer};
use gj::{EventLoop, EventPort, Promise};

/// An event port with no events, which fails every wait with `message`.
struct Closed(&'static str);

impl EventPort<std::io::Error> for Closed {
    fn wait(&mut self) -> Result<(), std::io::Error> {
        Err(std::io::Error::new(std::io::ErrorKind::Other, self.0))
    }
}

#[test]
fn read_step_accumulates_until_min_bytes() {
    assert_eq!(read_step(0, 10, 16, CallOutcome::Bytes(4)), Step::Call(4));
    assert_eq!(read_step(4, 10, 16, CallOutcome::Bytes(6)), Step::Finished(10));
    assert_eq!(read_step(4, 10, 16, CallOutcome::Bytes(9)), Step::Finished(13));
}

#[test]
fn read_step_stops_at_end_of_file_with_what_it_has() {
    assert_eq!(read_step(3, 10, 16, CallOutcome::Bytes(0)), Step::Finished(3));
}

#[test]
fn read_step_retries_waits_or_fails() {
    assert_eq!(read_step(3, 10, 16, CallOutcome::Interrupted), Step::Fail);
    assert_eq!(read_step(3, 10, 16, CallOutcome::WouldBlock), Step::Await(3));
    assert_eq!(read_step(3, 10, 16, CallOutcome::Failed), Step::Fail);
}

#[test]
fn read_and_write_start() {
    assert_eq!(read_start(0), Step::Finished(0));
    assert_eq!(read_start(1), Step::Call(0));
    assert_eq!(write_start(0), Step::Finished(0));
    assert_eq!(write_start(7), Step::Call(0));
}

#[test]
fn write_step_goes_until_everything_is_written() {
    assert_eq!(write_step(0, 5, CallOutcome::Bytes(2)), Step::Call(2));
    assert_eq!(write_step(2, 5, CallOutcome::Bytes(3)), Step::Finished(5));
    assert_eq!(write_step(2, 5, CallOutcome::Interrupted), Step::Fail);
    assert_eq!(write_step(2, 5, CallOutcome::WouldBlock), Step::Await(2));
    assert_eq!(write_step(2, 5, CallOutcome::Failed), Step::Fail);
}

#[test]
fn check_read_reports_premature_eof() {
    match check_read("state", 3, 5) {
        Err(e) => {
            assert_eq!(e.state, "state");
            assert_eq!(e.error.to_string(), "Premature EOF");
        }
        Ok(_) => panic!("a short read must fail"),
    }
    match check_read("state", 5, 5) {
        Ok((s, n)) => {
            assert_eq!(s, "state");
            assert_eq!(n, 5);
        }
        Err(_) => panic!("a full read must succeed"),
    }
}

#[test]
fn short_read_check_keeps_the_buffer() {
    match short_read_check((1u8, vec![9u8, 8], 1usize), 2) {
        Err(e) => assert_eq!(e.state, (1u8, vec![9u8, 8])),
        Ok(_) => panic!("a short read must fail"),
    }
    match short_read_check((1u8, vec![9u8, 8], 2usize), 2) {
        Ok(r) => assert_eq!(r, (1u8, vec![9u8, 8], 2usize)),
        Err(_) => panic!("a full read must succeed"),
    }
}

#[test]
fn error_and_slice_keep_their_parts() {
    let e = Error::new(7u32, std::io::Error::new(std::io::ErrorKind::Other, "boom"));
    assert_eq!(e.state, 7);
    assert_eq!(e.error.to_string(), "boom");
    let s = Slice::new(vec![1u8, 2, 3], 2);
    assert_eq!(s.buf, vec![1u8, 2, 3]);
    assert_eq!(s.end, 2);
}

#[test]
fn fd_observer_wakes_the_reader_on_input() {
    EventLoop::top_level(|wait_scope| {
        let mut observer = FdObserver::new();
        let readable = observer.when_becomes_readable();
        observer.notify(true, false, false, false);
        assert!(readable.wait(wait_scope, &mut Closed("closed")).is_ok());
    });
}

#[test]
fn fd_observer_leaves_the_writer_waiting_on_input() {
    EventLoop::top_level(|wait_scope| {
        let mut observer = FdObserver::new();
        let writable = observer.when_becomes_writable();
        observer.notify(true, false, false, false);
        let r = writable.wait(wait_scope, &mut Closed("still waiting"));
        assert_eq!(r.unwrap_err().to_string(), "still waiting");
    });
}

#[test]
fn fd_observer_wakes_both_on_hangup() {
    EventLoop::top_level(|wait_scope| {
        let mut observer = FdObserver::new();
        let readable = observer.when_becomes_readable();
        let writable = observer.when_becomes_writable();
        observer.notify(false, false, true, false);
        let mut port = Closed("closed");
        assert!(readable.wait(wait_scope, &mut port).is_ok());
        assert!(writable.wait(wait_scope, &mut port).is_ok());
    });
}

#[test]
fn dropped_observer_rejects_its_waiter() {
    EventLoop::top_level(|wait_scope| {
        let mut observer = FdObserver::new();
        let readable = observer.when_becomes_readable();
        drop(observer);
        let r = readable.wait(wait_scope, &mut Closed("closed"));
        assert_eq!(r.unwrap_err().to_string(), "Promise fulfiller was dropped.");
    });
}

#[test]
fn observers_reuse_removed_handles_and_dispatch_by_handle() {
    EventLoop::top_level(|wait_scope| {
        let mut observers = Observers::new();
        let a = observers.add();
        let b = observers.add();
        assert_eq!(a, Handle { val: 0 });
        assert_eq!(b, Handle { val: 1 });
        observers.remove(a);
        let c = observers.add();
        assert_eq!(c, Handle { val: 0 });

        let readable = observers.when_readable(b);
        observers.dispatch(Handle { val: 5 }, true, true, true, true);
        observers.dispatch(b, false, false, false, true);
        assert!(readable.wait(wait_scope, &mut Closed("closed")).is_ok());
    });
}

#[test]
fn timer_lets_a_prompt_promise_through() {
    EventLoop::top_level(|wait_scope| {
        let event_loop = wait_scope.event_loop();
        let promise: Promise<u32, std::io::Error> = Promise::ok(5);
        let timed = Timer.timeout_after_ms(&event_loop, Promise::never_done(), promise);
        let r = timed.wait(wait_scope, &mut Closed("closed"));
        assert_eq!(r.unwrap(), 5);
    });
}

#[test]
fn timer_times_out_a_slow_promise() {
    EventLoop::top_level(|wait_scope| {
        let event_loop = wait_scope.event_loop();
        let promise: Promise<u32, std::io::Error> = Promise::never_done();
        let timed = Timer.timeout_after_ms(&event_loop, Promise::ok(()), promise);
        let r = timed.wait(wait_scope, &mut Closed("closed"));
        assert_eq!(r.unwrap_err().to_string(), "operation timed out");
    });
}

#[test]
fn timed_out_is_an_error() {
    let r: Result<u8, std::io::Error> = timed_out(());
    assert_eq!(r.unwrap_err().to_string(), "operation timed out");
}

#[test]
fn stream_split_shares_the_stream() {
    let mut stream = Stream::new(vec![1u8], Handle { val: 3 });
    assert_eq!(stream.handle(), Handle { val: 3 });
    stream.stream_mut().push(2);
    assert_eq!(stream.stream(), &vec![1u8, 2]);
    let (reader, writer) = stream.split();
    assert_eq!(reader.handle(), Handle { val: 3 });
    assert_eq!(writer.handle(), Handle { val: 3 });
    let inner = reader.take_stream().unwrap();
    assert!(writer.take_stream().is_none());
    reader.put_stream(inner);
    assert_eq!(writer.take_stream(), Some(vec![1u8, 2]));
}

#[test]
fn unix_address_keeps_a_valid_path() {
    let a = gj::io::unix_address(b"/tmp/gj.sock").unwrap();
    assert_eq!(a.path_bytes(), b"/tmp/gj.sock");
    let longest = vec![b'a'; gj::io::SUN_PATH_LEN - 1];
    assert_eq!(gj::io::unix_address(&longest).unwrap().path_bytes(), &longest[..]);
}

#[test]
fn unix_address_refuses_nul_and_overlong_paths() {
    assert!(gj::io::unix_address(b"/tmp/a\0b").is_err());
    let too_long = vec![b'a'; gj::io::SUN_PATH_LEN];
    assert!(gj::io::unix_address(&too_long).is_err());
}

#[test]
fn check_reads_turns_a_short_read_into_an_error() {
    EventLoop::top_level(|wait_scope| {
        let short: Promise<(u8, Vec<u8>, usize), Error<(u8, Vec<u8>)>> = Promise::ok((7, vec![1, 2], 2));
        let r = gj::io::check_reads(short, 3)
            .map_else(|r| match r {
                Ok((_, _, n)) => Ok(n),
                Err(e) => Err(e.state),
            })
            .map_err(|_state: (u8, Vec<u8>)| ())
            .wait(wait_scope, &mut gj::ClosedEventPort(()));
        assert_eq!(r, Err(()));
        let enough: Promise<(u8, Vec<u8>, usize), Error<(u8, Vec<u8>)>> = Promise::ok((7, vec![1, 2, 3], 3));
        let r = gj::io::check_reads(enough, 3)
            .map_else(|r| match r {
                Ok((s, _, n)) => Ok((s, n)),
                Err(_) => Err(()),
            })
            .wait(wait_scope, &mut gj::ClosedEventPort(()));
        assert_eq!(r, Ok((7, 3)));
    });
}
