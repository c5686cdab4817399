use mapserver_rs::mapfile::{make_mapfile_str, MAPFILE_HEAD, MAPFILE_TAIL};
use mapserver_rs::mappool::{Acquired, MapPool, PoolError, MAP_IDLE_TIMEOUT_SECONDS};
use mapserver_rs::worker::{arrival_event, render_result, worker_step};
use mapserver_rs::worker::{WorkerAction, WorkerEvent, WorkerState};
use mapserver_rs::channel::Arrival;
use mapserver_rs::Extent;
use threadpool::ThreadPool;

fn key(s: &str) -> String {
    s.to_string()
}

/// The slot a request was answered with, and whether a worker is to be started.
fn slot_and_fresh(res: Result<Acquired, PoolError>) -> Result<(usize, bool), PoolError> {
    match res {
        Ok(Acquired::Existing(channel)) => Ok((channel.slot(), false)),
        Ok(Acquired::Created(channel, worker)) => {
            assert_eq!(channel.slot(), worker.slot());
            Ok((channel.slot(), true))
        }
        Err(e) => Err(e),
    }
}

#[test]
fn first_request_enters_the_key() {
    let (mut pool, _reaper) = MapPool::create(20);
    assert_eq!(pool.capacity(), 20);
    assert!(pool.is_empty());
    match pool.acquire_or_create(key("MAP END")) {
        Ok(Acquired::Created(channel, worker)) => {
            assert_eq!(channel.slot(), 0);
            assert_eq!(worker.slot(), 0);
            assert_eq!(worker.key(), "MAP END");
        }
        other => panic!("{:?}", other),
    }
    assert!(pool.contains(&key("MAP END")));
    assert!(!pool.contains(&key("MAP")));
    assert!(!pool.is_empty());
}

#[test]
fn second_request_finds_the_same_channel() {
    let (mut pool, _reaper) = MapPool::create(4);
    let mut started = 0;
    for k in ["a", "b", "a", "a", "b"].iter() {
        if let Ok((_, true)) = slot_and_fresh(pool.acquire_or_create(key(k))) {
            started += 1;
        }
    }
    assert_eq!(started, 2);
    assert_eq!(slot_and_fresh(pool.acquire_or_create(key("a"))), Ok((0, false)));
    assert_eq!(slot_and_fresh(pool.acquire_or_create(key("b"))), Ok((1, false)));
    assert_eq!(slot_and_fresh(pool.acquire_or_create(key("c"))), Ok((2, true)));
}

#[test]
fn more_keys_than_slots_exhaust_the_pool() {
    let (mut pool, _reaper) = MapPool::create(2);
    assert_eq!(slot_and_fresh(pool.acquire_or_create(key("a"))), Ok((0, true)));
    assert_eq!(slot_and_fresh(pool.acquire_or_create(key("b"))), Ok((1, true)));
    assert_eq!(
        slot_and_fresh(pool.acquire_or_create(key("c"))),
        Err(PoolError::PoolExhausted)
    );
    assert!(!pool.contains(&key("c")));
    assert_eq!(slot_and_fresh(pool.acquire_or_create(key("b"))), Ok((1, false)));
}

#[test]
fn pool_without_slots_is_always_exhausted() {
    let (mut pool, _reaper) = MapPool::create(0);
    assert!(pool.is_empty());
    assert_eq!(
        slot_and_fresh(pool.acquire_or_create(key("a"))),
        Err(PoolError::PoolExhausted)
    );
}

#[test]
fn evicted_key_is_entered_anew() {
    let (mut pool, _reaper) = MapPool::create(2);
    assert_eq!(slot_and_fresh(pool.acquire_or_create(key("a"))), Ok((0, true)));
    assert_eq!(slot_and_fresh(pool.acquire_or_create(key("b"))), Ok((1, true)));
    let cleanup = pool.evict(&key("a"));
    assert!(!cleanup);
    assert!(!pool.contains(&key("a")));
    assert!(pool.contains(&key("b")));
    assert_eq!(slot_and_fresh(pool.acquire_or_create(key("a"))), Ok((0, true)));
    assert_eq!(
        slot_and_fresh(pool.acquire_or_create(key("c"))),
        Err(PoolError::PoolExhausted)
    );
    assert!(!pool.evict(&key("b")));
    assert_eq!(slot_and_fresh(pool.acquire_or_create(key("c"))), Ok((1, true)));
}

#[test]
fn cleanup_only_when_the_last_worker_leaves() {
    let (mut pool, _reaper) = MapPool::create(3);
    assert!(pool.acquire_or_create(key("a")).is_ok());
    assert!(pool.acquire_or_create(key("b")).is_ok());
    assert!(!pool.evict(&key("b")));
    assert!(pool.evict(&key("a")));
    assert!(pool.is_empty());
}

#[test]
fn render_goes_through_the_worker() {
    let (mut pool, _reaper) = MapPool::create(2);
    let (channel, worker) = match pool.acquire_or_create(key("MAP END")) {
        Ok(Acquired::Created(channel, worker)) => (channel, worker),
        other => panic!("{:?}", other),
    };
    let threads = ThreadPool::new(1);
    threads.execute(move || loop {
        match worker.next_request(5) {
            (WorkerEvent::Request, Some(Extent(a, b, c, d))) => {
                worker.reply(vec![a as u8, b as u8, c as u8, d as u8]);
            }
            _ => break,
        }
    });
    assert_eq!(channel.render(Extent(1, 2, 3, 4)), Ok(vec![1, 2, 3, 4]));
    assert_eq!(channel.render(Extent::from((9, 8, 7, 6))), Ok(vec![9, 8, 7, 6]));
    // A second request for the key leads to the same worker.
    let again = match pool.acquire_or_create(key("MAP END")) {
        Ok(Acquired::Existing(channel)) => channel,
        other => panic!("{:?}", other),
    };
    assert_eq!(again.render(Extent(5, 5, 5, 5)), Ok(vec![5, 5, 5, 5]));
    assert_eq!(channel.clone().render(Extent(0, 1, 0, 1)), Ok(vec![0, 1, 0, 1]));
    // Once every sender is gone the worker sees the disconnection and ends.
    pool.evict(&key("MAP END"));
    drop(channel);
    drop(again);
    threads.join();
    assert_eq!(threads.panic_count(), 0);
}

#[test]
fn two_keys_have_two_workers() {
    let (mut pool, _reaper) = MapPool::create(2);
    let threads = ThreadPool::new(2);
    let mut channels = Vec::new();
    for (k, tag) in [("a", 10u8), ("b", 20u8)].iter() {
        let tag = *tag;
        match pool.acquire_or_create(key(k)) {
            Ok(Acquired::Created(channel, worker)) => {
                threads.execute(move || loop {
                    match worker.next_request(5) {
                        (WorkerEvent::Request, Some(_)) => {
                            worker.reply(vec![tag]);
                        }
                        _ => break,
                    }
                });
                channels.push(channel);
            }
            other => panic!("{:?}", other),
        }
    }
    assert_eq!(channels[1].render(Extent(0, 0, 1, 1)), Ok(vec![20]));
    assert_eq!(channels[0].render(Extent(0, 0, 1, 1)), Ok(vec![10]));
    assert!(!pool.evict(&key("a")));
    assert!(pool.evict(&key("b")));
    drop(channels);
    threads.join();
}

#[test]
fn render_fails_once_the_worker_is_gone() {
    let (mut pool, _reaper) = MapPool::create(1);
    let channel = match pool.acquire_or_create(key("MAP END")) {
        Ok(Acquired::Created(channel, worker)) => {
            drop(worker);
            channel
        }
        other => panic!("{:?}", other),
    };
    assert_eq!(channel.render(Extent(1, 2, 3, 4)), Err(PoolError::WorkerUnavailable));
}

#[test]
fn worker_sees_idle_timeout_and_disconnection() {
    let (mut pool, _reaper) = MapPool::create(1);
    let (channel, worker) = match pool.acquire_or_create(key("MAP END")) {
        Ok(Acquired::Created(channel, worker)) => (channel, worker),
        other => panic!("{:?}", other),
    };
    assert_eq!(worker.next_request(0), (WorkerEvent::IdleTimeout, None));
    drop(channel);
    // The pool still holds a sender, so the channel is not disconnected.
    assert_eq!(worker.next_request(0), (WorkerEvent::IdleTimeout, None));
    pool.evict(&key("MAP END"));
    assert_eq!(worker.next_request(5), (WorkerEvent::Disconnected, None));
    // Nobody waits for an image any more.
    assert!(!worker.reply(vec![1]));
}

#[test]
fn reaper_hears_the_worker_leave() {
    let (mut pool, reaper) = MapPool::create(1);
    let worker = match pool.acquire_or_create(key("MAP END")) {
        Ok(Acquired::Created(_, worker)) => worker,
        other => panic!("{:?}", other),
    };
    let threads = ThreadPool::new(1);
    threads.execute(move || {
        assert!(worker.leave());
    });
    assert_eq!(reaper.next_evicted(), Some(key("MAP END")));
    assert!(pool.evict(&key("MAP END")));
    threads.join();
    assert_eq!(threads.panic_count(), 0);
    drop(pool);
    assert_eq!(reaper.next_evicted(), None);
}

#[test]
fn arrival_becomes_event() {
    assert_eq!(
        arrival_event(Arrival::Message(Extent(1, 2, 3, 4))),
        (WorkerEvent::Request, Some(Extent(1, 2, 3, 4)))
    );
    assert_eq!(arrival_event(Arrival::Timeout), (WorkerEvent::IdleTimeout, None));
    assert_eq!(arrival_event(Arrival::Disconnected), (WorkerEvent::Disconnected, None));
}

#[test]
fn idle_timeout_is_one_hour() {
    assert_eq!(MAP_IDLE_TIMEOUT_SECONDS, 60 * 60);
}

#[test]
fn worker_builds_then_serves_then_leaves() {
    let s = WorkerState::Init;
    let (s, a) = worker_step(s, WorkerEvent::Constructed);
    assert_eq!((s, a), (WorkerState::Running, WorkerAction::Wait));
    let (s, a) = worker_step(s, WorkerEvent::Request);
    assert_eq!((s, a), (WorkerState::Running, WorkerAction::Render));
    let (s, a) = worker_step(s, WorkerEvent::Request);
    assert_eq!((s, a), (WorkerState::Running, WorkerAction::Render));
    let (s, a) = worker_step(s, WorkerEvent::IdleTimeout);
    assert_eq!((s, a), (WorkerState::Exit, WorkerAction::Release));
    let (s, a) = worker_step(s, WorkerEvent::Request);
    assert_eq!((s, a), (WorkerState::Exit, WorkerAction::Halt));
}

#[test]
fn worker_leaves_on_disconnect_and_on_failed_build() {
    assert_eq!(
        worker_step(WorkerState::Running, WorkerEvent::Disconnected),
        (WorkerState::Exit, WorkerAction::Release)
    );
    assert_eq!(
        worker_step(WorkerState::Init, WorkerEvent::ConstructionFailed),
        (WorkerState::Exit, WorkerAction::Release)
    );
    assert_eq!(
        worker_step(WorkerState::Init, WorkerEvent::Request),
        (WorkerState::Init, WorkerAction::Construct)
    );
    assert_eq!(
        worker_step(WorkerState::Running, WorkerEvent::Constructed),
        (WorkerState::Running, WorkerAction::Wait)
    );
}

#[test]
fn worker_never_returns_to_init() {
    let states = [WorkerState::Init, WorkerState::Running, WorkerState::Exit];
    let events = [
        WorkerEvent::Constructed,
        WorkerEvent::ConstructionFailed,
        WorkerEvent::Request,
        WorkerEvent::Disconnected,
        WorkerEvent::IdleTimeout,
    ];
    for s in states.iter() {
        for e in events.iter() {
            let (next, action) = worker_step(*s, *e);
            if *s != WorkerState::Init {
                assert_ne!(next, WorkerState::Init);
            }
            if *s == WorkerState::Exit {
                assert_eq!((next, action), (WorkerState::Exit, WorkerAction::Halt));
            }
        }
    }
}

#[test]
fn render_result_is_the_reply_or_unavailable() {
    assert_eq!(render_result(true, Some(vec![1, 2, 3])), Ok(vec![1, 2, 3]));
    assert_eq!(render_result(true, Some(vec![])), Ok(vec![]));
    assert_eq!(render_result(true, None), Err(PoolError::WorkerUnavailable));
    assert_eq!(render_result(false, None), Err(PoolError::WorkerUnavailable));
    assert_eq!(render_result(false, Some(vec![9])), Err(PoolError::WorkerUnavailable));
}

#[test]
fn mapfile_holds_the_timestamp() {
    let mapfile = make_mapfile_str(1234);
    assert!(mapfile.starts_with("MAP\n          NAME 'default'\n"));
    assert!(mapfile.contains("'TILEDB_TIMESTAMP' '1234'\n"));
    assert!(mapfile.ends_with("          END\n        END"));
    assert_eq!(mapfile, format!("{}{}{}", MAPFILE_HEAD, 1234, MAPFILE_TAIL));
}

#[test]
fn mapfile_with_negative_and_extreme_timestamps() {
    assert!(make_mapfile_str(-5).contains("'TILEDB_TIMESTAMP' '-5'\n"));
    assert!(make_mapfile_str(0).contains("'TILEDB_TIMESTAMP' '0'\n"));
    assert!(make_mapfile_str(i64::MIN).contains("'TILEDB_TIMESTAMP' '-9223372036854775808'\n"));
    assert!(make_mapfile_str(i64::MAX).contains("'TILEDB_TIMESTAMP' '9223372036854775807'\n"));
}

#[test]
fn mapfile_fixed_text() {
    assert!(MAPFILE_HEAD.ends_with("'TILEDB_TIMESTAMP' '"));
    assert!(MAPFILE_TAIL.starts_with("'\n            END\n"));
    assert!(MAPFILE_HEAD.contains("EXTENT -11711375.725741563 4941042.382410363 -11711222.851684993 4941195.256466932\n"));
    assert!(MAPFILE_HEAD.contains("'TILEDB_CONFIG'\t'/home/mperry/work/tiledb/tiledb.aws.config'\n"));
    assert!(MAPFILE_TAIL.contains("PROCESSING 'SCALE_4=0,1'  # Hack to ignore band 4`\n"));
}

#[test]
fn test_mappool() {
    let mapfile_str = "MAP END".to_string();
    let (mut map_pool, _reaper) = MapPool::create(20);
    let (mapthread, worker) = match map_pool.acquire_or_create(mapfile_str) {
        Ok(Acquired::Created(channel, worker)) => (channel, worker),
        other => panic!("{:?}", other),
    };

    // A worker that answers each extent with an image of 16 KiB.
    let threads = ThreadPool::new(1);
    threads.execute(move || {
        assert_eq!(worker.key(), "MAP END");
        while let (WorkerEvent::Request, Some(extent)) = worker.next_request(5) {
            assert!(f64::from_bits(extent.0) < f64::from_bits(extent.2));
            assert!(f64::from_bits(extent.1) < f64::from_bits(extent.3));
            worker.reply(vec![0u8; 16 * 1024]);
        }
    });

    let extent = Extent(
        (-11711375.725741565f64).to_bits(),
        (4940736.634297222f64).to_bits(),
        (-11711222.851684995f64).to_bits(),
        (4940889.508353792f64).to_bits(),
    );
    let img = mapthread.render(extent).unwrap();

    // The resulting png-encoded image is likely > 10kb
    assert!(img.len() >= 10_000);

    map_pool.evict(&"MAP END".to_string());
    drop(mapthread);
    threads.join();
    assert_eq!(threads.panic_count(), 0);
}
