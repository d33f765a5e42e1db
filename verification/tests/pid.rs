use embedded_mqttc::pid::PidPool;
use embedded_mqttc::unique_id::{UniqueID, UniqueIDPool};

#[test]
fn test_pid_reuse() {
    let mut pool = PidPool::new();

    let pid1 = pool.next_pid();
    let pid2 = pool.next_pid();

    assert!(pid1 != pid2);

    pool.free_pid(pid1);
    let pid3 = pool.next_pid();
    assert_eq!(pid1, pid3);
}

#[test]
fn test_next_pid() {
    let mut pool = PidPool::new();
    let mut pids = Vec::new();

    for _ in 0..1000 {
        let pid = pool.next_pid();

        assert!(!pids.iter().any(|el| *el == pid));

        pids.push(pid);
    }
}

#[test]
fn pid_pool_counts_up_from_one() {
    let mut pool = PidPool::new();
    assert_eq!(pool.next_pid().get(), 1);
    assert_eq!(pool.next_pid().get(), 2);
    assert_eq!(pool.next_pid().get(), 3);
}

#[test]
fn pid_pool_hands_out_freed_pids_oldest_first() {
    let mut pool = PidPool::new();
    let a = pool.next_pid();
    let b = pool.next_pid();
    let _c = pool.next_pid();
    pool.free_pid(b);
    pool.free_pid(a);
    assert_eq!(pool.next_pid(), b);
    assert_eq!(pool.next_pid(), a);
    assert_eq!(pool.next_pid().get(), 4);
}

#[test]
fn pid_pool_keeps_at_most_sixteen_freed() {
    let mut pool = PidPool::new();
    let mut pids = Vec::new();
    for _ in 0..17 {
        pids.push(pool.next_pid());
    }
    for p in &pids {
        pool.free_pid(*p);
    }
    // the 17th freed pid was lost: after the 16 reused ones a fresh one comes
    for p in pids.iter().take(16) {
        assert_eq!(pool.next_pid(), *p);
    }
    assert_eq!(pool.next_pid().get(), 18);
}

#[test]
fn unique_ids_are_reused_after_free() {
    let mut pool = UniqueIDPool::new();
    let a = pool.next();
    let b = pool.next();
    assert_eq!(a, UniqueID(0));
    assert_eq!(b, UniqueID(1));
    pool.free(a);
    assert_eq!(pool.next(), a);
    assert_eq!(pool.next(), UniqueID(2));
}

#[test]
fn pools_report_when_they_are_used_up_or_full() {
    let mut pids = PidPool::new();
    assert!(!pids.is_exhausted());
    let p = pids.next_pid();
    pids.free_pid(p);
    assert!(!pids.is_exhausted());

    let mut ids = UniqueIDPool::new();
    assert!(!ids.is_exhausted());
    let taken: Vec<UniqueID> = (0..16).map(|_| ids.next()).collect();
    for (k, id) in taken.iter().enumerate() {
        assert!(!ids.is_full());
        ids.free(*id);
        assert_eq!(ids.is_full(), k == 15);
    }
}

#[test]
fn pid_pool_exhausted_after_all_fresh_pids() {
    let mut pids = PidPool::new();
    let mut last = pids.next_pid();
    for _ in 1..65534 {
        last = pids.next_pid();
    }
    assert_eq!(last.get(), 65534);
    assert!(pids.is_exhausted());
    // a freed pid can still be handed out
    pids.free_pid(last);
    assert!(!pids.is_exhausted());
    assert_eq!(pids.next_pid(), last);
    assert!(pids.is_exhausted());
}
