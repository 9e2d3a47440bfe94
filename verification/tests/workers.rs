use uexec::workers::Workers;
use uexec::{spawn_workers, terminate_workers};

#[test]
fn workers() {
    let mut pool: Workers<u8> = Workers::new();
    for _ in 0..32 {
        spawn_workers(&mut pool, (0..u8::MAX).collect());
        assert_eq!(pool.len(), u8::MAX as usize);
        let stopped = terminate_workers(&mut pool);
        assert_eq!(stopped, (0..u8::MAX).collect::<Vec<u8>>());
        assert_eq!(pool.len(), 0);
    }
}

#[test]
fn terminate_stops_workers_in_spawn_order() {
    let mut pool: Workers<u32> = Workers::default();
    spawn_workers(&mut pool, vec![1, 2]);
    spawn_workers(&mut pool, vec![3]);
    assert_eq!(terminate_workers(&mut pool), vec![1, 2, 3]);
    assert_eq!(terminate_workers(&mut pool), Vec::<u32>::new());
    spawn_workers(&mut pool, vec![4]);
    assert_eq!(terminate_workers(&mut pool), vec![4]);
}
