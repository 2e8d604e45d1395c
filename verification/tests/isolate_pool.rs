use bettercpt::isolate_pool::{IsolatePool, PoolError};

#[test]
fn one_isolate_per_plugin() {
    let mut pool: IsolatePool<u32> = IsolatePool::new();
    assert_eq!(pool.add("a", 1), Ok(()));
    assert_eq!(pool.add("b", 2), Ok(()));
    assert_eq!(pool.add("a", 3), Err(PoolError::AlreadyExists));
    assert!(pool.has("a") && pool.has("b") && !pool.has("c"));
    assert_eq!(pool.list(), vec!["a", "b"]);
    assert_eq!(pool.len(), 2);
}

#[test]
fn kill_keeps_the_others_in_order() {
    let mut pool: IsolatePool<u32> = IsolatePool::new();
    for (i, id) in ["a", "b", "c"].iter().enumerate() {
        pool.add(id, i as u32).unwrap();
    }
    assert_eq!(pool.kill("b"), Ok(1));
    assert_eq!(pool.kill("b"), Err(PoolError::NotFound));
    assert_eq!(pool.list(), vec!["a", "c"]);
    *pool.host_at_mut(1) += 10;
    let drained = pool.drain_lifo();
    assert_eq!(drained, vec![("c".to_string(), 12), ("a".to_string(), 0)]);
    assert_eq!(pool.len(), 0);
}
