use ferric::env::Environment;

#[test]
fn global_scope() {
    let mut env: Environment<i32> = Environment::new_global();
    assert_eq!(env.len(), 1);
    assert_eq!(env.get(0, 0, 0), None);
    env.declare(0, 10);
    env.declare(0, 20);
    assert_eq!(env.get(0, 0, 0), Some(&10));
    assert_eq!(env.get(0, 0, 1), Some(&20));
    assert_eq!(env.get(0, 0, 2), None);
    assert_eq!(env.get(0, 1, 0), None);
    assert_eq!(env.get(5, 0, 0), None);
}

#[test]
fn nested_scopes() {
    let mut env: Environment<&str> = Environment::new_global();
    env.declare(0, "global");
    let block = env.new_scope(0);
    assert_eq!(block, 1);
    env.declare(block, "inner");
    let inner = env.new_scope(block);
    assert_eq!(env.decendent(inner, 0), Some(inner));
    assert_eq!(env.decendent(inner, 1), Some(block));
    assert_eq!(env.decendent(inner, 2), Some(0));
    assert_eq!(env.decendent(inner, 3), None);
    assert_eq!(env.get(inner, 2, 0), Some(&"global"));
    assert_eq!(env.get(inner, 1, 0), Some(&"inner"));
    assert_eq!(env.get(block, 0, 0), Some(&"inner"));
    // a sibling scope sees the global scope but not the block
    let sibling = env.new_scope(0);
    assert_eq!(env.get(sibling, 1, 0), Some(&"global"));
    assert_eq!(env.get(sibling, 0, 0), None);
}

#[test]
fn read_after_write() {
    let mut env: Environment<i32> = Environment::new_global();
    env.declare(0, 1);
    env.declare(0, 2);
    let child = env.new_scope(0);
    env.declare(child, 3);
    assert!(env.set(child, 1, 0, 7));
    assert_eq!(env.get(child, 1, 0), Some(&7));
    assert_eq!(env.get(0, 0, 0), Some(&7));
    // other variables keep their values
    assert_eq!(env.get(0, 0, 1), Some(&2));
    assert_eq!(env.get(child, 0, 0), Some(&3));
    // a write to a variable that does not exist changes nothing
    assert!(!env.set(child, 1, 5, 9));
    assert!(!env.set(child, 4, 0, 9));
    assert_eq!(env.get(child, 1, 0), Some(&7));
    assert_eq!(env.get(child, 1, 5), None);
}

#[test]
fn release_scopes() {
    let mut env: Environment<i32> = Environment::new_global();
    env.declare(0, 1);
    let a = env.new_scope(0);
    env.declare(a, 2);
    let b = env.new_scope(a);
    env.declare(b, 3);
    env.release(b);
    assert_eq!(env.len(), 2);
    assert_eq!(env.get(a, 0, 0), Some(&2));
    assert_eq!(env.get(a, 1, 0), Some(&1));
    assert_eq!(env.get(b, 0, 0), None);
    env.release(10);
    assert_eq!(env.len(), 2);
    // a scope opened after a release takes the freed index
    assert_eq!(env.new_scope(0), b);
    assert_eq!(env.get(b, 0, 0), None);
    assert_eq!(env.get(b, 1, 0), Some(&1));
}
