use alsein_parsers::pool::Pool;
use std::cell::Cell;
use std::rc::Rc;

struct Counted {
    name: u32,
    drops: Rc<Cell<u32>>,
}

impl Drop for Counted {
    fn drop(&mut self) {
        self.drops.set(self.drops.get() + 1);
    }
}

fn counted(name: u32, drops: &Rc<Cell<u32>>) -> Counted {
    Counted { name, drops: Rc::clone(drops) }
}

#[test]
fn new_pool_holds_nothing() {
    let pool: Pool<u32> = Pool::new();
    assert_eq!(pool.issued(), 0);
    assert_eq!(pool.get(0), None);
    assert_eq!(pool.teardown(), Vec::<u32>::new());
    let pool: Pool<u32> = Pool::default();
    assert_eq!(pool.issued(), 0);
}

#[test]
fn add_issues_rising_handles() {
    let mut pool = Pool::new();
    assert_eq!(pool.add("a"), 0);
    assert_eq!(pool.add("b"), 1);
    assert_eq!(pool.add("a"), 2);
    assert_eq!(pool.issued(), 3);
    assert_eq!(pool.get(0), Some(&"a"));
    assert_eq!(pool.get(1), Some(&"b"));
    assert_eq!(pool.get(2), Some(&"a"));
    assert_eq!(pool.get(3), None);
}

#[test]
fn remove_gives_the_object_back_once() {
    let mut pool = Pool::new();
    let a = pool.add(String::from("a"));
    let b = pool.add(String::from("b"));
    assert_eq!(pool.remove(a), Some(String::from("a")));
    assert_eq!(pool.remove(a), None);
    assert_eq!(pool.get(a), None);
    assert_eq!(pool.get(b), Some(&String::from("b")));
    assert_eq!(pool.issued(), 2);
}

#[test]
fn remove_of_a_foreign_handle_finds_nothing() {
    let mut pool = Pool::new();
    pool.add(1u8);
    assert_eq!(pool.remove(1), None);
    assert_eq!(pool.remove(usize::MAX), None);
    assert_eq!(pool.get(0), Some(&1u8));
    assert_eq!(pool.teardown(), vec![1u8]);
}

#[test]
fn a_released_handle_is_not_issued_again() {
    let mut pool = Pool::new();
    let first = pool.add('x');
    assert_eq!(pool.remove(first), Some('x'));
    let second = pool.add('x');
    assert_ne!(first, second);
    assert_eq!(pool.get(first), None);
    assert_eq!(pool.remove(first), None);
    assert_eq!(pool.get(second), Some(&'x'));
}

#[test]
fn teardown_hands_over_what_was_not_released() {
    let mut pool = Pool::new();
    for value in 0..6u32 {
        pool.add(value * 10);
    }
    assert_eq!(pool.remove(1), Some(10));
    assert_eq!(pool.remove(4), Some(40));
    assert_eq!(pool.remove(1), None);
    assert_eq!(pool.teardown(), vec![0, 20, 30, 50]);
}

#[test]
fn every_object_is_destroyed_exactly_once() {
    let drops = Rc::new(Cell::new(0));
    let mut pool = Pool::new();
    for name in 0..5 {
        pool.add(counted(name, &drops));
    }
    let released = pool.remove(2).unwrap();
    assert_eq!(released.name, 2);
    assert_eq!(drops.get(), 0);
    drop(released);
    assert_eq!(drops.get(), 1);
    let items = pool.teardown();
    assert_eq!(drops.get(), 1);
    let names: Vec<u32> = items.iter().map(|item| item.name).collect();
    assert_eq!(names, vec![0, 1, 3, 4]);
    drop(items);
    assert_eq!(drops.get(), 5);
}

#[test]
fn dropping_a_pool_destroys_what_it_holds_once() {
    let drops = Rc::new(Cell::new(0));
    let mut pool = Pool::new();
    for name in 0..4 {
        pool.add(counted(name, &drops));
    }
    let kept = pool.remove(0);
    drop(pool);
    assert_eq!(drops.get(), 3);
    drop(kept);
    assert_eq!(drops.get(), 4);
}
