use std::sync::atomic::{AtomicU32, Ordering};

use zip_clone::{zip_clone, VecSource, ZipClone};

struct Clonable<'a> {
    count: &'a AtomicU32,
}

impl Clone for Clonable<'_> {
    fn clone(&self) -> Self {
        let count = self.count;
        count.fetch_add(1, Ordering::Relaxed);
        Self { count }
    }
}

#[test]
fn test_zip_repeat() {
    let iter = 1..=5;
    let count = AtomicU32::new(0);
    let cloned = Clonable { count: &count };
    assert_eq!(
        iter.zip(std::iter::repeat_with(|| cloned.clone())).count(),
        5
    );
    assert_eq!(count.load(Ordering::Relaxed), 5);
}

#[test]
fn test_zip_clone() {
    let iter = VecSource::new(vec![1, 2, 3, 4, 5]);
    let count = AtomicU32::new(0);
    let cloned = Clonable { count: &count };
    // Step pair by pair to exercise plain forward production
    let mut z = zip_clone(iter, cloned);
    let mut produced = 0;
    while z.next().is_some() {
        produced += 1;
    }
    assert_eq!(produced, 5);
    assert_eq!(count.load(Ordering::Relaxed), 4);
}

#[test]
fn test_zip_count() {
    let iter = VecSource::new(vec![1, 2, 3, 4, 5]);
    let count = AtomicU32::new(0);
    let cloned = Clonable { count: &count };
    assert_eq!(zip_clone(iter, cloned).count(), 5);
    assert_eq!(count.load(Ordering::Relaxed), 0);
}

#[test]
fn test_zip_last() {
    let iter = VecSource::new(vec![1, 2, 3, 4, 5]);
    let count = AtomicU32::new(0);
    let cloned = Clonable { count: &count };
    assert_eq!(zip_clone(iter, cloned).last().unwrap().0, 5);
    assert_eq!(count.load(Ordering::Relaxed), 0);
}

#[test]
fn test_zip_find_first() {
    let iter = VecSource::new(vec![1, 2, 3, 4, 5]);
    let count = AtomicU32::new(0);
    let cloned = Clonable { count: &count };
    assert_eq!(zip_clone(iter, cloned).find(|_| true).unwrap().0, 1);
    // return one clone with result, keep one clone for further iteration
    assert_eq!(count.load(Ordering::Relaxed), 1);
}

#[test]
fn test_zip_find_mid() {
    let iter = VecSource::new(vec![1, 2, 3, 4, 5]);
    let count = AtomicU32::new(0);
    let cloned = Clonable { count: &count };
    assert_eq!(zip_clone(iter, cloned).find(|x| x.0 == 3).unwrap().0, 3);
    // return one clone with result, keep one clone for further iteration
    assert_eq!(count.load(Ordering::Relaxed), 1);
}

#[test]
fn test_zip_find_last() {
    let iter = VecSource::new(vec![1, 2, 3, 4, 5]);
    let count = AtomicU32::new(0);
    let cloned = Clonable { count: &count };
    assert_eq!(zip_clone(iter, cloned).find(|x| x.0 == 5).unwrap().0, 5);
    // return one clone with result, no other clone needed
    assert_eq!(count.load(Ordering::Relaxed), 0);
}

#[test]
fn test_zip_find_not_found() {
    let iter = VecSource::new(vec![1, 2, 3, 4, 5]);
    let count = AtomicU32::new(0);
    let cloned = Clonable { count: &count };
    assert!(zip_clone(iter, cloned).find(|_| false).is_none());
    // clone not required
    assert_eq!(count.load(Ordering::Relaxed), 0);
}

#[test]
fn test_zip_rfind_first() {
    let iter = VecSource::new(vec![1, 2, 3, 4, 5]);
    let count = AtomicU32::new(0);
    let cloned = Clonable { count: &count };
    assert_eq!(zip_clone(iter, cloned).rfind(|_| true).unwrap().0, 5);
    // return one clone with result, keep one clone for further iteration
    assert_eq!(count.load(Ordering::Relaxed), 1);
}

#[test]
fn test_zip_rfind_mid() {
    let iter = VecSource::new(vec![1, 2, 3, 4, 5]);
    let count = AtomicU32::new(0);
    let cloned = Clonable { count: &count };
    assert_eq!(zip_clone(iter, cloned).rfind(|x| x.0 == 3).unwrap().0, 3);
    // return one clone with result, keep one clone for further iteration
    assert_eq!(count.load(Ordering::Relaxed), 1);
}

#[test]
fn test_zip_rfind_last() {
    let iter = VecSource::new(vec![1, 2, 3, 4, 5]);
    let count = AtomicU32::new(0);
    let cloned = Clonable { count: &count };
    assert_eq!(zip_clone(iter, cloned).rfind(|x| x.0 == 1).unwrap().0, 1);
    // return one clone with result, no other clone needed
    assert_eq!(count.load(Ordering::Relaxed), 0);
}

#[test]
fn test_zip_rfind_not_found() {
    let iter = VecSource::new(vec![1, 2, 3, 4, 5]);
    let count = AtomicU32::new(0);
    let cloned = Clonable { count: &count };
    assert!(zip_clone(iter, cloned).rfind(|_| false).is_none());
    // clone not required
    assert_eq!(count.load(Ordering::Relaxed), 0);
}

#[test]
fn test_by_ref() {
    let iter = VecSource::new(vec![1, 2, 3, 4, 5]);
    let count = AtomicU32::new(0);
    let cloned = Clonable { count: &count };
    let mut z = iter.zip_clone(cloned);
    let by_ref = &mut z;
    let mut produced = 0;
    while by_ref.next().is_some() {
        produced += 1;
    }
    assert_eq!(produced, 5);
    assert_eq!(count.load(Ordering::Relaxed), 4);
}

#[test]
fn test_mut_slice() {
    let mut v = vec![1, 2, 3];
    let iter = VecSource::new(v.iter_mut().collect());
    let mut z = iter.zip_clone(String::new());
    let mut s = Vec::new();
    while let Some((i, st)) = z.next() {
        *i = 1;
        s.push((i, st));
    }
    assert_eq!(&1, s[1].0);
    assert_eq!(&v[1], &1);
}
