use scalar_net::layout::{ConfigError, Layout};

fn layout(n: usize) -> Layout {
    match Layout::new(n) {
        Ok(l) => l,
        Err(e) => panic!("layout of {} units refused: {:?}", n, e),
    }
}

#[test]
fn offsets_of_each_layer() {
    let l = layout(3);
    assert_eq!(l.pt(0, 0, 0), 0);
    assert_eq!(l.pt(0, 2, 0), 2);
    assert_eq!(l.pt(1, 0, 0), 3);
    assert_eq!(l.pt(1, 0, 2), 5);
}

#[test]
fn valid_addresses_cover_every_slot_once() {
    let n: usize = 5;
    let l = layout(n);
    let mut hit = vec![0u32; l.slot_count()];
    for i in 0..n {
        hit[l.pt(0, i, 0)] += 1;
        hit[l.pt(1, 0, i)] += 1;
    }
    assert_eq!(hit.len(), 10);
    assert!(hit.iter().all(|&c| c == 1));
    for i in 0..n {
        assert!(l.pt(0, i, 0) < n);
        assert!(l.pt(1, 0, i) >= n);
    }
}

#[test]
fn invalid_addresses_are_recognised() {
    let l = layout(3);
    assert!(l.is_valid(0, 2, 0));
    assert!(l.is_valid(1, 0, 2));
    assert!(!l.is_valid(0, 3, 0));
    assert!(!l.is_valid(1, 0, 3));
    assert!(!l.is_valid(0, 1, 1));
    assert!(!l.is_valid(1, 1, 0));
    assert!(!l.is_valid(2, 0, 0));
}

#[test]
fn zero_units_refused() {
    assert!(matches!(Layout::new(0), Err(ConfigError::NoUnits)));
}

#[test]
fn too_many_units_refused() {
    assert!(matches!(Layout::new(usize::MAX), Err(ConfigError::TooManyUnits)));
    assert!(matches!(Layout::new(usize::MAX / 2 + 1), Err(ConfigError::TooManyUnits)));
}

#[test]
fn largest_layout_accepted() {
    let l = layout(usize::MAX / 2);
    assert_eq!(l.units(), usize::MAX / 2);
    assert_eq!(l.slot_count(), usize::MAX - 1);
    assert_eq!(l.pt(1, 0, usize::MAX / 2 - 1), usize::MAX - 2);
}

#[test]
fn slot_count_is_twice_units() {
    let l = layout(20);
    assert_eq!(l.units(), 20);
    assert_eq!(l.slot_count(), 40);
}
