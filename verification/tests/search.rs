use bounded_deque::deque::BoundedDeque;
use bounded_deque::errors::{DequeError, HostError};
use bounded_deque::guard::ReprGuard;
use bounded_deque::host::Host;

/// A host whose handles are the integer values themselves.
struct IntHost;

impl Host for IntHost {
    fn host_eq(&self, a: u64, b: u64) -> Result<bool, HostError> {
        Ok(a == b)
    }

    fn host_lt(&self, a: u64, b: u64) -> Result<bool, HostError> {
        Ok(a < b)
    }

    fn host_le(&self, a: u64, b: u64) -> Result<bool, HostError> {
        Ok(a <= b)
    }

    fn host_gt(&self, a: u64, b: u64) -> Result<bool, HostError> {
        Ok(a > b)
    }

    fn host_ge(&self, a: u64, b: u64) -> Result<bool, HostError> {
        Ok(a >= b)
    }

    fn host_repr(&self, _guard: &mut ReprGuard, x: u64) -> Result<String, HostError> {
        Ok(x.to_string())
    }
}

/// A host whose hooks always fail, with an error naming the element they
/// were asked about.
struct FailingHost;

impl Host for FailingHost {
    fn host_eq(&self, a: u64, _b: u64) -> Result<bool, HostError> {
        Err(HostError { code: 9000 + a })
    }

    fn host_lt(&self, a: u64, _b: u64) -> Result<bool, HostError> {
        Err(HostError { code: 9000 + a })
    }

    fn host_le(&self, a: u64, _b: u64) -> Result<bool, HostError> {
        Err(HostError { code: 9000 + a })
    }

    fn host_gt(&self, a: u64, _b: u64) -> Result<bool, HostError> {
        Err(HostError { code: 9000 + a })
    }

    fn host_ge(&self, a: u64, _b: u64) -> Result<bool, HostError> {
        Err(HostError { code: 9000 + a })
    }

    fn host_repr(&self, _guard: &mut ReprGuard, x: u64) -> Result<String, HostError> {
        Err(HostError { code: 9000 + x })
    }
}

#[test]
fn count_counts_host_equal_elements() {
    let d = BoundedDeque::new(1, vec![1, 2, 1, 3, 1], None);
    assert_eq!(d.count(1, &IntHost), Ok(3));
    assert_eq!(d.count(9, &IntHost), Ok(0));
}

#[test]
fn count_propagates_hook_failure() {
    // The error is the hook's own, for the first element it was asked about.
    let d = BoundedDeque::new(1, vec![1, 2], None);
    assert_eq!(d.count(1, &FailingHost), Err(HostError { code: 9001 }));
}

#[test]
fn index_finds_first_match() {
    let d = BoundedDeque::new(1, vec![5, 6, 7, 6], None);
    assert_eq!(d.index(6, None, None, &IntHost), Ok(1));
}

#[test]
fn index_position_is_relative_to_window_start() {
    let d = BoundedDeque::new(1, vec![5, 6, 7, 6], None);
    assert_eq!(d.index(6, Some(2), None, &IntHost), Ok(1));
}

#[test]
fn index_window_excludes_stop() {
    let d = BoundedDeque::new(1, vec![5, 6, 7, 6], None);
    assert_eq!(
        d.index(6, Some(2), Some(3), &IntHost),
        Err(DequeError::ValueNotFound)
    );
}

#[test]
fn index_window_clips_past_length() {
    let d = BoundedDeque::new(1, vec![5, 6], None);
    assert_eq!(d.index(6, Some(0), Some(100), &IntHost), Ok(1));
    assert_eq!(
        d.index(6, Some(50), Some(100), &IntHost),
        Err(DequeError::ValueNotFound)
    );
}

#[test]
fn index_miss_fails_with_value_not_found() {
    let d = BoundedDeque::new(1, vec![1, 2, 3], None);
    assert_eq!(d.index(9, None, None, &IntHost), Err(DequeError::ValueNotFound));
}

#[test]
fn index_propagates_hook_failure() {
    let d = BoundedDeque::new(1, vec![1, 2], None);
    assert_eq!(
        d.index(1, None, None, &FailingHost),
        Err(DequeError::Host(HostError { code: 9001 }))
    );
}

#[test]
fn remove_takes_first_match_and_keeps_order() {
    let mut d = BoundedDeque::new(1, vec![4, 5, 4, 6], None);
    assert_eq!(d.remove(4, &IntHost), Ok(4));
    assert_eq!(d.to_vec(), vec![5, 4, 6]);
}

#[test]
fn remove_miss_fails_and_leaves_container() {
    let mut d = BoundedDeque::new(1, vec![4, 5], None);
    assert_eq!(d.remove(9, &IntHost), Err(DequeError::ValueNotFound));
    assert_eq!(d.to_vec(), vec![4, 5]);
}

#[test]
fn remove_propagates_hook_failure() {
    let mut d = BoundedDeque::new(1, vec![4, 5], None);
    assert_eq!(
        d.remove(4, &FailingHost),
        Err(DequeError::Host(HostError { code: 9004 }))
    );
    assert_eq!(d.to_vec(), vec![4, 5]);
}
