use bounded_deque::deque::BoundedDeque;
use bounded_deque::errors::HostError;
use bounded_deque::guard::ReprGuard;
use bounded_deque::host::Host;

/// A host whose handles are the integer values themselves.
struct IntHost;

impl Host for IntHost {
    fn host_eq(&self, a: u64, b: u64) -> Result<bool, HostError> {
        Ok(a == b)
    }

    fn host_lt(&self, a: u64, b: u64) -> Result<bool, HostError> {
        Ok(a < b)
    }

    fn host_le(&self, a: u64, b: u64) -> Result<bool, HostError> {
        Ok(a <= b)
    }

    fn host_gt(&self, a: u64, b: u64) -> Result<bool, HostError> {
        Ok(a > b)
    }

    fn host_ge(&self, a: u64, b: u64) -> Result<bool, HostError> {
        Ok(a >= b)
    }

    fn host_repr(&self, _guard: &mut ReprGuard, x: u64) -> Result<String, HostError> {
        Ok(x.to_string())
    }
}

#[test]
fn strict_prefix_is_lesser() {
    let a = BoundedDeque::new(1, vec![1, 2], None);
    let b = BoundedDeque::new(2, vec![1, 2, 3], None);
    assert_eq!(a.lt(&b, &IntHost), Ok(true));
    assert_eq!(a.le(&b, &IntHost), Ok(true));
    assert_eq!(b.lt(&a, &IntHost), Ok(false));
    assert_eq!(b.gt(&a, &IntHost), Ok(true));
    assert_eq!(a.ge(&b, &IntHost), Ok(false));
}

#[test]
fn first_mismatch_decides_over_length() {
    let a = BoundedDeque::new(1, vec![1, 3], None);
    let b = BoundedDeque::new(2, vec![1, 2, 3], None);
    assert_eq!(b.lt(&a, &IntHost), Ok(true));
    assert_eq!(a.gt(&b, &IntHost), Ok(true));
    assert_eq!(a.lt(&b, &IntHost), Ok(false));
}

#[test]
fn equal_contents_compare_equal() {
    let a = BoundedDeque::new(1, vec![1, 2, 3], None);
    let b = BoundedDeque::new(2, vec![1, 2, 3], Some(10));
    assert_eq!(a.eq(&b, &IntHost), Ok(true));
    assert_eq!(a.le(&b, &IntHost), Ok(true));
    assert_eq!(a.ge(&b, &IntHost), Ok(true));
    assert_eq!(a.lt(&b, &IntHost), Ok(false));
    assert_eq!(a.gt(&b, &IntHost), Ok(false));
}

#[test]
fn different_lengths_are_not_equal() {
    let a = BoundedDeque::new(1, vec![1, 2], None);
    let b = BoundedDeque::new(2, vec![1, 2, 3], None);
    assert_eq!(a.eq(&b, &IntHost), Ok(false));
}

#[test]
fn copy_compares_equal_to_its_original() {
    let a = BoundedDeque::new(1, vec![4, 5, 6], Some(8));
    let b = a.copy(2);
    assert_eq!(a.eq(&b, &IntHost), Ok(true));
}

#[test]
fn same_identity_is_equal_never_strictly_ordered() {
    // The identity fast path answers without consulting the host: the
    // equality variants hold of a container against itself, the strict
    // ones cannot.
    let a = BoundedDeque::new(7, vec![2, 1], None);
    let b = BoundedDeque::new(7, vec![9, 9, 9], None);
    assert_eq!(a.eq(&b, &IntHost), Ok(true));
    assert_eq!(a.le(&b, &IntHost), Ok(true));
    assert_eq!(a.ge(&b, &IntHost), Ok(true));
    assert_eq!(a.lt(&b, &IntHost), Ok(false));
    assert_eq!(a.gt(&b, &IntHost), Ok(false));
}

/// A host whose equality succeeds but whose strict ordering hook fails with
/// an error naming the pair it was asked about.
struct FailingLtHost;

impl Host for FailingLtHost {
    fn host_eq(&self, a: u64, b: u64) -> Result<bool, HostError> {
        Ok(a == b)
    }

    fn host_lt(&self, a: u64, b: u64) -> Result<bool, HostError> {
        Err(HostError { code: 1000 * a + b })
    }

    fn host_le(&self, a: u64, b: u64) -> Result<bool, HostError> {
        Err(HostError { code: 1000 * a + b })
    }

    fn host_gt(&self, a: u64, b: u64) -> Result<bool, HostError> {
        Err(HostError { code: 1000 * a + b })
    }

    fn host_ge(&self, a: u64, b: u64) -> Result<bool, HostError> {
        Err(HostError { code: 1000 * a + b })
    }

    fn host_repr(&self, _guard: &mut ReprGuard, x: u64) -> Result<String, HostError> {
        Ok(x.to_string())
    }
}

/// A host whose equality hook fails with an error naming the pair.
struct FailingEqHost;

impl Host for FailingEqHost {
    fn host_eq(&self, a: u64, b: u64) -> Result<bool, HostError> {
        Err(HostError { code: 1000 * a + b })
    }

    fn host_lt(&self, a: u64, b: u64) -> Result<bool, HostError> {
        Ok(a < b)
    }

    fn host_le(&self, a: u64, b: u64) -> Result<bool, HostError> {
        Ok(a <= b)
    }

    fn host_gt(&self, a: u64, b: u64) -> Result<bool, HostError> {
        Ok(a > b)
    }

    fn host_ge(&self, a: u64, b: u64) -> Result<bool, HostError> {
        Ok(a >= b)
    }

    fn host_repr(&self, _guard: &mut ReprGuard, x: u64) -> Result<String, HostError> {
        Ok(x.to_string())
    }
}

#[test]
fn ordering_failure_at_the_mismatch_propagates_unchanged() {
    // The walk passes the equal pair (1, 1), reaches the mismatch (3, 2)
    // and surfaces exactly the ordering hook's error for that pair.
    let a = BoundedDeque::new(1, vec![1, 3], None);
    let b = BoundedDeque::new(2, vec![1, 2, 3], None);
    assert_eq!(a.lt(&b, &FailingLtHost), Err(HostError { code: 3002 }));
    assert_eq!(a.gt(&b, &FailingLtHost), Err(HostError { code: 3002 }));
    // A strict prefix has no mismatching pair, so no ordering hook runs.
    let p = BoundedDeque::new(3, vec![1], None);
    assert_eq!(p.lt(&b, &FailingLtHost), Ok(true));
}

#[test]
fn equality_failure_on_the_first_pair_propagates_unchanged() {
    let a = BoundedDeque::new(1, vec![5, 7], None);
    let b = BoundedDeque::new(2, vec![6, 8], None);
    assert_eq!(a.eq(&b, &FailingEqHost), Err(HostError { code: 5006 }));
    assert_eq!(a.le(&b, &FailingEqHost), Err(HostError { code: 5006 }));
}

#[test]
fn empty_is_lesser_than_anything_nonempty() {
    let a = BoundedDeque::new(1, Vec::new(), None);
    let b = BoundedDeque::new(2, vec![0], None);
    assert_eq!(a.lt(&b, &IntHost), Ok(true));
    assert_eq!(a.eq(&b, &IntHost), Ok(false));
}
