use std::cell::RefCell;

use bounded_deque::deque::BoundedDeque;
use bounded_deque::errors::HostError;
use bounded_deque::guard::ReprGuard;
use bounded_deque::host::Host;
use bounded_deque::module_def::make_module;

/// A host whose handles are the integer values themselves.
struct IntHost;

impl Host for IntHost {
    fn host_eq(&self, a: u64, b: u64) -> Result<bool, HostError> {
        Ok(a == b)
    }

    fn host_lt(&self, a: u64, b: u64) -> Result<bool, HostError> {
        Ok(a < b)
    }

    fn host_le(&self, a: u64, b: u64) -> Result<bool, HostError> {
        Ok(a <= b)
    }

    fn host_gt(&self, a: u64, b: u64) -> Result<bool, HostError> {
        Ok(a > b)
    }

    fn host_ge(&self, a: u64, b: u64) -> Result<bool, HostError> {
        Ok(a >= b)
    }

    fn host_repr(&self, _guard: &mut ReprGuard, x: u64) -> Result<String, HostError> {
        Ok(x.to_string())
    }
}

/// The handle that stands for the container itself in the cycle test.
const SELF_HANDLE: u64 = 99;

/// A host holding a second handle to the container under identity 7: asking
/// for the text of `SELF_HANDLE` re-enters that container's rendering.
struct CycleHost {
    inner: RefCell<Option<BoundedDeque>>,
}

impl Host for CycleHost {
    fn host_eq(&self, a: u64, b: u64) -> Result<bool, HostError> {
        Ok(a == b)
    }

    fn host_lt(&self, a: u64, b: u64) -> Result<bool, HostError> {
        Ok(a < b)
    }

    fn host_le(&self, a: u64, b: u64) -> Result<bool, HostError> {
        Ok(a <= b)
    }

    fn host_gt(&self, a: u64, b: u64) -> Result<bool, HostError> {
        Ok(a > b)
    }

    fn host_ge(&self, a: u64, b: u64) -> Result<bool, HostError> {
        Ok(a >= b)
    }

    fn host_repr(&self, guard: &mut ReprGuard, x: u64) -> Result<String, HostError> {
        if x == SELF_HANDLE {
            let inner = self.inner.borrow();
            inner.as_ref().unwrap().repr(self, guard)
        } else {
            Ok(x.to_string())
        }
    }
}

/// A host whose rendering hook always fails, with an error naming the
/// element it was asked about.
struct FailingReprHost;

impl Host for FailingReprHost {
    fn host_eq(&self, a: u64, b: u64) -> Result<bool, HostError> {
        Ok(a == b)
    }

    fn host_lt(&self, a: u64, b: u64) -> Result<bool, HostError> {
        Ok(a < b)
    }

    fn host_le(&self, a: u64, b: u64) -> Result<bool, HostError> {
        Ok(a <= b)
    }

    fn host_gt(&self, a: u64, b: u64) -> Result<bool, HostError> {
        Ok(a > b)
    }

    fn host_ge(&self, a: u64, b: u64) -> Result<bool, HostError> {
        Ok(a >= b)
    }

    fn host_repr(&self, _guard: &mut ReprGuard, x: u64) -> Result<String, HostError> {
        Err(HostError { code: 100 + x })
    }
}

#[test]
fn repr_lists_elements_in_order() {
    let d = BoundedDeque::new(1, vec![1, 2, 3], None);
    let mut g = ReprGuard::new();
    assert_eq!(d.repr(&IntHost, &mut g), Ok(String::from("deque([1, 2, 3])")));
}

#[test]
fn repr_of_empty_container() {
    let d = BoundedDeque::new(1, Vec::new(), None);
    let mut g = ReprGuard::new();
    assert_eq!(d.repr(&IntHost, &mut g), Ok(String::from("deque([])")));
}

#[test]
fn repr_appends_the_bound() {
    let d = BoundedDeque::new(1, vec![10, 20], Some(5));
    let mut g = ReprGuard::new();
    assert_eq!(
        d.repr(&IntHost, &mut g),
        Ok(String::from("deque([10, 20], maxlen=5)"))
    );
}

#[test]
fn repr_writes_multi_digit_bounds() {
    let d = BoundedDeque::new(1, vec![7], Some(1203));
    let mut g = ReprGuard::new();
    assert_eq!(
        d.repr(&IntHost, &mut g),
        Ok(String::from("deque([7], maxlen=1203)"))
    );
}

#[test]
fn repr_while_already_rendering_is_a_placeholder() {
    let d = BoundedDeque::new(7, vec![1, 2], None);
    let mut g = ReprGuard::new();
    g.enter(7);
    assert_eq!(d.repr(&IntHost, &mut g), Ok(String::from("[...]")));
}

#[test]
fn cyclic_element_renders_as_placeholder() {
    let d = BoundedDeque::new(7, vec![SELF_HANDLE], None);
    let host = CycleHost { inner: RefCell::new(Some(d.copy(7))) };
    let mut g = ReprGuard::new();
    assert_eq!(d.repr(&host, &mut g), Ok(String::from("deque([[...]])")));
    assert!(!g.holds(7));
}

#[test]
fn repr_failure_propagates_and_releases_the_guard() {
    // The error is the rendering hook's own, for the first failing element.
    let d = BoundedDeque::new(7, vec![1, 2], None);
    let mut g = ReprGuard::new();
    assert_eq!(d.repr(&FailingReprHost, &mut g), Err(HostError { code: 101 }));
    assert!(!g.holds(7));
}

#[test]
fn make_module_registers_the_container() {
    let m = make_module();
    assert_eq!(m.module_name, "_collections");
    assert_eq!(m.class_name, "deque");
}
