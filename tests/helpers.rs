use shadow_test_utils::assertions::{mismatch_message, result_assert, result_assert_eq};
use shadow_test_utils::descriptors::close_fds;
use shadow_test_utils::errno::get_errno;
use shadow_test_utils::shadow_test::{describe_parts, ShadowPassing};
use std::cell::RefCell;

#[test]
fn assert_eq_on_equal_and_unequal_values() {
    assert_eq!(result_assert_eq(5, 5, "msg"), Ok(()));
    assert_eq!(result_assert_eq(5, 6, "msg"), Err("5 != 6 -- msg".to_string()));
}

#[test]
fn assert_eq_renders_with_debug() {
    assert_eq!(
        result_assert_eq("a", "b", "strings"),
        Err("\"a\" != \"b\" -- strings".to_string())
    );
    assert_eq!(result_assert_eq(vec![1, 2], vec![1, 2], "same"), Ok(()));
    assert_eq!(
        result_assert_eq(Some(1), None, ""),
        Err("Some(1) != None -- ".to_string())
    );
}

#[test]
fn assert_condition_returns_message_verbatim() {
    assert_eq!(result_assert(false, "oops"), Err("oops".to_string()));
    assert_eq!(result_assert(true, "oops"), Ok(()));
    assert_eq!(result_assert(false, ""), Err(String::new()));
}

#[test]
fn mismatch_message_layout() {
    assert_eq!(mismatch_message("5", "6", "msg"), "5 != 6 -- msg");
    assert_eq!(mismatch_message("", "", ""), " !=  -- ");
}

#[test]
fn describe_parts_layout() {
    assert_eq!(
        describe_parts("\"t\"", ShadowPassing::No),
        "ShadowTest { name: \"t\", shadow_passing: No }"
    );
}

#[test]
fn close_fds_closes_each_once_in_order() {
    let closed: RefCell<Vec<i32>> = RefCell::new(Vec::new());
    let r = close_fds(&[3, 7, 5], |fd: i32| {
        closed.borrow_mut().push(fd);
        0
    });
    assert_eq!(r, Ok(()));
    assert_eq!(*closed.borrow(), vec![3, 7, 5]);
}

#[test]
fn close_fds_stops_at_first_failure() {
    let closed: RefCell<Vec<i32>> = RefCell::new(Vec::new());
    let r = close_fds(&[3, 9, 5], |fd: i32| {
        closed.borrow_mut().push(fd);
        if fd == 9 {
            -1
        } else {
            0
        }
    });
    assert_eq!(r, Err(9));
    assert_eq!(*closed.borrow(), vec![3, 9]);
}

#[test]
fn close_fds_reports_a_descriptor_closed_twice() {
    let open: RefCell<Vec<i32>> = RefCell::new(vec![4, 6]);
    let r = close_fds(&[4, 6, 4], |fd: i32| {
        let mut open = open.borrow_mut();
        match open.iter().position(|&o| o == fd) {
            Some(i) => {
                open.remove(i);
                0
            }
            None => -1,
        }
    });
    assert_eq!(r, Err(4));
    assert!(open.borrow().is_empty());
}

#[test]
fn close_fds_with_no_descriptors() {
    assert_eq!(close_fds(&[], |_: i32| -1), Ok(()));
}

#[test]
fn errno_is_available() {
    let e = get_errno();
    assert!(e >= 0);
}
