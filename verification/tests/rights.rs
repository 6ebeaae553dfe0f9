use kernel::kernel_object::Rights;

#[test]
fn delegate_subset_of_parent() {
    assert!(Rights::read_write().contains(Rights(Rights::READ)));
}

#[test]
fn amplification_denied_when_not_subset() {
    let parent = Rights(Rights::READ);
    let child = Rights::read_write();
    assert!(!parent.contains(child));
}
