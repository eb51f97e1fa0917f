//! Sizes of the std building blocks the library leans on.
use aki_stats::ExecReport;

#[test]
fn size_of() {
    assert_eq!(std::mem::size_of::<&String>(), 8);
    assert_eq!(std::mem::size_of::<Box<String>>(), 8);
    assert_eq!(std::mem::size_of::<String>(), 24);
    assert_eq!(std::mem::size_of::<Vec<String>>(), 24);
    assert!(std::mem::size_of::<ExecReport>() > 0);
}
