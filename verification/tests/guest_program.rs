use zkrust::guest::fib;
use zkrust::zk_rust_io::{commit, out, read};

#[test]
fn eightieth_fibonacci() {
    assert_eq!(fib(), 23416728348467685);
}

#[test]
fn io_markers_do_nothing() {
    let pattern = "a+".to_string();
    let target_string = "an era of truth, not trust".to_string();
    zkrust::zk_rust_io::write(&pattern);
    zkrust::zk_rust_io::write(&target_string);
    zkrust::zk_rust_io::write(&[1u8, 2, 3]);
    let res: bool = out();
    assert!(!res);
    let n: u32 = read();
    assert_eq!(n, 0);
    let s: String = read();
    assert_eq!(s, "");
    commit(&true);
    commit(&n);
}
