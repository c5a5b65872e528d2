use fasm_cli::pystr::PyStr;
use fasm_cli::terminal::columns_from;

fn env(s: &str) -> PyStr {
    PyStr::from_str(s)
}

#[test]
fn columns_env_wins_when_positive() {
    assert_eq!(columns_from(Some(&env("120")), || Some(50)), 120);
    assert_eq!(columns_from(Some(&env(" 1_0 ")), || Some(50)), 10);
    assert_eq!(columns_from(Some(&env("1")), || None), 1);
}

#[test]
fn falls_back_to_terminal_then_80() {
    assert_eq!(columns_from(None, || Some(50)), 50);
    assert_eq!(columns_from(Some(&env("0")), || Some(50)), 50);
    assert_eq!(columns_from(Some(&env("-3")), || Some(50)), 50);
    assert_eq!(columns_from(Some(&env("abc")), || Some(50)), 50);
    assert_eq!(columns_from(None, || Some(0)), 80);
    assert_eq!(columns_from(None, || None), 80);
}
