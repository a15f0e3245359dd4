use crap4rust::verdict::Verdict;

#[test]
fn verdict_as_str_clean() {
    assert_eq!(Verdict::Clean.as_str(), "clean");
}

#[test]
fn verdict_as_str_warn() {
    assert_eq!(Verdict::Warn.as_str(), "warn");
}

#[test]
fn verdict_as_str_crappy() {
    assert_eq!(Verdict::Crappy.as_str(), "crappy");
}
