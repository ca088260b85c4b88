use protots::cli::opts;

fn args(list: &[&str]) -> Vec<String> {
    list.iter().map(|a| a.to_string()).collect()
}

#[test]
fn file_argument() {
    let o = opts(args(&["prog", "a.proto"])).unwrap();
    assert_eq!(o.file, "a.proto");
    assert!(!o.verbose);
}

#[test]
fn verbose_flag_anywhere() {
    let o = opts(args(&["prog", "-v", "a.proto"])).unwrap();
    assert_eq!(o.file, "a.proto");
    assert!(o.verbose);
    let o = opts(args(&["prog", "a.proto", "-v"])).unwrap();
    assert_eq!(o.file, "a.proto");
    assert!(o.verbose);
}

#[test]
fn missing_file() {
    assert!(opts(args(&["prog"])).is_none());
    assert!(opts(args(&["prog", "-v"])).is_none());
}
