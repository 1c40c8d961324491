use beyond_blue::BlueError;

#[test]
fn it_works() {
    let result = 2 + 2;
    assert_eq!(result, 4);
}

#[test]
fn lib_it_works() {
    let result = 2 + 2;
    assert_eq!(result, 4);
}

#[test]
fn local_err_wraps_message() {
    let e = BlueError::local_err(String::from("bad address"));
    assert!(matches!(e, BlueError::Local(m) if m == "bad address"));
}

#[test]
fn remote_err_wraps_message() {
    let e = BlueError::remote_err(String::from("peer refused"));
    assert!(matches!(e, BlueError::Remote(m) if m == "peer refused"));
}

#[test]
fn describe_tags_variants() {
    assert_eq!(
        BlueError::local_err(String::from("x")).describe(),
        "local error: x"
    );
    assert_eq!(
        BlueError::remote_err(String::from("y")).describe(),
        "remote error: y"
    );
    assert_eq!(BlueError::Io(String::from("z")).describe(), "io error: z");
}
