use flowengine::session::session_paths;

#[test]
fn paths_of_the_invoking_user() {
    let (run, pulse) = session_paths("1000");
    assert_eq!(run, "/run/user/1000");
    assert_eq!(pulse, "unix:/run/user/1000/pulse/native");
}
