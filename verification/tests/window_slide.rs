use flowengine::window::push_recent;

#[test]
fn fewer_samples_than_the_window_shift_in_at_the_end() {
    let mut w = [1.0f32, 2.0, 3.0, 4.0];
    push_recent(&mut w, &[9.0, 8.0, 7.0], 2);
    assert_eq!(w, [3.0, 4.0, 9.0, 8.0]);
}

#[test]
fn more_samples_than_the_window_keep_the_newest() {
    let mut w = vec![0i32; 3];
    push_recent(&mut w, &[1, 2, 3, 4, 5, 6], 5);
    assert_eq!(w, vec![3, 4, 5]);
}

#[test]
fn no_samples_leave_the_window_alone() {
    let mut w = [5u8, 6, 7];
    push_recent(&mut w, &[1, 2], 0);
    assert_eq!(w, [5, 6, 7]);
}

#[test]
fn two_pushes_equal_one_push_of_both() {
    let mut a = [1, 2, 3, 4, 5];
    push_recent(&mut a, &[10, 11], 2);
    push_recent(&mut a, &[12, 13, 14], 3);
    let mut b = [1, 2, 3, 4, 5];
    push_recent(&mut b, &[10, 11, 12, 13, 14], 5);
    assert_eq!(a, b);
    assert_eq!(a, [10, 11, 12, 13, 14]);
}

#[test]
fn full_window_of_1024_from_drained_ring() {
    let mut w = vec![0.0f32; 1024];
    let ring: Vec<f32> = (0..4096).map(|i| i as f32).collect();
    push_recent(&mut w, &ring, 3000);
    assert_eq!(w[0], 1976.0);
    assert_eq!(w[1023], 2999.0);
}
