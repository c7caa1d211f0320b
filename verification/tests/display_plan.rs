use flowengine::display::{
    closest_mode_index, pick_crtc, pick_egl_config, plan_display, primary_mode_index, refresh_gap,
    ConnectorInfo, DisplayError, ModeInfo, OutputPlan, XRGB8888_VISUAL,
};

fn mode(width: u16, height: u16, vrefresh: u32, preferred: bool) -> ModeInfo {
    ModeInfo { width, height, vrefresh, preferred }
}

#[test]
fn primary_mode_is_the_first_preferred() {
    let modes = vec![mode(640, 480, 60, false), mode(1920, 1080, 60, true), mode(1280, 720, 60, true)];
    assert_eq!(primary_mode_index(&modes), 1);
    let plain = vec![mode(640, 480, 60, false), mode(800, 600, 60, false)];
    assert_eq!(primary_mode_index(&plain), 0);
}

#[test]
fn refresh_gap_measures_distance_from_60() {
    assert_eq!(refresh_gap(60), 0);
    assert_eq!(refresh_gap(50), 10);
    assert_eq!(refresh_gap(144), 84);
}

#[test]
fn closest_mode_prefers_60hz_and_the_first_on_ties() {
    let modes = vec![
        mode(1920, 1080, 120, false),
        mode(1280, 720, 60, false),
        mode(1920, 1080, 50, false),
        mode(1920, 1080, 70, false),
        mode(1920, 1080, 60, false),
    ];
    assert_eq!(closest_mode_index(&modes, (1920, 1080)), Some(4));
    let tie = vec![mode(1920, 1080, 50, false), mode(1920, 1080, 70, false)];
    assert_eq!(closest_mode_index(&tie, (1920, 1080)), Some(0));
    assert_eq!(closest_mode_index(&modes, (800, 600)), None);
}

#[test]
fn crtc_choice_keeps_a_free_current_crtc() {
    assert_eq!(pick_crtc(Some(7), &vec![], &vec![3, 7]), Some(7));
    assert_eq!(pick_crtc(Some(7), &vec![7], &vec![7, 3, 9]), Some(3));
    assert_eq!(pick_crtc(None, &vec![3], &vec![3, 9]), Some(9));
    assert_eq!(pick_crtc(None, &vec![3, 9], &vec![3, 9]), None);
}

#[test]
fn no_connected_connector() {
    let conns = vec![
        ConnectorInfo { connected: false, modes: vec![mode(1920, 1080, 60, true)], current_crtc: None },
        ConnectorInfo { connected: true, modes: vec![], current_crtc: None },
    ];
    assert_eq!(plan_display(&conns, &vec![1, 2]).unwrap_err(), DisplayError::NoConnector);
    assert_eq!(plan_display(&vec![], &vec![1]).unwrap_err(), DisplayError::NoConnector);
}

#[test]
fn no_usable_output_without_crtcs() {
    let conns = vec![ConnectorInfo { connected: true, modes: vec![mode(1280, 720, 60, true)], current_crtc: None }];
    assert_eq!(plan_display(&conns, &vec![]).unwrap_err(), DisplayError::NoUsableOutput);
}

#[test]
fn two_screens_mirror_on_distinct_crtcs() {
    let conns = vec![
        ConnectorInfo {
            connected: true,
            modes: vec![mode(1920, 1080, 60, true), mode(1280, 720, 60, false)],
            current_crtc: Some(40),
        },
        ConnectorInfo { connected: false, modes: vec![mode(1920, 1080, 60, true)], current_crtc: None },
        ConnectorInfo {
            connected: true,
            modes: vec![mode(1920, 1080, 120, true), mode(1920, 1080, 60, false)],
            current_crtc: Some(40),
        },
        ConnectorInfo { connected: true, modes: vec![mode(1024, 768, 60, true)], current_crtc: None },
    ];
    let plan = plan_display(&conns, &vec![40, 41]).unwrap();
    assert_eq!((plan.width, plan.height), (1920, 1080));
    assert_eq!(
        plan.outputs,
        vec![
            OutputPlan { connector: 0, crtc: 40, mode: 0 },
            OutputPlan { connector: 2, crtc: 41, mode: 1 },
        ]
    );
}

#[test]
fn egl_config_prefers_xrgb8888() {
    assert_eq!(pick_egl_config(&vec![]), None);
    assert_eq!(pick_egl_config(&vec![5, 0, XRGB8888_VISUAL, XRGB8888_VISUAL]), Some(2));
    assert_eq!(pick_egl_config(&vec![5, 0x30334241]), Some(0));
    assert_eq!(XRGB8888_VISUAL as u32, 0x3432_5258);
}
