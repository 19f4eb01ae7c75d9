use std::time::Duration;

use sinowealth_isp::device_spec::DeviceSpec;
use sinowealth_isp::platform_spec::PlatformSpec;
use sinowealth_isp::progress::{Progress, ProgressReporter, Render};
use sinowealth_isp::sleep::Sleep;

#[test]
fn reporter_renders_events() {
    let mut r = ProgressReporter::new();
    assert_eq!(r.report(Progress::TaskAdvance), Render::Nothing);
    assert_eq!(r.report(Progress::TaskFinish), Render::Nothing);
    assert_eq!(r.report(Progress::Status("Erasing...")), Render::Line("Erasing..."));
    assert_eq!(
        r.report(Progress::TaskStart { label: "Writing...", total: 3 }),
        Render::StartBar { label: "Writing...", total: 3 }
    );
    assert_eq!(r.current_bar(), Some((3, 0)));
    assert_eq!(r.report(Progress::TaskAdvance), Render::AdvanceBar);
    assert_eq!(r.report(Progress::Status("x")), Render::Line("x"));
    assert_eq!(r.report(Progress::TaskAdvance), Render::AdvanceBar);
    assert_eq!(r.current_bar(), Some((3, 2)));
    assert_eq!(r.report(Progress::TaskFinish), Render::FinishBar);
    assert_eq!(r.current_bar(), None);
    assert_eq!(r.report(Progress::TaskAdvance), Render::Nothing);
    assert_eq!(r.report(Progress::TaskFinish), Render::Nothing);
}

#[test]
fn sleep_starts_its_timer_once() {
    let mut s = Sleep::new(Duration::from_millis(2000));
    assert_eq!(s.duration_value(), Duration::from_millis(2000));
    assert!(s.start());
    assert!(!s.start());
    assert!(!s.start());
    assert_eq!(s.duration_value(), Duration::from_millis(2000));
}

#[test]
fn num_pages_of_device() {
    let d = DeviceSpec { platform: PlatformSpec::sh68f90(), reboot: false };
    assert_eq!(d.num_pages(), 30);
    let d = DeviceSpec { platform: PlatformSpec::sh68f902(), reboot: true };
    assert_eq!(d.num_pages(), 13);
}

#[test]
fn bar_counts_advances_between_statuses() {
    let mut r = ProgressReporter::new();
    r.report(Progress::TaskStart { label: "Reading...", total: 30 });
    for i in 0..7 {
        r.report(Progress::TaskAdvance);
        if i % 2 == 0 {
            r.report(Progress::Status("note"));
        }
    }
    assert_eq!(r.current_bar(), Some((30, 7)));
    // a new task replaces the bar and starts it over
    r.report(Progress::TaskStart { label: "Writing...", total: 5 });
    assert_eq!(r.current_bar(), Some((5, 0)));
}
