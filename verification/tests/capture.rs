use clips::d3d::{
    adapter_for_monitor, driver_type, find_output, list_monitors, resolve_monitor, trim_nuls,
    DriverType, OutputDesc,
};
use clips::dupl::{
    acquire_step, output_for, pause, qpc_freq, reacquire_step, AcquireStep, Acquired, DuplError,
    ReacquireStep, DXGI_ERROR_ACCESS_LOST, DXGI_ERROR_WAIT_TIMEOUT,
};

fn output(adapter: u32, attached: bool, name: &str, left: i32, right: i32, monitor: isize) -> OutputDesc {
    OutputDesc { adapter, attached, name: name.to_string(), left, top: 0, right, bottom: 1080, monitor }
}

fn outputs() -> Vec<OutputDesc> {
    vec![
        output(0, true, "\\\\.\\DISPLAY1\0\0\0", 0, 1920, 11),
        output(0, false, "\\\\.\\DISPLAY2", 0, 0, 12),
        output(1, true, "\\\\.\\DISPLAY3\0", 1920, 4480, 13),
    ]
}

#[test]
fn attached_outputs_are_numbered() {
    let m = list_monitors(&outputs(), 13);
    assert_eq!(m.len(), 2);
    assert_eq!((m[0].index, m[0].name.as_str(), m[0].width), (1, "\\\\.\\DISPLAY1", 1920));
    assert_eq!((m[0].height, m[0].primary, m[0].hmonitor), (1080, false, 11));
    assert_eq!((m[1].index, m[1].name.as_str(), m[1].width), (2, "\\\\.\\DISPLAY3", 2560));
    assert!(m[1].primary);
    assert!(list_monitors(&vec![], 1).is_empty());
}

#[test]
fn gone_monitors_fall_back_to_the_primary_one() {
    let m = list_monitors(&outputs(), 13);
    assert_eq!(resolve_monitor(0, &m, 13), 13);
    assert_eq!(resolve_monitor(1, &m, 13), 11);
    assert_eq!(resolve_monitor(2, &m, 99), 13);
    assert_eq!(resolve_monitor(3, &m, 13), 13);
}

#[test]
fn adapters_are_found_by_their_monitor() {
    assert_eq!(adapter_for_monitor(&outputs(), 13), Some(1));
    assert_eq!(adapter_for_monitor(&outputs(), 12), Some(0));
    assert_eq!(adapter_for_monitor(&outputs(), 14), None);
    assert_eq!(find_output(&outputs(), 13), Some(2));
    assert_eq!(driver_type(true), DriverType::Unknown);
    assert_eq!(driver_type(false), DriverType::Hardware);
}

#[test]
fn padding_goes() {
    assert_eq!(trim_nuls("a\0b\0\0"), "a\0b");
    assert_eq!(trim_nuls("\0\0"), "");
    assert_eq!(trim_nuls("ab"), "ab");
}

#[test]
fn outputs_are_found_for_duplication() {
    let o = output_for(&outputs(), 13).ok().unwrap();
    assert_eq!((o.position, o.width, o.height), (2, 2560, 1080));
    assert_eq!(output_for(&outputs(), 12).err(), Some(DuplError::NoOutput));
    assert_eq!(output_for(&vec![], 11).err(), Some(DuplError::NoOutput));
    assert_eq!(DuplError::NoOutput.message(), "no DXGI output for capture monitor");
    // Mirrored coordinates have a size too.
    let o = output_for(&vec![output(0, true, "", 1920, 0, 5)], 5).ok().unwrap();
    assert_eq!(o.width, 1920);
}

#[test]
fn attempts_are_judged() {
    assert_eq!(qpc_freq(0), 1);
    assert_eq!(qpc_freq(10_000_000), 10_000_000);
    assert_eq!(acquire_step(Acquired::Frame(0), 3), AcquireStep::CursorOnly);
    assert_eq!(acquire_step(Acquired::Frame(6), 3), AcquireStep::Image(20_000_000));
    assert_eq!(acquire_step(Acquired::Frame(1), 3), AcquireStep::Image(3_333_333));
    assert_eq!(acquire_step(Acquired::Failed(DXGI_ERROR_WAIT_TIMEOUT), 3), AcquireStep::Again);
    assert_eq!(acquire_step(Acquired::Failed(DXGI_ERROR_ACCESS_LOST), 3), AcquireStep::Reacquire);
    assert_eq!(acquire_step(Acquired::Failed(0x887A_0005), 3), AcquireStep::Close);
}

#[test]
fn attempts_are_spaced() {
    assert_eq!(pause(true, 60, 0), Some(12_500_000));
    assert_eq!(pause(true, 60, 12_500_000), Some(0));
    assert_eq!(pause(true, 60, 12_500_001), None);
    assert_eq!(pause(false, 60, 1_000_000), Some(3_000_000));
    assert_eq!(pause(false, 60, 4_000_001), None);
    assert_eq!(pause(true, 0, 0), Some(750_000_000));
    assert_eq!(pause(true, 144, 0), Some(5_208_000));
}

#[test]
fn a_lost_output_is_duplicated_again() {
    assert_eq!(reacquire_step(true, Some((800, 600)), 800, 600), ReacquireStep::Stop);
    assert_eq!(reacquire_step(false, None, 800, 600), ReacquireStep::RetryLater);
    assert_eq!(reacquire_step(false, Some((800, 600)), 800, 600), ReacquireStep::Ready);
    assert_eq!(reacquire_step(false, Some((600, 800)), 800, 600), ReacquireStep::SizeChanged);
}

#[test]
fn only_outputs_that_are_shown_need_a_size() {
    let mut all = outputs();
    all[1].left = i32::MIN;
    all[1].right = i32::MAX;
    assert!(!all[1].has_size() && all[0].has_size() && all[2].has_size());
    assert_eq!(list_monitors(&all, 13).len(), 2);
    assert_eq!(output_for(&all, 13).ok().unwrap().width, 2560);
    let backwards = output(0, true, "b", 1, i32::MIN + 1, 5);
    assert!(backwards.has_size());
    assert_eq!(list_monitors(&vec![backwards], 5)[0].width, 1 << 31);
}
