use btracked::config::{
    default_100, default_1, default_config, default_log, default_some_30, default_true,
    version_0, DataBitsDef, FlowControlDef, MeasurementSource, ParityDef, StopBitsDef,
};
use btracked::field::DistanceField;
use btracked::instance::{resolve_beacon, InstanceAction, InstanceCommand, InstanceCore};
use btracked::types::{majority_mode, ParticleMode};
use btracked::types::ParticleMode::{Moving, Stationary};

#[test]
fn distance_field_len_is_width_times_height() {
    let data: Vec<[i32; 2]> = (0..6).map(|n| [n, -n]).collect();
    let field = DistanceField::new(3, 2, data);
    assert_eq!(field.len(), 6);
}

#[test]
fn query_answers_inside_the_grid_and_only_there() {
    let data: Vec<u16> = (0..12).collect();
    let field = DistanceField::new(4, 3, data);
    // Row-major: cell (x, y) is data[y * width + x].
    assert_eq!(field.query(0, 0), Some(0));
    assert_eq!(field.query(3, 0), Some(3));
    assert_eq!(field.query(0, 2), Some(8));
    assert_eq!(field.query(2, 1), Some(6));
    assert_eq!(field.query(4, 0), None);
    assert_eq!(field.query(0, 3), None);
    assert_eq!(field.query(u32::MAX, u32::MAX), None);
}

#[test]
fn commands_buffer_measurements_until_the_tick() {
    let mut core: InstanceCore<u32> = InstanceCore::new(50);
    assert_eq!(core.handle_cmd(InstanceCommand::NewMeasurement(vec![1, 2])), InstanceAction::Buffered);
    assert_eq!(core.handle_cmd(InstanceCommand::GetSnapshot(64)), InstanceAction::ReplySnapshot(64));
    assert_eq!(core.handle_cmd(InstanceCommand::GetTarget), InstanceAction::ReplyTarget);
    assert_eq!(core.handle_cmd(InstanceCommand::NewMeasurement(vec![3])), InstanceAction::Buffered);
    assert_eq!(core.measurement_buffer, vec![1, 2, 3]);

    // The tick consumes the whole buffer exactly once.
    assert_eq!(core.take_buffer(), vec![1, 2, 3]);
    assert!(core.measurement_buffer.is_empty());
    assert!(core.take_buffer().is_empty());
}

#[test]
fn beacon_resolution_uses_mapping_with_raw_fallback() {
    let mapping = vec![("aabbccddeeff".to_owned(), "source-1".to_owned())];
    let sources = vec![
        ("source-1".to_owned(), 100u32),
        ("001122334455".to_owned(), 200u32),
    ];
    // A mapped mac resolves through the mapping.
    let i = resolve_beacon(&mapping, &sources, &"aabbccddeeff".to_owned());
    assert_eq!(i, Some(0));
    // An unmapped mac falls back to the raw mac string.
    let i = resolve_beacon(&mapping, &sources, &"001122334455".to_owned());
    assert_eq!(i, Some(1));
    // An unknown beacon is dropped.
    assert_eq!(resolve_beacon(&mapping, &sources, &"ffffffffffff".to_owned()), None);
}

#[test]
fn estimate_mode_follows_the_strict_majority() {
    assert_eq!(majority_mode(&vec![Stationary, Stationary, Moving]), Stationary);
    assert_eq!(majority_mode(&vec![Stationary, Moving]), Moving);
    assert_eq!(majority_mode(&vec![Moving, Moving, Stationary]), Moving);
    assert_eq!(majority_mode(&Vec::new()), Moving);
}

#[test]
fn configuration_defaults_match_the_documented_values() {
    assert!(default_true());
    assert_eq!(default_1(), 1);
    assert_eq!(default_100(), 100);
    assert_eq!(default_some_30(), Some(30));
    assert_eq!(default_log(), "warn");
    assert_eq!(version_0(), "0");
}

#[test]
fn default_configuration_is_a_serial_stdout_gateway() {
    let c = default_config();
    assert_eq!(c.log, "warn");
    match c.source {
        MeasurementSource::Serial { path, version, options } => {
            assert_eq!(path.as_deref(), Some("COM1"));
            assert_eq!(version, 1);
            assert_eq!(options.baud_rate, 921600);
            assert_eq!(options.data_bits, DataBitsDef::Eight);
            assert_eq!(options.stop_bits, StopBitsDef::One);
            assert_eq!(options.parity, ParityDef::NoParity);
            assert_eq!(options.flow_control, FlowControlDef::NoFlowControl);
        },
        _ => panic!("expected a serial source"),
    }
    assert_eq!(c.destination.len(), 1);
}
