use script_utils::pipewire::{
    get_sinks, is_not_plugged_in, parse_sink_input_ids, rotate_sink, Device, DeviceInfo,
    DeviceProps, Direction, Node, NodeInfo, NodeProps, Params, Profile, SinkError,
};

fn node(name: &str, description: &str, media_class: &str, device_id: usize) -> Node {
    Node {
        id: device_id * 10,
        node_type: "PipeWire:Interface:Node".to_string(),
        info: NodeInfo {
            props: NodeProps {
                device_id,
                device_api: "alsa".to_string(),
                device_class: "sound".to_string(),
                device_profile_description: Some("Speakers".to_string()),
                device_profile_name: Some("analog-stereo".to_string()),
                node_name: name.to_string(),
                node_description: description.to_string(),
                node_nick: description.to_string(),
                object_id: device_id * 10,
                object_path: format!("alsa:{name}"),
                object_serial: device_id * 100,
                media_class: media_class.to_string(),
                client_id: 33,
            },
            state: "running".to_string(),
        },
    }
}

fn device(id: usize, profiles: Vec<Profile>, routes: Vec<Profile>) -> Device {
    Device {
        id,
        device_type: "PipeWire:Interface:Device".to_string(),
        info: DeviceInfo {
            props: DeviceProps {
                device_api: "alsa".to_string(),
                device_description: "Card".to_string(),
                device_name: format!("card{id}"),
                object_id: id,
                object_path: None,
                object_serial: id * 100,
                media_class: "Audio/Device".to_string(),
                client_id: 33,
            },
            params: Params { profiles, routes },
        },
    }
}

fn profile(name: &str, description: &str, available: &str) -> Profile {
    Profile {
        index: 0,
        name: name.to_string(),
        description: description.to_string(),
        available: available.to_string(),
    }
}

#[test]
fn keeps_only_plugged_in_audio_sinks() {
    let devices = vec![
        // Device 1: the matching profile says the jack is unplugged.
        device(1, vec![profile("p", "Speakers", "no")], vec![]),
        // Device 2: the matching route says the jack is plugged in.
        device(2, vec![], vec![profile("output:analog-stereo", "other", "yes")]),
    ];
    let nodes = vec![
        node("unplugged", "Internal Speakers", "Audio/Sink", 1),
        node("plugged", "USB Headset", "Audio/Sink", 2),
        node("camera", "Webcam", "Video/Source", 2),
        node("spdif", "USB Audio S/PDIF Output", "Audio/Sink", 2),
    ];

    let sinks = get_sinks(devices, nodes);
    assert_eq!(sinks.len(), 1);
    assert_eq!(sinks[0].info.props.node_name, "plugged");
}

#[test]
fn unknown_availability_counts_as_plugged_in() {
    let devices = vec![device(1, vec![profile("p", "Speakers", "unknown")], vec![])];
    let n = node("sink", "Internal Speakers", "Audio/Sink", 1);
    assert!(!is_not_plugged_in(&n, &devices));
}

#[test]
fn missing_profile_info_counts_as_plugged_in() {
    let devices = vec![device(1, vec![profile("p", "Speakers", "no")], vec![])];
    let mut n = node("sink", "Bluetooth Headset", "Audio/Sink", 1);
    n.info.props.device_profile_description = None;
    assert!(!is_not_plugged_in(&n, &devices));
}

#[test]
fn unknown_device_counts_as_plugged_in() {
    let devices = vec![device(7, vec![profile("p", "Speakers", "no")], vec![])];
    let n = node("sink", "Internal Speakers", "Audio/Sink", 1);
    assert!(!is_not_plugged_in(&n, &devices));
}

#[test]
fn route_matched_by_profile_name_prefix() {
    // The route is found through the `output:` prefix rule, and reports the
    // jack as unplugged.
    let devices = vec![
        device(1, vec![], vec![profile("output:analog-stereo", "other", "no")]),
    ];
    let n = node("sink", "Internal Speakers", "Audio/Sink", 1);
    assert!(is_not_plugged_in(&n, &devices));
}

fn three_sinks() -> Vec<Node> {
    vec![
        node("a", "A", "Audio/Sink", 1),
        node("b", "B", "Audio/Sink", 2),
        node("c", "C", "Audio/Sink", 3),
    ]
}

#[test]
fn rotates_to_next_and_previous_sink() {
    let next = rotate_sink(Direction::Next, "b".to_string(), three_sinks())
        .unwrap()
        .unwrap();
    assert_eq!(next.info.props.node_name, "c");

    let prev = rotate_sink(Direction::Previous, "b".to_string(), three_sinks())
        .unwrap()
        .unwrap();
    assert_eq!(prev.info.props.node_name, "a");

    // The rotation wraps around at both ends.
    let wrapped = rotate_sink(Direction::Next, "c".to_string(), three_sinks())
        .unwrap()
        .unwrap();
    assert_eq!(wrapped.info.props.node_name, "a");

    let wrapped = rotate_sink(Direction::Previous, "a".to_string(), three_sinks())
        .unwrap()
        .unwrap();
    assert_eq!(wrapped.info.props.node_name, "c");
}

#[test]
fn rotation_errors_name_the_problem() {
    assert_eq!(
        rotate_sink(Direction::Next, "a".to_string(), vec![]).err(),
        Some(SinkError::NoSinks)
    );
    let nodes = vec![node("a", "A", "Audio/Sink", 1)];
    assert_eq!(
        rotate_sink(Direction::Next, "missing".to_string(), nodes).err(),
        Some(SinkError::CurrentSinkNotFound)
    );
}

#[test]
fn rotating_a_single_sink_returns_it() {
    let nodes = vec![node("only", "Only", "Audio/Sink", 1)];
    let target = rotate_sink(Direction::Next, "only".to_string(), nodes)
        .unwrap()
        .unwrap();
    assert_eq!(target.info.props.node_name, "only");
}

#[test]
fn extracts_sink_input_ids() {
    let output = "188\t56\t187\tPipeWire\tfloat32le 2ch 48000Hz\n\n23\t7\t9\n   \n42\n";
    let ids = parse_sink_input_ids(output);
    assert_eq!(ids, vec!["188".to_string(), "23".to_string(), "42".to_string()]);
}

#[test]
fn no_input_ids_in_empty_output() {
    assert_eq!(parse_sink_input_ids("").len(), 0);
    assert_eq!(parse_sink_input_ids("\n").len(), 0);
}
