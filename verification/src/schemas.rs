//! Plain data types mirroring the JSON output of external system tools:
//! `ip -j addr` and `pw-dump`.  The host parses the JSON and hands these
//! values to the library.

use vstd::prelude::*;

verus! {

/// The entry struct for `ip -j addr` output.
pub struct Interface {
    pub ifname: String,
    pub addr_info: Vec<AddrInfo>,
    pub operstate: String,
}

/// One address of an interface.
pub struct AddrInfo {
    pub family: String,
    pub local: String,
}

/// Representation of a Pipewire object in raw `pw-dump` output.
pub struct Device {
    pub id: usize,
    pub info: Option<Info>,
    pub device_type: String,
    pub version: usize,
    pub permissions: Vec<String>,
}

/// Detailed info about a device.
pub struct Info {
    pub props: Option<Props>,
    pub error: Option<String>,
    pub max_input_ports: Option<usize>,
    pub max_output_ports: Option<usize>,
    pub change_mask: Vec<String>,
    pub n_input_ports: Option<usize>,
    pub n_output_ports: Option<usize>,
}

/// The properties of a device.
pub struct Props {
    pub media_class: Option<String>,
    pub device_id: Option<usize>,
    pub node_description: Option<String>,
    pub object_serial: usize,
    pub api_alsa_path: Option<String>,
    pub api_alsa_card: Option<usize>,
    pub api_alsa_card_name: Option<String>,
    pub api_alsa_card_longname: Option<String>,
}

} // verus!
