//! Selection logic for Pipewire audio sinks.
//!
//! The host tool obtains the device and node tables from `pw-dump` and the
//! current default sink from `pactl`; everything here is the pure logic that
//! decides which nodes are usable sinks and which sink comes next when the
//! user rotates through them.

use vstd::prelude::*;

use crate::ring::Ring;
use crate::strings::{
    chars_of, spec_split_lines, split_lines, str_eq, str_eq_concat, string_of_chars, trimmed,
    trimmed_chars, until_char, prefix_until,
};

verus! {

/// Representation of a Pipewire node (one playback endpoint).
pub struct Node {
    pub id: usize,
    pub node_type: String,
    pub info: NodeInfo,
}

/// Detailed info about a node.
pub struct NodeInfo {
    pub props: NodeProps,
    pub state: String,
}

pub struct NodeProps {
    /// Info about the parent device this node belongs to.
    pub device_id: usize,
    pub device_api: String,
    pub device_class: String,
    /// Info about the device profile this node belongs to.  Devices that are
    /// only present while connected (such as Bluetooth headsets) carry none.
    pub device_profile_description: Option<String>,
    pub device_profile_name: Option<String>,
    /// Info about this very node.
    pub node_name: String,
    pub node_description: String,
    pub node_nick: String,
    /// The object properties of this node.
    pub object_id: usize,
    pub object_path: String,
    pub object_serial: usize,
    /// The media info of this node.
    pub media_class: String,
    /// The client this node belongs to.
    pub client_id: usize,
}

/// Representation of a Pipewire device.
pub struct Device {
    pub id: usize,
    pub info: DeviceInfo,
    pub device_type: String,
}

/// Detailed info about a device.
pub struct DeviceInfo {
    pub props: DeviceProps,
    pub params: Params,
}

pub struct DeviceProps {
    pub device_api: String,
    pub device_description: String,
    pub device_name: String,
    pub object_id: usize,
    pub object_path: Option<String>,
    pub object_serial: usize,
    pub media_class: String,
    pub client_id: usize,
}

pub struct Params {
    pub profiles: Vec<Profile>,
    pub routes: Vec<Profile>,
}

/// A device can have multiple in-/outgoing routes, each with its own
/// profile.  The profile tells, among other things, whether a cable is
/// plugged in (`available` is `"yes"`, `"no"` or `"unknown"`).
pub struct Profile {
    pub index: usize,
    pub name: String,
    pub description: String,
    pub available: String,
}

/// Which neighbor of the current sink to rotate to.
#[derive(Debug, Clone, Copy)]
pub enum Direction {
    Next,
    Previous,
}

/// Why a sink rotation could not name a target sink.
#[derive(Debug, Clone, Copy, PartialEq, Eq, Structural)]
pub enum SinkError {
    /// There are no usable sinks at all.
    NoSinks,
    /// None of the sinks carries the name reported as the current default.
    CurrentSinkNotFound,
}

/// The first device carrying the given id, if any.
pub open spec fn find_device(devices: Seq<Device>, id: int) -> Option<Device>
    decreases devices.len(),
{
    if devices.len() == 0 {
        None
    } else if devices[0].id == id {
        Some(devices[0])
    } else {
        find_device(devices.drop_first(), id)
    }
}

/// Whether a profile belongs to the node profile named `pn` and described by
/// `pd`: either the description matches exactly, or the profile's name is the
/// node's profile name prefixed with `output:`.
pub open spec fn profile_matches(p: Profile, pd: Seq<char>, pn: Seq<char>) -> bool {
    p.description@ == pd || p.name@ == "output:"@ + pn
}

/// The first profile matching the node's profile, if any.
pub open spec fn find_matching_profile(ps: Seq<Profile>, pd: Seq<char>, pn: Seq<char>) -> Option<
    Profile,
>
    decreases ps.len(),
{
    if ps.len() == 0 {
        None
    } else if profile_matches(ps[0], pd, pn) {
        Some(ps[0])
    } else {
        find_matching_profile(ps.drop_first(), pd, pn)
    }
}

/// Whether the physical connection for a node can be said, with certainty,
/// not to be plugged in: its device is known, a profile or route of that
/// device matches the node's profile, and that profile reports `"no"` for
/// availability.  Every doubtful case counts as plugged in.
pub open spec fn spec_not_plugged_in(node: Node, devices: Seq<Device>) -> bool {
    match (node.info.props.device_profile_description, node.info.props.device_profile_name) {
        (Some(pd), Some(pn)) => match find_device(devices, node.info.props.device_id as int) {
            Some(d) => match find_matching_profile(d.info.params.profiles@, pd@, pn@) {
                Some(p) => p.available@ == "no"@,
                None => match find_matching_profile(d.info.params.routes@, pd@, pn@) {
                    Some(p) => p.available@ == "no"@,
                    None => false,
                },
            },
            None => false,
        },
        _ => false,
    }
}

/// A node that `get_sinks` keeps: an audio sink, not on the ignore list, and
/// not known to be unplugged.
pub open spec fn spec_valid_sink(node: Node, devices: Seq<Device>) -> bool {
    &&& node.info.props.media_class@ == "Audio/Sink"@
    &&& node.info.props.node_description@ != "USB Audio S/PDIF Output"@
    &&& !spec_not_plugged_in(node, devices)
}

/// Skipping past devices with other ids does not change which device is
/// found.
proof fn lemma_find_device_skip(devices: Seq<Device>, id: int, i: int)
    requires
        0 <= i <= devices.len(),
        forall|j: int| 0 <= j < i ==> (#[trigger] devices[j]).id != id,
    ensures
        find_device(devices, id) == find_device(devices.skip(i), id),
    decreases i,
{
    if i > 0 {
        lemma_find_device_skip(devices.drop_first(), id, i - 1);
        assert(devices.drop_first().skip(i - 1) =~= devices.skip(i));
    } else {
        assert(devices.skip(0) =~= devices);
    }
}

/// Skipping past non-matching profiles does not change which profile is
/// found.
proof fn lemma_find_matching_skip(ps: Seq<Profile>, pd: Seq<char>, pn: Seq<char>, i: int)
    requires
        0 <= i <= ps.len(),
        forall|j: int| 0 <= j < i ==> !profile_matches(#[trigger] ps[j], pd, pn),
    ensures
        find_matching_profile(ps, pd, pn) == find_matching_profile(ps.skip(i), pd, pn),
    decreases i,
{
    if i > 0 {
        lemma_find_matching_skip(ps.drop_first(), pd, pn, i - 1);
        assert(ps.drop_first().skip(i - 1) =~= ps.skip(i));
    } else {
        assert(ps.skip(0) =~= ps);
    }
}

/// The first profile of `ps` that matches the node profile described by `pd`
/// and named `pn`, if any.
fn find_matching_profile_in<'a>(ps: &'a Vec<Profile>, pd: &String, pn: &String) -> (r: Option<
    &'a Profile,
>)
    ensures
        match r {
            Some(p) => find_matching_profile(ps@, pd@, pn@) == Some(*p),
            None => find_matching_profile(ps@, pd@, pn@) is None,
        },
{
    let n = ps.len();
    let mut i: usize = 0;
    while i < n
        invariant
            i <= n,
            n == ps@.len(),
            forall|j: int| 0 <= j < i ==> !profile_matches(#[trigger] ps@[j], pd@, pn@),
        decreases n - i,
    {
        let by_description = str_eq(ps[i].description.as_str(), pd.as_str());
        let by_name = str_eq_concat(ps[i].name.as_str(), "output:", pn.as_str());
        if by_description || by_name {
            proof {
                lemma_find_matching_skip(ps@, pd@, pn@, i as int);
                assert(ps@.skip(i as int)[0] == ps@[i as int]);
            }
            return Some(&ps[i]);
        }
        i = i + 1;
    }
    proof {
        lemma_find_matching_skip(ps@, pd@, pn@, n as int);
        assert(ps@.skip(n as int) =~= Seq::<Profile>::empty());
    }
    None
}

/// Check whether the physical connection for a node is actually plugged in
/// or not.  To check this, search the associated device for the node, go
/// through its profiles and routes, and read the availability of the one
/// matching the node's profile.  Every error case is handled gracefully as
/// "not known to be unplugged".
pub fn is_not_plugged_in(node: &Node, devices: &Vec<Device>) -> (r: bool)
    ensures
        r == spec_not_plugged_in(*node, devices@),
{
    // Without a device profile description and name we cannot check whether
    // the node is actually plugged in.
    let pd = match &node.info.props.device_profile_description {
        Some(pd) => pd,
        None => {
            return false;
        },
    };
    let pn = match &node.info.props.device_profile_name {
        Some(pn) => pn,
        None => {
            return false;
        },
    };

    // Get the device.
    let nd = devices.len();
    let mut di: usize = 0;
    while di < nd
        invariant
            di <= nd,
            nd == devices@.len(),
            node.info.props.device_profile_description == Some(*pd),
            node.info.props.device_profile_name == Some(*pn),
            forall|j: int| 0 <= j < di ==> (#[trigger] devices@[j]).id != node.info.props.device_id,
        decreases nd - di,
    {
        if devices[di].id == node.info.props.device_id {
            let device = &devices[di];
            proof {
                lemma_find_device_skip(devices@, node.info.props.device_id as int, di as int);
                assert(devices@.skip(di as int)[0] == devices@[di as int]);
            }
            // Go through all profiles, then through all routes; some profile
            // names reference routes.
            let found = match find_matching_profile_in(&device.info.params.profiles, pd, pn) {
                Some(profile) => Some(profile),
                None => find_matching_profile_in(&device.info.params.routes, pd, pn),
            };
            // If we found a matching profile, check if it's not plugged in.
            let unplugged = match found {
                Some(profile) => str_eq(profile.available.as_str(), "no"),
                None => false,
            };
            proof {
                assert(find_device(devices@, node.info.props.device_id as int) == Some(
                    devices@[di as int],
                ));
                assert(unplugged == spec_not_plugged_in(*node, devices@));
            }
            return unplugged;
        }
        di = di + 1;
    }
    proof {
        lemma_find_device_skip(devices@, node.info.props.device_id as int, nd as int);
        assert(devices@.skip(nd as int) =~= Seq::<Device>::empty());
    }
    false
}

/// Keep the audio sink nodes that are usable: of `Audio/Sink` media class,
/// not on the ignore list (the S/PDIF output is uninteresting), and not
/// known to be unplugged.
pub fn get_sinks(devices: Vec<Device>, nodes: Vec<Node>) -> (r: Vec<Node>)
    ensures
        r@ == nodes@.filter(|n: Node| spec_valid_sink(n, devices@)),
{
    let ghost orig = nodes@;
    let ghost pred = |n: Node| spec_valid_sink(n, devices@);
    let mut remaining = nodes;
    let mut valid_nodes: Vec<Node> = Vec::new();
    proof {
        assert(orig.skip(0) =~= orig);
        assert(orig.take(0).filter(pred) =~= Seq::<Node>::empty());
    }
    while remaining.len() > 0
        invariant
            remaining@.len() <= orig.len(),
            remaining@ == orig.skip(orig.len() - remaining@.len()),
            pred == (|n: Node| spec_valid_sink(n, devices@)),
            valid_nodes@ == orig.take(orig.len() - remaining@.len()).filter(pred),
        decreases remaining@.len(),
    {
        let ghost i = orig.len() - remaining@.len();
        let node = remaining.remove(0);
        proof {
            assert(node == orig[i]);
            assert(remaining@ =~= orig.skip(i + 1));
        }
        // We are only interested in nodes of Audio/Sink type, minus the
        // ignored sinks, minus anything we can say is not plugged in.
        let is_audio_sink = str_eq(node.info.props.media_class.as_str(), "Audio/Sink");
        let is_ignored = str_eq(node.info.props.node_description.as_str(), "USB Audio S/PDIF Output");
        let keep = is_audio_sink && !is_ignored && !is_not_plugged_in(&node, &devices);
        proof {
            assert(keep == pred(node));
            crate::seqs::lemma_filter_push(orig.take(i), node, pred);
            assert(orig.take(i).push(orig[i]) =~= orig.take(i + 1));
        }
        if keep {
            valid_nodes.push(node);
        }
    }
    proof {
        assert(orig.take(orig.len() as int) =~= orig);
    }
    valid_nodes
}

/// The node at `i` carries the given node name.
pub open spec fn node_named(n: Node, name: Seq<char>) -> bool {
    n.info.props.node_name@ == name
}

/// The position of the neighbor of `i` in the given direction, wrapping
/// around at both ends of a collection of length `len`.
pub open spec fn rotated_index(i: int, direction: Direction, len: int) -> int {
    match direction {
        Direction::Next => if i + 1 == len {
            0
        } else {
            i + 1
        },
        Direction::Previous => if i == 0 {
            len - 1
        } else {
            i - 1
        },
    }
}

/// Determine the sink next to the current one, in the given direction.
///
/// `current_sink_name` is the node name of the current default sink as the
/// sound server reports it; `nodes` are the usable sinks.  The returned node
/// is the neighbor (wrapping around) of the first node carrying the current
/// name.  With no sinks, or none carrying the current name, an error tells
/// the caller which of the two happened.
pub fn rotate_sink(direction: Direction, current_sink_name: String, nodes: Vec<Node>) -> (r:
    Result<Option<Node>, SinkError>)
    ensures
        r == Err::<Option<Node>, SinkError>(SinkError::NoSinks) <==> nodes@.len() == 0,
        r == Err::<Option<Node>, SinkError>(SinkError::CurrentSinkNotFound) <==> (nodes@.len() > 0
            && forall|i: int|
            0 <= i < nodes@.len() ==> !node_named(#[trigger] nodes@[i], current_sink_name@)),
        r matches Ok(opt) ==> opt matches Some(node) && exists|i: int|
            {
                &&& 0 <= i < nodes@.len()
                &&& node_named(#[trigger] nodes@[i], current_sink_name@)
                &&& forall|j: int| 0 <= j < i ==> !node_named(#[trigger] nodes@[j], current_sink_name@)
                &&& node == nodes@[rotated_index(i, direction, nodes@.len() as int)]
            },
{
    let ghost orig = nodes@;
    // Initialize the device ring for easy iteration to the next/previous
    // device.
    let mut ring = match Ring::new(nodes) {
        Ok(ring) => ring,
        Err(_) => {
            return Err(SinkError::NoSinks);
        },
    };

    // Move the cursor to the current node.  If none is found, return an
    // error, as we cannot determine the current sink.
    let is_current = |i: usize, n: &Node| -> (b: bool)
        ensures
            b == node_named(*n, current_sink_name@),
        {
            str_eq(n.info.props.node_name.as_str(), current_sink_name.as_str())
        };
    let found = ring.find(is_current);
    if found.is_none() {
        return Err(SinkError::CurrentSinkNotFound);
    }
    let ghost current_index = ring.cursor as int;

    // Move to the neighbor in the requested direction.
    match direction {
        Direction::Next => {
            let _target = ring.next();
        },
        Direction::Previous => {
            let _target = ring.prev();
        },
    }

    proof {
        assert(ring.cursor as int == rotated_index(current_index, direction, orig.len() as int));
    }
    let target_index = ring.cursor;
    let node = ring.data.remove(target_index);
    Ok(Some(node))
}

/// The first tab-separated field of every non-blank line: the sink input ids
/// in the output of `pactl list short sink-inputs`.
pub open spec fn spec_ids_of_lines(lines: Seq<Seq<char>>) -> Seq<Seq<char>>
    decreases lines.len(),
{
    if lines.len() == 0 {
        Seq::empty()
    } else {
        let rest = spec_ids_of_lines(lines.drop_first());
        if trimmed(lines[0]).len() == 0 {
            rest
        } else {
            seq![until_char(lines[0], '\t')] + rest
        }
    }
}

/// The sink input ids named by `pactl list short sink-inputs` output.
pub open spec fn spec_input_ids(s: Seq<char>) -> Seq<Seq<char>> {
    spec_ids_of_lines(spec_split_lines(s))
}

/// Extract the sink input ids from `pactl list short sink-inputs` output.
/// Each line looks like `188 56 187 PipeWire float32le 2ch 48000Hz`, with
/// tab-separated columns; the first column is the input id.
pub fn parse_sink_input_ids(output: &str) -> (ids: Vec<String>)
    ensures
        ids@.map_values(|s: String| s@) == spec_input_ids(output@),
{
    let chars = chars_of(output);
    let lines = split_lines(&chars);
    let ghost all_lines = lines@.map_values(|l: Vec<char>| l@);

    let mut ids: Vec<String> = Vec::new();
    let mut i: usize = 0;
    let n = lines.len();
    proof {
        assert(all_lines.skip(0) =~= all_lines);
        assert(ids@.map_values(|s: String| s@) =~= Seq::<Seq<char>>::empty());
        assert(Seq::<Seq<char>>::empty() + spec_ids_of_lines(all_lines) =~= spec_ids_of_lines(
            all_lines,
        ));
    }
    while i < n
        invariant
            i <= n,
            n == lines@.len(),
            all_lines == lines@.map_values(|l: Vec<char>| l@),
            spec_input_ids(chars@) == spec_ids_of_lines(all_lines),
            chars@ == output@,
            spec_ids_of_lines(all_lines) == ids@.map_values(|s: String| s@) + spec_ids_of_lines(
                all_lines.skip(i as int),
            ),
        decreases n - i,
    {
        let ghost done = ids@.map_values(|s: String| s@);
        let ghost lv = all_lines[i as int];
        let line = &lines[i];
        proof {
            assert(lv == line@);
            assert(all_lines.skip(i as int)[0] == lv);
            assert(all_lines.skip(i as int).drop_first() =~= all_lines.skip(i + 1));
        }
        let t = trimmed_chars(line);
        if t.len() > 0 {
            let field = prefix_until(line, '\t');
            let id = string_of_chars(&field);
            ids.push(id);
            proof {
                assert(ids@.map_values(|s: String| s@) =~= done.push(until_char(lv, '\t')));
                assert(done.push(until_char(lv, '\t')) + spec_ids_of_lines(all_lines.skip(i + 1))
                    =~= done + (seq![until_char(lv, '\t')] + spec_ids_of_lines(
                    all_lines.skip(i + 1),
                )));
            }
        }
        i = i + 1;
    }
    proof {
        assert(all_lines.skip(n as int) =~= Seq::<Seq<char>>::empty());
        assert(ids@.map_values(|s: String| s@) + Seq::<Seq<char>>::empty() =~= ids@.map_values(
            |s: String| s@,
        ));
    }
    ids
}

} // verus!
