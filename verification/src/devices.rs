//! Device hot-plug detection: the device lists are polled and a change is announced when
//! the set of capture or render device names differs from the last poll.

use vstd::prelude::*;
use crate::settings::string_views;

verus! {

/// The device lists announced after a change.
pub struct DeviceChangePayload {
    pub input_devices: Vec<String>,
    pub output_devices: Vec<String>,
}

/// Whether `x` is among `names`.
fn holds_name(names: &[String], x: &String) -> (b: bool)
    ensures
        b == string_views(names@).contains(x@),
{
    let mut i: usize = 0;
    while i < names.len()
        invariant
            i <= names@.len(),
            forall|j: int| 0 <= j < i ==> names@[j]@ != x@,
        decreases names@.len() - i,
    {
        if names[i] == *x {
            assert(string_views(names@)[i as int] == x@);
            return true;
        }
        i = i + 1;
    }
    proof {
        if string_views(names@).contains(x@) {
            let j = choose|j: int| 0 <= j < string_views(names@).len() && string_views(names@)[j] == x@;
            assert(names@[j]@ == x@);
        }
    }
    false
}

/// Whether every name in `a` is also in `b`.
fn names_within(a: &[String], b: &[String]) -> (r: bool)
    ensures
        r == string_views(a@).to_set().subset_of(string_views(b@).to_set()),
{
    let mut i: usize = 0;
    while i < a.len()
        invariant
            i <= a@.len(),
            forall|j: int| 0 <= j < i ==> string_views(b@).contains(#[trigger] string_views(a@)[j]),
        decreases a@.len() - i,
    {
        if !holds_name(b, &a[i]) {
            proof {
                assert(string_views(a@)[i as int] == a@[i as int]@);
                assert(string_views(a@).contains(a@[i as int]@));
                assert(string_views(a@).to_set().contains(a@[i as int]@));
                assert(!string_views(b@).to_set().contains(a@[i as int]@));
            }
            return false;
        }
        i = i + 1;
    }
    proof {
        assert forall|x: Seq<char>| string_views(a@).to_set().contains(x) implies string_views(
            b@,
        ).to_set().contains(x) by {
            let j = choose|j: int| 0 <= j < string_views(a@).len() && string_views(a@)[j] == x;
        }
    }
    true
}

/// Whether two polls saw different sets of device names (order and repeats do not count).
pub fn device_names_changed(previous: &[String], current: &[String]) -> (r: bool)
    ensures
        r == (string_views(previous@).to_set() != string_views(current@).to_set()),
{
    let ab = names_within(previous, current);
    let ba = names_within(current, previous);
    proof {
        let p = string_views(previous@).to_set();
        let c = string_views(current@).to_set();
        if ab && ba {
            assert(p =~= c);
        }
    }
    !(ab && ba)
}

/// Whether a poll should announce a device change: the capture or the render device set
/// differs from the previous poll.
pub fn devices_changed(
    previous_inputs: &[String],
    current_inputs: &[String],
    previous_outputs: &[String],
    current_outputs: &[String],
) -> (r: bool)
    ensures
        r == (string_views(previous_inputs@).to_set() != string_views(current_inputs@).to_set()
            || string_views(previous_outputs@).to_set() != string_views(current_outputs@).to_set()),
{
    device_names_changed(previous_inputs, current_inputs) || device_names_changed(
        previous_outputs,
        current_outputs,
    )
}

/// The PowerShell command that launches the virtual-cable installer at `setup_path` with
/// elevation.
pub open spec fn spec_installer_command(setup_path: Seq<char>) -> Seq<char> {
    "Start-Process -FilePath '"@ + setup_path + "' -Verb RunAs"@
}

/// Builds the PowerShell command that launches the virtual-cable installer elevated.
pub fn installer_command(setup_path: &str) -> (r: String)
    ensures
        r@ == spec_installer_command(setup_path@),
{
    let mut r = String::from_str("Start-Process -FilePath '");
    r.append(setup_path);
    r.append("' -Verb RunAs");
    r
}

} // verus!
