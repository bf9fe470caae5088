//! The dispatcher: validates that a target — one device or every member
//! of a group — supports the requested action, and only then builds the
//! remote command request. A group request is all-or-nothing: when any
//! member lacks the action, no request is built at all.

use vstd::prelude::*;

use crate::controller::{execution_request, execution_request_multiple, CommandRequest,
    EntryView};
use crate::device::{spec_supports_action, DeviceView};
use crate::errors::MatahoError;
use crate::group::GroupView;
use crate::model::MatchMode;
use crate::service::{first_group_named, first_id_match, has_group_named, has_id_match,
    resolve_device, MatahoService, Resolution};

verus! {

broadcast use crate::strutil::lemma_deep_view_len, crate::strutil::lemma_deep_view_index;

/// The snapshot device one group member id resolves to.
pub open spec fn group_member_device(devs: Seq<DeviceView>, g: GroupView, k: int) -> DeviceView {
    devs[first_id_match(devs, g.devices[k])]
}

/// Whether every member id of the group still exists in the snapshot.
pub open spec fn group_members_resolve(devs: Seq<DeviceView>, g: GroupView) -> bool {
    forall|k: int| 0 <= k < g.devices.len() ==> has_id_match(devs, g.devices[k])
}

/// Whether every member device of the group supports the action.
pub open spec fn group_supports_action(devs: Seq<DeviceView>, g: GroupView, action: Seq<char>)
    -> bool {
    forall|k: int|
        0 <= k < g.devices.len() ==> spec_supports_action(
            group_member_device(devs, g, k),
            action,
        )
}

/// Resolves the device and validates the action against its capability
/// list; only a device that supports the action yields a request.
pub fn execute_on_device(
    service: &MatahoService,
    device_identifier: &str,
    match_mode: MatchMode,
    command: &str,
    args: &Vec<String>,
) -> (r: Result<CommandRequest, MatahoError>)
    ensures
        match resolve_device(service.spec_devices(), device_identifier@, match_mode) {
            Resolution::Found(i) => {
                let d = service.spec_devices()[i];
                &&& (spec_supports_action(d, command@) ==> (r matches Ok(req) && req.label@
                    == "Exec "@ + command@ + " on "@ + d.url && req.actions.deep_view() == seq![
                    EntryView { device_url: d.url, command: command@, params: args.deep_view() },
                ]))
                &&& (!spec_supports_action(d, command@) ==> (r matches Err(e) && e
                    == MatahoError::UnsupportedAction))
            },
            Resolution::NotFound => r matches Err(e) && e == MatahoError::NotFound,
            Resolution::Ambiguous(labels) => r matches Err(e) && (e matches
                MatahoError::AmbiguousMatch(ls) && ls.deep_view() == labels),
        },
{
    let device = match service.find_device(device_identifier, match_mode) {
        Ok(d) => d,
        Err(e) => {
            return Err(e);
        },
    };
    if !device.supports_action(command) {
        return Err(MatahoError::UnsupportedAction);
    }
    Ok(execution_request(device, command, args))
}

/// Looks the group up, resolves every member against the snapshot, and
/// validates the action against every member's capability list before a
/// single batched request is built; a stale member id or one unsupported
/// member rejects the whole call with no request at all.
pub fn execute_on_group(
    service: &MatahoService,
    group: &str,
    command: &str,
    args: &Vec<String>,
) -> (r: Result<CommandRequest, MatahoError>)
    ensures
        !has_group_named(service.spec_groups(), group@) ==> (r matches Err(e) && e
            == MatahoError::NotFound),
        has_group_named(service.spec_groups(), group@) ==> ({
            let devs = service.spec_devices();
            let g = service.spec_groups()[first_group_named(service.spec_groups(), group@)];
            &&& (!group_members_resolve(devs, g) ==> (r matches Err(e) && e
                == MatahoError::NotFound))
            &&& (group_members_resolve(devs, g) && !group_supports_action(devs, g, command@)
                ==> (r matches Err(e) && e == MatahoError::UnsupportedAction))
            &&& (group_members_resolve(devs, g) && group_supports_action(devs, g, command@)
                ==> (r matches Ok(req) && req.actions.deep_view().len() == g.devices.len() && (
            forall|k: int|
                0 <= k < g.devices.len() ==> req.actions.deep_view()[k] == (EntryView {
                    device_url: group_member_device(devs, g, k).url,
                    command: command@,
                    params: args.deep_view(),
                }))))
        }),
{
    let grp = match service.find_group_by_name(group) {
        Some(g) => g,
        None => {
            return Err(MatahoError::NotFound);
        },
    };
    let devices = match service.get_group_devices(grp) {
        Ok(ds) => ds,
        Err(e) => {
            return Err(e);
        },
    };
    let n = devices.len();
    let mut k: usize = 0;
    while k < n
        invariant
            0 <= k <= n,
            n == devices@.len(),
            n == grp@.devices.len(),
            devices.deep_view().len() == grp@.devices.len(),
            has_group_named(service.spec_groups(), group@),
            grp@ == service.spec_groups()[first_group_named(service.spec_groups(), group@)],
            group_members_resolve(service.spec_devices(), grp@),
            forall|j: int|
                0 <= j < n ==> devices.deep_view()[j] == group_member_device(
                    service.spec_devices(),
                    grp@,
                    j,
                ),
            forall|j: int|
                0 <= j < k ==> spec_supports_action(
                    group_member_device(service.spec_devices(), grp@, j),
                    command@,
                ),
        decreases n - k,
    {
        let d = devices[k];
        proof {
            assert(d@ == devices.deep_view()[k as int]);
            assert(devices.deep_view()[k as int] == group_member_device(
                service.spec_devices(),
                grp@,
                k as int,
            ));
        }
        if !d.supports_action(command) {
            return Err(MatahoError::UnsupportedAction);
        }
        k += 1;
    }
    Ok(execution_request_multiple(&devices, command, args))
}

} // verus!
