//! The remote-control API model: the gateway connection settings, the
//! endpoint URLs, and the command requests the dispatcher builds. The
//! HTTP transport that carries a request stays outside the library.

use vstd::prelude::*;
use vstd::string::*;

use crate::device::Device;
use crate::model::Configuration;
use crate::strutil::{clone_strings, dec_of_int, dec_of_nat, i32_to_string, push_char,
    usize_to_string};

verus! {

broadcast use crate::strutil::lemma_deep_view_len, crate::strutil::lemma_deep_view_index;

/// Mathematical model of one action entry.
pub ghost struct EntryView {
    pub device_url: Seq<char>,
    pub command: Seq<char>,
    pub params: Seq<Seq<char>>,
}

/// One command for one device, as the remote execution call wants it:
/// the device URL, the action name, and the action's parameters.
pub struct ActionEntry {
    pub device_url: String,
    pub command: String,
    pub params: Vec<String>,
}

impl View for ActionEntry {
    type V = EntryView;

    open spec fn view(&self) -> EntryView {
        EntryView {
            device_url: self.device_url@,
            command: self.command@,
            params: self.params.deep_view(),
        }
    }
}

impl DeepView for ActionEntry {
    type V = EntryView;

    open spec fn deep_view(&self) -> EntryView {
        self.view()
    }
}

/// A whole execution request: its display label and one action entry per
/// target device.
pub struct CommandRequest {
    pub label: String,
    pub actions: Vec<ActionEntry>,
}

/// The gateway's reply to the setup call, reduced to what the library
/// uses: the device list.
pub struct TahomaSetupResponse {
    pub devices: Vec<Device>,
}

/// The gateway connection settings the remote calls need.
pub struct TahomaApiController {
    hostname: String,
    port: i32,
    api_token: String,
}

impl TahomaApiController {
    pub closed spec fn spec_hostname(&self) -> Seq<char> {
        self.hostname@
    }

    pub closed spec fn spec_port(&self) -> i32 {
        self.port
    }

    pub closed spec fn spec_api_token(&self) -> Seq<char> {
        self.api_token@
    }

    pub fn new(configuration: &Configuration) -> (c: TahomaApiController)
        ensures
            c.spec_hostname() == configuration.hostname@,
            c.spec_port() == configuration.port,
            c.spec_api_token() == configuration.api_token@,
    {
        TahomaApiController {
            hostname: configuration.hostname.clone(),
            port: configuration.port,
            api_token: configuration.api_token.clone(),
        }
    }

    pub fn hostname(&self) -> (r: &str)
        ensures
            r@ == self.spec_hostname(),
    {
        self.hostname.as_str()
    }

    pub fn port(&self) -> (r: i32)
        ensures
            r == self.spec_port(),
    {
        self.port
    }

    pub fn api_token(&self) -> (r: &str)
        ensures
            r@ == self.spec_api_token(),
    {
        self.api_token.as_str()
    }

    /// The full URL of one API path on the gateway:
    /// `hostname:port/path`.
    pub fn endpoint(&self, path: &str) -> (r: String)
        ensures
            r@ == self.spec_hostname() + seq![':'] + dec_of_int(self.spec_port() as int) + seq![
                '/',
            ] + path@,
    {
        let mut out = String::new();
        out.append(self.hostname.as_str());
        push_char(&mut out, ':');
        let p = i32_to_string(self.port);
        out.append(p.as_str());
        push_char(&mut out, '/');
        out.append(path);
        proof {
            assert(out@ =~= self.spec_hostname() + seq![':'] + dec_of_int(self.spec_port() as int)
                + seq!['/'] + path@);
        }
        out
    }
}

/// The request that executes one action on one device: the label names
/// the command and the device URL, and there is exactly one entry.
pub fn execution_request(device: &Device, command: &str, params: &Vec<String>) -> (r:
    CommandRequest)
    ensures
        r.label@ == "Exec "@ + command@ + " on "@ + device@.url,
        r.actions.deep_view() == seq![
            EntryView { device_url: device@.url, command: command@, params: params.deep_view() },
        ],
{
    let mut label = String::new();
    label.append("Exec ");
    label.append(command);
    label.append(" on ");
    label.append(device.url());
    proof {
        assert(label@ =~= "Exec "@ + command@ + " on "@ + device@.url);
    }
    let entry = ActionEntry {
        device_url: String::from_str(device.url()),
        command: String::from_str(command),
        params: clone_strings(params),
    };
    let mut actions: Vec<ActionEntry> = Vec::new();
    actions.push(entry);
    proof {
        assert(actions.deep_view() =~= seq![
            EntryView { device_url: device@.url, command: command@, params: params.deep_view() },
        ]);
    }
    CommandRequest { label, actions }
}

/// The batched request that executes one action on several devices: the
/// label names the command and the device count, and there is one entry
/// per device, in the given order.
pub fn execution_request_multiple(devices: &Vec<&Device>, command: &str, params: &Vec<String>)
    -> (r: CommandRequest)
    ensures
        r.label@ == "Exec "@ + command@ + " on "@ + dec_of_nat(devices@.len() as nat)
            + " devices"@,
        r.actions.deep_view().len() == devices@.len(),
        forall|k: int|
            0 <= k < devices@.len() ==> r.actions.deep_view()[k] == (EntryView {
                device_url: devices.deep_view()[k].url,
                command: command@,
                params: params.deep_view(),
            }),
{
    let mut label = String::new();
    label.append("Exec ");
    label.append(command);
    label.append(" on ");
    let count = usize_to_string(devices.len());
    label.append(count.as_str());
    label.append(" devices");
    proof {
        assert(label@ =~= "Exec "@ + command@ + " on "@ + dec_of_nat(devices@.len() as nat)
            + " devices"@);
    }
    let n = devices.len();
    let mut actions: Vec<ActionEntry> = Vec::new();
    let mut i: usize = 0;
    while i < n
        invariant
            0 <= i <= n,
            n == devices@.len(),
            actions.deep_view().len() == i,
            forall|k: int|
                0 <= k < i ==> actions.deep_view()[k] == (EntryView {
                    device_url: devices.deep_view()[k].url,
                    command: command@,
                    params: params.deep_view(),
                }),
        decreases n - i,
    {
        let entry = ActionEntry {
            device_url: String::from_str(devices[i].url()),
            command: String::from_str(command),
            params: clone_strings(params),
        };
        let ghost prev = actions.deep_view();
        actions.push(entry);
        proof {
            assert forall|k: int| 0 <= k < i + 1 implies actions.deep_view()[k] == (EntryView {
                device_url: devices.deep_view()[k].url,
                command: command@,
                params: params.deep_view(),
            }) by {
                if k < i {
                    assert(actions.deep_view()[k] == prev[k]);
                } else {
                    assert(actions.deep_view()[k] == entry@);
                }
            }
        }
        i += 1;
    }
    CommandRequest { label, actions }
}

} // verus!
