//! The immutable device snapshot records: a device, its capability list,
//! and the derivation of its canonical id from its URL.

use vstd::prelude::*;
use vstd::string::*;

use crate::model::{filter_str, DeviceTypeFilter};

verus! {

/// Mathematical model of one capability.
pub ghost struct ActionView {
    pub params_count: i32,
    pub name: Seq<char>,
    pub params_signature: Option<Seq<char>>,
}

/// Mathematical model of one device.
pub ghost struct DeviceView {
    pub label: Seq<char>,
    pub controllable_name: Seq<char>,
    pub actions: Seq<ActionView>,
    pub url: Seq<char>,
    pub enabled: bool,
}

/// A named action a device declares support for.
pub struct DeviceAction {
    params_count: i32,
    name: String,
    params_signature: Option<String>,
}

impl View for DeviceAction {
    type V = ActionView;

    closed spec fn view(&self) -> ActionView {
        ActionView {
            params_count: self.params_count,
            name: self.name@,
            params_signature: self.params_signature.deep_view(),
        }
    }
}

impl DeepView for DeviceAction {
    type V = ActionView;

    open spec fn deep_view(&self) -> ActionView {
        self.view()
    }
}

impl DeviceAction {
    pub fn new(name: String, params_count: i32, params_signature: Option<String>) -> (a:
        DeviceAction)
        ensures
            a@.name == name@,
            a@.params_count == params_count,
            a@.params_signature == params_signature.deep_view(),
    {
        DeviceAction { params_count, name, params_signature }
    }

    pub fn params_count(&self) -> (r: i32)
        ensures
            r == self@.params_count,
    {
        self.params_count
    }

    pub fn name(&self) -> (r: &str)
        ensures
            r@ == self@.name,
    {
        self.name.as_str()
    }

    pub fn params_signature(&self) -> (r: Option<&str>)
        ensures
            r.deep_view() == self@.params_signature,
    {
        match &self.params_signature {
            Some(s) => Some(s.as_str()),
            None => None,
        }
    }
}

/// The static description of a device: its supported actions, in order.
pub struct DeviceDefinition {
    actions: Vec<DeviceAction>,
}

impl View for DeviceDefinition {
    type V = Seq<ActionView>;

    closed spec fn view(&self) -> Seq<ActionView> {
        self.actions.deep_view()
    }
}

impl DeviceDefinition {
    pub fn new(actions: Vec<DeviceAction>) -> (d: DeviceDefinition)
        ensures
            d@ == actions.deep_view(),
    {
        DeviceDefinition { actions }
    }

    pub fn actions(&self) -> (r: &Vec<DeviceAction>)
        ensures
            r.deep_view() == self@,
    {
        &self.actions
    }
}

/// Where the id of a device starts inside its URL: just after the last
/// `/`, or at the start when the URL holds none.
pub open spec fn id_start(url: Seq<char>) -> int
    decreases url.len(),
{
    if url.len() == 0 {
        0
    } else if url[url.len() - 1] == '/' {
        url.len() as int
    } else {
        id_start(url.drop_last())
    }
}

/// The canonical id a URL yields: its last `/`-separated segment.
pub open spec fn id_of(url: Seq<char>) -> Seq<char> {
    url.subrange(id_start(url), url.len() as int)
}

/// Any position that sits right after a slash and has no slash behind it
/// is where the id starts.
pub proof fn lemma_id_start_unique(url: Seq<char>, p: int)
    requires
        0 <= p <= url.len(),
        forall|j: int| p <= j < url.len() ==> url[j] != '/',
        p > 0 ==> url[p - 1] == '/',
    ensures
        p == id_start(url),
    decreases url.len(),
{
    if url.len() == 0 {
    } else if url[url.len() - 1] == '/' {
        assert(p == url.len());
    } else {
        assert(p < url.len());
        assert(forall|j: int|
            0 <= j < url.len() - 1 ==> url.drop_last()[j] == url[j]);
        lemma_id_start_unique(url.drop_last(), p);
    }
}

/// One device of the snapshot, as the gateway reported it.
pub struct Device {
    label: String,
    controllable_name: String,
    definition: DeviceDefinition,
    url: String,
    enabled: bool,
}

impl View for Device {
    type V = DeviceView;

    closed spec fn view(&self) -> DeviceView {
        DeviceView {
            label: self.label@,
            controllable_name: self.controllable_name@,
            actions: self.definition@,
            url: self.url@,
            enabled: self.enabled,
        }
    }
}

impl DeepView for Device {
    type V = DeviceView;

    open spec fn deep_view(&self) -> DeviceView {
        self.view()
    }
}

/// A device supports an action when some capability carries exactly that name.
pub open spec fn spec_supports_action(d: DeviceView, action: Seq<char>) -> bool {
    exists|i: int| 0 <= i < d.actions.len() && d.actions[i].name == action
}

impl Device {
    pub fn new(
        label: String,
        controllable_name: String,
        definition: DeviceDefinition,
        url: String,
        enabled: bool,
    ) -> (d: Device)
        ensures
            d@ == (DeviceView {
                label: label@,
                controllable_name: controllable_name@,
                actions: definition@,
                url: url@,
                enabled: enabled,
            }),
    {
        Device { label, controllable_name, definition, url, enabled }
    }

    /// The canonical id: the last `/`-separated segment of the URL.
    pub fn id(&self) -> (r: &str)
        ensures
            r@ == id_of(self@.url),
    {
        let u: &str = self.url.as_str();
        let len = u.unicode_len();
        let mut start: usize = len;
        while start > 0 && u.get_char(start - 1) != '/'
            invariant
                0 <= start <= len,
                len == u@.len(),
                forall|j: int| start <= j < len ==> u@[j] != '/',
            decreases start,
        {
            start -= 1;
        }
        proof {
            lemma_id_start_unique(u@, start as int);
        }
        u.substring_char(start, len)
    }

    pub fn label(&self) -> (r: &str)
        ensures
            r@ == self@.label,
    {
        self.label.as_str()
    }

    pub fn controllable_name(&self) -> (r: &str)
        ensures
            r@ == self@.controllable_name,
    {
        self.controllable_name.as_str()
    }

    pub fn definition(&self) -> (r: &DeviceDefinition)
        ensures
            r@ == self@.actions,
    {
        &self.definition
    }

    pub fn url(&self) -> (r: &str)
        ensures
            r@ == self@.url,
    {
        self.url.as_str()
    }

    /// Whether the requested action appears, by exact name, in this
    /// device's capability list.
    pub fn supports_action(&self, action: &str) -> (r: bool)
        ensures
            r == spec_supports_action(self@, action@),
    {
        let actions = self.definition.actions();
        let n = actions.len();
        let mut i: usize = 0;
        while i < n
            invariant
                0 <= i <= n,
                n == self@.actions.len(),
                actions.deep_view() == self@.actions,
                forall|j: int| 0 <= j < i ==> self@.actions[j].name != action@,
            decreases n - i,
        {
            if crate::strutil::str_eq(actions[i].name(), action) {
                proof {
                    assert(self@.actions[i as int].name == action@);
                }
                return true;
            }
            i += 1;
        }
        false
    }

    /// Whether this device falls under the given category filter; `All`
    /// admits every device.
    pub fn has_type(&self, filter: DeviceTypeFilter) -> (r: bool)
        ensures
            r == (filter == DeviceTypeFilter::All || self@.controllable_name == filter_str(
                filter,
            )),
    {
        if filter == DeviceTypeFilter::All {
            return true;
        }
        crate::strutil::str_eq(self.controllable_name.as_str(), filter.as_str())
    }
}

} // verus!
