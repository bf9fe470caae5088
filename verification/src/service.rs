//! The device snapshot and group store behind one service value, and the
//! deterministic identifier resolution over them: an id match always wins,
//! then a first exact (case-insensitive) label match, then — in fuzzy mode
//! only — the best fuzzy score, with ties reported as ambiguity.

use vstd::prelude::*;
use vstd::string::*;

use crate::controller::TahomaSetupResponse;
use crate::device::{id_of, Device, DeviceView};
use crate::errors::MatahoError;
use crate::group::{has_member, DeviceGroup, GroupView};
use crate::model::MatchMode;
use crate::strutil::{first_index, lemma_filter_push, lemma_first_from, str_eq};

verus! {

broadcast use crate::strutil::lemma_deep_view_len, crate::strutil::lemma_deep_view_index;

/// What `str::to_lowercase` returns for the given characters.
pub uninterp spec fn lower_of(s: Seq<char>) -> Seq<char>;

/// What the default-configured skim fuzzy matcher scores the choice text
/// at, against the pattern; `None` when nothing matches.
pub uninterp spec fn fuzzy_score(choice: Seq<char>, pattern: Seq<char>) -> Option<i64>;

/// Relies on std's `str::to_lowercase`: the lowered text is a function of
/// the characters alone.
#[verifier::external_body]
fn lowercase(s: &str) -> (r: String)
    ensures
        r@ == lower_of(s@),
{
    s.to_lowercase()
}

/// Relies on fuzzy_matcher's `SkimMatcherV2::fuzzy_match` under the default
/// configuration: a deterministic score of the choice text against the
/// pattern, computed from the two strings alone; `None` when the pattern
/// does not match at all.
#[verifier::external_body]
fn skim_score(choice: &str, pattern: &str) -> (r: Option<i64>)
    ensures
        r == fuzzy_score(choice@, pattern@),
{
    let matcher = fuzzy_matcher::skim::SkimMatcherV2::default();
    fuzzy_matcher::FuzzyMatcher::fuzzy_match(&matcher, choice, pattern)
}

// --- The resolution model ---

/// A label matches the query when the two agree after lowering.
pub open spec fn exact_match(d: DeviceView, query: Seq<char>) -> bool {
    lower_of(d.label) == lower_of(query)
}

pub open spec fn exact_pred(query: Seq<char>) -> spec_fn(DeviceView) -> bool {
    |d: DeviceView| exact_match(d, query)
}

pub open spec fn has_exact_match(devs: Seq<DeviceView>, query: Seq<char>) -> bool {
    exists|i: int| 0 <= i < devs.len() && exact_pred(query)(devs[i])
}

/// The snapshot position of the first exact label match.
pub open spec fn first_exact_match(devs: Seq<DeviceView>, query: Seq<char>) -> int {
    first_index(devs, exact_pred(query))
}

/// A device id matches when it equals the identifier exactly.
pub open spec fn id_pred(ident: Seq<char>) -> spec_fn(DeviceView) -> bool {
    |d: DeviceView| id_of(d.url) == ident
}

pub open spec fn has_id_match(devs: Seq<DeviceView>, ident: Seq<char>) -> bool {
    exists|i: int| 0 <= i < devs.len() && id_pred(ident)(devs[i])
}

pub open spec fn first_id_match(devs: Seq<DeviceView>, ident: Seq<char>) -> int {
    first_index(devs, id_pred(ident))
}

/// The fuzzy score of one device's label against the query, both lowered.
pub open spec fn dev_score(d: DeviceView, query: Seq<char>) -> Option<i64> {
    fuzzy_score(lower_of(d.label), lower_of(query))
}

/// The maximum fuzzy score over the snapshot; `None` when no device scores.
pub open spec fn best_fuzzy_score(devs: Seq<DeviceView>, query: Seq<char>) -> Option<i64>
    decreases devs.len(),
{
    if devs.len() == 0 {
        None
    } else {
        let rest = best_fuzzy_score(devs.drop_last(), query);
        match dev_score(devs.last(), query) {
            None => rest,
            Some(s) => match rest {
                None => Some(s),
                Some(b) => Some(
                    if s > b {
                        s
                    } else {
                        b
                    },
                ),
            },
        }
    }
}

pub open spec fn tied_pred(query: Seq<char>, b: i64) -> spec_fn(DeviceView) -> bool {
    |d: DeviceView| dev_score(d, query) == Some(b)
}

/// The candidates whose score equals `b`, in snapshot order.
pub open spec fn tied_at(devs: Seq<DeviceView>, query: Seq<char>, b: i64) -> Seq<DeviceView> {
    devs.filter(tied_pred(query, b))
}

/// The labels of the candidates tied at `b`, in snapshot order.
pub open spec fn tied_labels(devs: Seq<DeviceView>, query: Seq<char>, b: i64) -> Seq<Seq<char>> {
    tied_at(devs, query, b).map_values(|d: DeviceView| d.label)
}

pub open spec fn first_tied(devs: Seq<DeviceView>, query: Seq<char>, b: i64) -> int {
    first_index(devs, tied_pred(query, b))
}

/// The outcome resolution owes: the snapshot position of the one device
/// found, a clean failure, or the labels of the tied candidates.
pub ghost enum Resolution {
    Found(int),
    NotFound,
    Ambiguous(Seq<Seq<char>>),
}

/// What resolving a query against device labels yields, in strict priority
/// order: the first exact match; else, in exact mode, a clean failure;
/// else the single best-scoring fuzzy candidate, a failure when none
/// scores, or the tied labels when several share the top score.
pub open spec fn resolve_label(devs: Seq<DeviceView>, query: Seq<char>, mode: MatchMode)
    -> Resolution {
    if has_exact_match(devs, query) {
        Resolution::Found(first_exact_match(devs, query))
    } else if mode == MatchMode::Exact {
        Resolution::NotFound
    } else {
        match best_fuzzy_score(devs, query) {
            None => Resolution::NotFound,
            Some(b) => if tied_at(devs, query, b).len() == 1 {
                Resolution::Found(first_tied(devs, query, b))
            } else {
                Resolution::Ambiguous(tied_labels(devs, query, b))
            },
        }
    }
}

/// What resolving an identifier yields: an id match always wins,
/// independent of the mode; only then are labels consulted.
pub open spec fn resolve_device(devs: Seq<DeviceView>, ident: Seq<char>, mode: MatchMode)
    -> Resolution {
    if has_id_match(devs, ident) {
        Resolution::Found(first_id_match(devs, ident))
    } else {
        resolve_label(devs, ident, mode)
    }
}

/// The best score is attained, and no device scores above it; when it is
/// `None`, no device scores at all.
pub proof fn lemma_best_fuzzy_score(devs: Seq<DeviceView>, query: Seq<char>)
    ensures
        best_fuzzy_score(devs, query) is None ==> forall|i: int|
            0 <= i < devs.len() ==> dev_score(devs[i], query) is None,
        best_fuzzy_score(devs, query) matches Some(b) ==> {
            &&& exists|i: int| 0 <= i < devs.len() && dev_score(devs[i], query) == Some(b)
            &&& forall|i: int| 0 <= i < devs.len() && dev_score(devs[i], query) is Some
                ==> dev_score(devs[i], query)->0 <= b
        },
    decreases devs.len(),
{
    if devs.len() > 0 {
        lemma_best_fuzzy_score(devs.drop_last(), query);
        assert(forall|i: int|
            0 <= i < devs.len() - 1 ==> devs[i] == devs.drop_last()[i]);
        if best_fuzzy_score(devs, query) is Some {
            let b = best_fuzzy_score(devs, query)->0;
            if dev_score(devs.last(), query) == Some(b) {
                assert(dev_score(devs[devs.len() - 1], query) == Some(b));
            }
        }
    }
}

/// Every candidate tied at the best score is a device of the snapshot, so
/// when the best score exists the tied set is never empty.
pub proof fn lemma_tied_at_nonempty(devs: Seq<DeviceView>, query: Seq<char>, b: i64)
    requires
        best_fuzzy_score(devs, query) == Some(b),
    ensures
        tied_at(devs, query, b).len() >= 1,
{
    lemma_best_fuzzy_score(devs, query);
    let i = choose|i: int| 0 <= i < devs.len() && dev_score(devs[i], query) == Some(b);
    devs.lemma_filter_contains(tied_pred(query, b), i);
}

// --- Laws of resolution ---

/// Identifier priority: an identifier that equals some device's id
/// resolves, in every match mode, to the first device carrying that id —
/// whatever any device's label looks like and however anything scores.
pub proof fn lemma_identifier_priority(
    devs: Seq<DeviceView>,
    ident: Seq<char>,
    mode: MatchMode,
    i: int,
)
    requires
        0 <= i < devs.len(),
        id_of(devs[i].url) == ident,
    ensures
        (resolve_device(devs, ident, mode) matches Resolution::Found(j) && 0 <= j < devs.len()
            && id_of(devs[j].url) == ident),
        resolve_device(devs, ident, mode) == resolve_device(devs, ident, MatchMode::Exact),
{
    assert(id_pred(ident)(devs[i]));
    lemma_first_from(devs, id_pred(ident), 0);
}

/// Exact-match short-circuit: with no id match, a device whose label
/// equals the query after lowering is returned — the first such device in
/// snapshot order — without any fuzzy score being consulted.
pub proof fn lemma_exact_match_short_circuit(devs: Seq<DeviceView>, query: Seq<char>, i: int)
    requires
        0 <= i < devs.len(),
        !has_id_match(devs, query),
        exact_match(devs[i], query),
    ensures
        (resolve_device(devs, query, MatchMode::Fuzzy) matches Resolution::Found(j) && 0 <= j
            < devs.len() && exact_match(devs[j], query) && (forall|k: int|
            0 <= k < j ==> !exact_match(devs[k], query))),
{
    assert(exact_pred(query)(devs[i]));
    lemma_first_from(devs, exact_pred(query), 0);
    let j = first_exact_match(devs, query);
    assert forall|k: int| 0 <= k < j implies !exact_match(devs[k], query) by {
        assert(!(exact_pred(query)(devs[k])));
    }
}

/// Ambiguity: with no id and no exact match, two devices tied at the top
/// fuzzy score make resolution fail as ambiguous, carrying the labels of
/// all tied candidates in snapshot order.
pub proof fn lemma_fuzzy_tie_is_ambiguous(
    devs: Seq<DeviceView>,
    query: Seq<char>,
    i: int,
    j: int,
    b: i64,
)
    requires
        !has_id_match(devs, query),
        !has_exact_match(devs, query),
        0 <= i < j < devs.len(),
        dev_score(devs[i], query) == Some(b),
        dev_score(devs[j], query) == Some(b),
        forall|k: int|
            0 <= k < devs.len() && dev_score(devs[k], query) is Some ==> dev_score(
                devs[k],
                query,
            )->0 <= b,
    ensures
        (resolve_device(devs, query, MatchMode::Fuzzy) matches Resolution::Ambiguous(labels)
            && labels == tied_labels(devs, query, b) && labels.len() >= 2),
{
    lemma_best_fuzzy_score(devs, query);
    assert(best_fuzzy_score(devs, query) is Some);
    let b2 = best_fuzzy_score(devs, query)->0;
    assert(b2 <= b);
    assert(b <= b2);
    assert(tied_pred(query, b)(devs[i]));
    assert(tied_pred(query, b)(devs[j]));
    crate::strutil::lemma_filter_at_least_two(devs, tied_pred(query, b), i, j);
}

/// The other side of the tie-break: with no id and no exact match, a
/// device that scores strictly above every other scored device is
/// returned itself.
pub proof fn lemma_fuzzy_unique_best(devs: Seq<DeviceView>, query: Seq<char>, i: int)
    requires
        !has_id_match(devs, query),
        !has_exact_match(devs, query),
        0 <= i < devs.len(),
        dev_score(devs[i], query) is Some,
        forall|k: int|
            0 <= k < devs.len() && k != i && dev_score(devs[k], query) is Some ==> dev_score(
                devs[k],
                query,
            )->0 < dev_score(devs[i], query)->0,
    ensures
        resolve_device(devs, query, MatchMode::Fuzzy) == Resolution::Found(i),
{
    let b = dev_score(devs[i], query)->0;
    lemma_best_fuzzy_score(devs, query);
    assert(best_fuzzy_score(devs, query) is Some);
    let b2 = best_fuzzy_score(devs, query)->0;
    assert(b <= b2);
    assert(b2 <= b) by {
        let w = choose|w: int|
            0 <= w < devs.len() && dev_score(devs[w], query) == Some(b2);
        if w != i {
            assert(dev_score(devs[w], query)->0 < b);
        }
    }
    assert(tied_pred(query, b)(devs[i]));
    assert(forall|k: int|
        0 <= k < devs.len() && k != i ==> !(tied_pred(query, b)(devs[k])));
    crate::strutil::lemma_filter_single(devs, tied_pred(query, b), i);
    assert(tied_at(devs, query, b).len() == 1);
    lemma_first_from(devs, tied_pred(query, b), 0);
}

/// Exact mode suppresses fuzzy matching: with no id match and no exact
/// label match, resolution in exact mode fails cleanly, however well the
/// query would score fuzzily.
pub proof fn lemma_exact_mode_suppresses_fuzzy(devs: Seq<DeviceView>, query: Seq<char>)
    requires
        !has_id_match(devs, query),
        !has_exact_match(devs, query),
    ensures
        resolve_device(devs, query, MatchMode::Exact) == Resolution::NotFound,
{
}

/// A group name matches when it equals the sought name exactly
/// (case-sensitive).
pub open spec fn name_pred(name: Seq<char>) -> spec_fn(GroupView) -> bool {
    |g: GroupView| g.name == name
}

pub open spec fn has_group_named(groups: Seq<GroupView>, name: Seq<char>) -> bool {
    exists|i: int| 0 <= i < groups.len() && name_pred(name)(groups[i])
}

/// The store position of the first group with the given name.
pub open spec fn first_group_named(groups: Seq<GroupView>, name: Seq<char>) -> int {
    first_index(groups, name_pred(name))
}

/// Where the configuration directory is found: the first provider in the
/// chain that yields a location decides.
pub open spec fn config_dir_of(
    env_override: Option<Seq<char>>,
    xdg_config_home: Option<Seq<char>>,
    home_dir: Option<Seq<char>>,
) -> Option<Seq<char>> {
    if env_override is Some {
        env_override
    } else if xdg_config_home is Some {
        Some(xdg_config_home->0 + "/mataho"@)
    } else if home_dir is Some {
        Some(home_dir->0 + "/.config/mataho"@)
    } else {
        None
    }
}

/// The immutable device snapshot and the durable group collection.
pub struct MatahoService {
    devices: Vec<Device>,
    groups: Vec<DeviceGroup>,
}

impl MatahoService {
    /// The devices of the snapshot, as their mathematical models.
    pub closed spec fn spec_devices(&self) -> Seq<DeviceView> {
        self.devices.deep_view()
    }

    /// The groups of the store, as their mathematical models.
    pub closed spec fn spec_groups(&self) -> Seq<GroupView> {
        self.groups.deep_view()
    }

    /// A service over the fetched snapshot and the loaded groups.
    pub fn new(response: TahomaSetupResponse, groups: Vec<DeviceGroup>) -> (s: MatahoService)
        ensures
            s.spec_devices() == response.devices.deep_view(),
            s.spec_groups() == groups.deep_view(),
    {
        MatahoService { devices: response.devices, groups }
    }

    pub fn devices(&self) -> (r: &Vec<Device>)
        ensures
            r.deep_view() == self.spec_devices(),
    {
        &self.devices
    }

    pub fn groups(&self) -> (r: &Vec<DeviceGroup>)
        ensures
            r.deep_view() == self.spec_groups(),
    {
        &self.groups
    }

    /// The device whose id equals the identifier exactly, the first one in
    /// snapshot order; `None` when there is none.
    pub fn find_device_by_id(&self, id: &str) -> (r: Option<&Device>)
        ensures
            match r {
                Some(d) => has_id_match(self.spec_devices(), id@) && 0 <= first_id_match(
                    self.spec_devices(),
                    id@,
                ) < self.spec_devices().len() && d@ == self.spec_devices()[
                    first_id_match(self.spec_devices(), id@)
                ],
                None => !has_id_match(self.spec_devices(), id@),
            },
    {
        let ghost devs = self.spec_devices();
        let n = self.devices.len();
        let mut i: usize = 0;
        while i < n
            invariant
                0 <= i <= n,
                n == devs.len(),
                devs == self.spec_devices(),
                forall|j: int| 0 <= j < i ==> !(id_pred(id@)(devs[j])),
            decreases n - i,
        {
            let dev = &self.devices[i];
            if str_eq(dev.id(), id) {
                proof {
                    assert(id_pred(id@)(devs[i as int]));
                    lemma_first_from(devs, id_pred(id@), 0);
                }
                return Some(dev);
            }
            i += 1;
        }
        None
    }

    /// Resolves a query against device labels: the first exact
    /// (case-insensitive) match wins outright; fuzzy scoring runs only in
    /// fuzzy mode, returns the single best candidate, and reports a tie at
    /// the top score as ambiguity carrying all tied labels.
    pub fn find_device_by_label(&self, label: &str, match_mode: MatchMode) -> (r: Result<
        &Device,
        MatahoError,
    >)
        ensures
            match resolve_label(self.spec_devices(), label@, match_mode) {
                Resolution::Found(i) => r matches Ok(d) && 0 <= i < self.spec_devices().len()
                    && d@ == self.spec_devices()[i],
                Resolution::NotFound => r matches Err(e) && e == MatahoError::NotFound,
                Resolution::Ambiguous(labels) => r matches Err(e) && (e matches
                    MatahoError::AmbiguousMatch(ls) && ls.deep_view() == labels),
            },
    {
        let ghost devs = self.spec_devices();
        let ghost q = label@;
        let lquery = lowercase(label);
        let n = self.devices.len();
        let mut best: Option<i64> = None;
        let mut i: usize = 0;
        while i < n
            invariant
                0 <= i <= n,
                n == devs.len(),
                devs == self.spec_devices(),
                lquery@ == lower_of(q),
                q == label@,
                forall|j: int| 0 <= j < i ==> !(exact_pred(q)(devs[j])),
                match_mode == MatchMode::Fuzzy ==> best == best_fuzzy_score(
                    devs.take(i as int),
                    q,
                ),
            decreases n - i,
        {
            let dev = &self.devices[i];
            proof {
                assert(dev@ == devs[i as int]);
            }
            let llabel = lowercase(dev.label());
            if llabel == lquery {
                proof {
                    assert(exact_pred(q)(devs[i as int]));
                    lemma_first_from(devs, exact_pred(q), 0);
                }
                return Ok(dev);
            }
            if match_mode == MatchMode::Fuzzy {
                let s = skim_score(llabel.as_str(), lquery.as_str());
                proof {
                    assert(s == dev_score(devs[i as int], q));
                    assert(devs.take(i + 1).drop_last() =~= devs.take(i as int));
                    assert(devs.take(i + 1).last() == devs[i as int]);
                }
                match s {
                    Some(v) => {
                        best = match best {
                            None => Some(v),
                            Some(b) => Some(
                                if v > b {
                                    v
                                } else {
                                    b
                                },
                            ),
                        };
                    },
                    None => {},
                }
                proof {
                    assert(best == best_fuzzy_score(devs.take(i + 1), q));
                }
            }
            i += 1;
        }
        proof {
            assert(!has_exact_match(devs, q));
            assert(devs.take(n as int) =~= devs);
        }
        if match_mode == MatchMode::Exact {
            return Err(MatahoError::NotFound);
        }
        let b = match best {
            None => {
                return Err(MatahoError::NotFound);
            },
            Some(b) => b,
        };
        // Collect every candidate tied at the best score, in snapshot order.
        let mut labels: Vec<String> = Vec::new();
        let mut first_pos: usize = 0;
        let mut count: usize = 0;
        let mut i: usize = 0;
        proof {
            assert(tied_at(devs.take(0), q, b) =~= Seq::<DeviceView>::empty());
            assert(tied_labels(devs.take(0), q, b) =~= Seq::<Seq<char>>::empty());
            assert(labels.deep_view() =~= Seq::<Seq<char>>::empty());
        }
        while i < n
            invariant
                0 <= i <= n,
                n == devs.len(),
                devs == self.spec_devices(),
                lquery@ == lower_of(q),
                q == label@,
                count == tied_at(devs.take(i as int), q, b).len(),
                labels.deep_view() == tied_labels(devs.take(i as int), q, b),
                count > 0 ==> 0 <= first_pos < i && tied_pred(q, b)(devs[first_pos as int])
                    && (forall|j: int| 0 <= j < first_pos ==> !(tied_pred(q, b)(devs[j]))),
                count == 0 ==> forall|j: int| 0 <= j < i ==> !(tied_pred(q, b)(devs[j])),
                count <= i,
            decreases n - i,
        {
            let dev = &self.devices[i];
            proof {
                assert(dev@ == devs[i as int]);
                lemma_filter_push(devs.take(i as int), tied_pred(q, b), devs[i as int]);
                assert(devs.take(i as int).push(devs[i as int]) =~= devs.take(i + 1));
            }
            let llabel = lowercase(dev.label());
            let s = skim_score(llabel.as_str(), lquery.as_str());
            proof {
                assert(s == dev_score(devs[i as int], q));
            }
            let is_tied = match s {
                Some(v) => v == b,
                None => false,
            };
            if is_tied {
                if count == 0 {
                    first_pos = i;
                }
                count = count + 1;
                labels.push(String::from_str(dev.label()));
                proof {
                    assert(tied_pred(q, b)(devs[i as int]));
                    assert(tied_at(devs.take(i + 1), q, b) == tied_at(devs.take(i as int), q, b)
                        .push(devs[i as int]));
                    let old_labels = tied_labels(devs.take(i as int), q, b);
                    let new_labels = tied_labels(devs.take(i + 1), q, b);
                    assert(new_labels.len() == old_labels.len() + 1);
                    assert forall|k: int| 0 <= k < new_labels.len() implies labels.deep_view()[k]
                        == new_labels[k] by {
                        if k < old_labels.len() {
                            assert(new_labels[k] == old_labels[k]);
                            assert(labels.deep_view()[k] == old_labels[k]);
                        } else {
                            assert(new_labels[k] == devs[i as int].label);
                            assert(labels.deep_view()[k] == devs[i as int].label);
                        }
                    }
                    assert(labels.deep_view() =~= tied_labels(devs.take(i + 1), q, b));
                }
            } else {
                proof {
                    assert(labels.deep_view() =~= tied_labels(devs.take(i + 1), q, b));
                }
            }
            i += 1;
        }
        proof {
            assert(devs.take(n as int) =~= devs);
            lemma_tied_at_nonempty(devs, q, b);
        }
        if count == 1 {
            proof {
                lemma_first_from(devs, tied_pred(q, b), 0);
            }
            Ok(&self.devices[first_pos])
        } else {
            Err(MatahoError::AmbiguousMatch(labels))
        }
    }

    /// The group whose name equals the given one exactly (case-sensitive),
    /// the first in store order; `None` when there is none.
    pub fn find_group_by_name(&self, name: &str) -> (r: Option<&DeviceGroup>)
        ensures
            match r {
                Some(g) => has_group_named(self.spec_groups(), name@) && 0 <= first_group_named(
                    self.spec_groups(),
                    name@,
                ) < self.spec_groups().len() && g@ == self.spec_groups()[first_group_named(
                    self.spec_groups(),
                    name@,
                )],
                None => !has_group_named(self.spec_groups(), name@),
            },
    {
        let ghost grps = self.spec_groups();
        let n = self.groups.len();
        let mut i: usize = 0;
        while i < n
            invariant
                0 <= i <= n,
                n == grps.len(),
                grps == self.spec_groups(),
                forall|j: int| 0 <= j < i ==> !(name_pred(name@)(grps[j])),
            decreases n - i,
        {
            let g = &self.groups[i];
            if str_eq(g.name(), name) {
                proof {
                    assert(name_pred(name@)(grps[i as int]));
                    lemma_first_from(grps, name_pred(name@), 0);
                }
                return Some(g);
            }
            i += 1;
        }
        None
    }

    /// Like `find_group_by_name`, but hands the caller a mutable borrow of
    /// the found group; the store afterwards holds whatever the caller
    /// leaves in that group, every other group untouched.
    pub fn find_group_by_name_mut(&mut self, name: &str) -> (r: Option<&mut DeviceGroup>)
        ensures
            final(self).spec_devices() == old(self).spec_devices(),
            r is None ==> *final(self) == *old(self) && !has_group_named(
                old(self).spec_groups(),
                name@,
            ),
            r is Some ==> ({
                let gs = old(self).spec_groups();
                let gi = first_group_named(gs, name@);
                &&& has_group_named(gs, name@)
                &&& 0 <= gi < gs.len()
                &&& (*r.unwrap())@ == gs[gi]
                &&& final(self).spec_groups().len() == gs.len()
                &&& (forall|k: int|
                    0 <= k < gs.len() && k != gi ==> final(self).spec_groups()[k] == gs[k])
                &&& final(self).spec_groups()[gi] == (*final(r.unwrap()))@
            }),
    {
        let ghost grps = self.spec_groups();
        let n = self.groups.len();
        let mut idx: usize = n;
        let mut i: usize = 0;
        while i < n
            invariant
                0 <= i <= n,
                n == grps.len(),
                grps == self.spec_groups(),
                *self == *old(self),
                n == self.groups@.len(),
                idx <= n,
                idx == n ==> forall|j: int| 0 <= j < i ==> !(name_pred(name@)(grps[j])),
                idx < n ==> idx < i && name_pred(name@)(grps[idx as int]) && (forall|j: int|
                    0 <= j < idx ==> !(name_pred(name@)(grps[j]))),
            decreases n - i,
        {
            if idx == n && str_eq(self.groups[i].name(), name) {
                idx = i;
            }
            i += 1;
        }
        if idx < n {
            proof {
                lemma_first_from(grps, name_pred(name@), 0);
            }
            Some(&mut self.groups[idx])
        } else {
            proof {
                assert(*self == *old(self));
                assert(!has_group_named(grps, name@));
            }
            None
        }
    }

    /// The snapshot devices behind a group's member ids, in member order;
    /// a member id absent from the snapshot fails cleanly.
    pub fn get_group_devices<'a>(&'a self, group: &DeviceGroup) -> (r: Result<
        Vec<&'a Device>,
        MatahoError,
    >)
        ensures
            r is Ok <==> (forall|k: int|
                0 <= k < group@.devices.len() ==> has_id_match(
                    self.spec_devices(),
                    group@.devices[k],
                )),
            r matches Ok(ds) ==> ds.deep_view().len() == group@.devices.len() && (forall|k: int|
                0 <= k < group@.devices.len() ==> ds.deep_view()[k] == self.spec_devices()[
                    first_id_match(self.spec_devices(), group@.devices[k])
                ]),
            r matches Err(e) ==> e == MatahoError::NotFound,
    {
        let members = group.devices();
        let n = members.len();
        let mut res: Vec<&'a Device> = Vec::new();
        let mut i: usize = 0;
        while i < n
            invariant
                0 <= i <= n,
                n == group@.devices.len(),
                members.deep_view() == group@.devices,
                res.deep_view().len() == i,
                forall|k: int|
                    0 <= k < i ==> has_id_match(self.spec_devices(), group@.devices[k]),
                forall|k: int|
                    0 <= k < i ==> res.deep_view()[k] == self.spec_devices()[first_id_match(
                        self.spec_devices(),
                        group@.devices[k],
                    )],
            decreases n - i,
        {
            proof {
                assert(members.deep_view()[i as int] == group@.devices[i as int]);
            }
            match self.find_device_by_id(members[i].as_str()) {
                Some(d) => {
                    let ghost old_res = res.deep_view();
                    res.push(d);
                    proof {
                        assert forall|k: int| 0 <= k < i + 1 implies res.deep_view()[k]
                            == self.spec_devices()[first_id_match(
                            self.spec_devices(),
                            group@.devices[k],
                        )] by {
                            if k < i {
                                assert(res.deep_view()[k] == old_res[k]);
                            } else {
                                assert(res.deep_view()[k] == d.deep_view());
                            }
                        }
                    }
                },
                None => {
                    proof {
                        assert(!has_id_match(self.spec_devices(), group@.devices[i as int]));
                    }
                    return Err(MatahoError::NotFound);
                },
            }
            i += 1;
        }
        Ok(res)
    }

    /// Creates an empty group under the given name and appends it to the
    /// store; rejected when a group with that exact name already exists.
    pub fn create_group(&mut self, name: &str) -> (r: Result<(), MatahoError>)
        ensures
            final(self).spec_devices() == old(self).spec_devices(),
            has_group_named(old(self).spec_groups(), name@) ==> (r matches Err(e) && e
                == MatahoError::DuplicateName && *final(self) == *old(self)),
            !has_group_named(old(self).spec_groups(), name@) ==> (r is Ok && final(self).spec_groups().len() == old(self).spec_groups().len() + 1 && (forall|k: int|
                0 <= k < old(self).spec_groups().len() ==> final(self).spec_groups()[k] == old(self).spec_groups()[k]) && final(self).spec_groups().last().name == name@ && final(self).spec_groups().last().devices == Seq::<Seq<char>>::empty()),
    {
        if self.find_group_by_name(name).is_some() {
            return Err(MatahoError::DuplicateName);
        }
        let group = DeviceGroup::new(name);
        self.groups.push(group);
        Ok(())
    }

    /// Removes the first group with the given name from the store;
    /// rejected when no group carries it.
    pub fn delete_group(&mut self, name: &str) -> (r: Result<(), MatahoError>)
        ensures
            final(self).spec_devices() == old(self).spec_devices(),
            !has_group_named(old(self).spec_groups(), name@) ==> (r matches Err(e) && e
                == MatahoError::NotFound && *final(self) == *old(self)),
            has_group_named(old(self).spec_groups(), name@) ==> (r is Ok && final(self).spec_groups() == old(self).spec_groups().remove(
                first_group_named(old(self).spec_groups(), name@),
            )),
    {
        let ghost grps = self.spec_groups();
        let n = self.groups.len();
        let mut idx: usize = n;
        let mut i: usize = 0;
        while i < n
            invariant
                0 <= i <= n,
                n == grps.len(),
                grps == self.spec_groups(),
                *self == *old(self),
                n == self.groups@.len(),
                idx <= n,
                idx == n ==> forall|j: int| 0 <= j < i ==> !(name_pred(name@)(grps[j])),
                idx < n ==> idx < i && name_pred(name@)(grps[idx as int]) && (forall|j: int|
                    0 <= j < idx ==> !(name_pred(name@)(grps[j]))),
            decreases n - i,
        {
            if idx == n && str_eq(self.groups[i].name(), name) {
                idx = i;
            }
            i += 1;
        }
        if idx == n {
            return Err(MatahoError::NotFound);
        }
        proof {
            lemma_first_from(grps, name_pred(name@), 0);
        }
        self.groups.remove(idx);
        proof {
            assert(self.spec_groups() =~= grps.remove(idx as int));
        }
        Ok(())
    }

    /// Resolves the device (fuzzy matching allowed) and appends its id to
    /// the named group; fails when the device does not resolve, when the
    /// group does not exist, or when the id is already a member.
    pub fn add_to_group(&mut self, group_name: &str, device: &str) -> (r: Result<
        (),
        MatahoError,
    >)
        ensures
            final(self).spec_devices() == old(self).spec_devices(),
            match resolve_device(old(self).spec_devices(), device@, MatchMode::Fuzzy) {
                Resolution::Found(di) => ({
                    let did = id_of(old(self).spec_devices()[di].url);
                    let gs = old(self).spec_groups();
                    let gi = first_group_named(gs, group_name@);
                    &&& (!has_group_named(gs, group_name@) ==> (r matches Err(e) && e
                        == MatahoError::NotFound && final(self).spec_groups() == gs))
                    &&& (has_group_named(gs, group_name@) && has_member(gs[gi], did) ==> (
                    r matches Err(e) && e == MatahoError::AlreadyMember && final(self).spec_groups() == gs))
                    &&& (has_group_named(gs, group_name@) && !has_member(gs[gi], did) ==> (
                    r is Ok && final(self).spec_groups().len() == gs.len() && (forall|k: int|
                        0 <= k < gs.len() && k != gi ==> final(self).spec_groups()[k] == gs[k])
                        && final(self).spec_groups()[gi] == (GroupView {
                        devices: gs[gi].devices.push(did),
                        ..gs[gi]
                    })))
                }),
                Resolution::NotFound => r matches Err(e) && e == MatahoError::NotFound && *final(self) == *old(self),
                Resolution::Ambiguous(labels) => (r matches Err(e) && (e matches
                    MatahoError::AmbiguousMatch(ls) && ls.deep_view() == labels) && *final(self)
                    == *old(self)),
            },
    {
        let device_id: String = match self.find_device(device, MatchMode::Fuzzy) {
            Ok(d) => String::from_str(d.id()),
            Err(e) => {
                return Err(e);
            },
        };
        let ghost grps = self.spec_groups();
        let n = self.groups.len();
        let mut idx: usize = n;
        let mut i: usize = 0;
        while i < n
            invariant
                0 <= i <= n,
                n == grps.len(),
                grps == self.spec_groups(),
                *self == *old(self),
                n == self.groups@.len(),
                idx <= n,
                idx == n ==> forall|j: int| 0 <= j < i ==> !(name_pred(group_name@)(grps[j])),
                idx < n ==> idx < i && name_pred(group_name@)(grps[idx as int]) && (forall|
                    j: int,
                |
                    0 <= j < idx ==> !(name_pred(group_name@)(grps[j]))),
            decreases n - i,
        {
            if idx == n && str_eq(self.groups[i].name(), group_name) {
                idx = i;
            }
            i += 1;
        }
        if idx == n {
            return Err(MatahoError::NotFound);
        }
        proof {
            lemma_first_from(grps, name_pred(group_name@), 0);
        }
        let g = &mut self.groups[idx];
        match g.add_device(device_id.as_str()) {
            Ok(u) => {
                proof {
                    assert(self.spec_groups().len() == grps.len());
                    assert(forall|k: int|
                        0 <= k < grps.len() && k != idx ==> self.spec_groups()[k] == grps[k]);
                    assert(self.spec_groups()[idx as int] == (GroupView {
                        devices: grps[idx as int].devices.push(device_id@),
                        ..grps[idx as int]
                    }));
                }
                Ok(u)
            },
            Err(e) => {
                proof {
                    assert(self.spec_groups() =~= grps);
                }
                Err(e)
            },
        }
    }

    /// Resolves the device (fuzzy matching allowed) and removes its id
    /// from the named group; fails when the device does not resolve, when
    /// the group does not exist, or when the id is not a member.
    pub fn remove_from_group(&mut self, group_name: &str, device: &str) -> (r: Result<
        (),
        MatahoError,
    >)
        ensures
            final(self).spec_devices() == old(self).spec_devices(),
            match resolve_device(old(self).spec_devices(), device@, MatchMode::Fuzzy) {
                Resolution::Found(di) => ({
                    let did = id_of(old(self).spec_devices()[di].url);
                    let gs = old(self).spec_groups();
                    let gi = first_group_named(gs, group_name@);
                    &&& (!has_group_named(gs, group_name@) ==> (r matches Err(e) && e
                        == MatahoError::NotFound && final(self).spec_groups() == gs))
                    &&& (has_group_named(gs, group_name@) && !has_member(gs[gi], did) ==> (
                    r matches Err(e) && e == MatahoError::NotMember && final(self).spec_groups()
                        == gs))
                    &&& (has_group_named(gs, group_name@) && has_member(gs[gi], did) ==> (
                    r is Ok && final(self).spec_groups().len() == gs.len() && (forall|k: int|
                        0 <= k < gs.len() && k != gi ==> final(self).spec_groups()[k] == gs[k])
                        && final(self).spec_groups()[gi] == (GroupView {
                        devices: gs[gi].devices.filter(crate::group::not_id_pred(did)),
                        ..gs[gi]
                    })))
                }),
                Resolution::NotFound => r matches Err(e) && e == MatahoError::NotFound && *final(self) == *old(self),
                Resolution::Ambiguous(labels) => (r matches Err(e) && (e matches
                    MatahoError::AmbiguousMatch(ls) && ls.deep_view() == labels) && *final(self)
                    == *old(self)),
            },
    {
        let device_id: String = match self.find_device(device, MatchMode::Fuzzy) {
            Ok(d) => String::from_str(d.id()),
            Err(e) => {
                return Err(e);
            },
        };
        let ghost grps = self.spec_groups();
        let n = self.groups.len();
        let mut idx: usize = n;
        let mut i: usize = 0;
        while i < n
            invariant
                0 <= i <= n,
                n == grps.len(),
                grps == self.spec_groups(),
                *self == *old(self),
                n == self.groups@.len(),
                idx <= n,
                idx == n ==> forall|j: int| 0 <= j < i ==> !(name_pred(group_name@)(grps[j])),
                idx < n ==> idx < i && name_pred(group_name@)(grps[idx as int]) && (forall|
                    j: int,
                |
                    0 <= j < idx ==> !(name_pred(group_name@)(grps[j]))),
            decreases n - i,
        {
            if idx == n && str_eq(self.groups[i].name(), group_name) {
                idx = i;
            }
            i += 1;
        }
        if idx == n {
            return Err(MatahoError::NotFound);
        }
        proof {
            lemma_first_from(grps, name_pred(group_name@), 0);
        }
        let g = &mut self.groups[idx];
        match g.remove_device(device_id.as_str()) {
            Ok(u) => {
                proof {
                    assert(self.spec_groups().len() == grps.len());
                    assert(forall|k: int|
                        0 <= k < grps.len() && k != idx ==> self.spec_groups()[k] == grps[k]);
                    assert(self.spec_groups()[idx as int] == (GroupView {
                        devices: grps[idx as int].devices.filter(
                            crate::group::not_id_pred(device_id@),
                        ),
                        ..grps[idx as int]
                    }));
                }
                Ok(u)
            },
            Err(e) => {
                proof {
                    assert(self.spec_groups() =~= grps);
                }
                Err(e)
            },
        }
    }

    /// The configuration directory, from the first provider in the chain
    /// that yields a location: an explicit override, the platform
    /// configuration home, the home directory's `.config`; `None` when no
    /// provider answers.
    pub fn get_config_dir(
        env_override: Option<String>,
        xdg_config_home: Option<String>,
        home_dir: Option<String>,
    ) -> (r: Option<String>)
        ensures
            r.deep_view() == config_dir_of(
                env_override.deep_view(),
                xdg_config_home.deep_view(),
                home_dir.deep_view(),
            ),
    {
        if let Some(dir) = env_override {
            return Some(dir);
        }
        if let Some(config_home) = xdg_config_home {
            let mut dir = config_home;
            dir.append("/mataho");
            return Some(dir);
        }
        if let Some(home) = home_dir {
            let mut dir = home;
            dir.append("/.config/mataho");
            return Some(dir);
        }
        None
    }

    /// The configuration file inside the configuration directory.
    pub fn config_file_path(config_dir: &str) -> (r: String)
        ensures
            r@ == config_dir@ + "/config.json"@,
    {
        let mut p = String::from_str(config_dir);
        p.append("/config.json");
        p
    }

    /// The groups backing store inside the configuration directory.
    pub fn groups_file_path(config_dir: &str) -> (r: String)
        ensures
            r@ == config_dir@ + "/groups.json"@,
    {
        let mut p = String::from_str(config_dir);
        p.append("/groups.json");
        p
    }

    /// Resolves a user-supplied identifier to one device: an id match wins
    /// outright, independent of the mode; otherwise the label resolution
    /// decides.
    pub fn find_device(&self, identifier: &str, match_mode: MatchMode) -> (r: Result<
        &Device,
        MatahoError,
    >)
        ensures
            match resolve_device(self.spec_devices(), identifier@, match_mode) {
                Resolution::Found(i) => r matches Ok(d) && 0 <= i < self.spec_devices().len()
                    && d@ == self.spec_devices()[i],
                Resolution::NotFound => r matches Err(e) && e == MatahoError::NotFound,
                Resolution::Ambiguous(labels) => r matches Err(e) && (e matches
                    MatahoError::AmbiguousMatch(ls) && ls.deep_view() == labels),
            },
    {
        if let Some(device) = self.find_device_by_id(identifier) {
            return Ok(device);
        }
        self.find_device_by_label(identifier, match_mode)
    }
}

} // verus!
