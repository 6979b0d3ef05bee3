//! The configuration graph: Apps own Projects; Projects own Experiments and
//! AudienceLists; Experiments carry Audiences and Variations.  Validation of
//! each level lives here too.

use vstd::prelude::*;

use crate::data::DataValue;
use crate::store::EntityMap;
use crate::store::HasId;

verus! {

/// What an experiment is: a plain feature flag, or an A/B experiment with
/// variations.
#[derive(Clone, Copy, Debug, PartialEq, Eq, Structural)]
pub enum ExperimentKind {
    Feature,
    Experiment,
}

/// Where a project reads a client's prior tracking history from.
#[derive(Clone, Copy, Debug, PartialEq, Eq, Structural)]
pub enum TrackingMethod {
    Both,
    Cookie,
    Data,
}

/// An audience's traffic cap: a fixed head count, or a percentage bucket.
#[derive(Clone, Copy, Debug, PartialEq, Eq, Structural)]
pub enum SizeSpec {
    Absolute { value: i64 },
    Percent { value: i64 },
}

/// A named treatment with a relative traffic weight and optional payload.
#[derive(Debug)]
pub struct Variation {
    pub name: String,
    pub short_name: String,
    pub size: u64,
    pub data: Option<DataValue>,
}

/// An ordered targeting rule: an optional script predicate, an optional
/// audience-list membership predicate, and a sizing policy.  `picked_size`
/// counts users this audience has admitted.
#[derive(Debug)]
pub struct Audience {
    pub name: String,
    pub script_src: Option<String>,
    pub list_id: Option<String>,
    pub size: SizeSpec,
    pub picked_size: i64,
}

/// A versioned targeting and variation configuration.
#[derive(Debug)]
pub struct Experiment {
    pub id: String,
    pub name: String,
    pub short_name: String,
    pub version: i64,
    pub kind: ExperimentKind,
    pub inactive: bool,
    pub start_time: Option<String>,
    pub end_time: Option<String>,
    pub audiences: Vec<Audience>,
    pub frequency_constraint: Option<String>,
    pub variations: Option<Vec<Variation>>,
    pub data: Option<DataValue>,
    pub control_size: u64,
    pub test_size: u64,
}

/// A named set of user identifiers, used for membership targeting.
#[derive(Debug)]
pub struct AudienceList {
    pub id: String,
    pub name: String,
    pub list: Vec<String>,
    pub modification_time: i64,
}

/// A grouping of experiments and audience lists under one app.
pub struct Project {
    pub id: String,
    pub name: String,
    pub short_name: String,
    pub tracking_method: TrackingMethod,
    pub experiments: EntityMap<Experiment>,
    pub audience_lists: EntityMap<AudienceList>,
    pub modification_time: i64,
}

/// A top-level tenant owning projects.
pub struct App {
    pub id: String,
    pub name: String,
    pub short_name: String,
    pub projects: EntityMap<Project>,
    pub modification_time: i64,
}

impl HasId for Experiment {
    open spec fn spec_id(&self) -> Seq<char> {
        self.id@
    }

    fn id(&self) -> (r: &str) {
        self.id.as_str()
    }
}

impl HasId for AudienceList {
    open spec fn spec_id(&self) -> Seq<char> {
        self.id@
    }

    fn id(&self) -> (r: &str) {
        self.id.as_str()
    }
}

impl HasId for Project {
    open spec fn spec_id(&self) -> Seq<char> {
        self.id@
    }

    fn id(&self) -> (r: &str) {
        self.id.as_str()
    }
}

impl HasId for App {
    open spec fn spec_id(&self) -> Seq<char> {
        self.id@
    }

    fn id(&self) -> (r: &str) {
        self.id.as_str()
    }
}

/// A size spec within bounds: an absolute cap is at least 1, a percentage
/// lies in 1..=100.
pub open spec fn wf_size_spec(s: SizeSpec) -> bool {
    match s {
        SizeSpec::Absolute { value } => value >= 1,
        SizeSpec::Percent { value } => 1 <= value <= 100,
    }
}

pub open spec fn wf_variation(v: Variation) -> bool {
    &&& v.name@.len() >= 1
    &&& 1 <= v.short_name@.len() <= 5
    &&& crate::codec::plain_token(v.short_name@)
    &&& 1 <= v.size <= 100
}

pub open spec fn wf_audience(a: Audience) -> bool {
    &&& 1 <= a.name@.len() < 0x2000_0000
    &&& wf_size_spec(a.size)
}

/// The sum of the variations' traffic weights.
pub open spec fn sum_sizes(vs: Seq<Variation>) -> int
    decreases vs.len(),
{
    if vs.len() == 0 {
        0
    } else {
        sum_sizes(vs.drop_last()) + vs.last().size
    }
}

/// A valid variation set: each variation well formed, names unique, short
/// names unique, and the weights summing to exactly 100.
pub open spec fn wf_variations(vs: Seq<Variation>) -> bool {
    &&& forall|i: int| 0 <= i < vs.len() ==> wf_variation(#[trigger] vs[i])
    &&& forall|i: int, j: int|
        0 <= i < j < vs.len() ==> (#[trigger] vs[i]).name@ != (#[trigger] vs[j]).name@
    &&& forall|i: int, j: int|
        0 <= i < j < vs.len() ==> (#[trigger] vs[i]).short_name@ != (
        #[trigger] vs[j]).short_name@
    &&& sum_sizes(vs) == 100
}

/// A well-formed experiment: names within bounds, at least one well-formed
/// audience with unique names, variations (if any) valid, and none allowed
/// on a plain feature.
pub open spec fn wf_experiment(e: Experiment) -> bool {
    &&& e.id@.len() <= 0x0800_0000
    &&& e.name@.len() >= 1
    &&& 1 <= e.short_name@.len() <= 5
    &&& crate::codec::plain_token(e.short_name@)
    &&& e.audiences@.len() >= 1
    &&& forall|i: int| 0 <= i < e.audiences@.len() ==> wf_audience(#[trigger] e.audiences@[i])
    &&& forall|i: int, j: int|
        0 <= i < j < e.audiences@.len() ==> (#[trigger] e.audiences@[i]).name@ != (
        #[trigger] e.audiences@[j]).name@
    &&& match e.variations {
        Some(vs) => wf_variations(vs@) && (vs@.len() > 0 ==> e.kind != ExperimentKind::Feature),
        None => true,
    }
    &&& e.version >= 0
}

/// Every script the experiment carries is ASCII (the script language's
/// alphabet) and parses as a boolean expression: the frequency constraint
/// and each audience's predicate.  Script compilation belongs to
/// configuration load and update time, so admin validation rejects an
/// experiment that fails this.
pub open spec fn scripts_parse(e: Experiment) -> bool {
    &&& match e.frequency_constraint {
        Some(src) => vstd::utf8::is_ascii_chars(src@) && crate::trusted::script_parses(src@),
        None => true,
    }
    &&& forall|i: int|
        0 <= i < e.audiences@.len() ==> match (#[trigger] e.audiences@[i]).script_src {
            Some(src) => vstd::utf8::is_ascii_chars(src@) && crate::trusted::script_parses(
                src@,
            ),
            None => true,
        }
}

pub open spec fn wf_audience_list(l: AudienceList) -> bool {
    l.name@.len() >= 1
}

pub open spec fn wf_project(p: Project) -> bool {
    &&& p.id@.len() <= 0x0800_0000
    &&& p.name@.len() >= 1
    &&& 1 <= p.short_name@.len() <= 5
    &&& p.experiments.wf()
    &&& p.audience_lists.wf()
    &&& forall|i: int|
        0 <= i < p.experiments.entries@.len() ==> wf_experiment(
            (#[trigger] p.experiments.entries@[i]).1,
        )
    &&& forall|i: int|
        0 <= i < p.audience_lists.entries@.len() ==> wf_audience_list(
            (#[trigger] p.audience_lists.entries@[i]).1,
        )
}

pub open spec fn wf_app(a: App) -> bool {
    &&& a.name@.len() >= 1
    &&& 1 <= a.short_name@.len() <= 5
    &&& a.projects.wf()
    &&& forall|i: int|
        0 <= i < a.projects.entries@.len() ==> wf_project((#[trigger] a.projects.entries@[i]).1)
}

/// Checks a size spec's bounds.
pub fn validate_size_spec(size_spec: &SizeSpec) -> (r: bool)
    ensures
        r == wf_size_spec(*size_spec),
{
    match size_spec {
        SizeSpec::Absolute { value } => *value >= 1,
        SizeSpec::Percent { value } => *value >= 1 && *value <= 100,
    }
}

/// Checks a variation set: well-formed entries, unique names and short
/// names, sizes summing to exactly 100.
pub fn validate_variations(variations: &Vec<Variation>) -> (r: bool)
    ensures
        r == wf_variations(variations@),
{
    let n = variations.len();
    let mut i: usize = 0;
    while i < n
        invariant
            i <= n == variations@.len(),
            forall|j: int| 0 <= j < i ==> wf_variation(#[trigger] variations@[j]),
        decreases n - i,
    {
        let v = &variations[i];
        let name_len = v.name.as_str().unicode_len();
        let short_len = v.short_name.as_str().unicode_len();
        if !(name_len >= 1 && short_len >= 1 && short_len <= 5 && v.size >= 1 && v.size <= 100) {
            return false;
        }
        if !crate::codec::check_plain_token(v.short_name.as_str()) {
            return false;
        }
        i = i + 1;
    }
    let mut i: usize = 0;
    while i < n
        invariant
            i <= n == variations@.len(),
            forall|a: int, b: int|
                0 <= a < b < n && a < i ==> (#[trigger] variations@[a]).name@ != (
                #[trigger] variations@[b]).name@,
        decreases n - i,
    {
        let mut j: usize = i + 1;
        while j < n
            invariant
                i < j <= n == variations@.len(),
                forall|b: int|
                    i < b < j ==> (#[trigger] variations@[b]).name@ != variations@[i as int].name@,
            decreases n - j,
        {
            if crate::nums::str_eq(variations[i].name.as_str(), variations[j].name.as_str()) {
                return false;
            }
            j = j + 1;
        }
        i = i + 1;
    }
    let mut i: usize = 0;
    while i < n
        invariant
            i <= n == variations@.len(),
            forall|a: int, b: int|
                0 <= a < b < n && a < i ==> (#[trigger] variations@[a]).short_name@ != (
                #[trigger] variations@[b]).short_name@,
        decreases n - i,
    {
        let mut j: usize = i + 1;
        while j < n
            invariant
                i < j <= n == variations@.len(),
                forall|b: int|
                    i < b < j ==> (#[trigger] variations@[b]).short_name@ != variations@[i as int].short_name@,
            decreases n - j,
        {
            if crate::nums::str_eq(
                variations[i].short_name.as_str(),
                variations[j].short_name.as_str(),
            ) {
                return false;
            }
            j = j + 1;
        }
        i = i + 1;
    }
    let mut total: u64 = 0;
    let mut i: usize = 0;
    proof {
        assert(variations@.subrange(0, 0) =~= Seq::<Variation>::empty());
    }
    while i < n
        invariant
            i <= n == variations@.len(),
            forall|j: int| 0 <= j < n ==> wf_variation(#[trigger] variations@[j]),
            total == sum_sizes(variations@.subrange(0, i as int)),
            total <= 100 * i,
        decreases n - i,
    {
        proof {
            assert(variations@.subrange(0, i + 1).drop_last() =~= variations@.subrange(
                0,
                i as int,
            ));
            assert(variations@.subrange(0, i + 1).last() == variations@[i as int]);
            assert(variations@[i as int].size <= 100);
        }
        if total > 10000 {
            proof {
                lemma_sum_sizes_prefix(variations@, i as int);
            }
            return false;
        }
        total = total + variations[i].size;
        i = i + 1;
    }
    proof {
        assert(variations@.subrange(0, n as int) =~= variations@);
    }
    total == 100
}

/// A prefix's weight sum is non-negative and within the whole sum.
pub proof fn lemma_sum_sizes_prefix(vs: Seq<Variation>, i: int)
    requires
        0 <= i <= vs.len(),
        forall|j: int| 0 <= j < vs.len() ==> wf_variation(#[trigger] vs[j]),
    ensures
        0 <= sum_sizes(vs.subrange(0, i)) <= sum_sizes(vs),
    decreases vs.len() - i,
{
    lemma_sum_sizes_nonneg(vs.subrange(0, i));
    if i == vs.len() {
        assert(vs.subrange(0, i) =~= vs);
    } else {
        lemma_sum_sizes_prefix(vs, i + 1);
        assert(vs.subrange(0, i + 1).drop_last() =~= vs.subrange(0, i));
        assert(vs.subrange(0, i + 1).last() == vs[i]);
        assert(vs[i].size >= 1);
    }
}

proof fn lemma_sum_sizes_nonneg(vs: Seq<Variation>)
    ensures
        sum_sizes(vs) >= 0,
    decreases vs.len(),
{
    if vs.len() > 0 {
        lemma_sum_sizes_nonneg(vs.drop_last());
    }
}

/// Checks the unique audience names within one experiment.
pub fn validate_audiences(audiences: &Vec<Audience>) -> (r: bool)
    ensures
        r == (forall|i: int, j: int|
            0 <= i < j < audiences@.len() ==> (#[trigger] audiences@[i]).name@ != (
            #[trigger] audiences@[j]).name@),
{
    let n = audiences.len();
    let mut i: usize = 0;
    while i < n
        invariant
            i <= n == audiences@.len(),
            forall|a: int, b: int|
                0 <= a < b < n && a < i ==> (#[trigger] audiences@[a]).name@ != (
                #[trigger] audiences@[b]).name@,
        decreases n - i,
    {
        let mut j: usize = i + 1;
        while j < n
            invariant
                i < j <= n == audiences@.len(),
                forall|b: int|
                    i < b < j ==> (#[trigger] audiences@[b]).name@ != audiences@[i as int].name@,
            decreases n - j,
        {
            if crate::nums::str_eq(audiences[i].name.as_str(), audiences[j].name.as_str()) {
                return false;
            }
            j = j + 1;
        }
        i = i + 1;
    }
    true
}

/// Checks one experiment in isolation (uniqueness within a project is the
/// admin layer's part).
pub fn validate_experiment_shape(e: &Experiment) -> (r: bool)
    ensures
        r == wf_experiment(*e),
{
    if e.id.as_str().unicode_len() > 0x0800_0000 {
        return false;
    }
    let name_len = e.name.as_str().unicode_len();
    let short_len = e.short_name.as_str().unicode_len();
    if !(name_len >= 1 && short_len >= 1 && short_len <= 5) {
        return false;
    }
    if !crate::codec::check_plain_token(e.short_name.as_str()) {
        return false;
    }
    if e.audiences.len() < 1 {
        return false;
    }
    if e.version < 0 {
        return false;
    }
    let n = e.audiences.len();
    let mut i: usize = 0;
    while i < n
        invariant
            i <= n == e.audiences@.len(),
            forall|j: int| 0 <= j < i ==> wf_audience(#[trigger] e.audiences@[j]),
        decreases n - i,
    {
        let a = &e.audiences[i];
        let a_name_len = a.name.as_str().unicode_len();
        if !(a_name_len >= 1 && a_name_len < 0x2000_0000 && validate_size_spec(&a.size)) {
            return false;
        }
        i = i + 1;
    }
    if !validate_audiences(&e.audiences) {
        return false;
    }
    match &e.variations {
        Some(vs) => {
            if !validate_variations(vs) {
                return false;
            }
            if vs.len() > 0 && matches!(e.kind, ExperimentKind::Feature) {
                return false;
            }
            true
        },
        None => true,
    }
}

} // verus!
