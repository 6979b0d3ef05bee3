//! The assignment engine: given a user, a project and the user's prior
//! tracking history, decides per experiment whether the user is targeted,
//! picked for treatment, and which variation they receive — sticky across
//! requests while the experiment's version is unchanged.

use vstd::prelude::*;

use crate::codec::ExperimentMemberKind;
use crate::codec::RecordModel;
use crate::codec::TrackedExperiment;
use crate::data::DataModel;
use crate::data::DataValue;
use crate::data::entries_model;
use crate::data::lemma_entries_model;
use crate::data::merge_opt;
use crate::entities::Audience;
use crate::entities::AudienceList;
use crate::entities::Experiment;
use crate::entities::Project;
use crate::entities::SizeSpec;
use crate::entities::Variation;
use crate::errors::HttpError;
use crate::jsontext::json_text;
use crate::nums::int_digits;
use crate::script::ScriptEvaluator;
use crate::script::script_outcome;
use crate::store::EntityMap;
use crate::trusted::murmur3_of;
use crate::trusted::murmur3_str;
use crate::trusted::script_eval_of;

verus! {

broadcast use vstd::seq::group_seq_axioms, vstd::std_specs::vec::group_vec_axioms;

/// u32 addition that wraps around, as the seed combination does.
pub open spec fn wrap_add32(a: u32, b: u32) -> u32 {
    (((a + b) as int) % 0x1_0000_0000) as u32
}

/// A counter increment that wraps at the top of u64.
pub open spec fn inc64(x: u64) -> u64 {
    if x == u64::MAX {
        0
    } else {
        (x + 1) as u64
    }
}

/// A counter decrement that wraps at the bottom of u64.
pub open spec fn dec64(x: u64) -> u64 {
    if x == 0 {
        u64::MAX
    } else {
        (x - 1) as u64
    }
}

/// An i64 increment that wraps at the top.
pub open spec fn inc_i64(x: i64) -> i64 {
    if x == i64::MAX {
        i64::MIN
    } else {
        (x + 1) as i64
    }
}

/// The per-experiment hash seed: murmur3 of "{project_id}/{experiment_id}".
pub open spec fn experiment_seed(proj_id: Seq<char>, exp_id: Seq<char>) -> u32 {
    murmur3_of(proj_id + seq!['/'] + exp_id, 0)
}

/// The user's stable bucket in 0..10000 for one experiment and audience: a
/// pure function of the identifiers alone, so the same user always lands in
/// the same bucket.
pub open spec fn bucket_of(
    proj_id: Seq<char>,
    exp_id: Seq<char>,
    audience_name: Seq<char>,
    user_id: Seq<char>,
) -> int {
    murmur3_of(user_id, wrap_add32(experiment_seed(proj_id, exp_id), murmur3_of(audience_name, 0)))
        as int % 10000
}

/// Membership of a user in an audience list.
pub open spec fn user_in_list(l: AudienceList, user_id: Seq<char>) -> bool {
    exists|i: int| 0 <= i < l.list@.len() && (#[trigger] l.list@[i])@ == user_id
}

/// The structured form of a recs record, as the frequency scripts see it
/// under the "experiment" key.
pub open spec fn record_model_value(r: RecordModel) -> DataModel {
    DataModel::Object(
        seq![
            ("short_name"@, DataModel::Text(r.short_name)),
            ("selected_version"@, DataModel::Number(int_digits(r.selected_version))),
            (
                "selected_member_kind"@,
                DataModel::Text(seq![crate::codec::kind_char(r.selected_member_kind)]),
            ),
            (
                "selected_variation"@,
                match r.selected_variation {
                    Some(v) => DataModel::Text(v),
                    None => DataModel::Null,
                },
            ),
            ("selection_date"@, DataModel::Number(int_digits(r.selection_date))),
            (
                "total_selection_count"@,
                DataModel::Number(int_digits(r.total_selection_count)),
            ),
            ("invocation_version"@, DataModel::Number(int_digits(r.invocation_version))),
            ("invocation_date"@, DataModel::Number(int_digits(r.invocation_date))),
            (
                "total_invocation_count"@,
                DataModel::Number(int_digits(r.total_invocation_count)),
            ),
        ],
    )
}

/// The JSON context a frequency script sees: the request context's entries
/// plus the prior record under "experiment".
pub open spec fn freq_ctx_of(base: Seq<(Seq<char>, DataModel)>, r: RecordModel) -> Seq<char> {
    json_text(DataModel::Object(base.push(("experiment"@, record_model_value(r)))))
}

/// Whether the frequency gate passes: only an experiment with a constraint
/// and a user with a prior record are gated; None stands for a script
/// failure.
pub open spec fn freq_eligible_spec(
    exp: Experiment,
    prior: Option<RecordModel>,
    base: Seq<(Seq<char>, DataModel)>,
) -> Option<bool> {
    match (exp.frequency_constraint, prior) {
        (Some(src), Some(r)) => script_outcome(src@, freq_ctx_of(base, r)),
        (_, _) => Some(true),
    }
}

/// What scanning the audiences in declared order yields.
pub ghost enum ScanResult {
    /// An audience script failed to evaluate (index of the audience).
    EvalError(int),
    /// An audience names a list that the project does not hold.
    MissingList(int),
    /// Whether any audience matched, and the first matching audience that
    /// also passed its size gate, if any.
    Done { targeted: bool, picked_at: Option<int> },
}

/// Whether one audience's size gate admits the user.
pub open spec fn size_gate(
    a: Audience,
    proj_id: Seq<char>,
    exp_id: Seq<char>,
    user_id: Seq<char>,
) -> bool {
    match a.size {
        SizeSpec::Absolute { value } => a.picked_size < value,
        SizeSpec::Percent { value } => bucket_of(proj_id, exp_id, a.name@, user_id) < value * 100,
    }
}

/// Whether one audience's combined predicate (script AND list membership)
/// matches; None propagates a script failure, and a dangling list id is
/// reported separately.
pub open spec fn audience_match(
    a: Audience,
    lists: EntityMap<AudienceList>,
    user_id: Seq<char>,
    ctx_json: Seq<char>,
) -> Option<Option<bool>> {
    // outer None: missing list; inner None: script failure
    let script_res = match a.script_src {
        None => Some(true),
        Some(src) => script_outcome(src@, ctx_json),
    };
    match script_res {
        None => Some(None),
        Some(sb) => match a.list_id {
            Some(lid) => match lists.spec_get(lid@) {
                None => None,
                Some(l) => Some(Some(sb && user_in_list(l, user_id))),
            },
            None => Some(Some(sb)),
        },
    }
}

/// First-match-wins scan of the audiences from index k on: the first
/// matching audience marks the user targeted; the first matching audience
/// that also passes its size gate picks the user and ends the scan.
pub open spec fn scan_audiences(
    auds: Seq<Audience>,
    k: int,
    lists: EntityMap<AudienceList>,
    proj_id: Seq<char>,
    exp_id: Seq<char>,
    user_id: Seq<char>,
    ctx_json: Seq<char>,
) -> ScanResult
    decreases auds.len() - k,
{
    if k < 0 || k >= auds.len() {
        ScanResult::Done { targeted: false, picked_at: None }
    } else {
        match audience_match(auds[k], lists, user_id, ctx_json) {
            None => ScanResult::MissingList(k),
            Some(None) => ScanResult::EvalError(k),
            Some(Some(m)) => {
                if m {
                    if size_gate(auds[k], proj_id, exp_id, user_id) {
                        ScanResult::Done { targeted: true, picked_at: Some(k) }
                    } else {
                        match scan_audiences(auds, k + 1, lists, proj_id, exp_id, user_id,
                        ctx_json) {
                            ScanResult::EvalError(j) => ScanResult::EvalError(j),
                            ScanResult::MissingList(j) => ScanResult::MissingList(j),
                            ScanResult::Done { targeted: _, picked_at } => ScanResult::Done {
                                targeted: true,
                                picked_at,
                            },
                        }
                    }
                } else {
                    scan_audiences(auds, k + 1, lists, proj_id, exp_id, user_id, ctx_json)
                }
            },
        }
    }
}

/// The first variation whose cumulative weight (in hundredths) exceeds the
/// sampled value, walking in declared order from k with the accumulated
/// weight so far.
pub open spec fn pick_variation_from(vs: Seq<Variation>, k: int, acc: int, sample: int) -> Option<
    int,
>
    decreases vs.len() - k,
{
    if k < 0 || k >= vs.len() {
        None
    } else {
        let acc2 = acc + vs[k].size * 100;
        if sample < acc2 {
            Some(k)
        } else {
            pick_variation_from(vs, k + 1, acc2, sample)
        }
    }
}

/// The first variation carrying the given short name.
pub open spec fn find_variation(vs: Seq<Variation>, name: Seq<char>) -> Option<int>
    decreases vs.len(),
{
    if vs.len() == 0 {
        None
    } else if vs[0].short_name@ == name {
        Some(0)
    } else {
        match find_variation(vs.subrange(1, vs.len() as int), name) {
            Some(i) => Some(i + 1),
            None => None,
        }
    }
}

/// The selected variation and merged payload for a picked (Test) user: a
/// sticky variation that still exists is reused; otherwise the sampled value
/// picks one fresh; an experiment without variations emits its base data.
pub open spec fn variation_choice(
    exp: Experiment,
    existing: Option<Seq<char>>,
    sample: int,
) -> (Option<DataModel>, Option<Seq<char>>) {
    let base = match exp.data {
        Some(d) => Some(d@),
        None => None,
    };
    match exp.variations {
        None => (base, None),
        Some(vs) => if vs@.len() == 0 {
            (base, None)
        } else {
            let chosen = match existing {
                Some(name) => match find_variation(vs@, name) {
                    Some(i) => Some(i),
                    None => pick_variation_from(vs@, 0, 0, sample),
                },
                None => pick_variation_from(vs@, 0, 0, sample),
            };
            match chosen {
                Some(i) => (
                    merge_opt(
                        base,
                        match vs@[i].data {
                            Some(d) => Some(d@),
                            None => None,
                        },
                    ),
                    Some(vs@[i].short_name@),
                ),
                None => (base, None),
            }
        },
    }
}

/// An experiment's contribution to the response.
pub ghost struct ActiveModel {
    pub short_name: Seq<char>,
    pub variation: Option<Seq<char>>,
    pub data: Option<DataModel>,
}

/// What one experiment's evaluation emits.
pub ghost enum StepOutcome {
    /// A script failed to evaluate (frequency or audience).
    EvalError,
    /// An audience names a missing list (its id).
    MissingList(Seq<char>),
    /// Nothing emitted: inactive without a prior record, or targeting
    /// failed (a prior record is dropped).
    Nothing,
    /// Inactive with a prior record: the record rides along unchanged.
    Carry(RecordModel),
    /// Frequency-blocked: the prior record re-emitted with its invocation
    /// fields bumped, and the user not re-sampled.
    Blocked(RecordModel),
    /// A fresh or sticky assignment: the new record, and the active entry
    /// when the user is in the treatment group.
    Assigned { record: RecordModel, active: Option<ActiveModel> },
}

/// The complete effect of one experiment's evaluation: what is emitted,
/// which audience admitted the user (its picked counter increments), and
/// the new control/test totals.
pub ghost struct StepSpec {
    pub outcome: StepOutcome,
    pub picked_index: Option<int>,
    pub control_size: u64,
    pub test_size: u64,
}

/// The record an assignment writes.
pub open spec fn assigned_record(
    exp: Experiment,
    prior: Option<RecordModel>,
    kind: ExperimentMemberKind,
    variation: Option<Seq<char>>,
    now: int,
) -> RecordModel {
    RecordModel {
        short_name: exp.short_name@,
        selected_version: exp.version as int,
        selected_member_kind: kind,
        selected_variation: variation,
        selection_date: now,
        total_selection_count: inc64(
            match prior {
                Some(r) => r.total_selection_count as u64,
                None => 0u64,
            },
        ) as int,
        invocation_version: exp.version as int,
        invocation_date: now,
        total_invocation_count: inc64(
            match prior {
                Some(r) => r.total_invocation_count as u64,
                None => 0u64,
            },
        ) as int,
    }
}

/// A frequency-blocked record: invocation count and date bumped, selection
/// untouched.
pub open spec fn bumped_record(r: RecordModel, version: int, now: int) -> RecordModel {
    RecordModel {
        total_invocation_count: inc64(r.total_invocation_count as u64) as int,
        invocation_date: now,
        invocation_version: version,
        ..r
    }
}

/// The full decision for one experiment.  `sample` stands for the uniformly
/// drawn value in 0..10000 that a fresh variation selection would consume;
/// every other input determines the outcome exactly.
pub open spec fn step_spec(
    exp: Experiment,
    prior: Option<RecordModel>,
    lists: EntityMap<AudienceList>,
    proj_id: Seq<char>,
    user_id: Seq<char>,
    base: Seq<(Seq<char>, DataModel)>,
    ctx_json: Seq<char>,
    now: int,
    sample: int,
) -> StepSpec {
    let unchanged = StepSpec {
        outcome: StepOutcome::Nothing,
        picked_index: None,
        control_size: exp.control_size,
        test_size: exp.test_size,
    };
    if exp.inactive {
        match prior {
            Some(r) => StepSpec { outcome: StepOutcome::Carry(r), ..unchanged },
            None => unchanged,
        }
    } else {
        match freq_eligible_spec(exp, prior, base) {
            None => StepSpec { outcome: StepOutcome::EvalError, ..unchanged },
            Some(false) => StepSpec {
                outcome: StepOutcome::Blocked(
                    bumped_record(prior->Some_0, exp.version as int, now),
                ),
                ..unchanged
            },
            Some(true) => match scan_audiences(
                exp.audiences@,
                0,
                lists,
                proj_id,
                exp.id@,
                user_id,
                ctx_json,
            ) {
                ScanResult::EvalError(_) => StepSpec { outcome: StepOutcome::EvalError, ..unchanged },
                ScanResult::MissingList(j) => StepSpec {
                    outcome: StepOutcome::MissingList(
                        match exp.audiences@[j].list_id {
                            Some(lid) => lid@,
                            None => Seq::<char>::empty(),
                        },
                    ),
                    ..unchanged
                },
                ScanResult::Done { targeted: false, .. } => unchanged,
                ScanResult::Done { targeted: true, picked_at } => {
                    let c1 = match prior {
                        Some(r) => if r.selected_member_kind == ExperimentMemberKind::Control {
                            dec64(exp.control_size)
                        } else {
                            exp.control_size
                        },
                        None => exp.control_size,
                    };
                    let t1 = match prior {
                        Some(r) => if r.selected_member_kind == ExperimentMemberKind::Test {
                            dec64(exp.test_size)
                        } else {
                            exp.test_size
                        },
                        None => exp.test_size,
                    };
                    let sticky = match prior {
                        Some(r) => r.invocation_version == exp.version as int,
                        None => false,
                    };
                    let picked = if sticky {
                        prior->Some_0.selected_member_kind == ExperimentMemberKind::Test
                    } else {
                        picked_at is Some
                    };
                    let existing = if sticky {
                        prior->Some_0.selected_variation
                    } else {
                        None
                    };
                    if picked {
                        let (data, variation) = variation_choice(exp, existing, sample);
                        let record = assigned_record(
                            exp,
                            prior,
                            ExperimentMemberKind::Test,
                            variation,
                            now,
                        );
                        StepSpec {
                            outcome: StepOutcome::Assigned {
                                record,
                                active: Some(
                                    ActiveModel { short_name: exp.short_name@, variation, data },
                                ),
                            },
                            picked_index: picked_at,
                            control_size: c1,
                            test_size: inc64(t1),
                        }
                    } else {
                        let record = assigned_record(
                            exp,
                            prior,
                            ExperimentMemberKind::Control,
                            None,
                            now,
                        );
                        StepSpec {
                            outcome: StepOutcome::Assigned { record, active: None },
                            picked_index: picked_at,
                            control_size: inc64(c1),
                            test_size: t1,
                        }
                    }
                },
            },
        }
    }
}

/// Builds the structured form of a recs record for frequency contexts.
fn record_value(rec: &TrackedExperiment) -> (r: DataValue)
    ensures
        r@ == record_model_value(rec@),
{
    let mut es: Vec<(String, DataValue)> = Vec::new();
    es.push((String::from_str("short_name"), DataValue::Text(rec.short_name.clone())));
    es.push((String::from_str("selected_version"), DataValue::from_i64(rec.selected_version)));
    let kind_text = match rec.selected_member_kind {
        ExperimentMemberKind::Control => String::from_str("C"),
        ExperimentMemberKind::Test => String::from_str("T"),
    };
    proof {
        reveal_strlit("C");
        reveal_strlit("T");
        assert(kind_text@ =~= seq![crate::codec::kind_char(rec.selected_member_kind)]);
    }
    es.push((String::from_str("selected_member_kind"), DataValue::Text(kind_text)));
    let variation_value = match &rec.selected_variation {
        Some(v) => DataValue::Text(v.clone()),
        None => DataValue::Null,
    };
    es.push((String::from_str("selected_variation"), variation_value));
    es.push((String::from_str("selection_date"), DataValue::from_i64(rec.selection_date)));
    es.push(
        (String::from_str("total_selection_count"), DataValue::from_u64(rec.total_selection_count)),
    );
    es.push((String::from_str("invocation_version"), DataValue::from_i64(rec.invocation_version)));
    es.push((String::from_str("invocation_date"), DataValue::from_i64(rec.invocation_date)));
    es.push(
        (
            String::from_str("total_invocation_count"),
            DataValue::from_u64(rec.total_invocation_count),
        ),
    );
    let r = DataValue::Object(es);
    proof {
        lemma_entries_model(r->Object_0@);
        assert(r@ matches DataModel::Object(m) && m =~= record_model_value(rec@)->Object_0);
    }
    r
}

/// Builds the JSON context a frequency script sees: the request context's
/// entries plus the prior record under "experiment".
fn freq_context_json(ctx_entries: &Vec<(String, DataValue)>, rec: &TrackedExperiment) -> (r:
    String)
    ensures
        r@ == freq_ctx_of(entries_model(ctx_entries@), rec@),
{
    let mut es: Vec<(String, DataValue)> = Vec::new();
    let n = ctx_entries.len();
    let mut i: usize = 0;
    while i < n
        invariant
            i <= n == ctx_entries@.len(),
            es@.len() == i,
            forall|j: int|
                0 <= j < i ==> (#[trigger] es@[j]).0@ == ctx_entries@[j].0@ && es@[j].1@
                    == ctx_entries@[j].1@,
        decreases n - i,
    {
        let k = ctx_entries[i].0.clone();
        let v = ctx_entries[i].1.duplicate();
        es.push((k, v));
        i = i + 1;
    }
    es.push((String::from_str("experiment"), record_value(rec)));
    let obj = DataValue::Object(es);
    proof {
        lemma_entries_model(obj->Object_0@);
        lemma_entries_model(ctx_entries@);
        assert(obj@ matches DataModel::Object(m) && m =~= entries_model(ctx_entries@).push(
            ("experiment"@, record_model_value(rec@)),
        ));
    }
    obj.to_json_string()
}

/// The user's stable bucket for one experiment and audience.  The length
/// bounds keep every hashed string under the hash wrapper's input cap.
fn bucket(proj_id: &str, exp_id: &str, audience_name: &str, user_id: &str) -> (r: u32)
    requires
        proj_id@.len() + exp_id@.len() + 1 < 0x2000_0000,
        audience_name@.len() < 0x2000_0000,
        user_id@.len() < 0x2000_0000,
    ensures
        r as int == bucket_of(proj_id@, exp_id@, audience_name@, user_id@),
{
    proof {
        reveal_strlit("/");
    }
    let seed_str = crate::errors::join3(proj_id, "/", exp_id);
    proof {
        assert(seed_str@ =~= proj_id@ + seq!['/'] + exp_id@);
    }
    let e_seed = murmur3_str(seed_str.as_str(), 0);
    let a_seed = murmur3_str(audience_name, 0);
    let combined: u64 = e_seed as u64 + a_seed as u64;
    let seed: u32 = (combined % 0x1_0000_0000u64) as u32;
    assert(seed == wrap_add32(e_seed, a_seed));
    murmur3_str(user_id, seed) % 10000
}

/// Whether a user belongs to an audience list.
fn list_contains(l: &AudienceList, user_id: &str) -> (r: bool)
    ensures
        r == user_in_list(*l, user_id@),
{
    let n = l.list.len();
    let mut i: usize = 0;
    while i < n
        invariant
            i <= n == l.list@.len(),
            forall|j: int| 0 <= j < i ==> (#[trigger] l.list@[j])@ != user_id@,
        decreases n - i,
    {
        if crate::nums::str_eq(l.list[i].as_str(), user_id) {
            return true;
        }
        i = i + 1;
    }
    false
}

/// One experiment's contribution to a response.
#[derive(Debug)]
pub struct ActiveExperiment {
    pub short_name: String,
    pub variation: Option<String>,
    pub data: Option<DataValue>,
}

impl View for ActiveExperiment {
    type V = ActiveModel;

    open spec fn view(&self) -> ActiveModel {
        ActiveModel {
            short_name: self.short_name@,
            variation: match self.variation {
                Some(v) => Some(v@),
                None => None,
            },
            data: match self.data {
                Some(d) => Some(d@),
                None => None,
            },
        }
    }
}

/// What one experiment's evaluation hands back to the project loop.
pub struct StepEmit {
    pub record: Option<TrackedExperiment>,
    pub active: Option<ActiveExperiment>,
}

/// The prior record's mathematical content, if one exists.
pub open spec fn prior_model(prior: Option<&TrackedExperiment>) -> Option<RecordModel> {
    match prior {
        Some(r) => Some(r@),
        None => None,
    }
}

fn inc_u64(x: u64) -> (r: u64)
    ensures
        r == inc64(x),
{
    if x == u64::MAX {
        0
    } else {
        x + 1
    }
}

fn dec_u64(x: u64) -> (r: u64)
    ensures
        r == dec64(x),
{
    if x == 0 {
        u64::MAX
    } else {
        x - 1
    }
}

fn inc_i64_wrap(x: i64) -> (r: i64)
    ensures
        r == inc_i64(x),
{
    if x == i64::MAX {
        i64::MIN
    } else {
        x + 1
    }
}

/// Lifting a scan tail to the whole scan: matches seen so far only set the
/// targeted flag.
pub open spec fn scan_merge(t: bool, r: ScanResult) -> ScanResult {
    match r {
        ScanResult::Done { targeted, picked_at } => ScanResult::Done {
            targeted: t || targeted,
            picked_at,
        },
        other => other,
    }
}

/// The first variation with the given short name, located by position.
proof fn lemma_find_variation_at(vs: Seq<Variation>, name: Seq<char>, i: int)
    requires
        0 <= i < vs.len(),
        forall|j: int| 0 <= j < i ==> (#[trigger] vs[j]).short_name@ != name,
        vs[i].short_name@ == name,
    ensures
        find_variation(vs, name) == Some(i),
    decreases i,
{
    if i == 0 {
    } else {
        let tail = vs.subrange(1, vs.len() as int);
        assert(forall|j: int| 0 <= j < tail.len() ==> #[trigger] tail[j] == vs[j + 1]);
        lemma_find_variation_at(tail, name, i - 1);
        assert(vs[0].short_name@ != name);
    }
}

/// No variation carries the name: the search misses.
proof fn lemma_find_variation_none(vs: Seq<Variation>, name: Seq<char>)
    requires
        forall|j: int| 0 <= j < vs.len() ==> (#[trigger] vs[j]).short_name@ != name,
    ensures
        find_variation(vs, name) is None,
    decreases vs.len(),
{
    if vs.len() > 0 {
        let tail = vs.subrange(1, vs.len() as int);
        assert(forall|j: int| 0 <= j < tail.len() ==> #[trigger] tail[j] == vs[j + 1]);
        lemma_find_variation_none(tail, name);
    }
}

/// Evaluates one experiment for one user and applies its counter effects.
/// `sample` is the uniformly drawn value a fresh variation selection would
/// consume; every other input pins the outcome exactly (see `step_spec`).
pub fn decide_experiment(
    exp: &mut Experiment,
    prior: Option<&TrackedExperiment>,
    lists: &EntityMap<AudienceList>,
    proj_id: &str,
    user_id: &str,
    ctx_entries: &Vec<(String, DataValue)>,
    ctx_json: &str,
    now: i64,
    sample: u64,
    evaluator: &ScriptEvaluator,
) -> (r: Result<StepEmit, HttpError>)
    requires
        crate::entities::wf_experiment(*old(exp)),
        ctx_json@ == json_text(DataModel::Object(entries_model(ctx_entries@))),
        user_id@.len() < 0x2000_0000,
        proj_id@.len() + old(exp).id@.len() + 1 < 0x2000_0000,
    ensures
        ({
            let spec = step_spec(
                *old(exp),
                prior_model(prior),
                *lists,
                proj_id@,
                user_id@,
                entries_model(ctx_entries@),
                ctx_json@,
                now as int,
                sample as int,
            );
            &&& match spec.outcome {
                // A script failure carries the failing script's source and
                // the exact context it was evaluated against.
                StepOutcome::EvalError => r matches Err(e) && (e
                    matches HttpError::EvaluationError(m) && ((freq_eligible_spec(
                    *old(exp),
                    prior_model(prior),
                    entries_model(ctx_entries@),
                ) is None && exists|reason: Seq<char>|
                    m@ == #[trigger] crate::script::eval_error_message(
                        old(exp).frequency_constraint->Some_0@,
                        reason,
                        freq_ctx_of(entries_model(ctx_entries@), prior_model(prior)->Some_0),
                    )) || (exists|k: int, reason: Seq<char>|
                    0 <= k < old(exp).audiences@.len() && scan_audiences(
                        old(exp).audiences@,
                        0,
                        *lists,
                        proj_id@,
                        old(exp).id@,
                        user_id@,
                        ctx_json@,
                    ) == ScanResult::EvalError(k) && m@
                        == #[trigger] crate::script::eval_error_message(
                        old(exp).audiences@[k].script_src->Some_0@,
                        reason,
                        ctx_json@,
                    )))),
                // A dangling list reference names the missing list id.
                StepOutcome::MissingList(lid) => r matches Err(e) && (e
                    matches HttpError::BadRequest(m) && m@ == "Audience list not found for id: "@
                    + lid),
                StepOutcome::Nothing => r matches Ok(em) && em.record is None && em.active is None,
                StepOutcome::Carry(m) => r matches Ok(em) && em.record matches Some(rec) && rec@
                    == m && em.active is None,
                StepOutcome::Blocked(m) => r matches Ok(em) && em.record matches Some(rec) && rec@
                    == m && em.active is None,
                StepOutcome::Assigned { record, active } => r matches Ok(em) && em.record matches
                    Some(rec) && rec@ == record && (match active {
                    Some(am) => em.active matches Some(ae) && ae@ == am,
                    None => em.active is None,
                }),
            }
            &&& (r matches Ok(_) ==> {
                &&& final(exp).control_size == spec.control_size
                &&& final(exp).test_size == spec.test_size
                &&& final(exp).audiences@.len() == old(exp).audiences@.len()
                &&& forall|j: int|
                    0 <= j < old(exp).audiences@.len() && spec.picked_index != Some(j)
                        ==> #[trigger] final(exp).audiences@[j] == old(exp).audiences@[j]
                &&& (spec.picked_index matches Some(j) ==> 0 <= j < old(exp).audiences@.len()
                    && final(exp).audiences@[j] == Audience {
                    picked_size: inc_i64(old(exp).audiences@[j].picked_size),
                    ..old(exp).audiences@[j]
                })
                &&& final(exp).id == old(exp).id
                &&& final(exp).name == old(exp).name
                &&& final(exp).short_name == old(exp).short_name
                &&& final(exp).version == old(exp).version
                &&& final(exp).kind == old(exp).kind
                &&& final(exp).inactive == old(exp).inactive
                &&& final(exp).start_time == old(exp).start_time
                &&& final(exp).end_time == old(exp).end_time
                &&& final(exp).frequency_constraint == old(exp).frequency_constraint
                &&& final(exp).variations == old(exp).variations
                &&& final(exp).data == old(exp).data
            })
            &&& (r matches Err(_) ==> *final(exp) == *old(exp))
        }),
{
    let ghost base = entries_model(ctx_entries@);
    let ghost spec = step_spec(
        *exp,
        prior_model(prior),
        *lists,
        proj_id@,
        user_id@,
        base,
        ctx_json@,
        now as int,
        sample as int,
    );
    if exp.inactive {
        match prior {
            Some(p) => {
                return Ok(StepEmit { record: Some(p.duplicate()), active: None });
            },
            None => {
                return Ok(StepEmit { record: None, active: None });
            },
        }
    }
    // Frequency gate: a constraint plus a prior record means the script
    // decides; anything else is eligible.
    let frequency_eligible: bool;
    match (&exp.frequency_constraint, prior) {
        (Some(src), Some(p)) => {
            let freq_ctx = freq_context_json(ctx_entries, p);
            let script = crate::script::Script { src: src.clone() };
            match evaluator.evaluate(Some(&script), freq_ctx.as_str()) {
                Ok(b) => {
                    frequency_eligible = b;
                },
                Err(e) => {
                    assert(freq_eligible_spec(*exp, prior_model(prior), base) is None);
                    return Err(e);
                },
            }
        },
        (_, _) => {
            frequency_eligible = true;
        },
    }
    if !frequency_eligible {
        // Re-emit the prior record with its invocation bumped; the user is
        // not re-sampled this cycle.
        let p = match prior {
            Some(p) => p,
            None => {
                proof {
                    assert(false);
                }
                return Ok(StepEmit { record: None, active: None });
            },
        };
        let mut rec = p.duplicate();
        rec.total_invocation_count = inc_u64(rec.total_invocation_count);
        rec.invocation_date = now;
        rec.invocation_version = exp.version;
        assert(rec@ == bumped_record(p@, exp.version as int, now as int));
        return Ok(StepEmit { record: Some(rec), active: None });
    }
    // Targeting gate: scan audiences in declared order.
    let n = exp.audiences.len();
    let mut k: usize = 0;
    let mut targeted: bool = false;
    let mut picked_k: Option<usize> = None;
    let ghost auds = exp.audiences@;
    proof {
        assert(scan_merge(
            false,
            scan_audiences(auds, 0, *lists, proj_id@, exp.id@, user_id@, ctx_json@),
        ) == scan_audiences(auds, 0, *lists, proj_id@, exp.id@, user_id@, ctx_json@));
    }
    while k < n && picked_k.is_none()
        invariant
            *exp == *old(exp),
            user_id@.len() < 0x2000_0000,
            proj_id@.len() + old(exp).id@.len() + 1 < 0x2000_0000,
            k <= n == auds.len(),
            auds == exp.audiences@,
            crate::entities::wf_experiment(*exp),
            old(exp).inactive == false,
            base == entries_model(ctx_entries@),
            ctx_json@ == json_text(DataModel::Object(base)),
            freq_eligible_spec(*old(exp), prior_model(prior), base) == Some(true),
            spec == step_spec(
                *old(exp),
                prior_model(prior),
                *lists,
                proj_id@,
                user_id@,
                base,
                ctx_json@,
                now as int,
                sample as int,
            ),
            picked_k matches Some(j) ==> j < n,
            scan_audiences(auds, 0, *lists, proj_id@, exp.id@, user_id@, ctx_json@) == (
            match picked_k {
                Some(j) => ScanResult::Done { targeted: true, picked_at: Some(j as int) },
                None => scan_merge(
                    targeted,
                    scan_audiences(auds, k as int, *lists, proj_id@, exp.id@, user_id@, ctx_json@),
                ),
            }),
        decreases n - k,
    {
        let aud = &exp.audiences[k];
        let matches_script: bool;
        match evaluator.evaluate_src(aud.script_src.as_ref(), ctx_json) {
            Ok(b) => {
                matches_script = b;
            },
            Err(e) => {
                proof {
                    assert(audience_match(auds[k as int], *lists, user_id@, ctx_json@) == Some(
                        Option::<bool>::None,
                    ));
                    assert(scan_audiences(auds, k as int, *lists, proj_id@, exp.id@, user_id@,
                    ctx_json@) == ScanResult::EvalError(k as int));
                    assert(scan_audiences(auds, 0, *lists, proj_id@, exp.id@, user_id@, ctx_json@)
                        == ScanResult::EvalError(k as int));
                    assert(spec.outcome == StepOutcome::EvalError);
                }
                return Err(e);
            },
        }
        let mut matches_list = true;
        match &aud.list_id {
            Some(lid) => match lists.get(lid.as_str()) {
                None => {
                    proof {
                        assert(audience_match(auds[k as int], *lists, user_id@, ctx_json@)
                            is None);
                        assert(scan_audiences(auds, k as int, *lists, proj_id@, exp.id@, user_id@,
                        ctx_json@) == ScanResult::MissingList(k as int));
                        assert(scan_audiences(auds, 0, *lists, proj_id@, exp.id@, user_id@,
                        ctx_json@) == ScanResult::MissingList(k as int));
                        assert(spec.outcome matches StepOutcome::MissingList(_));
                        reveal_strlit("");
                    }
                    let msg = crate::errors::join3(
                        "Audience list not found for id: ",
                        lid.as_str(),
                        "",
                    );
                    proof {
                        assert(msg@ =~= "Audience list not found for id: "@ + lid@);
                        assert(spec.outcome == StepOutcome::MissingList(lid@));
                    }
                    return Err(HttpError::BadRequest(msg));
                },
                Some(l) => {
                    matches_list = list_contains(l, user_id);
                },
            },
            None => {},
        }
        let m = matches_script && matches_list;
        proof {
            assert(audience_match(auds[k as int], *lists, user_id@, ctx_json@) == Some(
                Some(m),
            ));
        }
        if m {
            let gate: bool;
            match &aud.size {
                SizeSpec::Absolute { value } => {
                    gate = aud.picked_size < *value;
                },
                SizeSpec::Percent { value } => {
                    let b = bucket(proj_id, exp.id.as_str(), aud.name.as_str(), user_id);
                    proof {
                        assert(crate::entities::wf_audience(auds[k as int]));
                    }
                    gate = (b as i64) < *value * 100;
                },
            }
            proof {
                assert(gate == size_gate(auds[k as int], proj_id@, exp.id@, user_id@));
            }
            if gate {
                picked_k = Some(k);
                proof {
                    assert(scan_audiences(auds, k as int, *lists, proj_id@, exp.id@, user_id@,
                    ctx_json@) == ScanResult::Done { targeted: true, picked_at: Some(k as int) });
                }
            } else {
                targeted = true;
                proof {
                    let tail = scan_audiences(auds, k + 1, *lists, proj_id@, exp.id@, user_id@,
                    ctx_json@);
                    assert(scan_audiences(auds, k as int, *lists, proj_id@, exp.id@, user_id@,
                    ctx_json@) == scan_merge(true, tail));
                }
            }
        } else {
            proof {
                assert(scan_audiences(auds, k as int, *lists, proj_id@, exp.id@, user_id@,
                ctx_json@) == scan_audiences(auds, k + 1, *lists, proj_id@, exp.id@, user_id@,
                ctx_json@));
            }
        }
        k = k + 1;
    }
    proof {
        if picked_k is None {
            assert(k == n);
            assert(scan_audiences(auds, n as int, *lists, proj_id@, exp.id@, user_id@, ctx_json@)
                == ScanResult::Done { targeted: false, picked_at: None });
        }
    }
    let ghost scan = scan_audiences(auds, 0, *lists, proj_id@, exp.id@, user_id@, ctx_json@);
    if picked_k.is_none() && !targeted {
        // Targeting failed this cycle: a prior record is dropped.
        assert(scan == ScanResult::Done { targeted: false, picked_at: None });
        return Ok(StepEmit { record: None, active: None });
    }
    proof {
        assert(scan matches ScanResult::Done { targeted: t, picked_at: _ } && t);
    }
    // Version reconciliation and counter rebalancing.
    let mut control_size = exp.control_size;
    let mut test_size = exp.test_size;
    let mut sticky = false;
    let mut existing_variation: Option<&String> = None;
    let mut picked = picked_k.is_some();
    match prior {
        Some(p) => {
            match p.selected_member_kind {
                ExperimentMemberKind::Control => {
                    control_size = dec_u64(control_size);
                },
                ExperimentMemberKind::Test => {
                    test_size = dec_u64(test_size);
                },
            }
            if p.invocation_version == exp.version {
                sticky = true;
                existing_variation = p.selected_variation.as_ref();
                picked = matches!(p.selected_member_kind, ExperimentMemberKind::Test);
            }
        },
        None => {},
    }
    let prior_counts: (u64, u64) = match prior {
        Some(p) => (p.total_selection_count, p.total_invocation_count),
        None => (0, 0),
    };
    let selected_member_kind: ExperimentMemberKind;
    let mut selected_variation: Option<String> = None;
    let mut active: Option<ActiveExperiment> = None;
    if picked {
        // Variation selection for the treatment group.
        let (data, picked_variation) = sample_variation(exp, existing_variation, sample);
        if let Some(pv) = &picked_variation {
            selected_variation = Some(pv.clone());
        }
        active = Some(
            ActiveExperiment {
                short_name: exp.short_name.clone(),
                variation: picked_variation,
                data,
            },
        );
        selected_member_kind = ExperimentMemberKind::Test;
        test_size = inc_u64(test_size);
    } else {
        selected_member_kind = ExperimentMemberKind::Control;
        control_size = inc_u64(control_size);
    }
    let record = TrackedExperiment {
        short_name: exp.short_name.clone(),
        selected_version: exp.version,
        selected_member_kind,
        selected_variation,
        selection_date: now,
        total_selection_count: inc_u64(prior_counts.0),
        invocation_version: exp.version,
        invocation_date: now,
        total_invocation_count: inc_u64(prior_counts.1),
    };
    proof {
        assert(record@ == assigned_record(
            *exp,
            prior_model(prior),
            selected_member_kind,
            match selected_variation {
                Some(v) => Some(v@),
                None => None,
            },
            now as int,
        ));
    }
    // Apply the counter effects.
    match picked_k {
        Some(j) => {
            let slot = &mut exp.audiences[j];
            slot.picked_size = inc_i64_wrap(slot.picked_size);
        },
        None => {},
    }
    exp.control_size = control_size;
    exp.test_size = test_size;
    Ok(StepEmit { record: Some(record), active })
}

/// Selects the variation for a picked user: a sticky name that still exists
/// is reused, otherwise the sampled value picks one in declared order; the
/// emitted payload is the experiment's data merged under the variation's.
fn sample_variation(exp: &Experiment, existing_variation: Option<&String>, sample: u64) -> (r: (
    Option<DataValue>,
    Option<String>,
))
    requires
        crate::entities::wf_experiment(*exp),
    ensures
        ({
            let (data, variation) = variation_choice(
                *exp,
                match existing_variation {
                    Some(v) => Some(v@),
                    None => None,
                },
                sample as int,
            );
            &&& match r.0 {
                Some(d) => data == Some(d@),
                None => data is None,
            }
            &&& match r.1 {
                Some(v) => variation == Some(v@),
                None => variation is None,
            }
        }),
{
    let base: Option<DataValue> = match &exp.data {
        Some(d) => Some(d.duplicate()),
        None => None,
    };
    let vs = match &exp.variations {
        None => {
            return (base, None);
        },
        Some(vs) => vs,
    };
    let nv = vs.len();
    if nv == 0 {
        return (base, None);
    }
    let chosen: Option<usize>;
    let mut fresh = true;
    let mut found: Option<usize> = None;
    match existing_variation {
        Some(name) => {
            let mut i: usize = 0;
            while i < nv && found.is_none()
                invariant
                    i <= nv == vs@.len(),
                    found is None ==> forall|j: int|
                        0 <= j < i ==> (#[trigger] vs@[j]).short_name@ != name@,
                    found matches Some(fi) ==> fi < nv && find_variation(vs@, name@) == Some(
                        fi as int,
                    ),
                decreases nv - i,
            {
                if crate::nums::str_eq(vs[i].short_name.as_str(), name.as_str()) {
                    found = Some(i);
                    proof {
                        lemma_find_variation_at(vs@, name@, i as int);
                    }
                }
                i = i + 1;
            }
            match found {
                Some(_) => {
                    fresh = false;
                },
                None => {
                    proof {
                        lemma_find_variation_none(vs@, name@);
                    }
                },
            }
        },
        None => {},
    }
    if fresh {
        let mut acc: u64 = 0;
        let mut i: usize = 0;
        proof {
            assert(vs@.subrange(0, 0) =~= Seq::<Variation>::empty());
            assert(crate::entities::wf_variations(vs@));
        }
        while i < nv && found.is_none()
            invariant
                i <= nv == vs@.len(),
                crate::entities::wf_variations(vs@),
                found is None ==> acc == 100 * crate::entities::sum_sizes(
                    vs@.subrange(0, i as int),
                ) && 0 <= acc <= 10000 && pick_variation_from(vs@, 0, 0, sample as int)
                    == pick_variation_from(vs@, i as int, acc as int, sample as int),
                found matches Some(fi) ==> fi < nv && pick_variation_from(vs@, 0, 0, sample as int)
                    == Some(fi as int),
            decreases nv - i,
        {
            proof {
                assert(vs@.subrange(0, i + 1).drop_last() =~= vs@.subrange(0, i as int));
                assert(vs@.subrange(0, i + 1).last() == vs@[i as int]);
                assert(crate::entities::wf_variation(vs@[i as int]));
                crate::entities::lemma_sum_sizes_prefix(vs@, i + 1);
            }
            let acc2 = acc + vs[i].size * 100;
            if sample < acc2 {
                found = Some(i);
                proof {
                    assert(pick_variation_from(vs@, i as int, acc as int, sample as int) == Some(
                        i as int,
                    ));
                }
            } else {
                acc = acc2;
            }
            i = i + 1;
        }
        proof {
            if found is None {
                assert(pick_variation_from(vs@, nv as int, acc as int, sample as int) is None);
            }
        }
        chosen = found;
    } else {
        chosen = found;
    }
    match chosen {
        Some(i) => {
            let vdata: Option<DataValue> = match &vs[i].data {
                Some(d) => Some(d.duplicate()),
                None => None,
            };
            let merged = crate::data::merge_data(base, vdata);
            (merged, Some(vs[i].short_name.clone()))
        },
        None => (base, None),
    }
}

/// Determinism of Percent sizing: the bucket decision depends on the
/// project, experiment, audience name and user identifiers alone — never
/// on counters, scripts, time or request order — so repeated calls and
/// separate processes decide identically.
pub proof fn lemma_percent_decision_deterministic(
    a1: Audience,
    a2: Audience,
    proj_id: Seq<char>,
    exp_id: Seq<char>,
    user_id: Seq<char>,
)
    requires
        a1.name@ == a2.name@,
        a1.size == a2.size,
        a1.size matches SizeSpec::Percent { .. },
    ensures
        size_gate(a1, proj_id, exp_id, user_id) == size_gate(a2, proj_id, exp_id, user_id),
{
}

/// Sticky assignment: a user holding a Test record with a variation that
/// still exists among the experiment's variations, at the experiment's
/// current version, is assigned the same member kind and variation again —
/// whatever value the fresh sampler would have drawn.
pub proof fn lemma_sticky_assignment(
    exp: Experiment,
    prior: RecordModel,
    lists: EntityMap<AudienceList>,
    proj_id: Seq<char>,
    user_id: Seq<char>,
    base: Seq<(Seq<char>, DataModel)>,
    ctx_json: Seq<char>,
    now: int,
    sample: int,
)
    requires
        !exp.inactive,
        freq_eligible_spec(exp, Some(prior), base) == Some(true),
        scan_audiences(exp.audiences@, 0, lists, proj_id, exp.id@, user_id, ctx_json) matches
            ScanResult::Done { targeted, picked_at: _ } && targeted,
        prior.invocation_version == exp.version as int,
        prior.selected_member_kind == ExperimentMemberKind::Test,
        prior.selected_variation is Some,
        exp.variations matches Some(vs) && find_variation(
            vs@,
            prior.selected_variation->Some_0,
        ) is Some,
    ensures
        step_spec(exp, Some(prior), lists, proj_id, user_id, base, ctx_json, now, sample).outcome
            matches StepOutcome::Assigned { record, active: _ } && record.selected_member_kind
            == ExperimentMemberKind::Test && record.selected_variation == prior.selected_variation
            && record.selected_version == exp.version as int,
{
    match exp.variations {
        Some(vs) => {
            lemma_find_variation_found(vs@, prior.selected_variation->Some_0);
        },
        None => {},
    }
}

/// The weight sum splits at the front.
proof fn lemma_sum_front(vs: Seq<Variation>)
    requires
        vs.len() > 0,
    ensures
        crate::entities::sum_sizes(vs) == vs[0].size + crate::entities::sum_sizes(
            vs.subrange(1, vs.len() as int),
        ),
    decreases vs.len(),
{
    if vs.len() == 1 {
        assert(vs.drop_last() =~= Seq::<Variation>::empty());
        assert(vs.subrange(1, 1) =~= Seq::<Variation>::empty());
    } else {
        lemma_sum_front(vs.drop_last());
        assert(vs.drop_last()[0] == vs[0]);
        assert(vs.drop_last().subrange(1, vs.len() - 1) =~= vs.subrange(
            1,
            vs.len() as int,
        ).drop_last());
        assert(vs.subrange(1, vs.len() as int).last() == vs.last());
    }
}

/// With valid weights, a drawn value below 10000 always picks a variation.
proof fn lemma_pick_total(vs: Seq<Variation>, k: int, acc: int, sample: int)
    requires
        0 <= k <= vs.len(),
        forall|j: int| 0 <= j < vs.len() ==> crate::entities::wf_variation(#[trigger] vs[j]),
        acc <= sample,
        sample < acc + 100 * crate::entities::sum_sizes(vs.subrange(k, vs.len() as int)),
    ensures
        pick_variation_from(vs, k, acc, sample) is Some,
    decreases vs.len() - k,
{
    let tail = vs.subrange(k, vs.len() as int);
    if k == vs.len() {
        assert(tail =~= Seq::<Variation>::empty());
    } else {
        lemma_sum_front(tail);
        assert(tail[0] == vs[k]);
        assert(tail.subrange(1, tail.len() as int) =~= vs.subrange(k + 1, vs.len() as int));
        let acc2 = acc + vs[k].size * 100;
        if sample < acc2 {
        } else {
            lemma_pick_total(vs, k + 1, acc2, sample);
        }
    }
}

/// Audiences that differ only in their admitted counters scan alike when
/// every rule is an unconditional Percent one: the bucket decision reads
/// the name and the percentage alone.
proof fn lemma_scan_percent_eq(
    a1: Seq<Audience>,
    a2: Seq<Audience>,
    k: int,
    lists: EntityMap<AudienceList>,
    proj_id: Seq<char>,
    exp_id: Seq<char>,
    user_id: Seq<char>,
    ctx_json: Seq<char>,
)
    requires
        a1.len() == a2.len(),
        forall|i: int|
            0 <= i < a1.len() ==> (#[trigger] a1[i]).script_src is None && a1[i].list_id is None
                && (a1[i].size matches SizeSpec::Percent { .. }),
        forall|i: int|
            0 <= i < a2.len() ==> (#[trigger] a2[i]).script_src is None && a2[i].list_id is None
                && a2[i].name@ == a1[i].name@ && a2[i].size == a1[i].size,
    ensures
        scan_audiences(a1, k, lists, proj_id, exp_id, user_id, ctx_json) == scan_audiences(
            a2,
            k,
            lists,
            proj_id,
            exp_id,
            user_id,
            ctx_json,
        ),
    decreases a1.len() - k,
{
    if 0 <= k < a1.len() {
        assert(audience_match(a1[k], lists, user_id, ctx_json) == Some(Some(true)));
        assert(audience_match(a2[k], lists, user_id, ctx_json) == Some(Some(true)));
        assert(size_gate(a1[k], proj_id, exp_id, user_id) == size_gate(
            a2[k],
            proj_id,
            exp_id,
            user_id,
        ));
        lemma_scan_percent_eq(a1, a2, k + 1, lists, proj_id, exp_id, user_id, ctx_json);
    }
}

/// Re-running with the record the first evaluation emitted reproduces the
/// outcome: for an experiment whose audiences are unconditional Percent
/// rules, a second evaluation at the unchanged version returns the same
/// member kind and the same variation, whatever the second draw is — the
/// stable hash bucket decides targeting again, and the fed-back record
/// makes the assignment sticky.
pub proof fn lemma_rerun_reproduces(
    exp1: Experiment,
    s1: StepSpec,
    exp2: Experiment,
    lists: EntityMap<AudienceList>,
    proj_id: Seq<char>,
    user_id: Seq<char>,
    base: Seq<(Seq<char>, DataModel)>,
    ctx_json: Seq<char>,
    now1: int,
    now2: int,
    sample1: int,
    sample2: int,
)
    requires
        crate::entities::wf_experiment(exp1),
        s1 == step_spec(exp1, None, lists, proj_id, user_id, base, ctx_json, now1, sample1),
        s1.outcome matches StepOutcome::Assigned { record: _, active: _ },
        exp_after(exp1, s1, exp2),
        exp1.frequency_constraint is None,
        forall|i: int|
            0 <= i < exp1.audiences@.len() ==> (#[trigger] exp1.audiences@[i]).script_src is None
                && exp1.audiences@[i].list_id is None && (exp1.audiences@[i].size matches
            SizeSpec::Percent { .. }),
        0 <= sample1 < 10000,
    ensures
        ({
            let rec = s1.outcome->Assigned_record;
            let s2 = step_spec(
                exp2,
                Some(rec),
                lists,
                proj_id,
                user_id,
                base,
                ctx_json,
                now2,
                sample2,
            );
            &&& s2.outcome matches StepOutcome::Assigned { record: rec2, active: _ } && ({
                &&& rec2.selected_member_kind == rec.selected_member_kind
                &&& rec2.selected_variation == rec.selected_variation
            })
        }),
{
    let rec = s1.outcome->Assigned_record;
    assert(forall|i: int|
        0 <= i < exp2.audiences@.len() ==> (#[trigger] exp2.audiences@[i]).script_src is None
            && exp2.audiences@[i].list_id is None && exp2.audiences@[i].name@
            == exp1.audiences@[i].name@ && exp2.audiences@[i].size == exp1.audiences@[i].size);
    lemma_scan_percent_eq(
        exp1.audiences@,
        exp2.audiences@,
        0,
        lists,
        proj_id,
        exp1.id@,
        user_id,
        ctx_json,
    );
    assert(rec.invocation_version == exp2.version as int);
    match exp1.variations {
        Some(vs) => {
            if vs@.len() > 0 && rec.selected_member_kind == ExperimentMemberKind::Test {
                crate::entities::lemma_sum_sizes_prefix(vs@, 0);
                assert(vs@.subrange(0, vs@.len() as int) =~= vs@);
                lemma_pick_total(vs@, 0, 0, sample1);
                let i = pick_variation_from(vs@, 0, 0, sample1)->Some_0;
                lemma_pick_variation_bounds(vs@, 0, 0, sample1);
                assert(rec.selected_variation == Some(vs@[i].short_name@));
                assert(forall|j: int|
                    0 <= j < i ==> (#[trigger] vs@[j]).short_name@ != vs@[i].short_name@);
                lemma_find_variation_at(vs@, vs@[i].short_name@, i);
            }
        },
        None => {},
    }
}

/// The first record with the given experiment short name.
pub open spec fn hist_lookup(hist: Seq<RecordModel>, name: Seq<char>) -> Option<RecordModel>
    decreases hist.len(),
{
    if hist.len() == 0 {
        None
    } else if hist[0].short_name == name {
        Some(hist[0])
    } else {
        hist_lookup(hist.subrange(1, hist.len() as int), name)
    }
}

/// The position of the first record with the given short name.
pub open spec fn hist_index(hist: Seq<RecordModel>, name: Seq<char>) -> Option<int>
    decreases hist.len(),
{
    if hist.len() == 0 {
        None
    } else if hist[0].short_name == name {
        Some(0)
    } else {
        match hist_index(hist.subrange(1, hist.len() as int), name) {
            Some(i) => Some(i + 1),
            None => None,
        }
    }
}

/// Folding one record into the history map: a fresh short name appends;
/// a known one replaces the held record only with a newer invocation
/// version.
pub open spec fn upsert_record(acc: Seq<RecordModel>, r: RecordModel) -> Seq<RecordModel> {
    match hist_index(acc, r.short_name) {
        None => acc.push(r),
        Some(i) => if r.invocation_version > acc[i].invocation_version {
            acc.update(i, r)
        } else {
            acc
        },
    }
}

/// The per-short-name history map: of records sharing a short name, the one
/// with the highest invocation version wins (the earlier on a tie).
pub open spec fn dedup_records(rs: Seq<RecordModel>) -> Seq<RecordModel>
    decreases rs.len(),
{
    if rs.len() == 0 {
        Seq::<RecordModel>::empty()
    } else {
        upsert_record(dedup_records(rs.drop_last()), rs.last())
    }
}

proof fn lemma_hist_index_at(hist: Seq<RecordModel>, name: Seq<char>, i: int)
    requires
        0 <= i < hist.len(),
        forall|j: int| 0 <= j < i ==> (#[trigger] hist[j]).short_name != name,
        hist[i].short_name == name,
    ensures
        hist_index(hist, name) == Some(i),
        hist_lookup(hist, name) == Some(hist[i]),
    decreases i,
{
    if i == 0 {
    } else {
        let tail = hist.subrange(1, hist.len() as int);
        assert(forall|j: int| 0 <= j < tail.len() ==> #[trigger] tail[j] == hist[j + 1]);
        lemma_hist_index_at(tail, name, i - 1);
        assert(hist[0].short_name != name);
    }
}

proof fn lemma_hist_index_none(hist: Seq<RecordModel>, name: Seq<char>)
    requires
        forall|j: int| 0 <= j < hist.len() ==> (#[trigger] hist[j]).short_name != name,
    ensures
        hist_index(hist, name) is None,
        hist_lookup(hist, name) is None,
    decreases hist.len(),
{
    if hist.len() > 0 {
        let tail = hist.subrange(1, hist.len() as int);
        assert(forall|j: int| 0 <= j < tail.len() ==> #[trigger] tail[j] == hist[j + 1]);
        lemma_hist_index_none(tail, name);
    }
}

/// The views of a record vector.
pub open spec fn records_view(rs: Seq<TrackedExperiment>) -> Seq<RecordModel> {
    rs.map_values(|r: TrackedExperiment| r@)
}

/// The position of the first record carrying the short name, searched
/// executably.
fn hist_find_index(records: &Vec<TrackedExperiment>, name: &str) -> (r: Option<usize>)
    ensures
        match r {
            Some(i) => i < records@.len() && hist_index(records_view(records@), name@) == Some(
                i as int,
            ) && hist_lookup(records_view(records@), name@) == Some(records@[i as int]@),
            None => hist_index(records_view(records@), name@) is None && hist_lookup(
                records_view(records@),
                name@,
            ) is None,
        },
{
    let ghost hist = records_view(records@);
    let n = records.len();
    let mut i: usize = 0;
    while i < n
        invariant
            i <= n == records@.len(),
            hist == records_view(records@),
            hist.len() == n,
            forall|j: int| 0 <= j < n ==> #[trigger] hist[j] == records@[j]@,
            forall|j: int| 0 <= j < i ==> (#[trigger] hist[j]).short_name != name@,
        decreases n - i,
    {
        if crate::nums::str_eq(records[i].short_name.as_str(), name) {
            proof {
                lemma_hist_index_at(hist, name@, i as int);
            }
            return Some(i);
        }
        i = i + 1;
    }
    proof {
        lemma_hist_index_none(hist, name@);
    }
    None
}

/// Builds the per-short-name history map from a decoded history: the record
/// with the highest invocation version wins, the earlier one on ties.
pub fn build_tracking_history_map(tracking: &crate::codec::TrackingData) -> (r: Vec<
    TrackedExperiment,
>)
    ensures
        records_view(r@) == dedup_records(tracking@),
{
    let mut out: Vec<TrackedExperiment> = Vec::new();
    let n = tracking.experiments.len();
    let mut i: usize = 0;
    proof {
        assert(tracking@.subrange(0, 0) =~= Seq::<RecordModel>::empty());
        assert(records_view(out@) =~= dedup_records(tracking@.subrange(0, 0)));
    }
    while i < n
        invariant
            i <= n == tracking.experiments@.len(),
            tracking@ == tracking.experiments@.map_values(|r: TrackedExperiment| r@),
            records_view(out@) == dedup_records(tracking@.subrange(0, i as int)),
        decreases n - i,
    {
        let ghost acc = records_view(out@);
        let rec = &tracking.experiments[i];
        proof {
            assert(tracking@.subrange(0, i + 1).drop_last() =~= tracking@.subrange(0, i as int));
            assert(tracking@.subrange(0, i + 1).last() == tracking@[i as int]);
            assert(tracking@[i as int] == rec@);
        }
        match hist_find_index(&out, rec.short_name.as_str()) {
            Some(j) => {
                if rec.invocation_version > out[j].invocation_version {
                    let ghost prev = out@;
                    let slot = &mut out[j];
                    *slot = rec.duplicate();
                    proof {
                        assert(out@ =~= prev.update(j as int, out@[j as int]));
                        assert(records_view(out@) =~= acc.update(j as int, rec@));
                    }
                } else {
                    proof {
                        assert(records_view(out@) =~= upsert_record(acc, rec@));
                    }
                }
            },
            None => {
                let ghost prev = out@;
                out.push(rec.duplicate());
                proof {
                    assert(out@ =~= prev.push(out@[prev.len() as int]));
                    assert(records_view(out@) =~= acc.push(rec@));
                }
            },
        }
        i = i + 1;
        proof {
            assert(records_view(out@) =~= dedup_records(tracking@.subrange(0, i as int)));
        }
    }
    proof {
        assert(tracking@.subrange(0, n as int) =~= tracking@);
    }
    out
}

/// One experiment's decision inputs and outcome within a project run.
pub open spec fn proj_step(
    proj: Project,
    hist: Seq<RecordModel>,
    user_id: Seq<char>,
    base: Seq<(Seq<char>, DataModel)>,
    ctx_json: Seq<char>,
    now: int,
    samples: Seq<u64>,
    j: int,
) -> StepSpec {
    step_spec(
        proj.experiments.entries@[j].1,
        hist_lookup(hist, proj.experiments.entries@[j].1.short_name@),
        proj.audience_lists,
        proj.id@,
        user_id,
        base,
        ctx_json,
        now,
        samples[j] as int,
    )
}

pub open spec fn step_is_error(s: StepSpec) -> bool {
    s.outcome is EvalError || s.outcome is MissingList
}

/// The first experiment index at or after k whose evaluation fails.
pub open spec fn first_fail_from(
    proj: Project,
    hist: Seq<RecordModel>,
    user_id: Seq<char>,
    base: Seq<(Seq<char>, DataModel)>,
    ctx_json: Seq<char>,
    now: int,
    samples: Seq<u64>,
    k: int,
) -> Option<int>
    decreases proj.experiments.entries@.len() - k,
{
    if k < 0 || k >= proj.experiments.entries@.len() {
        None
    } else if step_is_error(proj_step(proj, hist, user_id, base, ctx_json, now, samples, k)) {
        Some(k)
    } else {
        first_fail_from(proj, hist, user_id, base, ctx_json, now, samples, k + 1)
    }
}

pub open spec fn opt_rec(s: StepSpec) -> Seq<RecordModel> {
    match s.outcome {
        StepOutcome::Carry(m) => seq![m],
        StepOutcome::Blocked(m) => seq![m],
        StepOutcome::Assigned { record, active: _ } => seq![record],
        _ => Seq::<RecordModel>::empty(),
    }
}

pub open spec fn opt_act(s: StepSpec) -> Seq<ActiveModel> {
    match s.outcome {
        StepOutcome::Assigned { record: _, active } => match active {
            Some(a) => seq![a],
            None => Seq::<ActiveModel>::empty(),
        },
        _ => Seq::<ActiveModel>::empty(),
    }
}

/// The recs records the first k experiments emit, in order.
pub open spec fn collect_rec(
    proj: Project,
    hist: Seq<RecordModel>,
    user_id: Seq<char>,
    base: Seq<(Seq<char>, DataModel)>,
    ctx_json: Seq<char>,
    now: int,
    samples: Seq<u64>,
    k: int,
) -> Seq<RecordModel>
    decreases k,
{
    if k <= 0 {
        Seq::<RecordModel>::empty()
    } else {
        collect_rec(proj, hist, user_id, base, ctx_json, now, samples, k - 1) + opt_rec(
            proj_step(proj, hist, user_id, base, ctx_json, now, samples, k - 1),
        )
    }
}

/// The active entries the first k experiments emit, in order.
pub open spec fn collect_act(
    proj: Project,
    hist: Seq<RecordModel>,
    user_id: Seq<char>,
    base: Seq<(Seq<char>, DataModel)>,
    ctx_json: Seq<char>,
    now: int,
    samples: Seq<u64>,
    k: int,
) -> Seq<ActiveModel>
    decreases k,
{
    if k <= 0 {
        Seq::<ActiveModel>::empty()
    } else {
        collect_act(proj, hist, user_id, base, ctx_json, now, samples, k - 1) + opt_act(
            proj_step(proj, hist, user_id, base, ctx_json, now, samples, k - 1),
        )
    }
}

/// How one experiment's stored state changes under a step: the counters
/// take the step's values, the picked audience's counter increments, and
/// everything else stays.
pub open spec fn exp_after(old_e: Experiment, s: StepSpec, new_e: Experiment) -> bool {
    &&& new_e.control_size == s.control_size
    &&& new_e.test_size == s.test_size
    &&& new_e.audiences@.len() == old_e.audiences@.len()
    &&& forall|j: int|
        0 <= j < old_e.audiences@.len() && s.picked_index != Some(j)
            ==> #[trigger] new_e.audiences@[j] == old_e.audiences@[j]
    &&& (s.picked_index matches Some(j) ==> 0 <= j < old_e.audiences@.len()
        && new_e.audiences@[j] == Audience {
        picked_size: inc_i64(old_e.audiences@[j].picked_size),
        ..old_e.audiences@[j]
    })
    &&& new_e.id == old_e.id
    &&& new_e.name == old_e.name
    &&& new_e.short_name == old_e.short_name
    &&& new_e.version == old_e.version
    &&& new_e.kind == old_e.kind
    &&& new_e.inactive == old_e.inactive
    &&& new_e.start_time == old_e.start_time
    &&& new_e.end_time == old_e.end_time
    &&& new_e.frequency_constraint == old_e.frequency_constraint
    &&& new_e.variations == old_e.variations
    &&& new_e.data == old_e.data
}

/// A step keeps an experiment well formed: only counters move, and no
/// well-formedness condition reads them.
pub proof fn lemma_exp_after_wf(old_e: Experiment, s: StepSpec, new_e: Experiment)
    requires
        crate::entities::wf_experiment(old_e),
        exp_after(old_e, s, new_e),
    ensures
        crate::entities::wf_experiment(new_e),
{
    assert(forall|i: int|
        0 <= i < new_e.audiences@.len() ==> (#[trigger] new_e.audiences@[i]).name@
            == old_e.audiences@[i].name@ && new_e.audiences@[i].size == old_e.audiences@[i].size);
    assert(forall|i: int|
        0 <= i < new_e.audiences@.len() ==> crate::entities::wf_audience(
            #[trigger] new_e.audiences@[i],
        ));
}

/// A run keeps a project well formed.
pub proof fn lemma_run_post_wf(
    old_proj: Project,
    new_proj: Project,
    hist: Seq<RecordModel>,
    user_id: Seq<char>,
    base: Seq<(Seq<char>, DataModel)>,
    now: int,
    samples: Seq<u64>,
    outcome: Result<(Seq<RecordModel>, Seq<ActiveModel>), HttpError>,
)
    requires
        crate::entities::wf_project(old_proj),
        run_post(old_proj, new_proj, hist, user_id, base, now, samples, outcome),
    ensures
        crate::entities::wf_project(new_proj),
{
    let ctx_json = json_text(DataModel::Object(base));
    let n = old_proj.experiments.entries@.len() as int;
    assert forall|j: int| 0 <= j < n implies crate::entities::wf_experiment(
        (#[trigger] new_proj.experiments.entries@[j]).1,
    ) by {
        assert(crate::entities::wf_experiment(old_proj.experiments.entries@[j].1));
        match outcome {
            Ok(_) => {
                lemma_exp_after_wf(
                    old_proj.experiments.entries@[j].1,
                    proj_step(old_proj, hist, user_id, base, ctx_json, now, samples, j),
                    new_proj.experiments.entries@[j].1,
                );
            },
            Err(_) => {
                let f = first_fail_from(
                    old_proj,
                    hist,
                    user_id,
                    base,
                    ctx_json,
                    now,
                    samples,
                    0,
                )->Some_0;
                if j < f {
                    lemma_exp_after_wf(
                        old_proj.experiments.entries@[j].1,
                        proj_step(old_proj, hist, user_id, base, ctx_json, now, samples, j),
                        new_proj.experiments.entries@[j].1,
                    );
                }
            },
        }
    }
    assert(new_proj.experiments.wf()) by {
        assert(forall|i: int, j: int|
            0 <= i < j < n ==> (#[trigger] new_proj.experiments.entries@[i]).0@ != (
            #[trigger] new_proj.experiments.entries@[j]).0@) by {
            assert(forall|i: int|
                0 <= i < n ==> (#[trigger] new_proj.experiments.entries@[i]).0
                    == old_proj.experiments.entries@[i].0);
        }
    }
}

/// What a project run returns: the response entries and the re-encoded
/// history.
pub struct RunOutput {
    pub active_experiments: Vec<ActiveExperiment>,
    pub tracking: crate::codec::TrackingData,
}

/// Runs every experiment of the project in stored order for one user.
/// `samples` supplies one drawn value per experiment; everything else pins
/// the outcome exactly.  The first failing experiment aborts the run with
/// its error, earlier experiments' counter effects staying applied.
proof fn lemma_pick_variation_bounds(vs: Seq<Variation>, k: int, acc: int, sample: int)
    ensures
        pick_variation_from(vs, k, acc, sample) matches Some(i) ==> k <= i < vs.len(),
    decreases vs.len() - k,
{
    if 0 <= k < vs.len() {
        lemma_pick_variation_bounds(vs, k + 1, acc + vs[k].size * 100, sample);
    }
}

proof fn lemma_find_variation_found(vs: Seq<Variation>, name: Seq<char>)
    ensures
        find_variation(vs, name) matches Some(i) ==> 0 <= i < vs.len() && vs[i].short_name@
            == name,
    decreases vs.len(),
{
    if vs.len() > 0 {
        let tail = vs.subrange(1, vs.len() as int);
        lemma_find_variation_found(tail, name);
        assert(forall|j: int| 0 <= j < tail.len() ==> #[trigger] tail[j] == vs[j + 1]);
    }
}

/// Every record one step emits is well formed, given a well-formed
/// experiment, a well-formed prior record and a clock within the codec's
/// date window.
proof fn lemma_step_record_wf(
    exp: Experiment,
    prior: Option<RecordModel>,
    lists: EntityMap<AudienceList>,
    proj_id: Seq<char>,
    user_id: Seq<char>,
    base: Seq<(Seq<char>, DataModel)>,
    ctx_json: Seq<char>,
    now: int,
    sample: int,
)
    requires
        crate::entities::wf_experiment(exp),
        match prior {
            Some(r) => crate::codec::wf_record(r),
            None => true,
        },
        0 <= now <= crate::codec::DATE_BOUND,
    ensures
        ({
            let s = step_spec(exp, prior, lists, proj_id, user_id, base, ctx_json, now, sample);
            forall|i: int|
                0 <= i < opt_rec(s).len() ==> crate::codec::wf_record(#[trigger] opt_rec(s)[i])
        }),
{
    let s = step_spec(exp, prior, lists, proj_id, user_id, base, ctx_json, now, sample);
    match s.outcome {
        StepOutcome::Assigned { record, active: _ } => {
            assert(opt_rec(s)[0] == record);
            match exp.variations {
                Some(vs) => {
                    lemma_find_variation_found(
                        vs@,
                        match prior {
                            Some(r) => match r.selected_variation {
                                Some(v) => v,
                                None => Seq::<char>::empty(),
                            },
                            None => Seq::<char>::empty(),
                        },
                    );
                    lemma_pick_variation_bounds(vs@, 0, 0, sample);
                    assert(crate::entities::wf_variations(vs@));
                },
                None => {},
            }
        },
        _ => {},
    }
}

/// A record found in a well-formed history is well formed.
proof fn lemma_hist_lookup_wf(hist: Seq<RecordModel>, name: Seq<char>)
    requires
        crate::codec::wf_history(hist),
    ensures
        hist_lookup(hist, name) matches Some(r) ==> crate::codec::wf_record(r),
    decreases hist.len(),
{
    if hist.len() > 0 {
        let tail = hist.subrange(1, hist.len() as int);
        assert(crate::codec::wf_history(tail)) by {
            assert(forall|j: int| 0 <= j < tail.len() ==> #[trigger] tail[j] == hist[j + 1]);
        }
        lemma_hist_lookup_wf(tail, name);
        assert(wf_rec_trigger(hist, 0));
    }
}

spec fn wf_rec_trigger(hist: Seq<RecordModel>, i: int) -> bool {
    0 <= i < hist.len() ==> crate::codec::wf_record(hist[i])
}

/// Every record a run collects is well formed.
pub proof fn lemma_collect_rec_wf(
    proj: Project,
    hist: Seq<RecordModel>,
    user_id: Seq<char>,
    base: Seq<(Seq<char>, DataModel)>,
    ctx_json: Seq<char>,
    now: int,
    samples: Seq<u64>,
    k: int,
)
    requires
        crate::entities::wf_project(proj),
        crate::codec::wf_history(hist),
        0 <= now <= crate::codec::DATE_BOUND,
        k <= proj.experiments.entries@.len(),
    ensures
        crate::codec::wf_history(
            collect_rec(proj, hist, user_id, base, ctx_json, now, samples, k),
        ),
    decreases k,
{
    if k > 0 {
        lemma_collect_rec_wf(proj, hist, user_id, base, ctx_json, now, samples, k - 1);
        let prev = collect_rec(proj, hist, user_id, base, ctx_json, now, samples, k - 1);
        let e = proj.experiments.entries@[k - 1].1;
        assert(crate::entities::wf_experiment(e));
        lemma_hist_lookup_wf(hist, e.short_name@);
        lemma_step_record_wf(
            e,
            hist_lookup(hist, e.short_name@),
            proj.audience_lists,
            proj.id@,
            user_id,
            base,
            ctx_json,
            now,
            samples[k - 1] as int,
        );
        let emitted = opt_rec(proj_step(proj, hist, user_id, base, ctx_json, now, samples, k - 1));
        let whole = collect_rec(proj, hist, user_id, base, ctx_json, now, samples, k);
        assert(whole == prev + emitted);
        assert(forall|i: int|
            0 <= i < whole.len() ==> crate::codec::wf_record(#[trigger] whole[i])) by {
            assert(forall|i: int| 0 <= i < prev.len() ==> whole[i] == prev[i]);
            assert(forall|i: int|
                prev.len() <= i < whole.len() ==> whole[i] == emitted[i - prev.len()]);
        }
    }
}

/// Deduplication keeps every record of a well-formed history well formed.
pub proof fn lemma_dedup_wf(rs: Seq<RecordModel>)
    requires
        crate::codec::wf_history(rs),
    ensures
        crate::codec::wf_history(dedup_records(rs)),
    decreases rs.len(),
{
    if rs.len() > 0 {
        assert(crate::codec::wf_history(rs.drop_last())) by {
            assert(forall|j: int|
                0 <= j < rs.len() - 1 ==> #[trigger] rs.drop_last()[j] == rs[j]);
        }
        lemma_dedup_wf(rs.drop_last());
        let acc = dedup_records(rs.drop_last());
        let r = rs.last();
        assert(crate::codec::wf_record(r));
        let whole = dedup_records(rs);
        assert(whole == upsert_record(acc, r));
        match hist_index(acc, r.short_name) {
            None => {
                assert(whole == acc.push(r));
                assert(forall|i: int|
                    0 <= i < whole.len() ==> crate::codec::wf_record(#[trigger] whole[i])) by {
                    assert(forall|i: int| 0 <= i < acc.len() ==> whole[i] == acc[i]);
                    assert(whole[acc.len() as int] == r);
                }
            },
            Some(ix) => {
                if r.invocation_version > acc[ix].invocation_version {
                    lemma_hist_index_bounds(acc, r.short_name);
                    assert(whole == acc.update(ix, r));
                    assert(forall|i: int|
                        0 <= i < whole.len() ==> crate::codec::wf_record(#[trigger] whole[i]))
                        by {
                        assert(forall|i: int|
                            0 <= i < acc.len() && i != ix ==> whole[i] == acc[i]);
                        assert(whole[ix] == r);
                    }
                }
            },
        }
    }
}

proof fn lemma_hist_index_bounds(hist: Seq<RecordModel>, name: Seq<char>)
    ensures
        hist_index(hist, name) matches Some(i) ==> 0 <= i < hist.len(),
    decreases hist.len(),
{
    if hist.len() > 0 {
        lemma_hist_index_bounds(hist.subrange(1, hist.len() as int), name);
    }
}

/// The full relation between a project before and after a run: the
/// experiments' counters take their per-step values in order up to the
/// first failure, and on success the emitted records and active entries
/// are the collected step emissions.
pub open spec fn run_post(
    old_proj: Project,
    new_proj: Project,
    hist: Seq<RecordModel>,
    user_id: Seq<char>,
    base: Seq<(Seq<char>, DataModel)>,
    now: int,
    samples: Seq<u64>,
    outcome: Result<(Seq<RecordModel>, Seq<ActiveModel>), HttpError>,
) -> bool {
    let ctx_json = json_text(DataModel::Object(base));
    let n = old_proj.experiments.entries@.len() as int;
    &&& new_proj.id == old_proj.id
    &&& new_proj.name == old_proj.name
    &&& new_proj.short_name == old_proj.short_name
    &&& new_proj.tracking_method == old_proj.tracking_method
    &&& new_proj.modification_time == old_proj.modification_time
    &&& new_proj.audience_lists == old_proj.audience_lists
    &&& new_proj.experiments.entries@.len() == n
    &&& forall|j: int|
        0 <= j < n ==> (#[trigger] new_proj.experiments.entries@[j]).0
            == old_proj.experiments.entries@[j].0
    &&& match outcome {
        Ok((recs, acts)) => {
            &&& first_fail_from(old_proj, hist, user_id, base, ctx_json, now, samples, 0) is None
            &&& recs == collect_rec(old_proj, hist, user_id, base, ctx_json, now, samples, n)
            &&& acts == collect_act(old_proj, hist, user_id, base, ctx_json, now, samples, n)
            &&& forall|j: int|
                0 <= j < n ==> exp_after(
                    old_proj.experiments.entries@[j].1,
                    proj_step(old_proj, hist, user_id, base, ctx_json, now, samples, j),
                    (#[trigger] new_proj.experiments.entries@[j]).1,
                )
        },
        Err(e) => {
            &&& first_fail_from(old_proj, hist, user_id, base, ctx_json, now, samples, 0) matches
                Some(f) && {
                &&& match proj_step(old_proj, hist, user_id, base, ctx_json, now, samples,
                f).outcome {
                    StepOutcome::EvalError => e matches HttpError::EvaluationError(_),
                    StepOutcome::MissingList(_) => e matches HttpError::BadRequest(_),
                    _ => false,
                }
                &&& forall|j: int|
                    0 <= j < f ==> exp_after(
                        old_proj.experiments.entries@[j].1,
                        proj_step(old_proj, hist, user_id, base, ctx_json, now, samples, j),
                        (#[trigger] new_proj.experiments.entries@[j]).1,
                    )
                &&& forall|j: int|
                    f <= j < n ==> (#[trigger] new_proj.experiments.entries@[j])
                        == old_proj.experiments.entries@[j]
            }
        },
    }
}

pub fn run_for_project(
    proj: &mut Project,
    user_id: &str,
    ctx_entries: &Vec<(String, DataValue)>,
    history: &Vec<TrackedExperiment>,
    now: i64,
    samples: &Vec<u64>,
    evaluator: &ScriptEvaluator,
) -> (r: Result<RunOutput, HttpError>)
    requires
        crate::entities::wf_project(*old(proj)),
        samples@.len() >= old(proj).experiments.entries@.len(),
        user_id@.len() < 0x2000_0000,
    ensures
        run_post(
            *old(proj),
            *final(proj),
            records_view(history@),
            user_id@,
            entries_model(ctx_entries@),
            now as int,
            samples@,
            match r {
                Ok(out) => Ok(
                    (out.tracking@, out.active_experiments@.map_values(|a: ActiveExperiment| a@)),
                ),
                Err(e) => Err(e),
            },
        ),
{
    let ghost hist = records_view(history@);
    let ghost base = entries_model(ctx_entries@);
    // Render the audience-evaluation context once per run.
    let mut ctx_entries_copy: Vec<(String, DataValue)> = Vec::new();
    let nc = ctx_entries.len();
    let mut ci: usize = 0;
    while ci < nc
        invariant
            ci <= nc == ctx_entries@.len(),
            ctx_entries_copy@.len() == ci,
            forall|j: int|
                0 <= j < ci ==> (#[trigger] ctx_entries_copy@[j]).0@ == ctx_entries@[j].0@
                    && ctx_entries_copy@[j].1@ == ctx_entries@[j].1@,
        decreases nc - ci,
    {
        let k = ctx_entries[ci].0.clone();
        let v = ctx_entries[ci].1.duplicate();
        ctx_entries_copy.push((k, v));
        ci = ci + 1;
    }
    let ctx_value = DataValue::Object(ctx_entries_copy);
    proof {
        lemma_entries_model(ctx_value->Object_0@);
        lemma_entries_model(ctx_entries@);
        assert(ctx_value@ matches DataModel::Object(m) && m =~= base);
    }
    let ctx_json = ctx_value.to_json_string();
    let ghost cj = json_text(DataModel::Object(base));
    assert(ctx_json@ == cj);
    let pid = proj.id.clone();
    let n = proj.experiments.len();
    let mut recs: Vec<TrackedExperiment> = Vec::new();
    let mut active: Vec<ActiveExperiment> = Vec::new();
    let mut i: usize = 0;
    proof {
        assert(records_view(recs@) =~= Seq::<RecordModel>::empty());
        assert(active@.map_values(|a: ActiveExperiment| a@) =~= Seq::<ActiveModel>::empty());
    }
    while i < n
        invariant
            i <= n == old(proj).experiments.entries@.len(),
            samples@.len() >= n,
            user_id@.len() < 0x2000_0000,
            hist == records_view(history@),
            base == entries_model(ctx_entries@),
            cj == json_text(DataModel::Object(base)),
            ctx_json@ == cj,
            pid@ == old(proj).id@,
            crate::entities::wf_project(*old(proj)),
            proj.id == old(proj).id,
            proj.name == old(proj).name,
            proj.short_name == old(proj).short_name,
            proj.tracking_method == old(proj).tracking_method,
            proj.modification_time == old(proj).modification_time,
            proj.audience_lists == old(proj).audience_lists,
            proj.experiments.entries@.len() == n,
            forall|j: int|
                0 <= j < n ==> (#[trigger] proj.experiments.entries@[j]).0
                    == old(proj).experiments.entries@[j].0,
            forall|j: int|
                i <= j < n ==> (#[trigger] proj.experiments.entries@[j])
                    == old(proj).experiments.entries@[j],
            forall|j: int|
                0 <= j < i ==> !step_is_error(
                    proj_step(*old(proj), hist, user_id@, base, cj, now as int, samples@, j),
                ),
            forall|j: int|
                0 <= j < i ==> exp_after(
                    old(proj).experiments.entries@[j].1,
                    proj_step(*old(proj), hist, user_id@, base, cj, now as int, samples@, j),
                    (#[trigger] proj.experiments.entries@[j]).1,
                ),
            first_fail_from(*old(proj), hist, user_id@, base, cj, now as int, samples@, 0)
                == first_fail_from(
                *old(proj),
                hist,
                user_id@,
                base,
                cj,
                now as int,
                samples@,
                i as int,
            ),
            records_view(recs@) == collect_rec(
                *old(proj),
                hist,
                user_id@,
                base,
                cj,
                now as int,
                samples@,
                i as int,
            ),
            active@.map_values(|a: ActiveExperiment| a@) == collect_act(
                *old(proj),
                hist,
                user_id@,
                base,
                cj,
                now as int,
                samples@,
                i as int,
            ),
        decreases n - i,
    {
        let ghost step = proj_step(*old(proj), hist, user_id@, base, cj, now as int, samples@,
        i as int);
        let sn = proj.experiments.entries[i].1.short_name.clone();
        let prior = match hist_find_index(history, sn.as_str()) {
            Some(h) => Some(&history[h]),
            None => None,
        };
        let sample = samples[i];
        proof {
            assert(crate::entities::wf_experiment(proj.experiments.entries@[i as int].1));
            assert(prior_model(prior) == hist_lookup(
                hist,
                old(proj).experiments.entries@[i as int].1.short_name@,
            ));
        }
        let ghost entries0 = proj.experiments.entries@;
        let entry = &mut proj.experiments.entries[i];
        let result = decide_experiment(
            &mut entry.1,
            prior,
            &proj.audience_lists,
            pid.as_str(),
            user_id,
            ctx_entries,
            ctx_json.as_str(),
            now,
            sample,
            evaluator,
        );
        match result {
            Ok(emit) => {
                proof {
                    assert(forall|j: int|
                        0 <= j < n && j != i ==> proj.experiments.entries@[j] == entries0[j]);
                    assert(proj.experiments.entries@[i as int].0 == entries0[i as int].0);
                    assert(exp_after(
                        old(proj).experiments.entries@[i as int].1,
                        step,
                        proj.experiments.entries@[i as int].1,
                    ));
                }
                let ghost recs0 = records_view(recs@);
                let ghost active0 = active@.map_values(|a: ActiveExperiment| a@);
                match emit.record {
                    Some(rec) => {
                        let ghost prev = recs@;
                        recs.push(rec);
                        proof {
                            assert(records_view(recs@) =~= recs0.push(
                                recs@[prev.len() as int]@,
                            ));
                        }
                    },
                    None => {},
                }
                match emit.active {
                    Some(a) => {
                        let ghost prev = active@;
                        active.push(a);
                        proof {
                            assert(active@.map_values(|x: ActiveExperiment| x@) =~= active0.push(
                                active@[prev.len() as int]@,
                            ));
                        }
                    },
                    None => {},
                }
                i = i + 1;
                proof {
                    assert(records_view(recs@) =~= collect_rec(
                        *old(proj),
                        hist,
                        user_id@,
                        base,
                        cj,
                        now as int,
                        samples@,
                        i as int,
                    ));
                    assert(active@.map_values(|a: ActiveExperiment| a@) =~= collect_act(
                        *old(proj),
                        hist,
                        user_id@,
                        base,
                        cj,
                        now as int,
                        samples@,
                        i as int,
                    ));
                }
            },
            Err(e) => {
                proof {
                    assert(step_is_error(step));
                    assert(first_fail_from(
                        *old(proj),
                        hist,
                        user_id@,
                        base,
                        cj,
                        now as int,
                        samples@,
                        i as int,
                    ) == Some(i as int));
                }
                return Err(e);
            },
        }
    }
    proof {
        assert(first_fail_from(*old(proj), hist, user_id@, base, cj, now as int, samples@, n as int)
            is None);
    }
    let tracking = crate::codec::TrackingData { experiments: recs };
    Ok(RunOutput { active_experiments: active, tracking })
}

} // verus!
