//! The tracking codec: the per-user assignment history and its compact
//! delimited string form, with a proved round trip.
//!
//! One record per experiment, fields joined by `|`, records joined by `~`
//! (`;` is also accepted as a record separator when decoding):
//!
//! ```text
//! short_name|selected_version|selected_member_kind|selected_variation|
//! selection_date_offset|total_selection_count|invocation_version|
//! invocation_date_offset|total_invocation_count
//! ```
//!
//! `selection_date_offset` counts seconds since a fixed reference epoch;
//! `invocation_date_offset` counts seconds since `selection_date`.  A record
//! may also carry only its first four fields; the numeric tail then defaults
//! to zero.

use vstd::prelude::*;

use crate::nums::all_digits;
use crate::nums::chars_of;
use crate::nums::digits_val;
use crate::nums::int_digits;
use crate::nums::nat_digits;
use crate::nums::parse_i64_digits;
use crate::nums::parse_u64_digits;
use crate::nums::signed_val;

verus! {

/// Seconds from the Unix epoch to the codec's reference instant,
/// 2021-07-01T00:00:00Z.
pub const FIRST_JULY_2021: i64 = 1625097600;

/// Whether a user sits in the control group or receives a treatment.
#[derive(Clone, Copy, Debug, PartialEq, Eq, Structural)]
pub enum ExperimentMemberKind {
    Control,
    Test,
}

/// The sticky, per-user record of one experiment's past assignment.
#[derive(Debug)]
pub struct TrackedExperiment {
    pub short_name: String,
    pub selected_version: i64,
    pub selected_member_kind: ExperimentMemberKind,
    pub selected_variation: Option<String>,
    pub selection_date: i64,
    pub total_selection_count: u64,
    pub invocation_version: i64,
    pub invocation_date: i64,
    pub total_invocation_count: u64,
}

/// A user's whole assignment history for one project.
#[derive(Debug)]
pub struct TrackingData {
    pub experiments: Vec<TrackedExperiment>,
}

/// The mathematical content of a tracked-experiment record.
pub ghost struct RecordModel {
    pub short_name: Seq<char>,
    pub selected_version: int,
    pub selected_member_kind: ExperimentMemberKind,
    pub selected_variation: Option<Seq<char>>,
    pub selection_date: int,
    pub total_selection_count: int,
    pub invocation_version: int,
    pub invocation_date: int,
    pub total_invocation_count: int,
}

impl View for TrackedExperiment {
    type V = RecordModel;

    open spec fn view(&self) -> RecordModel {
        RecordModel {
            short_name: self.short_name@,
            selected_version: self.selected_version as int,
            selected_member_kind: self.selected_member_kind,
            selected_variation: match self.selected_variation {
                Some(v) => Some(v@),
                None => None,
            },
            selection_date: self.selection_date as int,
            total_selection_count: self.total_selection_count as int,
            invocation_version: self.invocation_version as int,
            invocation_date: self.invocation_date as int,
            total_invocation_count: self.total_invocation_count as int,
        }
    }
}

impl View for TrackingData {
    type V = Seq<RecordModel>;

    open spec fn view(&self) -> Seq<RecordModel> {
        self.experiments@.map_values(|r: TrackedExperiment| r@)
    }
}

impl TrackedExperiment {
    /// An identical copy of the record.
    pub fn duplicate(&self) -> (r: TrackedExperiment)
        ensures
            r@ == self@,
    {
        TrackedExperiment {
            short_name: self.short_name.clone(),
            selected_version: self.selected_version,
            selected_member_kind: self.selected_member_kind,
            selected_variation: match &self.selected_variation {
                Some(v) => Some(v.clone()),
                None => None,
            },
            selection_date: self.selection_date,
            total_selection_count: self.total_selection_count,
            invocation_version: self.invocation_version,
            invocation_date: self.invocation_date,
            total_invocation_count: self.total_invocation_count,
        }
    }
}

/// The field separator.
pub open spec fn field_seps() -> Set<char> {
    set!['|']
}

/// The record separators accepted when decoding; encoding always uses '~'.
pub open spec fn record_seps() -> Set<char> {
    set!['~', ';']
}

pub open spec fn has_no_sep(s: Seq<char>, seps: Set<char>) -> bool {
    forall|i: int| 0 <= i < s.len() ==> !seps.contains(#[trigger] s[i])
}

/// Splitting a character sequence on a set of separator characters.  An
/// empty input yields one empty piece.
pub open spec fn split_by(s: Seq<char>, seps: Set<char>) -> Seq<Seq<char>>
    decreases s.len(),
{
    if s.len() == 0 {
        seq![Seq::<char>::empty()]
    } else if seps.contains(s[0]) {
        seq![Seq::<char>::empty()] + split_by(s.subrange(1, s.len() as int), seps)
    } else {
        let rest = split_by(s.subrange(1, s.len() as int), seps);
        seq![seq![s[0]] + rest[0]] + rest.subrange(1, rest.len() as int)
    }
}

pub proof fn lemma_split_by_len(s: Seq<char>, seps: Set<char>)
    ensures
        split_by(s, seps).len() >= 1,
    decreases s.len(),
{
    if s.len() > 0 {
        lemma_split_by_len(s.subrange(1, s.len() as int), seps);
    }
}

/// A piece with no separator splits into itself alone.
pub proof fn lemma_split_by_no_sep(s: Seq<char>, seps: Set<char>)
    requires
        has_no_sep(s, seps),
    ensures
        split_by(s, seps) == seq![s],
    decreases s.len(),
{
    if s.len() == 0 {
        assert(split_by(s, seps) =~~= seq![s]);
    } else {
        let tail = s.subrange(1, s.len() as int);
        assert(has_no_sep(tail, seps)) by {
            assert(forall|i: int| 0 <= i < tail.len() ==> tail[i] == s[i + 1]);
        }
        lemma_split_by_no_sep(tail, seps);
        assert(split_by(s, seps) =~~= seq![seq![s[0]] + tail]);
        assert(seq![s[0]] + tail =~= s);
        assert(split_by(s, seps) =~~= seq![s]);
    }
}

/// Splitting `a + [sep] + b` when `a` holds no separator: `a` comes off the
/// front whole.
pub proof fn lemma_split_by_append(a: Seq<char>, sep: char, b: Seq<char>, seps: Set<char>)
    requires
        has_no_sep(a, seps),
        seps.contains(sep),
    ensures
        split_by(a + seq![sep] + b, seps) == seq![a] + split_by(b, seps),
    decreases a.len(),
{
    let s = a + seq![sep] + b;
    lemma_split_by_len(b, seps);
    if a.len() == 0 {
        assert(s[0] == sep);
        assert(s.subrange(1, s.len() as int) =~= b);
        assert(split_by(s, seps) =~~= seq![a] + split_by(b, seps));
    } else {
        let a1 = a.subrange(1, a.len() as int);
        assert(has_no_sep(a1, seps)) by {
            assert(forall|i: int| 0 <= i < a1.len() ==> a1[i] == a[i + 1]);
        }
        lemma_split_by_append(a1, sep, b, seps);
        assert(s[0] == a[0]);
        assert(!seps.contains(s[0]));
        assert(s.subrange(1, s.len() as int) =~= a1 + seq![sep] + b);
        let rest = split_by(a1 + seq![sep] + b, seps);
        assert(rest == seq![a1] + split_by(b, seps));
        lemma_split_by_len(a1 + seq![sep] + b, seps);
        assert(rest[0] == a1);
        assert(seq![s[0]] + rest[0] =~= a);
        assert(rest.subrange(1, rest.len() as int) =~= split_by(b, seps));
        assert(split_by(s, seps) =~~= seq![a] + split_by(b, seps));
    }
}

/// The single-character form of a member kind.
pub open spec fn kind_char(k: ExperimentMemberKind) -> char {
    match k {
        ExperimentMemberKind::Control => 'C',
        ExperimentMemberKind::Test => 'T',
    }
}

/// A signed decimal field, required to fit in an i64.
pub open spec fn parse_i64_field(f: Seq<char>) -> Option<int> {
    match signed_val(f) {
        Some(v) => if i64::MIN <= v <= i64::MAX {
            Some(v)
        } else {
            None
        },
        None => None,
    }
}

/// An unsigned decimal field, required to fit in a u64.
pub open spec fn parse_u64_field(f: Seq<char>) -> Option<int> {
    if f.len() > 0 && all_digits(f) && digits_val(f) <= u64::MAX {
        Some(digits_val(f))
    } else {
        None
    }
}

pub open spec fn parse_kind_field(f: Seq<char>) -> Option<ExperimentMemberKind> {
    if f == seq!['C'] {
        Some(ExperimentMemberKind::Control)
    } else if f == seq!['T'] {
        Some(ExperimentMemberKind::Test)
    } else {
        None
    }
}

/// One record from its `|`-separated fields.  A record holds either all nine
/// fields or just the first four; with four, the numeric tail is zero.  The
/// two date fields are deltas: the selection date counts from the reference
/// epoch, the invocation date from the selection date; a date that does not
/// fit in an i64 after adding its base is rejected.
pub open spec fn parse_record_fields(fs: Seq<Seq<char>>) -> Option<RecordModel> {
    if fs.len() != 4 && fs.len() != 9 {
        None
    } else if fs[0].len() == 0 {
        None
    } else {
        match (parse_i64_field(fs[1]), parse_kind_field(fs[2])) {
            (Some(ver), Some(kind)) => {
                let variation: Option<Seq<char>> = if fs[3].len() == 0 {
                    None
                } else {
                    Some(fs[3])
                };
                if fs.len() == 4 {
                    let rec = RecordModel {
                        short_name: fs[0],
                        selected_version: ver,
                        selected_member_kind: kind,
                        selected_variation: variation,
                        selection_date: 0,
                        total_selection_count: 0,
                        invocation_version: 0,
                        invocation_date: 0,
                        total_invocation_count: 0,
                    };
                    if wf_record(rec) {
                        Some(rec)
                    } else {
                        None
                    }
                } else {
                    match (parse_i64_field(fs[4]), parse_u64_field(fs[5]), parse_i64_field(fs[6]),
                    parse_i64_field(fs[7]), parse_u64_field(fs[8])) {
                        (Some(sel_off), Some(sel_count), Some(inv_ver), Some(inv_off), Some(
                            inv_count,
                        )) => {
                            let sel_date = sel_off + FIRST_JULY_2021;
                            let inv_date = inv_off + sel_date;
                            let rec = RecordModel {
                                short_name: fs[0],
                                selected_version: ver,
                                selected_member_kind: kind,
                                selected_variation: variation,
                                selection_date: sel_date,
                                total_selection_count: sel_count,
                                invocation_version: inv_ver,
                                invocation_date: inv_date,
                                total_invocation_count: inv_count,
                            };
                            if wf_record(rec) {
                                Some(rec)
                            } else {
                                None
                            }
                        },
                        _ => None,
                    }
                }
            },
            _ => None,
        }
    }
}

pub open spec fn parse_record_model(s: Seq<char>) -> Option<RecordModel> {
    parse_record_fields(split_by(s, field_seps()))
}

/// All records of a split input, or None as soon as one is malformed.
pub open spec fn parse_records(rs: Seq<Seq<char>>) -> Option<Seq<RecordModel>>
    decreases rs.len(),
{
    if rs.len() == 0 {
        Some(Seq::<RecordModel>::empty())
    } else {
        match parse_record_model(rs[0]) {
            Some(r) => match parse_records(rs.subrange(1, rs.len() as int)) {
                Some(rest) => Some(seq![r] + rest),
                None => None,
            },
            None => None,
        }
    }
}

/// The whole history denoted by a tracking string.  The empty string is an
/// empty history, not an error.
pub open spec fn parse_history_model(s: Seq<char>) -> Option<Seq<RecordModel>> {
    if s.len() == 0 {
        Some(Seq::<RecordModel>::empty())
    } else {
        parse_records(split_by(s, record_seps()))
    }
}

/// The encoded form of one record: its nine fields joined by '|'.
pub open spec fn encode_record_model(r: RecordModel) -> Seq<char> {
    r.short_name + seq!['|'] + int_digits(r.selected_version) + seq!['|'] + seq![
        kind_char(r.selected_member_kind),
    ] + seq!['|'] + (match r.selected_variation {
        Some(v) => v,
        None => Seq::<char>::empty(),
    }) + seq!['|'] + int_digits(r.selection_date - FIRST_JULY_2021) + seq!['|'] + nat_digits(
        r.total_selection_count as nat,
    ) + seq!['|'] + int_digits(r.invocation_version) + seq!['|'] + int_digits(
        r.invocation_date - r.selection_date,
    ) + seq!['|'] + nat_digits(r.total_invocation_count as nat)
}

/// The encoded form of a history: records joined by '~'.
pub open spec fn encode_history_model(rs: Seq<RecordModel>) -> Seq<char>
    decreases rs.len(),
{
    if rs.len() == 0 {
        Seq::<char>::empty()
    } else if rs.len() == 1 {
        encode_record_model(rs[0])
    } else {
        encode_record_model(rs[0]) + seq!['~'] + encode_history_model(
            rs.subrange(1, rs.len() as int),
        )
    }
}

/// A name or variation that may stand in a record: non-empty and free of the
/// codec's delimiter characters.
pub open spec fn plain_token(s: Seq<char>) -> bool {
    s.len() > 0 && forall|i: int|
        0 <= i < s.len() ==> s[i] != '|' && #[trigger] s[i] != '~' && s[i] != ';'
}

/// The records that the codec encodes losslessly: plain names, counts in
/// u64 range, versions and dates in i64 range, and both date deltas
/// representable.
pub open spec fn wf_record(r: RecordModel) -> bool {
    &&& plain_token(r.short_name)
    &&& match r.selected_variation {
        Some(v) => plain_token(v),
        None => true,
    }
    &&& i64::MIN <= r.selected_version <= i64::MAX
    &&& i64::MIN <= r.invocation_version <= i64::MAX
    &&& 0 <= r.total_selection_count <= u64::MAX
    &&& 0 <= r.total_invocation_count <= u64::MAX
    &&& -DATE_BOUND <= r.selection_date <= DATE_BOUND
    &&& -DATE_BOUND <= r.invocation_date <= DATE_BOUND
}

/// Dates the codec carries lie within this many seconds of the Unix epoch
/// (2^61, far wider than any real clock), so both date deltas fit in an i64.
pub const DATE_BOUND: i64 = 2305843009213693952;

pub open spec fn wf_history(rs: Seq<RecordModel>) -> bool {
    forall|i: int| 0 <= i < rs.len() ==> wf_record(#[trigger] rs[i])
}

pub open spec fn seps_of(record_level: bool) -> Set<char> {
    if record_level {
        record_seps()
    } else {
        field_seps()
    }
}

fn is_sep(c: char, record_level: bool) -> (r: bool)
    ensures
        r == seps_of(record_level).contains(c),
{
    if record_level {
        c == '~' || c == ';'
    } else {
        c == '|'
    }
}

/// The first piece of a split, extended at the front.
pub open spec fn prepend_first(p: Seq<char>, ss: Seq<Seq<char>>) -> Seq<Seq<char>> {
    seq![p + ss[0]] + ss.subrange(1, ss.len() as int)
}

/// The boundaries of the pieces of `v[from..to]`, split on the field or the
/// record separators.
fn split_ranges(v: &Vec<char>, from: usize, to: usize, record_level: bool) -> (r: Vec<
    (usize, usize),
>)
    requires
        from <= to <= v@.len(),
    ensures
        r@.map_values(|p: (usize, usize)| v@.subrange(p.0 as int, p.1 as int)) == split_by(
            v@.subrange(from as int, to as int),
            seps_of(record_level),
        ),
        forall|k: int|
            0 <= k < r@.len() ==> from <= (#[trigger] r@[k]).0 <= r@[k].1 <= to,
{
    let ghost whole = v@.subrange(from as int, to as int);
    let ghost seps = seps_of(record_level);
    let ghost f = |p: (usize, usize)| v@.subrange(p.0 as int, p.1 as int);
    let mut out: Vec<(usize, usize)> = Vec::new();
    let mut start = from;
    let mut i = from;
    proof {
        lemma_split_by_len(v@.subrange(from as int, to as int), seps);
        assert(out@.map_values(f) =~= Seq::<Seq<char>>::empty());
        assert(v@.subrange(from as int, from as int) =~= Seq::<char>::empty());
        assert(split_by(whole, seps) =~~= out@.map_values(f) + prepend_first(
            v@.subrange(start as int, i as int),
            split_by(v@.subrange(i as int, to as int), seps),
        ));
    }
    while i < to
        invariant
            from <= start <= i <= to <= v@.len(),
            whole == v@.subrange(from as int, to as int),
            seps == seps_of(record_level),
            f == (|p: (usize, usize)| v@.subrange(p.0 as int, p.1 as int)),
            split_by(whole, seps) == out@.map_values(f) + prepend_first(
                v@.subrange(start as int, i as int),
                split_by(v@.subrange(i as int, to as int), seps),
            ),
            forall|k: int|
                0 <= k < out@.len() ==> from <= (#[trigger] out@[k]).0 <= out@[k].1 <= to,
        decreases to - i,
    {
        let ghost cur = v@.subrange(start as int, i as int);
        let ghost rem = v@.subrange(i as int, to as int);
        let ghost rem1 = v@.subrange(i + 1, to as int);
        proof {
            assert(rem[0] == v@[i as int]);
            assert(rem.subrange(1, rem.len() as int) =~= rem1);
            lemma_split_by_len(rem1, seps);
        }
        let c = v[i];
        if is_sep(c, record_level) {
            proof {
                assert(split_by(rem, seps) =~~= seq![Seq::<char>::empty()] + split_by(rem1, seps));
                assert(cur + Seq::<char>::empty() =~= cur);
                assert(prepend_first(cur, split_by(rem, seps)) =~~= seq![cur] + split_by(
                    rem1,
                    seps,
                ));
            }
            let ghost prev = out@;
            out.push((start, i));
            proof {
                assert(out@ =~= prev.push((start, i)));
                assert(out@.map_values(f) =~~= prev.map_values(f) + seq![cur]);
            }
            start = i + 1;
            i = i + 1;
            proof {
                assert(v@.subrange(start as int, i as int) =~= Seq::<char>::empty());
                assert(prepend_first(
                    Seq::<char>::empty(),
                    split_by(rem1, seps),
                ) =~~= split_by(rem1, seps));
                assert(split_by(whole, seps) =~~= out@.map_values(f) + prepend_first(
                    v@.subrange(start as int, i as int),
                    split_by(v@.subrange(i as int, to as int), seps),
                ));
            }
        } else {
            proof {
                let sb1 = split_by(rem1, seps);
                assert(split_by(rem, seps) =~~= seq![seq![rem[0]] + sb1[0]] + sb1.subrange(
                    1,
                    sb1.len() as int,
                ));
                assert(cur + (seq![rem[0]] + sb1[0]) =~= (cur + seq![rem[0]]) + sb1[0]);
                assert(v@.subrange(start as int, i + 1) =~= cur + seq![rem[0]]);
                assert(prepend_first(cur, split_by(rem, seps)) =~~= prepend_first(
                    v@.subrange(start as int, i + 1),
                    sb1,
                ));
            }
            i = i + 1;
        }
    }
    proof {
        let cur = v@.subrange(start as int, i as int);
        assert(v@.subrange(i as int, to as int) =~= Seq::<char>::empty());
        assert(split_by(Seq::<char>::empty(), seps) =~~= seq![Seq::<char>::empty()]);
        assert(cur + Seq::<char>::empty() =~= cur);
        assert(prepend_first(cur, split_by(v@.subrange(i as int, to as int), seps))
            =~~= seq![cur]);
    }
    let ghost prev = out@;
    out.push((start, to));
    proof {
        assert(out@ =~= prev.push((start, to)));
        assert(out@.map_values(f) =~~= prev.map_values(f) + seq![
            v@.subrange(start as int, to as int),
        ]);
        assert(out@.map_values(f) =~~= split_by(whole, seps));
    }
    out
}

/// A malformed tracking string, carrying the offending substring.
#[derive(Debug)]
pub struct ParseError {
    pub offending: String,
}

/// Parses one record out of `v[from..to]` (`v` spells the same characters
/// as `s`).
fn parse_record_range(s: &str, v: &Vec<char>, from: usize, to: usize) -> (r: Option<
    TrackedExperiment,
>)
    requires
        v@ == s@,
        from <= to <= v@.len(),
    ensures
        match r {
            Some(rec) => parse_record_model(v@.subrange(from as int, to as int)) == Some(rec@),
            None => parse_record_model(v@.subrange(from as int, to as int)) is None,
        },
{
    let ghost sub = v@.subrange(from as int, to as int);
    let fs = split_ranges(v, from, to, false);
    let ghost fields = split_by(sub, field_seps());
    proof {
        assert(seps_of(false) == field_seps());
        assert(fs@.map_values(|p: (usize, usize)| v@.subrange(p.0 as int, p.1 as int)) == fields);
        assert(forall|k: int|
            0 <= k < fs@.len() ==> #[trigger] fields[k] == v@.subrange(
                fs@[k].0 as int,
                fs@[k].1 as int,
            ));
    }
    if fs.len() != 4 && fs.len() != 9 {
        return None;
    }
    let p0 = fs[0];
    if p0.0 == p0.1 {
        assert(fields[0].len() == 0);
        return None;
    }
    assert(fields[0].len() > 0);
    let short_name = s.substring_char(p0.0, p0.1).to_owned();
    assert(short_name@ == fields[0]);
    let p1 = fs[1];
    let ver = match parse_i64_digits(v, p1.0, p1.1) {
        Some(x) => x,
        None => {
            assert(parse_i64_field(fields[1]) is None);
            return None;
        },
    };
    assert(parse_i64_field(fields[1]) == Some(ver as int));
    let p2 = fs[2];
    let kind: ExperimentMemberKind;
    if p2.1 > p2.0 && p2.1 - p2.0 == 1 && v[p2.0] == 'C' {
        assert(fields[2] =~= seq!['C']);
        kind = ExperimentMemberKind::Control;
    } else if p2.1 > p2.0 && p2.1 - p2.0 == 1 && v[p2.0] == 'T' {
        assert(fields[2] =~= seq!['T']);
        kind = ExperimentMemberKind::Test;
    } else {
        assert(parse_kind_field(fields[2]) is None) by {
            if fields[2].len() == 1 {
                assert(fields[2][0] == v@[p2.0 as int]);
                if fields[2] == seq!['C'] {
                    assert(fields[2][0] == 'C');
                }
                if fields[2] == seq!['T'] {
                    assert(fields[2][0] == 'T');
                }
            } else {
                assert(fields[2] != seq!['C']);
                assert(fields[2] != seq!['T']);
            }
        }
        return None;
    }
    assert(parse_kind_field(fields[2]) == Some(kind));
    let p3 = fs[3];
    let variation: Option<String> = if p3.0 == p3.1 {
        assert(fields[3].len() == 0);
        None
    } else {
        let vs = s.substring_char(p3.0, p3.1).to_owned();
        assert(vs@ == fields[3]);
        Some(vs)
    };
    if fs.len() == 4 {
        let rec = TrackedExperiment {
            short_name,
            selected_version: ver,
            selected_member_kind: kind,
            selected_variation: variation,
            selection_date: 0,
            total_selection_count: 0,
            invocation_version: 0,
            invocation_date: 0,
            total_invocation_count: 0,
        };
        if check_wf_record(&rec) {
            return Some(rec);
        } else {
            return None;
        }
    }
    let p4 = fs[4];
    let sel_off = match parse_i64_digits(v, p4.0, p4.1) {
        Some(x) => x,
        None => {
            return None;
        },
    };
    let p5 = fs[5];
    let sel_count = match parse_u64_digits(v, p5.0, p5.1) {
        Some(x) => x,
        None => {
            return None;
        },
    };
    let p6 = fs[6];
    let inv_ver = match parse_i64_digits(v, p6.0, p6.1) {
        Some(x) => x,
        None => {
            return None;
        },
    };
    let p7 = fs[7];
    let inv_off = match parse_i64_digits(v, p7.0, p7.1) {
        Some(x) => x,
        None => {
            return None;
        },
    };
    let p8 = fs[8];
    let inv_count = match parse_u64_digits(v, p8.0, p8.1) {
        Some(x) => x,
        None => {
            return None;
        },
    };
    let sel_date = match sel_off.checked_add(FIRST_JULY_2021) {
        Some(x) => x,
        None => {
            return None;
        },
    };
    let inv_date = match inv_off.checked_add(sel_date) {
        Some(x) => x,
        None => {
            return None;
        },
    };
    let rec = TrackedExperiment {
        short_name,
        selected_version: ver,
        selected_member_kind: kind,
        selected_variation: variation,
        selection_date: sel_date,
        total_selection_count: sel_count,
        invocation_version: inv_ver,
        invocation_date: inv_date,
        total_invocation_count: inv_count,
    };
    if check_wf_record(&rec) {
        Some(rec)
    } else {
        None
    }
}

/// Every record a tracking string denotes is well formed: the parse gate
/// admits nothing else.
pub proof fn lemma_parsed_records_wf(rs: Seq<Seq<char>>, models: Seq<RecordModel>)
    requires
        parse_records(rs) == Some(models),
    ensures
        wf_history(models),
    decreases rs.len(),
{
    if rs.len() > 0 {
        let tail = rs.subrange(1, rs.len() as int);
        match parse_record_model(rs[0]) {
            Some(r) => {
                assert(wf_record(r));
                match parse_records(tail) {
                    Some(rest) => {
                        lemma_parsed_records_wf(tail, rest);
                        assert(models == seq![r] + rest);
                        assert(forall|i: int|
                            0 <= i < models.len() ==> wf_record(#[trigger] models[i])) by {
                            assert(models[0] == r);
                            assert(forall|i: int|
                                1 <= i < models.len() ==> models[i] == rest[i - 1]);
                        }
                    },
                    None => {
                        assert(false);
                    },
                }
            },
            None => {
                assert(false);
            },
        }
    }
}

/// Every history a tracking string denotes is well formed.
pub proof fn lemma_parsed_history_wf(s: Seq<char>, models: Seq<RecordModel>)
    requires
        parse_history_model(s) == Some(models),
    ensures
        wf_history(models),
{
    if s.len() == 0 {
        assert(models.len() == 0);
    } else {
        lemma_parsed_records_wf(split_by(s, record_seps()), models);
    }
}

/// Whether a string may stand as a record's name: non-empty and free of the
/// codec's delimiters.
pub fn check_plain_token(s: &str) -> (r: bool)
    ensures
        r == plain_token(s@),
{
    let n = s.unicode_len();
    if n == 0 {
        return false;
    }
    let mut i: usize = 0;
    while i < n
        invariant
            i <= n == s@.len(),
            forall|j: int|
                0 <= j < i ==> s@[j] != '|' && #[trigger] s@[j] != '~' && s@[j] != ';',
        decreases n - i,
    {
        let c = s.get_char(i);
        if c == '|' || c == '~' || c == ';' {
            return false;
        }
        i = i + 1;
    }
    true
}

/// Whether a record lies within what the codec carries losslessly.
pub fn check_wf_record(rec: &TrackedExperiment) -> (r: bool)
    ensures
        r == wf_record(rec@),
{
    if !check_plain_token(rec.short_name.as_str()) {
        return false;
    }
    match &rec.selected_variation {
        Some(v) => {
            if !check_plain_token(v.as_str()) {
                return false;
            }
        },
        None => {},
    }
    -DATE_BOUND <= rec.selection_date && rec.selection_date <= DATE_BOUND
        && -DATE_BOUND <= rec.invocation_date && rec.invocation_date <= DATE_BOUND
}

/// Decoder and encoder for the tracking string.
pub struct TrackingDataParser;

impl TrackingDataParser {
    /// Decodes a tracking string.  The empty string is an empty history; a
    /// malformed string is an error naming the record that failed.
    pub fn parse_tracking_data(value: &str) -> (r: Result<TrackingData, ParseError>)
        ensures
            match parse_history_model(value@) {
                Some(models) => r matches Ok(td) && td@ == models,
                None => r matches Err(_),
            },
    {
        let v = chars_of(value);
        if v.len() == 0 {
            let td = TrackingData { experiments: Vec::new() };
            assert(td@ =~= Seq::<RecordModel>::empty());
            return Ok(td);
        }
        let rs = split_ranges(&v, 0, v.len(), true);
        let ghost pieces = split_by(value@, record_seps());
        proof {
            assert(v@.subrange(0, v@.len() as int) =~= value@);
            assert(rs@.map_values(|p: (usize, usize)| v@.subrange(p.0 as int, p.1 as int))
                == pieces);
            assert(forall|k: int|
                0 <= k < rs@.len() ==> #[trigger] pieces[k] == v@.subrange(
                    rs@[k].0 as int,
                    rs@[k].1 as int,
                ));
        }
        let n = rs.len();
        let mut exps: Vec<TrackedExperiment> = Vec::new();
        let ghost rec_view = |r: TrackedExperiment| r@;
        let mut k: usize = 0;
        proof {
            assert(pieces.subrange(0, pieces.len() as int) =~= pieces);
            assert(exps@.map_values(rec_view) =~= Seq::<RecordModel>::empty());
        }
        while k < n
            invariant
                k <= n == rs@.len() == pieces.len(),
                v@ == value@,
                value@.len() > 0,
                pieces == split_by(value@, record_seps()),
                forall|j: int| 0 <= j < rs@.len() ==> (#[trigger] rs@[j]).0 <= rs@[j].1 <= v@.len(),
                forall|j: int|
                    0 <= j < rs@.len() ==> #[trigger] pieces[j] == v@.subrange(
                        rs@[j].0 as int,
                        rs@[j].1 as int,
                    ),
                rec_view == (|r: TrackedExperiment| r@),
                match parse_records(pieces.subrange(k as int, pieces.len() as int)) {
                    Some(rest) => parse_records(pieces) == Some(
                        exps@.map_values(rec_view) + rest,
                    ),
                    None => parse_records(pieces) is None,
                },
            decreases n - k,
        {
            let ghost tail = pieces.subrange(k as int, pieces.len() as int);
            let ghost tail1 = pieces.subrange(k + 1, pieces.len() as int);
            proof {
                assert(tail[0] == pieces[k as int]);
                assert(tail.subrange(1, tail.len() as int) =~= tail1);
            }
            let p = rs[k];
            match parse_record_range(value, &v, p.0, p.1) {
                Some(rec) => {
                    let ghost prev = exps@;
                    exps.push(rec);
                    proof {
                        assert(exps@ =~= prev.push(rec));
                        assert(exps@.map_values(rec_view) =~= prev.map_values(rec_view) + seq![
                            rec@,
                        ]);
                        assert(parse_record_model(tail[0]) == Some(rec@));
                        match parse_records(tail1) {
                            Some(rest1) => {
                                assert(parse_records(tail) == Some(seq![rec@] + rest1));
                                assert(prev.map_values(rec_view) + (seq![rec@] + rest1)
                                    =~= exps@.map_values(rec_view) + rest1);
                            },
                            None => {
                                assert(parse_records(tail) is None);
                            },
                        }
                    }
                },
                None => {
                    proof {
                        assert(parse_record_model(tail[0]) is None);
                        assert(parse_records(tail) is None);
                    }
                    let offending = value.substring_char(p.0, p.1).to_owned();
                    return Err(ParseError { offending });
                },
            }
            k = k + 1;
        }
        proof {
            assert(pieces.subrange(n as int, pieces.len() as int)
                =~= Seq::<Seq<char>>::empty());
            assert(parse_records(Seq::<Seq<char>>::empty()) == Some(
                Seq::<RecordModel>::empty(),
            ));
            assert(exps@.map_values(rec_view) + Seq::<RecordModel>::empty()
                =~= exps@.map_values(rec_view));
        }
        let td = TrackingData { experiments: exps };
        Ok(td)
    }

    /// Decodes a single record (the whole string must be one record).
    pub fn parse_experiment(value: &str) -> (r: Result<TrackedExperiment, ParseError>)
        ensures
            match parse_record_model(value@) {
                Some(model) => r matches Ok(rec) && rec@ == model,
                None => r matches Err(_),
            },
    {
        let v = chars_of(value);
        proof {
            assert(v@.subrange(0, v@.len() as int) =~= value@);
        }
        match parse_record_range(value, &v, 0, v.len()) {
            Some(rec) => Ok(rec),
            None => Err(ParseError { offending: value.to_owned() }),
        }
    }

    /// Decodes a tracking string, treating a malformed one as an empty
    /// history instead of an error.
    pub fn parse_tracking_data_no_err(value: &str) -> (r: TrackingData)
        ensures
            match parse_history_model(value@) {
                Some(models) => r@ == models,
                None => r@.len() == 0,
            },
    {
        match Self::parse_tracking_data(value) {
            Ok(td) => td,
            Err(_) => {
                let td = TrackingData { experiments: Vec::new() };
                assert(td@ =~= Seq::<RecordModel>::empty());
                td
            },
        }
    }
}

impl TrackedExperiment {
    /// The encoded form of this record: its nine fields joined by '|'.
    pub fn to_string(&self) -> (r: String)
        requires
            wf_record(self@),
        ensures
            r@ == encode_record_model(self@),
    {
        proof {
            reveal_strlit("|");
            reveal_strlit("C");
            reveal_strlit("T");
        }
        let mut out = String::new();
        out.append(self.short_name.as_str());
        out.append("|");
        crate::nums::append_i64(&mut out, self.selected_version);
        out.append("|");
        match self.selected_member_kind {
            ExperimentMemberKind::Control => out.append("C"),
            ExperimentMemberKind::Test => out.append("T"),
        }
        out.append("|");
        match &self.selected_variation {
            Some(v) => out.append(v.as_str()),
            None => (),
        }
        out.append("|");
        crate::nums::append_i64(&mut out, self.selection_date - FIRST_JULY_2021);
        out.append("|");
        crate::nums::append_u64(&mut out, self.total_selection_count);
        out.append("|");
        crate::nums::append_i64(&mut out, self.invocation_version);
        out.append("|");
        crate::nums::append_i64(&mut out, self.invocation_date - self.selection_date);
        out.append("|");
        crate::nums::append_u64(&mut out, self.total_invocation_count);
        assert(out@ =~= encode_record_model(self@));
        out
    }
}

/// Appending one record extends the encoding by a '~' joint (or starts it).
pub proof fn lemma_encode_push(rs: Seq<RecordModel>, r: RecordModel)
    ensures
        encode_history_model(rs.push(r)) == if rs.len() == 0 {
            encode_record_model(r)
        } else {
            encode_history_model(rs) + seq!['~'] + encode_record_model(r)
        },
    decreases rs.len(),
{
    let whole = rs.push(r);
    if rs.len() == 0 {
        assert(whole.len() == 1);
        assert(whole[0] == r);
    } else if rs.len() == 1 {
        assert(whole.len() == 2);
        assert(whole[0] == rs[0]);
        assert(whole.subrange(1, 2) =~= seq![r]);
        assert(encode_history_model(seq![r]) == encode_record_model(r)) by {
            assert(seq![r][0] == r);
        }
    } else {
        assert(whole[0] == rs[0]);
        assert(whole.subrange(1, whole.len() as int) =~= rs.subrange(1, rs.len() as int).push(r));
        lemma_encode_push(rs.subrange(1, rs.len() as int), r);
        assert(rs.subrange(1, rs.len() as int).len() > 0);
        assert(encode_history_model(whole) == encode_record_model(rs[0]) + seq!['~']
            + encode_history_model(rs.subrange(1, rs.len() as int).push(r)));
        assert(encode_history_model(rs) == encode_record_model(rs[0]) + seq!['~']
            + encode_history_model(rs.subrange(1, rs.len() as int)));
        assert(encode_history_model(whole) =~= encode_history_model(rs) + seq!['~']
            + encode_record_model(r));
    }
}

impl TrackingData {
    /// The encoded form of the whole history: records joined by '~'.
    pub fn to_string(&self) -> (r: String)
        requires
            wf_history(self@),
        ensures
            r@ == encode_history_model(self@),
    {
        proof {
            reveal_strlit("~");
        }
        let mut out = String::new();
        let n = self.experiments.len();
        let mut i: usize = 0;
        proof {
            assert(self@.subrange(0, 0) =~= Seq::<RecordModel>::empty());
        }
        while i < n
            invariant
                i <= n == self.experiments@.len(),
                wf_history(self@),
                self@ == self.experiments@.map_values(|r: TrackedExperiment| r@),
                out@ == encode_history_model(self@.subrange(0, i as int)),
            decreases n - i,
        {
            proof {
                reveal_strlit("~");
            }
            if i > 0 {
                out.append("~");
            }
            proof {
                assert(self@[i as int] == self.experiments@[i as int]@);
                assert(wf_record(self@[i as int]));
            }
            let rec_str = self.experiments[i].to_string();
            out.append(rec_str.as_str());
            proof {
                lemma_encode_push(self@.subrange(0, i as int), self@[i as int]);
                assert(self@.subrange(0, i + 1) =~= self@.subrange(0, i as int).push(
                    self@[i as int],
                ));
                assert(out@ =~= encode_history_model(self@.subrange(0, i + 1)));
            }
            i = i + 1;
        }
        proof {
            assert(self@.subrange(0, n as int) =~= self@);
        }
        out
    }
}

pub proof fn lemma_no_sep_concat(a: Seq<char>, b: Seq<char>, seps: Set<char>)
    requires
        has_no_sep(a, seps),
        has_no_sep(b, seps),
    ensures
        has_no_sep(a + b, seps),
{
    assert forall|i: int| 0 <= i < (a + b).len() implies !seps.contains(#[trigger] (a + b)[i]) by {
        if i < a.len() {
            assert((a + b)[i] == a[i]);
        } else {
            assert((a + b)[i] == b[i - a.len()]);
        }
    }
}

/// Decimal renderings hold only digits and '-': never a delimiter.
pub proof fn lemma_digits_no_delims(v: int)
    ensures
        has_no_sep(int_digits(v), field_seps()),
        has_no_sep(int_digits(v), record_seps()),
        has_no_sep(nat_digits(if v < 0 {
            0nat
        } else {
            v as nat
        }), field_seps()),
        has_no_sep(nat_digits(if v < 0 {
            0nat
        } else {
            v as nat
        }), record_seps()),
{
    assert forall|n: nat|
        has_no_sep(#[trigger] nat_digits(n), field_seps()) && has_no_sep(
            nat_digits(n),
            record_seps(),
        ) by {
        crate::nums::lemma_nat_digits_val(n);
        assert forall|i: int| 0 <= i < nat_digits(n).len() implies nat_digits(n)[i] != '|'
            && nat_digits(n)[i] != '~' && nat_digits(n)[i] != ';' by {
            assert(crate::nums::is_digit(nat_digits(n)[i]));
        }
    }
    if v < 0 {
        let s = int_digits(v);
        assert(s == seq!['-'] + nat_digits((-v) as nat));
        lemma_no_sep_concat(seq!['-'], nat_digits((-v) as nat), field_seps());
        lemma_no_sep_concat(seq!['-'], nat_digits((-v) as nat), record_seps());
    }
}

/// The fields of one well-formed record, in encoding order.
pub open spec fn record_fields_model(r: RecordModel) -> Seq<Seq<char>> {
    seq![
        r.short_name,
        int_digits(r.selected_version),
        seq![kind_char(r.selected_member_kind)],
        match r.selected_variation {
            Some(v) => v,
            None => Seq::<char>::empty(),
        },
        int_digits(r.selection_date - FIRST_JULY_2021),
        nat_digits(r.total_selection_count as nat),
        int_digits(r.invocation_version),
        int_digits(r.invocation_date - r.selection_date),
        nat_digits(r.total_invocation_count as nat),
    ]
}

/// No field of a well-formed record holds a delimiter of either level.
pub proof fn lemma_record_fields_no_seps(r: RecordModel)
    requires
        wf_record(r),
    ensures
        forall|k: int|
            0 <= k < 9 ==> has_no_sep(#[trigger] record_fields_model(r)[k], field_seps())
                && has_no_sep(record_fields_model(r)[k], record_seps()),
{
    let fs = record_fields_model(r);
    lemma_digits_no_delims(r.selected_version);
    lemma_digits_no_delims(r.selection_date - FIRST_JULY_2021);
    lemma_digits_no_delims(r.total_selection_count);
    lemma_digits_no_delims(r.invocation_version);
    lemma_digits_no_delims(r.invocation_date - r.selection_date);
    lemma_digits_no_delims(r.total_invocation_count);
    assert(nat_digits(r.total_selection_count as nat) == int_digits(r.total_selection_count));
    assert(nat_digits(r.total_invocation_count as nat) == int_digits(r.total_invocation_count));
    assert(has_no_sep(fs[0], field_seps()) && has_no_sep(fs[0], record_seps())) by {
        assert(forall|i: int|
            0 <= i < r.short_name.len() ==> r.short_name[i] != '|' && #[trigger] r.short_name[i]
                != '~' && r.short_name[i] != ';');
    }
    assert(has_no_sep(fs[2], field_seps()) && has_no_sep(fs[2], record_seps()));
    match r.selected_variation {
        Some(v) => {
            assert(has_no_sep(v, field_seps()) && has_no_sep(v, record_seps())) by {
                assert(forall|i: int|
                    0 <= i < v.len() ==> v[i] != '|' && #[trigger] v[i] != '~' && v[i] != ';');
            }
        },
        None => {},
    }
}

/// Nine pieces free of '|' joined by '|' split back into the nine pieces.
proof fn lemma_split_nine(
    f0: Seq<char>,
    f1: Seq<char>,
    f2: Seq<char>,
    f3: Seq<char>,
    f4: Seq<char>,
    f5: Seq<char>,
    f6: Seq<char>,
    f7: Seq<char>,
    f8: Seq<char>,
)
    requires
        has_no_sep(f0, field_seps()),
        has_no_sep(f1, field_seps()),
        has_no_sep(f2, field_seps()),
        has_no_sep(f3, field_seps()),
        has_no_sep(f4, field_seps()),
        has_no_sep(f5, field_seps()),
        has_no_sep(f6, field_seps()),
        has_no_sep(f7, field_seps()),
        has_no_sep(f8, field_seps()),
    ensures
        split_by(
            f0 + seq!['|'] + f1 + seq!['|'] + f2 + seq!['|'] + f3 + seq!['|'] + f4 + seq!['|'] + f5
                + seq!['|'] + f6 + seq!['|'] + f7 + seq!['|'] + f8,
            field_seps(),
        ) == seq![f0, f1, f2, f3, f4, f5, f6, f7, f8],
{
    let t8 = f8;
    let t7 = f7 + seq!['|'] + t8;
    let t6 = f6 + seq!['|'] + t7;
    let t5 = f5 + seq!['|'] + t6;
    let t4 = f4 + seq!['|'] + t5;
    let t3 = f3 + seq!['|'] + t4;
    let t2 = f2 + seq!['|'] + t3;
    let t1 = f1 + seq!['|'] + t2;
    let t0 = f0 + seq!['|'] + t1;
    assert(f0 + seq!['|'] + f1 + seq!['|'] + f2 + seq!['|'] + f3 + seq!['|'] + f4 + seq!['|'] + f5
        + seq!['|'] + f6 + seq!['|'] + f7 + seq!['|'] + f8 =~= t0);
    lemma_split_by_no_sep(t8, field_seps());
    lemma_split_by_append(f7, '|', t8, field_seps());
    assert(split_by(t7, field_seps()) =~~= seq![f7, f8]);
    lemma_split_by_append(f6, '|', t7, field_seps());
    assert(split_by(t6, field_seps()) =~~= seq![f6, f7, f8]);
    lemma_split_by_append(f5, '|', t6, field_seps());
    assert(split_by(t5, field_seps()) =~~= seq![f5, f6, f7, f8]);
    lemma_split_by_append(f4, '|', t5, field_seps());
    assert(split_by(t4, field_seps()) =~~= seq![f4, f5, f6, f7, f8]);
    lemma_split_by_append(f3, '|', t4, field_seps());
    assert(split_by(t3, field_seps()) =~~= seq![f3, f4, f5, f6, f7, f8]);
    lemma_split_by_append(f2, '|', t3, field_seps());
    assert(split_by(t2, field_seps()) =~~= seq![f2, f3, f4, f5, f6, f7, f8]);
    lemma_split_by_append(f1, '|', t2, field_seps());
    assert(split_by(t1, field_seps()) =~~= seq![f1, f2, f3, f4, f5, f6, f7, f8]);
    lemma_split_by_append(f0, '|', t1, field_seps());
    assert(split_by(t0, field_seps()) =~~= seq![f0, f1, f2, f3, f4, f5, f6, f7, f8]);
}

/// The encoding of a well-formed record splits back into its nine fields.
#[verifier::rlimit(80)]
pub proof fn lemma_encode_record_splits(r: RecordModel)
    requires
        wf_record(r),
    ensures
        split_by(encode_record_model(r), field_seps()) == record_fields_model(r),
{
    let fs = record_fields_model(r);
    lemma_record_fields_no_seps(r);
    lemma_split_nine(fs[0], fs[1], fs[2], fs[3], fs[4], fs[5], fs[6], fs[7], fs[8]);
    assert(encode_record_model(r) =~= fs[0] + seq!['|'] + fs[1] + seq!['|'] + fs[2] + seq!['|']
        + fs[3] + seq!['|'] + fs[4] + seq!['|'] + fs[5] + seq!['|'] + fs[6] + seq!['|'] + fs[7]
        + seq!['|'] + fs[8]);
    assert(split_by(encode_record_model(r), field_seps()) =~~= fs);
}

/// The encoding of a well-formed record holds no record separator.
pub proof fn lemma_encode_record_no_recsep(r: RecordModel)
    requires
        wf_record(r),
    ensures
        has_no_sep(encode_record_model(r), record_seps()),
        encode_record_model(r).len() > 0,
{
    let fs = record_fields_model(r);
    lemma_record_fields_no_seps(r);
    let bar = seq!['|'];
    assert(has_no_sep(bar, record_seps()));
    lemma_no_sep_concat(fs[0], bar, record_seps());
    lemma_no_sep_concat(fs[0] + bar, fs[1], record_seps());
    lemma_no_sep_concat(fs[0] + bar + fs[1], bar, record_seps());
    lemma_no_sep_concat(fs[0] + bar + fs[1] + bar, fs[2], record_seps());
    lemma_no_sep_concat(fs[0] + bar + fs[1] + bar + fs[2], bar, record_seps());
    lemma_no_sep_concat(fs[0] + bar + fs[1] + bar + fs[2] + bar, fs[3], record_seps());
    lemma_no_sep_concat(fs[0] + bar + fs[1] + bar + fs[2] + bar + fs[3], bar, record_seps());
    lemma_no_sep_concat(
        fs[0] + bar + fs[1] + bar + fs[2] + bar + fs[3] + bar,
        fs[4],
        record_seps(),
    );
    lemma_no_sep_concat(
        fs[0] + bar + fs[1] + bar + fs[2] + bar + fs[3] + bar + fs[4],
        bar,
        record_seps(),
    );
    lemma_no_sep_concat(
        fs[0] + bar + fs[1] + bar + fs[2] + bar + fs[3] + bar + fs[4] + bar,
        fs[5],
        record_seps(),
    );
    lemma_no_sep_concat(
        fs[0] + bar + fs[1] + bar + fs[2] + bar + fs[3] + bar + fs[4] + bar + fs[5],
        bar,
        record_seps(),
    );
    lemma_no_sep_concat(
        fs[0] + bar + fs[1] + bar + fs[2] + bar + fs[3] + bar + fs[4] + bar + fs[5] + bar,
        fs[6],
        record_seps(),
    );
    lemma_no_sep_concat(
        fs[0] + bar + fs[1] + bar + fs[2] + bar + fs[3] + bar + fs[4] + bar + fs[5] + bar + fs[6],
        bar,
        record_seps(),
    );
    lemma_no_sep_concat(
        fs[0] + bar + fs[1] + bar + fs[2] + bar + fs[3] + bar + fs[4] + bar + fs[5] + bar + fs[6]
            + bar,
        fs[7],
        record_seps(),
    );
    lemma_no_sep_concat(
        fs[0] + bar + fs[1] + bar + fs[2] + bar + fs[3] + bar + fs[4] + bar + fs[5] + bar + fs[6]
            + bar + fs[7],
        bar,
        record_seps(),
    );
    lemma_no_sep_concat(
        fs[0] + bar + fs[1] + bar + fs[2] + bar + fs[3] + bar + fs[4] + bar + fs[5] + bar + fs[6]
            + bar + fs[7] + bar,
        fs[8],
        record_seps(),
    );
    assert(encode_record_model(r) =~= fs[0] + bar + fs[1] + bar + fs[2] + bar + fs[3] + bar + fs[4]
        + bar + fs[5] + bar + fs[6] + bar + fs[7] + bar + fs[8]);
}

/// Decoding the encoding of one well-formed record yields the record.
pub proof fn lemma_record_round_trip(r: RecordModel)
    requires
        wf_record(r),
    ensures
        parse_record_model(encode_record_model(r)) == Some(r),
{
    lemma_encode_record_splits(r);
    let fs = record_fields_model(r);
    crate::nums::lemma_int_digits_signed(r.selected_version);
    crate::nums::lemma_int_digits_signed(r.selection_date - FIRST_JULY_2021);
    crate::nums::lemma_int_digits_signed(r.invocation_version);
    crate::nums::lemma_int_digits_signed(r.invocation_date - r.selection_date);
    crate::nums::lemma_nat_digits_val(r.total_selection_count as nat);
    crate::nums::lemma_nat_digits_val(r.total_invocation_count as nat);
    assert(parse_i64_field(fs[1]) == Some(r.selected_version));
    assert(parse_kind_field(fs[2]) == Some(r.selected_member_kind)) by {
        assert(seq!['C'][0] == 'C');
        assert(seq!['T'][0] == 'T');
        match r.selected_member_kind {
            ExperimentMemberKind::Control => {
                assert(fs[2] =~= seq!['C']);
            },
            ExperimentMemberKind::Test => {
                assert(fs[2] =~= seq!['T']);
                assert(fs[2][0] == 'T');
                assert(fs[2] != seq!['C']);
            },
        }
    }
    assert(parse_i64_field(fs[4]) == Some(r.selection_date - FIRST_JULY_2021));
    assert(parse_u64_field(fs[5]) == Some(r.total_selection_count));
    assert(parse_i64_field(fs[6]) == Some(r.invocation_version));
    assert(parse_i64_field(fs[7]) == Some(r.invocation_date - r.selection_date));
    assert(parse_u64_field(fs[8]) == Some(r.total_invocation_count));
    match r.selected_variation {
        Some(v) => {
            assert(fs[3] == v && v.len() > 0);
        },
        None => {
            assert(fs[3].len() == 0);
        },
    }
}

/// Decoding inverts encoding on every well-formed history (the round-trip
/// law; dates carry integer-second precision).
pub proof fn lemma_tracking_round_trip(rs: Seq<RecordModel>)
    requires
        wf_history(rs),
    ensures
        parse_history_model(encode_history_model(rs)) == Some(rs),
    decreases rs.len(),
{
    if rs.len() == 0 {
        assert(parse_history_model(encode_history_model(rs)) =~~= Some(rs));
    } else if rs.len() == 1 {
        let enc = encode_record_model(rs[0]);
        assert(wf_record(rs[0]));
        lemma_encode_record_no_recsep(rs[0]);
        lemma_split_by_no_sep(enc, record_seps());
        lemma_record_round_trip(rs[0]);
        assert(split_by(enc, record_seps()) == seq![enc]);
        assert(seq![enc][0] == enc);
        assert(seq![enc].subrange(1, 1) =~= Seq::<Seq<char>>::empty());
        assert(parse_records(Seq::<Seq<char>>::empty()) == Some(Seq::<RecordModel>::empty()));
        assert(parse_records(seq![enc]) == Some(seq![rs[0]] + Seq::<RecordModel>::empty()));
        assert(seq![rs[0]] + Seq::<RecordModel>::empty() =~= rs);
    } else {
        let head = encode_record_model(rs[0]);
        let rest = rs.subrange(1, rs.len() as int);
        let tail = encode_history_model(rest);
        assert(wf_record(rs[0]));
        assert(wf_history(rest)) by {
            assert(forall|i: int| 0 <= i < rest.len() ==> rest[i] == rs[i + 1]);
        }
        lemma_tracking_round_trip(rest);
        lemma_encode_record_no_recsep(rs[0]);
        assert(record_seps().contains('~'));
        lemma_split_by_append(head, '~', tail, record_seps());
        lemma_record_round_trip(rs[0]);
        assert(encode_history_model(rs) == head + seq!['~'] + tail);
        assert(tail.len() > 0) by {
            assert(rest.len() >= 1);
            lemma_encode_record_no_recsep(rest[0]);
            if rest.len() == 1 {
                assert(tail == encode_record_model(rest[0]));
            } else {
                assert(tail == encode_record_model(rest[0]) + seq!['~'] + encode_history_model(
                    rest.subrange(1, rest.len() as int),
                ));
            }
        }
        let pieces = split_by(encode_history_model(rs), record_seps());
        assert(pieces == seq![head] + split_by(tail, record_seps()));
        assert(parse_records(split_by(tail, record_seps())) == Some(rest));
        assert(pieces[0] == head);
        assert(pieces.subrange(1, pieces.len() as int) =~= split_by(tail, record_seps()));
        assert(parse_records(pieces) == Some(seq![rs[0]] + rest));
        assert(seq![rs[0]] + rest =~= rs);
        assert(encode_history_model(rs).len() > 0);
    }
}

} // verus!
