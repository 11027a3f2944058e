//! Deciding whether two identifiers are compatible, and resolving one set of
//! identifiers against another.

use crate::identifier::{
    parse_spec, Field, FieldView, IdentifierView, ParseError, SoftwareIdentifier, FIELDS,
};
use crate::text::texts_view;
use vstd::prelude::*;
use vstd::string::*;

verus! {

/// Two attributes are compatible when either stands for any value, or when
/// both say the same.
pub open spec fn compatible(a: FieldView, b: FieldView) -> bool {
    a is Any || b is Any || a == b
}

/// Two identifiers match when each attribute of the one is compatible with
/// the attribute of the other in the same place.
pub open spec fn matches_spec(a: IdentifierView, b: IdentifierView) -> bool {
    forall|i: int| 0 <= i < FIELDS ==> compatible(#[trigger] a.fields[i], b.fields[i])
}

/// An identifier whose attributes all stand for any value matches every
/// identifier.
pub proof fn lemma_all_any_matches(a: IdentifierView, b: IdentifierView)
    requires
        forall|i: int| 0 <= i < FIELDS ==> #[trigger] a.fields[i] is Any,
    ensures
        matches_spec(a, b),
{
}

/// Every identifier matches itself, and so matches any identifier that was
/// read from the same text.
pub proof fn lemma_matches_reflexive(a: IdentifierView)
    ensures
        matches_spec(a, a),
{
}

/// Whether two attributes are compatible.
pub fn field_matches(a: &Field, b: &Field) -> (matched: bool)
    ensures
        matched == compatible(a@, b@),
{
    match a {
        Field::Any => true,
        Field::NotApplicable => match b {
            Field::Value(_) => false,
            _ => true,
        },
        Field::Value(left) => match b {
            Field::Any => true,
            Field::NotApplicable => false,
            Field::Value(right) => *left == *right,
        },
    }
}

/// Whether two identifiers match. The attributes are compared in their
/// order, and the first incompatible pair settles the answer.
pub fn matches(a: &SoftwareIdentifier, b: &SoftwareIdentifier) -> (matched: bool)
    ensures
        matched == matches_spec(a@, b@),
{
    let mut i: usize = 0;
    while i < FIELDS
        invariant
            i <= FIELDS,
            forall|j: int| 0 <= j < i ==> compatible(#[trigger] a@.fields[j], b@.fields[j]),
        decreases FIELDS - i,
    {
        if !field_matches(a.field(i), b.field(i)) {
            return false;
        }
        i += 1;
    }
    true
}

/// A text that was read as an identifier.
#[derive(Debug, PartialEq, Eq)]
pub struct Candidate {
    /// The text as it was given.
    pub source: String,
    /// The identifier that was read from it.
    pub identifier: SoftwareIdentifier,
}

/// What a `Candidate` is.
pub struct CandidateView {
    pub source: Seq<char>,
    pub identifier: IdentifierView,
}

impl View for Candidate {
    type V = CandidateView;

    open spec fn view(&self) -> CandidateView {
        CandidateView { source: self.source@, identifier: self.identifier@ }
    }
}

/// A text that is no identifier. It takes no part in the resolution; it is
/// kept so that the caller can report it.
#[derive(Debug, Clone, PartialEq, Eq)]
pub struct Rejected {
    /// The text as it was given.
    pub source: String,
    /// Why the parser did not take it.
    pub error: ParseError,
}

/// What a `Rejected` is.
pub struct RejectedView {
    pub source: Seq<char>,
    pub message: Seq<char>,
}

impl View for Rejected {
    type V = RejectedView;

    open spec fn view(&self) -> RejectedView {
        RejectedView { source: self.source@, message: self.error@ }
    }
}

/// One row of the report: a source identifier and the targets it matches.
#[derive(Debug, Clone, PartialEq, Eq)]
pub struct ReportRow {
    /// The text of the source identifier, as it was given.
    pub source: String,
    /// The matching target identifiers, each as the parser prints it, in the
    /// order of the targets.
    pub targets: Vec<String>,
}

/// What a `ReportRow` is.
pub struct ReportRowView {
    pub source: Seq<char>,
    pub targets: Seq<Seq<char>>,
}

impl View for ReportRow {
    type V = ReportRowView;

    open spec fn view(&self) -> ReportRowView {
        ReportRowView { source: self.source@, targets: texts_view(self.targets@) }
    }
}

/// The outcome of resolving one set of identifiers against another.
#[derive(Debug, Clone, PartialEq, Eq)]
pub struct Resolution {
    /// The number of source identifiers that match at least one target.
    pub hits: usize,
    /// The number of source identifiers that match no target.
    pub misses: usize,
    /// One row for each source identifier, in the order of the sources.
    pub report: Vec<ReportRow>,
    /// The texts that are no identifiers: those among the sources, then those
    /// among the targets.
    pub rejected: Vec<Rejected>,
}

/// The candidates of a vector, each by its view.
pub open spec fn candidates_view(candidates: Seq<Candidate>) -> Seq<CandidateView> {
    Seq::new(candidates.len(), |i: int| candidates[i]@)
}

/// The rejected texts of a vector, each by its view.
pub open spec fn rejected_view(rejected: Seq<Rejected>) -> Seq<RejectedView> {
    Seq::new(rejected.len(), |i: int| rejected[i]@)
}

/// The rows of a report, each by its view.
pub open spec fn report_view(report: Seq<ReportRow>) -> Seq<ReportRowView> {
    Seq::new(report.len(), |i: int| report[i]@)
}

/// The texts among `inputs` that are identifiers, in their order, each with
/// the identifier read from it.
pub open spec fn accepted_of(inputs: Seq<Seq<char>>) -> Seq<CandidateView>
    decreases inputs.len(),
{
    if inputs.len() == 0 {
        Seq::empty()
    } else {
        let before = accepted_of(inputs.drop_last());
        match parse_spec(inputs.last()) {
            Ok(identifier) => before.push(CandidateView { source: inputs.last(), identifier }),
            Err(_) => before,
        }
    }
}

/// The texts among `inputs` that are no identifiers, in their order, each
/// with the parser's message.
pub open spec fn rejected_of(inputs: Seq<Seq<char>>) -> Seq<RejectedView>
    decreases inputs.len(),
{
    if inputs.len() == 0 {
        Seq::empty()
    } else {
        let before = rejected_of(inputs.drop_last());
        match parse_spec(inputs.last()) {
            Ok(_) => before,
            Err(message) => before.push(RejectedView { source: inputs.last(), message }),
        }
    }
}

/// The texts of the targets that `source` matches, in the order of the
/// targets.
pub open spec fn matched_targets(source: IdentifierView, targets: Seq<CandidateView>) -> Seq<
    Seq<char>,
>
    decreases targets.len(),
{
    if targets.len() == 0 {
        Seq::empty()
    } else {
        let before = matched_targets(source, targets.drop_last());
        if matches_spec(source, targets.last().identifier) {
            before.push(targets.last().identifier.text)
        } else {
            before
        }
    }
}

/// The row of the report for one source.
pub open spec fn row_of(source: CandidateView, targets: Seq<CandidateView>) -> ReportRowView {
    ReportRowView {
        source: source.source,
        targets: matched_targets(source.identifier, targets),
    }
}

/// Whether a source is a hit: it matches at least one target.
pub open spec fn is_hit(source: CandidateView, targets: Seq<CandidateView>) -> bool {
    matched_targets(source.identifier, targets).len() > 0
}

/// The number of hits among the sources.
pub open spec fn hit_count(sources: Seq<CandidateView>, targets: Seq<CandidateView>) -> nat
    decreases sources.len(),
{
    if sources.len() == 0 {
        0
    } else {
        hit_count(sources.drop_last(), targets) + if is_hit(sources.last(), targets) {
            1nat
        } else {
            0nat
        }
    }
}

/// A source is a hit exactly when some target matches it.
pub proof fn lemma_hit_iff_some_target_matches(
    source: CandidateView,
    targets: Seq<CandidateView>,
)
    ensures
        is_hit(source, targets) <==> exists|j: int|
            0 <= j < targets.len() && matches_spec(source.identifier, #[trigger] targets[j].identifier),
    decreases targets.len(),
{
    if targets.len() > 0 {
        let before = targets.drop_last();
        lemma_hit_iff_some_target_matches(source, before);
        if is_hit(source, targets) {
            if matches_spec(source.identifier, targets.last().identifier) {
                assert(matches_spec(source.identifier, targets[targets.len() - 1].identifier));
            } else {
                let j = choose|j: int|
                    0 <= j < before.len() && matches_spec(
                        source.identifier,
                        #[trigger] before[j].identifier,
                    );
                assert(matches_spec(source.identifier, targets[j].identifier));
            }
        } else {
            assert forall|j: int| 0 <= j < targets.len() implies !matches_spec(
                source.identifier,
                #[trigger] targets[j].identifier,
            ) by {
                if j < before.len() {
                    assert(before[j] == targets[j]);
                }
            }
        }
    }
}

/// Sorts texts into those that are identifiers and those that are not. The
/// order within each kind is the order of the texts.
pub fn parse_all(inputs: &Vec<String>) -> (sorted: (Vec<Candidate>, Vec<Rejected>))
    ensures
        candidates_view(sorted.0@) == accepted_of(texts_view(inputs@)),
        rejected_view(sorted.1@) == rejected_of(texts_view(inputs@)),
{
    let ghost texts = texts_view(inputs@);
    let mut accepted: Vec<Candidate> = Vec::new();
    let mut rejected: Vec<Rejected> = Vec::new();
    let mut i: usize = 0;
    while i < inputs.len()
        invariant
            i <= inputs.len(),
            texts == texts_view(inputs@),
            candidates_view(accepted@) == accepted_of(texts.take(i as int)),
            rejected_view(rejected@) == rejected_of(texts.take(i as int)),
        decreases inputs.len() - i,
    {
        proof {
            assert(texts.take(i + 1).drop_last() =~= texts.take(i as int));
            assert(texts.take(i + 1).last() == inputs@[i as int]@);
        }
        let source = inputs[i].clone();
        let ghost accepted_before = accepted@;
        let ghost rejected_before = rejected@;
        match SoftwareIdentifier::parse(inputs[i].as_str()) {
            Ok(identifier) => {
                accepted.push(Candidate { source, identifier });
                assert(candidates_view(accepted@) =~= candidates_view(accepted_before).push(
                    accepted@[accepted_before.len() as int]@,
                ));
            },
            Err(error) => {
                rejected.push(Rejected { source, error });
                assert(rejected_view(rejected@) =~= rejected_view(rejected_before).push(
                    rejected@[rejected_before.len() as int]@,
                ));
            },
        }
        i += 1;
    }
    assert(texts.take(inputs.len() as int) =~= texts);
    (accepted, rejected)
}

/// The texts of the targets that `source` matches.
pub fn targets_of(source: &SoftwareIdentifier, targets: &Vec<Candidate>) -> (matched: Vec<String>)
    ensures
        texts_view(matched@) == matched_targets(source@, candidates_view(targets@)),
        matched.len() > 0 <==> exists|j: int|
            0 <= j < targets.len() && matches_spec(source@, (#[trigger] targets[j])@.identifier),
{
    let ghost all = candidates_view(targets@);
    proof {
        let whole = CandidateView { source: Seq::empty(), identifier: source@ };
        lemma_hit_iff_some_target_matches(whole, all);
        if exists|j: int|
            0 <= j < all.len() && matches_spec(source@, (#[trigger] all[j]).identifier) {
            let j = choose|j: int|
                0 <= j < all.len() && matches_spec(source@, (#[trigger] all[j]).identifier);
            assert(matches_spec(source@, targets[j]@.identifier));
        }
        if exists|j: int|
            0 <= j < targets.len() && matches_spec(source@, (#[trigger] targets[j])@.identifier) {
            let j = choose|j: int|
                0 <= j < targets.len() && matches_spec(
                    source@,
                    (#[trigger] targets[j])@.identifier,
                );
            assert(matches_spec(source@, all[j].identifier));
        }
    }
    let mut matched: Vec<String> = Vec::new();
    let mut j: usize = 0;
    while j < targets.len()
        invariant
            j <= targets.len(),
            all == candidates_view(targets@),
            texts_view(matched@) == matched_targets(source@, all.take(j as int)),
        decreases targets.len() - j,
    {
        proof {
            assert(all.take(j + 1).drop_last() =~= all.take(j as int));
            assert(all.take(j + 1).last() == targets@[j as int]@);
        }
        if matches(source, &targets[j].identifier) {
            let ghost before = matched@;
            matched.push(String::from_str(targets[j].identifier.text()));
            assert(texts_view(matched@) =~= texts_view(before).push(
                targets@[j as int]@.identifier.text,
            ));
        }
        j += 1;
    }
    assert(all.take(targets.len() as int) =~= all);
    matched
}

/// Resolves identifiers against identifiers: one row for each source, with
/// the targets that it matches; a source with at least one is a hit, one with
/// none is a miss.
pub fn resolve_parsed(sources: &Vec<Candidate>, targets: &Vec<Candidate>) -> (resolved: (
    usize,
    usize,
    Vec<ReportRow>,
))
    ensures
        resolved.0 == hit_count(candidates_view(sources@), candidates_view(targets@)),
        resolved.0 + resolved.1 == sources.len(),
        resolved.2.len() == sources.len(),
        forall|k: int|
            0 <= k < sources.len() ==> (#[trigger] resolved.2[k])@ == row_of(
                sources[k]@,
                candidates_view(targets@),
            ),
{
    let ghost from = candidates_view(sources@);
    let ghost to = candidates_view(targets@);
    let mut hits: usize = 0;
    let mut misses: usize = 0;
    let mut report: Vec<ReportRow> = Vec::new();
    let mut i: usize = 0;
    while i < sources.len()
        invariant
            i <= sources.len(),
            from == candidates_view(sources@),
            to == candidates_view(targets@),
            hits == hit_count(from.take(i as int), to),
            hits + misses == i,
            report.len() == i,
            forall|k: int| 0 <= k < i ==> (#[trigger] report[k])@ == row_of(sources[k]@, to),
        decreases sources.len() - i,
    {
        proof {
            assert(from.take(i + 1).drop_last() =~= from.take(i as int));
            assert(from.take(i + 1).last() == sources@[i as int]@);
        }
        let matched = targets_of(&sources[i].identifier, targets);
        if matched.len() == 0 {
            misses += 1;
        } else {
            hits += 1;
        }
        report.push(ReportRow { source: sources[i].source.clone(), targets: matched });
        i += 1;
    }
    assert(from.take(sources.len() as int) =~= from);
    (hits, misses, report)
}

/// Resolves the texts `from` against the texts `to`. Each text is normalized
/// and read as an identifier; one that is no identifier counts neither as a
/// hit nor as a miss, and is handed back among the rejected. Each identifier
/// of `from` gets a row with the identifiers of `to` that it matches.
pub fn resolve_cpes(from: Vec<String>, to: Vec<String>) -> (resolution: Resolution)
    ensures
        resolution.hits == hit_count(
            accepted_of(texts_view(from@)),
            accepted_of(texts_view(to@)),
        ),
        resolution.hits + resolution.misses == accepted_of(texts_view(from@)).len(),
        resolution.report.len() == accepted_of(texts_view(from@)).len(),
        forall|k: int|
            0 <= k < resolution.report.len() ==> (#[trigger] resolution.report[k])@ == row_of(
                accepted_of(texts_view(from@))[k],
                accepted_of(texts_view(to@)),
            ),
        rejected_view(resolution.rejected@) == rejected_of(texts_view(from@)) + rejected_of(
            texts_view(to@),
        ),
{
    let (sources, mut rejected) = parse_all(&from);
    let (targets, mut rejected_targets) = parse_all(&to);
    let ghost rejected_sources = rejected@;
    let ghost rejected_others = rejected_targets@;
    rejected.append(&mut rejected_targets);
    assert(rejected_view(rejected@) =~= rejected_view(rejected_sources) + rejected_view(
        rejected_others,
    ));
    let (hits, misses, report) = resolve_parsed(&sources, &targets);
    assert forall|k: int| 0 <= k < report.len() implies (#[trigger] report[k])@ == row_of(
        accepted_of(texts_view(from@))[k],
        accepted_of(texts_view(to@)),
    ) by {
        assert(candidates_view(sources@)[k] == sources[k]@);
    }
    Resolution { hits, misses, report, rejected }
}

} // verus!
