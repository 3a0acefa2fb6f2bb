//! The environment that imports resolve through, as identity.
//!
//! Installation metadata only: a distribution's name and version, and the
//! `RECORD` that pins what its install wrote. No dependency source is
//! opened, hashed, walked or indexed.

use vstd::prelude::*;

use crate::fingerprint::{
    fields_view, fingerprint, fingerprint_pairs, fingerprint_text,
    lemma_fingerprint_identifies_its_inputs, pairs_view, Fields,
};
use crate::json::{nested_flag, parse_nested_flag, parsed_json};
use crate::paths::{
    components, components_of, is_absolute, join_path, lemma_components_of_join, path_join,
    path_of, plain_name,
};
use crate::python_semantic::host::PythonSettings;
use crate::text::{
    all_chars, characters_of, chars_or_empty, decode_lossy, has_suffix, is_before, is_whitespace,
    joined, lemma_sorting, lemma_sorting_exists, lemma_sorting_with_a_shared_start,
    lemma_text_order_is_total, lossy_text, optional_chars, or_empty, same_text, slice_text,
    sorted_texts, sorting, split, split_text, text_before, whitespace, Chars,
};

verus! {

/// How much of the environment could actually be proven.
///
/// Two axes, not one: the fingerprint is a deterministic identity of what
/// was seen, and the assurance says whether that is enough to prove that a
/// persisted publication still describes this environment.
#[derive(Debug, PartialEq, Eq)]
pub enum EnvironmentAssurance {
    /// Every input was read, and each is immutable installation metadata:
    /// the same fingerprint means the same installed environment.
    Proven,
    /// Something can change without the fingerprint moving, or could not be
    /// read at all.
    Unknown { reason: String },
}

impl EnvironmentAssurance {
    pub fn is_proven(&self) -> (proven: bool)
        ensures
            proven == (*self is Proven),
    {
        match self {
            EnvironmentAssurance::Proven => true,
            EnvironmentAssurance::Unknown { .. } => false,
        }
    }
}

/// The environment that a semantic result depends on.
#[derive(Debug, PartialEq, Eq)]
pub struct EnvironmentIdentity {
    pub fingerprint: String,
    pub assurance: EnvironmentAssurance,
    /// Diagnostic only: how many installed distributions were seen.
    pub distributions: usize,
}

// ---------------------------------------------------------------------
// What was read
// ---------------------------------------------------------------------

/// What was read of one entry of `site-packages`. What could not be read
/// is not there.
#[derive(Debug, PartialEq, Eq)]
pub enum EntryRead {
    Distribution { record: Option<Vec<u8>>, direct_url: Option<Vec<u8>> },
    PathFile(Option<Vec<u8>>),
    Nothing,
}

/// One entry of `site-packages`.
#[derive(Debug, PartialEq, Eq)]
pub struct SiteEntry {
    pub name: String,
    pub read: EntryRead,
}

/// What was read of an environment.
#[derive(Debug, PartialEq, Eq)]
pub enum SiteReading {
    NoVenv,
    NoSitePackages,
    /// The directory could not be listed. That is a failure to observe, not
    /// an environment with no distributions.
    Unreadable,
    Entries(Vec<SiteEntry>),
}

/// What an entry is, by its name.
#[derive(Debug, Clone, Copy, PartialEq, Eq, Structural)]
pub enum EntryKind {
    Distribution,
    EggInfo,
    EggLink,
    PathFile,
    Other,
}

pub open spec fn ends_with(text: Chars, suffix: Chars) -> bool {
    suffix.is_suffix_of(text)
}

/// What an entry is, by its name.
pub open spec fn entry_kind(name: Chars) -> EntryKind {
    if ends_with(name, ".dist-info"@) {
        EntryKind::Distribution
    } else if ends_with(name, ".egg-info"@) {
        EntryKind::EggInfo
    } else if ends_with(name, ".egg-link"@) {
        EntryKind::EggLink
    } else if ends_with(name, ".pth"@) {
        EntryKind::PathFile
    } else {
        EntryKind::Other
    }
}

/// A name without its suffix.
pub open spec fn without(name: Chars, suffix: Chars) -> Chars {
    name.take(name.len() - suffix.len())
}

// ---------------------------------------------------------------------
// What it establishes
// ---------------------------------------------------------------------

/// What a reading establishes.
pub ghost struct Observed {
    /// Facts for the fingerprint, in the order they were seen.
    pub facts: Fields,
    pub distributions: nat,
    /// The first reason why the environment cannot be proven, if any.
    pub unproven: Option<Chars>,
}

pub open spec fn nothing_observed() -> Observed {
    Observed { facts: Seq::empty(), distributions: 0, unproven: None }
}

pub open spec fn with_fact(observed: Observed, name: Chars, value: Chars) -> Observed {
    Observed { facts: observed.facts.push((name, value)), ..observed }
}

/// Only the first reason is kept.
pub open spec fn with_reason(observed: Observed, reason: Chars) -> Observed {
    match observed.unproven {
        Some(_) => observed,
        None => Observed { unproven: Some(reason), ..observed },
    }
}

pub open spec fn record_bytes(read: EntryRead) -> Option<Seq<u8>> {
    match read {
        EntryRead::Distribution { record: Some(bytes), .. } => Some(bytes@),
        _ => None,
    }
}

pub open spec fn direct_url_bytes(read: EntryRead) -> Option<Seq<u8>> {
    match read {
        EntryRead::Distribution { direct_url: Some(bytes), .. } => Some(bytes@),
        _ => None,
    }
}

pub open spec fn path_file_bytes(read: EntryRead) -> Option<Seq<u8>> {
    match read {
        EntryRead::PathFile(Some(bytes)) => Some(bytes@),
        _ => None,
    }
}

/// Whether what a `direct_url.json` was read as denotes source that can
/// change underneath an unchanged installation. Metadata that cannot be
/// understood cannot clear the install; a directory install that is not
/// editable is a copy, which the `RECORD` pins.
pub open spec fn flags_mutable(parsed: Result<Option<bool>, Chars>) -> bool {
    match parsed {
        Ok(editable) => editable == Some(true),
        Err(_) => true,
    }
}

/// Whether a `direct_url.json` denotes source that can change underneath
/// an unchanged installation.
pub open spec fn mutable_source(text: Chars) -> bool {
    match parsed_json(text) {
        Ok(value) => flags_mutable(Ok(nested_flag(value, "dir_info"@, "editable"@))),
        Err(detail) => flags_mutable(Err(detail)),
    }
}

/// The first character of a line that is not white space.
pub open spec fn first_visible(line: Chars) -> Option<char>
    decreases line.len(),
{
    if line.len() == 0 {
        None
    } else if whitespace(line[0]) {
        first_visible(line.skip(1))
    } else {
        Some(line[0])
    }
}

/// Whether a line says anything: neither blank nor a comment.
pub open spec fn says_something(line: Chars) -> bool {
    first_visible(line) matches Some(first) && first != '#'
}

/// Whether a path file adds to the import path or runs code: whether any
/// of its lines says anything.
pub open spec fn injects_paths(text: Chars) -> bool {
    exists|i: int|
        0 <= i < split(text, '\n').len() && says_something(#[trigger] split(text, '\n')[i])
}

/// A distribution proves itself by its `RECORD`, the installer's own
/// manifest of what it wrote. An editable install resolves to a source
/// tree that changes with no installed metadata moving at all.
pub open spec fn with_distribution(observed: Observed, stem: Chars, read: EntryRead) -> Observed {
    let seen = with_fact(
        Observed { distributions: observed.distributions + 1, ..observed },
        "distribution"@,
        stem,
    );
    let recorded = match record_bytes(read) {
        Some(bytes) => with_fact(
            seen,
            "record:"@ + stem,
            fingerprint_text("python-dist-record-1"@, seq![("record"@, lossy_text(bytes))]),
        ),
        None => with_reason(seen, stem + " has no readable RECORD"@),
    };
    match direct_url_bytes(read) {
        Some(bytes) => {
            let text = lossy_text(bytes);
            let pinned = with_fact(
                recorded,
                "direct_url:"@ + stem,
                fingerprint_text("python-dist-direct-url-1"@, seq![("direct_url"@, text)]),
            );
            if mutable_source(text) {
                with_reason(pinned, stem + " is installed from mutable local source"@)
            } else {
                pinned
            }
        },
        None => recorded,
    }
}

/// A path file is executed at interpreter start, and no distribution's
/// metadata covers what it points at.
pub open spec fn with_path_file(observed: Observed, name: Chars, read: EntryRead) -> Observed {
    match path_file_bytes(read) {
        Some(bytes) => {
            let text = lossy_text(bytes);
            let pinned = with_fact(
                observed,
                "pth:"@ + name,
                fingerprint_text("python-pth-1"@, seq![("pth"@, text)]),
            );
            if injects_paths(text) {
                with_reason(pinned, name + " injects import paths"@)
            } else {
                pinned
            }
        },
        None => with_reason(observed, name + " could not be read"@),
    }
}

/// What is established with one more entry.
pub open spec fn with_entry(observed: Observed, entry: SiteEntry) -> Observed {
    let name = entry.name@;
    match entry_kind(name) {
        EntryKind::Distribution => with_distribution(
            observed,
            without(name, ".dist-info"@),
            entry.read,
        ),
        EntryKind::EggInfo => with_reason(
            with_fact(
                Observed { distributions: observed.distributions + 1, ..observed },
                "egg_info"@,
                without(name, ".egg-info"@),
            ),
            name + " is a legacy install without a RECORD"@,
        ),
        EntryKind::EggLink => with_reason(
            with_fact(observed, "egg_link"@, name),
            name + " links a source checkout"@,
        ),
        EntryKind::PathFile => with_path_file(observed, name, entry.read),
        EntryKind::Other => observed,
    }
}

pub open spec fn with_entries(entries: Seq<SiteEntry>) -> Observed
    decreases entries.len(),
{
    if entries.len() == 0 {
        nothing_observed()
    } else {
        with_entry(with_entries(entries.drop_last()), entries.last())
    }
}

/// What a reading establishes.
pub open spec fn observed_in(reading: SiteReading) -> Observed {
    match reading {
        SiteReading::NoVenv => with_reason(nothing_observed(), "no venv path is configured"@),
        SiteReading::NoSitePackages => with_reason(
            nothing_observed(),
            "no site-packages under the configured venv"@,
        ),
        SiteReading::Unreadable => with_reason(
            nothing_observed(),
            "site-packages could not be read"@,
        ),
        SiteReading::Entries(entries) => with_entries(entries@),
    }
}

/// What the fingerprint of an environment is made of.
pub open spec fn environment_fields(settings: PythonSettings, observed: Observed) -> Fields {
    seq![
        ("python_path"@, chars_or_empty(settings.python_path)),
        ("venv_path"@, chars_or_empty(settings.venv_path)),
    ] + observed.facts
}

/// The identity of the environment that was read.
pub open spec fn identifies(
    identity: EnvironmentIdentity,
    settings: PythonSettings,
    reading: SiteReading,
) -> bool {
    let observed = observed_in(reading);
    &&& identity.fingerprint@ == fingerprint_text(
        "python-semantic-env-3"@,
        environment_fields(settings, observed),
    )
    &&& match observed.unproven {
        None => identity.assurance is Proven,
        Some(reason) => identity.assurance matches EnvironmentAssurance::Unknown { reason: held }
            && held@ == reason,
    }
    &&& identity.distributions == observed.distributions
}

/// What is established so far.
struct Observation {
    facts: Vec<(String, String)>,
    distributions: usize,
    unproven: Option<String>,
}

impl View for Observation {
    type V = Observed;

    closed spec fn view(&self) -> Observed {
        Observed {
            facts: pairs_view(self.facts@),
            distributions: self.distributions as nat,
            unproven: optional_chars(self.unproven),
        }
    }
}

impl Observation {
    fn new() -> (observation: Self)
        ensures
            observation@ == nothing_observed(),
    {
        let observation = Observation { facts: Vec::new(), distributions: 0, unproven: None };
        assert(pairs_view(observation.facts@) =~= Seq::empty());
        observation
    }

    fn fact(&mut self, name: String, value: String)
        ensures
            final(self)@ == with_fact(old(self)@, name@, value@),
    {
        let ghost held = pairs_view(self.facts@);
        self.facts.push((name, value));
        assert(pairs_view(self.facts@) =~= held.push((name@, value@)));
    }

    fn unproven(&mut self, reason: String)
        ensures
            final(self)@ == with_reason(old(self)@, reason@),
    {
        if self.unproven.is_none() {
            self.unproven = Some(reason);
        }
    }

    fn seen(&mut self)
        requires
            old(self)@.distributions < usize::MAX,
        ensures
            final(self)@ == (Observed {
                distributions: old(self)@.distributions + 1,
                ..old(self)@
            }),
    {
        self.distributions = self.distributions + 1;
    }
}

fn pinned(domain: &str, name: &str, text: &str) -> (value: String)
    ensures
        value@ == fingerprint_text(domain@, seq![(name@, text@)]),
{
    let fields: [(&str, &str); 1] = [(name, text)];
    assert(fields_view(fields@) =~= seq![(name@, text@)]);
    fingerprint(domain, fields.as_slice())
}

/// Whether what a `direct_url.json` was read as denotes mutable source.
pub fn is_flagged_mutable(parsed: &Result<Option<bool>, String>) -> (mutable: bool)
    ensures
        mutable == flags_mutable(
            match parsed {
                Ok(editable) => Ok(*editable),
                Err(detail) => Err(detail@),
            },
        ),
{
    match parsed {
        Ok(Some(editable)) => *editable,
        Ok(None) => false,
        Err(_) => true,
    }
}

/// Whether a `direct_url.json` denotes source that can change underneath
/// an unchanged installation.
pub fn is_mutable_source(text: &str) -> (mutable: bool)
    ensures
        mutable == mutable_source(text@),
{
    is_flagged_mutable(&parse_nested_flag(text, "dir_info", "editable"))
}

fn line_says_something(line: &str) -> (held: bool)
    ensures
        held == says_something(line@),
{
    let characters = characters_of(line);
    let mut at: usize = 0;
    assert(line@.skip(0) =~= line@);
    while at < characters.len()
        invariant
            at <= characters@.len(),
            characters@ == line@,
            first_visible(line@) == first_visible(line@.skip(at as int)),
        decreases characters@.len() - at,
    {
        assert(line@.skip(at as int).skip(1) =~= line@.skip(at + 1));
        assert(line@.skip(at as int)[0] == line@[at as int]);
        if !is_whitespace(characters[at]) {
            return characters[at] != '#';
        }
        at = at + 1;
    }
    false
}

/// Whether a path file adds to the import path or runs code.
pub fn adds_paths(text: &str) -> (held: bool)
    ensures
        held == injects_paths(text@),
{
    let characters = characters_of(text);
    let lines = split_text(characters.as_slice(), '\n');
    let ghost all = all_chars(lines@);
    let mut at: usize = 0;
    while at < lines.len()
        invariant
            at <= lines@.len(),
            all == all_chars(lines@),
            all == split(text@, '\n'),
            forall|i: int| 0 <= i < at ==> !says_something(#[trigger] all[i]),
        decreases lines@.len() - at,
    {
        assert(all[at as int] == lines@[at as int]@);
        if line_says_something(lines[at].as_str()) {
            return true;
        }
        at = at + 1;
    }
    false
}

fn name_ends_with(name: &str, suffix: &str) -> (held: bool)
    ensures
        held == ends_with(name@, suffix@),
{
    let characters = characters_of(name);
    let tail = characters_of(suffix);
    has_suffix(characters.as_slice(), tail.as_slice())
}

/// What an entry is, by its name.
pub fn kind_of_entry(name: &str) -> (kind: EntryKind)
    ensures
        kind == entry_kind(name@),
{
    if name_ends_with(name, ".dist-info") {
        EntryKind::Distribution
    } else if name_ends_with(name, ".egg-info") {
        EntryKind::EggInfo
    } else if name_ends_with(name, ".egg-link") {
        EntryKind::EggLink
    } else if name_ends_with(name, ".pth") {
        EntryKind::PathFile
    } else {
        EntryKind::Other
    }
}

fn strip_suffix(name: &str, suffix: &str) -> (stem: String)
    requires
        ends_with(name@, suffix@),
    ensures
        stem@ == without(name@, suffix@),
{
    let characters = characters_of(name);
    let tail = characters_of(suffix);
    slice_text(characters.as_slice(), 0, characters.len() - tail.len())
}

fn observe_dist_info(observation: &mut Observation, stem: &str, read: &EntryRead)
    requires
        old(observation)@.distributions < usize::MAX,
    ensures
        final(observation)@ == with_distribution(old(observation)@, stem@, *read),
{
    observation.seen();
    observation.fact("distribution".to_owned(), stem.to_owned());
    let (record, direct_url) = match read {
        EntryRead::Distribution { record, direct_url } => (record.as_ref(), direct_url.as_ref()),
        _ => (None, None),
    };
    match record {
        Some(bytes) => {
            let text = decode_lossy(bytes.as_slice());
            observation.fact(
                joined("record:", stem),
                pinned("python-dist-record-1", "record", text.as_str()),
            );
        },
        None => observation.unproven(joined(stem, " has no readable RECORD")),
    }
    match direct_url {
        Some(bytes) => {
            let text = decode_lossy(bytes.as_slice());
            observation.fact(
                joined("direct_url:", stem),
                pinned("python-dist-direct-url-1", "direct_url", text.as_str()),
            );
            if is_mutable_source(text.as_str()) {
                observation.unproven(joined(stem, " is installed from mutable local source"));
            }
        },
        None => {},
    }
}

fn observe_pth(observation: &mut Observation, name: &str, read: &EntryRead)
    ensures
        final(observation)@ == with_path_file(old(observation)@, name@, *read),
{
    match read {
        EntryRead::PathFile(Some(bytes)) => {
            let text = decode_lossy(bytes.as_slice());
            observation.fact(
                joined("pth:", name),
                pinned("python-pth-1", "pth", text.as_str()),
            );
            if adds_paths(text.as_str()) {
                observation.unproven(joined(name, " injects import paths"));
            }
        },
        _ => observation.unproven(joined(name, " could not be read")),
    }
}

fn observe_entry(observation: &mut Observation, entry: &SiteEntry)
    requires
        old(observation)@.distributions < usize::MAX,
    ensures
        final(observation)@ == with_entry(old(observation)@, *entry),
{
    let name = entry.name.as_str();
    match kind_of_entry(name) {
        EntryKind::Distribution => {
            let stem = strip_suffix(name, ".dist-info");
            observe_dist_info(observation, stem.as_str(), &entry.read);
        },
        EntryKind::EggInfo => {
            let stem = strip_suffix(name, ".egg-info");
            observation.seen();
            observation.fact("egg_info".to_owned(), stem);
            observation.unproven(joined(name, " is a legacy install without a RECORD"));
        },
        EntryKind::EggLink => {
            observation.fact("egg_link".to_owned(), name.to_owned());
            observation.unproven(joined(name, " links a source checkout"));
        },
        EntryKind::PathFile => observe_pth(observation, name, &entry.read),
        EntryKind::Other => {},
    }
}

fn observe_environment(reading: &SiteReading) -> (observation: Observation)
    ensures
        observation@ == observed_in(*reading),
{
    let mut observation = Observation::new();
    match reading {
        SiteReading::NoVenv => observation.unproven("no venv path is configured".to_owned()),
        SiteReading::NoSitePackages => observation.unproven(
            "no site-packages under the configured venv".to_owned(),
        ),
        SiteReading::Unreadable => observation.unproven(
            "site-packages could not be read".to_owned(),
        ),
        SiteReading::Entries(entries) => {
            let mut at: usize = 0;
            assert(entries@.take(0) =~= Seq::empty());
            while at < entries.len()
                invariant
                    at <= entries@.len(),
                    observation@ == with_entries(entries@.take(at as int)),
                    observation@.distributions <= at,
                decreases entries@.len() - at,
            {
                assert(entries@.take(at + 1).drop_last() =~= entries@.take(at as int));
                observe_entry(&mut observation, &entries[at]);
                at = at + 1;
            }
            assert(entries@.take(at as int) =~= entries@);
        },
    }
    observation
}

/// The identity of the environment that was read: a function of the
/// settings and the reading, so that one that cannot be proven is still
/// deterministic.
pub fn identity_of(settings: &PythonSettings, reading: &SiteReading) -> (identity:
    EnvironmentIdentity)
    ensures
        identifies(identity, *settings, *reading),
{
    let observation = observe_environment(reading);
    let ghost observed = observation@;
    let mut fields: Vec<(String, String)> = Vec::new();
    fields.push(("python_path".to_owned(), or_empty(&settings.python_path)));
    fields.push(("venv_path".to_owned(), or_empty(&settings.venv_path)));
    let ghost start = pairs_view(fields@);
    let mut at: usize = 0;
    assert(pairs_view(fields@) =~= start + observed.facts.take(0));
    while at < observation.facts.len()
        invariant
            at <= observation.facts@.len(),
            observed.facts == pairs_view(observation.facts@),
            pairs_view(fields@) == start + observed.facts.take(at as int),
        decreases observation.facts@.len() - at,
    {
        let ghost held = pairs_view(fields@);
        let name = observation.facts[at].0.clone();
        let value = observation.facts[at].1.clone();
        fields.push((name, value));
        assert(pairs_view(fields@) =~= held.push((name@, value@)));
        assert(pairs_view(fields@) =~= start + observed.facts.take(at + 1));
        at = at + 1;
    }
    assert(observed.facts.take(at as int) =~= observed.facts);
    assert(pairs_view(fields@) =~= environment_fields(*settings, observed));
    let assurance = match observation.unproven {
        None => EnvironmentAssurance::Proven,
        Some(reason) => EnvironmentAssurance::Unknown { reason },
    };
    EnvironmentIdentity {
        fingerprint: fingerprint_pairs("python-semantic-env-3", fields.as_slice()),
        assurance,
        distributions: observation.distributions,
    }
}

// ---------------------------------------------------------------------
// Laws
// ---------------------------------------------------------------------

/// Two environments with the same fingerprint had the same interpreter,
/// the same `venv` and the same facts: a distribution added, removed,
/// upgraded or reinstalled with other contents moves the fingerprint.
pub proof fn lemma_same_fingerprint_same_environment(
    a: EnvironmentIdentity,
    settings_a: PythonSettings,
    reading_a: SiteReading,
    b: EnvironmentIdentity,
    settings_b: PythonSettings,
    reading_b: SiteReading,
)
    requires
        identifies(a, settings_a, reading_a),
        identifies(b, settings_b, reading_b),
        a.fingerprint@ == b.fingerprint@,
    ensures
        chars_or_empty(settings_a.python_path) == chars_or_empty(settings_b.python_path),
        chars_or_empty(settings_a.venv_path) == chars_or_empty(settings_b.venv_path),
        observed_in(reading_a).facts == observed_in(reading_b).facts,
{
    let fields_a = environment_fields(settings_a, observed_in(reading_a));
    let fields_b = environment_fields(settings_b, observed_in(reading_b));
    lemma_fingerprint_identifies_its_inputs(
        "python-semantic-env-3"@,
        fields_a,
        "python-semantic-env-3"@,
        fields_b,
    );
    assert(fields_a[0] == fields_b[0]);
    assert(fields_a[1] == fields_b[1]);
    assert(observed_in(reading_a).facts =~= fields_a.skip(2));
    assert(observed_in(reading_b).facts =~= fields_b.skip(2));
}

/// What could not be observed is unknown, and never an environment that is
/// proven to hold nothing.
pub proof fn lemma_unobserved_is_unknown(
    identity: EnvironmentIdentity,
    settings: PythonSettings,
    reading: SiteReading,
)
    requires
        identifies(identity, settings, reading),
        !(reading is Entries),
    ensures
        !(identity.assurance is Proven),
        identity.distributions == 0,
{
}

/// An entry that no environment can be proven with: a legacy install, a
/// link to a checkout, a distribution without a readable `RECORD` or from
/// editable source, a path file that is unreadable or says anything.
pub open spec fn defeats_proof(entry: SiteEntry) -> bool {
    match entry_kind(entry.name@) {
        EntryKind::Distribution => record_bytes(entry.read) is None || (direct_url_bytes(
            entry.read,
        ) matches Some(bytes) && mutable_source(lossy_text(bytes))),
        EntryKind::EggInfo => true,
        EntryKind::EggLink => true,
        EntryKind::PathFile => match path_file_bytes(entry.read) {
            Some(bytes) => injects_paths(lossy_text(bytes)),
            None => true,
        },
        EntryKind::Other => false,
    }
}

proof fn lemma_entries_prove(entries: Seq<SiteEntry>)
    ensures
        with_entries(entries).unproven is None <==> forall|i: int|
            0 <= i < entries.len() ==> !defeats_proof(#[trigger] entries[i]),
    decreases entries.len(),
{
    if entries.len() > 0 {
        let rest = entries.drop_last();
        lemma_entries_prove(rest);
        let last = entries.last();
        assert(with_entries(entries).unproven is None <==> with_entries(rest).unproven is None
            && !defeats_proof(last));
        if with_entries(entries).unproven is None {
            assert forall|i: int| 0 <= i < entries.len() implies !defeats_proof(
                #[trigger] entries[i],
            ) by {
                if i < rest.len() {
                    assert(rest[i] == entries[i]);
                }
            }
        } else {
            if with_entries(rest).unproven is Some {
                let i = choose|i: int| 0 <= i < rest.len() && defeats_proof(#[trigger] rest[i]);
                assert(defeats_proof(entries[i]));
            } else {
                assert(defeats_proof(entries[entries.len() - 1]));
            }
        }
    }
}

/// An environment is proven exactly where it was read and none of its
/// entries defeats the proof.
pub proof fn lemma_proven_environment(
    identity: EnvironmentIdentity,
    settings: PythonSettings,
    reading: SiteReading,
)
    requires
        identifies(identity, settings, reading),
    ensures
        identity.assurance is Proven <==> (reading matches SiteReading::Entries(entries)
            && forall|i: int|
            0 <= i < entries@.len() ==> !defeats_proof(#[trigger] entries@[i])),
{
    if let SiteReading::Entries(entries) = reading {
        lemma_entries_prove(entries@);
    }
}

// ---------------------------------------------------------------------
// Reading
// ---------------------------------------------------------------------

/// Reading the pieces of an environment, so that a test can fail one. It
/// promises nothing of what is read.
pub trait EnvironmentFs {
    /// Paths of the entries directly under `path`, or the reason it failed.
    fn read_dir(&self, path: &str) -> Result<Vec<String>, String>;

    fn read(&self, path: &str) -> Result<Vec<u8>, String>;

    fn is_dir(&self, path: &str) -> bool;
}

/// Whether the filesystem may answer a listing of that path so.
pub open spec fn lists<F: EnvironmentFs>(
    filesystem: F,
    path: Chars,
    answer: Result<Vec<String>, String>,
) -> bool {
    exists|asked: &str|
        asked@ == path && #[trigger] call_ensures(F::read_dir, (&filesystem, asked), answer)
}

/// Whether the filesystem may answer a reading of that path so.
pub open spec fn reads<F: EnvironmentFs>(
    filesystem: F,
    path: Chars,
    answer: Result<Vec<u8>, String>,
) -> bool {
    exists|asked: &str|
        asked@ == path && #[trigger] call_ensures(F::read, (&filesystem, asked), answer)
}

/// Whether the filesystem may say so of that path's being a directory.
pub open spec fn is_directory<F: EnvironmentFs>(filesystem: F, path: Chars, answer: bool) -> bool {
    exists|asked: &str|
        asked@ == path && #[trigger] call_ensures(F::is_dir, (&filesystem, asked), answer)
}

/// The final name of a path, if it ends in one.
pub open spec fn file_name(path: Chars) -> Chars {
    let parts = components(path);
    if parts.len() == 0 || parts.last() == "/"@ || parts.last() == "."@ || parts.last() == ".."@ {
        Seq::empty()
    } else {
        parts.last()
    }
}

/// The final name of a path, if it ends in one.
pub fn name_of_path(path: &str) -> (name: String)
    ensures
        name@ == file_name(path@),
{
    let mut parts = components_of(path);
    let ghost all = all_chars(parts@);
    match parts.pop() {
        Some(last) => {
            assert(all.last() == last@);
            if same_text(last.as_str(), "/") || same_text(last.as_str(), ".") || same_text(
                last.as_str(),
                "..",
            ) {
                String::new()
            } else {
                last
            }
        },
        None => String::new(),
    }
}

/// How components of different sorts are ordered: the root, the directory
/// itself, its parent, and then names.
pub open spec fn component_rank(component: Chars) -> int {
    if component == "/"@ {
        0
    } else if component == "."@ {
        1
    } else if component == ".."@ {
        2
    } else {
        3
    }
}

pub open spec fn component_before(a: Chars, b: Chars) -> bool {
    component_rank(a) < component_rank(b) || (component_rank(a) == component_rank(b)
        && text_before(a, b))
}

/// Whether one path comes before another, component by component.
pub open spec fn components_before(a: Seq<Chars>, b: Seq<Chars>) -> bool
    decreases a.len(),
{
    if b.len() == 0 {
        false
    } else if a.len() == 0 {
        true
    } else if component_before(a[0], b[0]) {
        true
    } else if component_before(b[0], a[0]) {
        false
    } else {
        components_before(a.skip(1), b.skip(1))
    }
}

/// Whether one path comes before another.
pub open spec fn path_before(a: Chars, b: Chars) -> bool {
    components_before(components(a), components(b))
}

fn rank_of(component: &str) -> (rank: u8)
    ensures
        rank == component_rank(component@),
{
    if same_text(component, "/") {
        0
    } else if same_text(component, ".") {
        1
    } else if same_text(component, "..") {
        2
    } else {
        3
    }
}

fn component_comes_before(a: &str, b: &str) -> (before: bool)
    ensures
        before == component_before(a@, b@),
{
    let left: u8 = rank_of(a);
    let right: u8 = rank_of(b);
    left < right || (left == right && is_before(a, b))
}

/// Whether one path comes before another.
pub fn comes_before(a: &str, b: &str) -> (before: bool)
    ensures
        before == path_before(a@, b@),
{
    let left = components_of(a);
    let right = components_of(b);
    let ghost x = all_chars(left@);
    let ghost y = all_chars(right@);
    let mut at: usize = 0;
    assert(x.skip(0) =~= x);
    assert(y.skip(0) =~= y);
    loop
        invariant
            at <= left@.len(),
            at <= right@.len(),
            x == all_chars(left@),
            y == all_chars(right@),
            x == components(a@),
            y == components(b@),
            components_before(x, y) == components_before(x.skip(at as int), y.skip(at as int)),
        decreases left@.len() - at,
    {
        if at == right.len() {
            return false;
        }
        if at == left.len() {
            return true;
        }
        assert(x.skip(at as int)[0] == left@[at as int]@);
        assert(y.skip(at as int)[0] == right@[at as int]@);
        if component_comes_before(left[at].as_str(), right[at].as_str()) {
            return true;
        }
        if component_comes_before(right[at].as_str(), left[at].as_str()) {
            return false;
        }
        assert(x.skip(at as int).skip(1) =~= x.skip(at + 1));
        assert(y.skip(at as int).skip(1) =~= y.skip(at + 1));
        at = at + 1;
    }
}

proof fn lemma_component_order(a: Chars, b: Chars, c: Chars)
    ensures
        component_before(a, b) && component_before(b, c) ==> component_before(a, c),
        component_before(a, b) ==> !component_before(b, a),
        component_before(a, b) || component_before(b, a) || a == b,
{
    lemma_text_order_is_total(a, b, c);
    lemma_text_order_is_total(b, a, b);
    lemma_text_order_is_total(a, b, a);
}

proof fn lemma_components_order(a: Seq<Chars>, b: Seq<Chars>, c: Seq<Chars>)
    ensures
        components_before(a, b) && !components_before(c, b) ==> components_before(a, c),
        components_before(a, b) ==> !components_before(b, a),
        !components_before(a, a),
    decreases a.len(),
{
    if a.len() > 0 {
        lemma_component_order(a[0], a[0], a[0]);
        lemma_components_order(a.skip(1), a.skip(1), a.skip(1));
        if b.len() > 0 {
            lemma_component_order(a[0], b[0], a[0]);
            lemma_components_order(a.skip(1), b.skip(1), a.skip(1));
        }
        if b.len() > 0 && c.len() > 0 {
            lemma_component_order(a[0], b[0], c[0]);
            lemma_component_order(b[0], c[0], a[0]);
            lemma_component_order(c[0], b[0], a[0]);
            lemma_component_order(a[0], c[0], b[0]);
            lemma_components_order(a.skip(1), b.skip(1), c.skip(1));
        }
    }
}

/// The first of some paths, in the order of paths.
pub fn first_path(paths: &[String]) -> (first: Option<&String>)
    ensures
        first is None <==> paths@.len() == 0,
        first matches Some(found) ==> paths@.contains(*found) && forall|i: int|
            0 <= i < paths@.len() ==> !path_before(#[trigger] paths@[i]@, found@),
{
    if paths.len() == 0 {
        return None;
    }
    let mut best: usize = 0;
    let mut at: usize = 1;
    proof {
        lemma_components_order(
            components(paths@[0]@),
            components(paths@[0]@),
            components(paths@[0]@),
        );
    }
    while at < paths.len()
        invariant
            best < at <= paths@.len(),
            forall|i: int| 0 <= i < at ==> !path_before(#[trigger] paths@[i]@, paths@[best as int]@),
        decreases paths@.len() - at,
    {
        if comes_before(paths[at].as_str(), paths[best].as_str()) {
            proof {
                assert forall|i: int| 0 <= i < at + 1 implies !path_before(
                    #[trigger] paths@[i]@,
                    paths@[at as int]@,
                ) by {
                    lemma_components_order(
                        components(paths@[at as int]@),
                        components(paths@[best as int]@),
                        components(paths@[i]@),
                    );
                    lemma_components_order(
                        components(paths@[at as int]@),
                        components(paths@[i]@),
                        components(paths@[i]@),
                    );
                }
            }
            best = at;
        }
        at = at + 1;
    }
    Some(&paths[best])
}

/// Where packages would lie under each of the entries that was said to be a
/// directory there.
pub open spec fn site_candidates(entries: Seq<Chars>, answers: Seq<bool>) -> Seq<Chars>
    decreases entries.len(),
{
    if entries.len() == 0 || answers.len() != entries.len() {
        Seq::empty()
    } else {
        let earlier = site_candidates(entries.drop_last(), answers.drop_last());
        if answers.last() {
            earlier.push(path_join(entries.last(), "site-packages"@))
        } else {
            earlier
        }
    }
}

/// The first of the paths, in the order of paths.
pub open spec fn is_first(paths: Seq<Chars>, found: Option<Chars>) -> bool {
    &&& found is None <==> paths.len() == 0
    &&& found matches Some(path) ==> paths.contains(path) && forall|i: int|
        0 <= i < paths.len() ==> !path_before(#[trigger] paths[i], path)
}

/// The layout of Windows.
pub open spec fn windows_site(venv: Chars) -> Chars {
    path_join(path_join(venv, "Lib"@), "site-packages"@)
}

/// The first of the layouts that a listing of `lib` gave.
pub open spec fn chosen_site<F: EnvironmentFs>(
    filesystem: F,
    entries: Seq<Chars>,
    answers: Seq<bool>,
    found: Option<Chars>,
) -> bool {
    &&& answers.len() == entries.len()
    &&& forall|i: int|
        0 <= i < entries.len() ==> is_directory(
            filesystem,
            path_join(#[trigger] entries[i], "site-packages"@),
            answers[i],
        )
    &&& is_first(site_candidates(entries, answers), found)
}

/// What a listing of `lib` comes to.
pub open spec fn listed_site<F: EnvironmentFs>(
    filesystem: F,
    listed: Result<Vec<String>, String>,
    found: Option<Chars>,
) -> bool {
    match listed {
        Err(_) => found is None,
        Ok(entries) => exists|answers: Seq<bool>| #[trigger]
            chosen_site(filesystem, all_chars(entries@), answers, found),
    }
}

/// Where the packages of an environment lie: `<venv>/Lib/site-packages`
/// where that is a directory, and otherwise the first
/// `<venv>/lib/pythonX.Y/site-packages` that is one.
pub open spec fn found_site<F: EnvironmentFs>(
    filesystem: F,
    venv: Chars,
    found: Option<Chars>,
) -> bool {
    ||| is_directory(filesystem, windows_site(venv), true) && found == Some(windows_site(venv))
    ||| is_directory(filesystem, windows_site(venv), false) && exists|
        listed: Result<Vec<String>, String>,
    |
        #[trigger] lists(filesystem, path_join(venv, "lib"@), listed) && listed_site(
            filesystem,
            listed,
            found,
        )
}

fn asks_directory<F: EnvironmentFs>(filesystem: &F, path: &str) -> (answer: bool)
    ensures
        is_directory(*filesystem, path@, answer),
{
    let answer = filesystem.is_dir(path);
    assert(call_ensures(F::is_dir, (filesystem, path), answer));
    answer
}

fn asks_listing<F: EnvironmentFs>(filesystem: &F, path: &str) -> (answer: Result<
    Vec<String>,
    String,
>)
    ensures
        lists(*filesystem, path@, answer),
{
    let answer = filesystem.read_dir(path);
    assert(call_ensures(F::read_dir, (filesystem, path), answer));
    answer
}

fn asks_bytes<F: EnvironmentFs>(filesystem: &F, path: &str) -> (answer: Result<Vec<u8>, String>)
    ensures
        reads(*filesystem, path@, answer),
{
    let answer = filesystem.read(path);
    assert(call_ensures(F::read, (filesystem, path), answer));
    answer
}

/// `<venv>/lib/pythonX.Y/site-packages`, or the layout of Windows. The
/// first in the order of paths, where there are several.
fn site_packages<F: EnvironmentFs>(venv: &str, filesystem: &F) -> (found: Option<String>)
    ensures
        found_site(*filesystem, venv@, optional_chars(found)),
{
    let windows = join_path(join_path(venv, "Lib").as_str(), "site-packages");
    if asks_directory(filesystem, windows.as_str()) {
        return Some(windows);
    }
    let listed = asks_listing(filesystem, join_path(venv, "lib").as_str());
    let ghost answer = listed;
    let entries = match listed {
        Ok(entries) => entries,
        Err(_) => {
            assert(listed_site(*filesystem, answer, None));
            return None;
        },
    };
    let ghost all = all_chars(entries@);
    let ghost mut answers: Seq<bool> = Seq::empty();
    let mut candidates: Vec<String> = Vec::new();
    let mut at: usize = 0;
    assert(all_chars(candidates@) =~= site_candidates(all.take(0), answers));
    while at < entries.len()
        invariant
            at <= entries@.len(),
            all == all_chars(entries@),
            answers.len() == at,
            forall|i: int|
                0 <= i < at ==> is_directory(
                    *filesystem,
                    path_join(#[trigger] all[i], "site-packages"@),
                    answers[i],
                ),
            all_chars(candidates@) == site_candidates(all.take(at as int), answers),
        decreases entries@.len() - at,
    {
        let ghost held = all_chars(candidates@);
        let ghost before = answers;
        assert(all[at as int] == entries@[at as int]@);
        let path = join_path(entries[at].as_str(), "site-packages");
        let there = asks_directory(filesystem, path.as_str());
        proof {
            answers = before.push(there);
            assert(answers.drop_last() =~= before);
            assert(all.take(at + 1).drop_last() =~= all.take(at as int));
            assert(all.take(at + 1).last() == all[at as int]);
        }
        if there {
            candidates.push(path);
            assert(all_chars(candidates@) =~= held.push(path@));
        }
        at = at + 1;
    }
    assert(all.take(at as int) =~= all);
    let found = match first_path(candidates.as_slice()) {
        Some(path) => Some(path.clone()),
        None => None,
    };
    proof {
        let paths = all_chars(candidates@);
        assert forall|i: int| 0 <= i < paths.len() && found is Some implies !path_before(
            #[trigger] paths[i],
            found->0@,
        ) by {
            assert(!path_before(candidates@[i]@, found->0@));
        }
        if found is Some {
            let k = choose|k: int| 0 <= k < candidates@.len() && candidates@[k] == found->0;
            assert(paths[k] == found->0@);
        }
        assert(chosen_site(*filesystem, all, answers, optional_chars(found)));
        assert(listed_site(*filesystem, answer, optional_chars(found)));
    }
    found
}

/// What is kept of a reading.
pub open spec fn held_bytes(read: Result<Vec<u8>, String>) -> Option<Vec<u8>> {
    match read {
        Ok(held) => Some(held),
        Err(_) => None,
    }
}

/// What is read of a distribution: its record, and where it came from.
pub open spec fn distribution_read<F: EnvironmentFs>(
    filesystem: F,
    path: Chars,
    record: Result<Vec<u8>, String>,
    direct_url: Result<Vec<u8>, String>,
    read: EntryRead,
) -> bool {
    &&& reads(filesystem, path_join(path, "RECORD"@), record)
    &&& reads(filesystem, path_join(path, "direct_url.json"@), direct_url)
    &&& read == EntryRead::Distribution {
        record: held_bytes(record),
        direct_url: held_bytes(direct_url),
    }
}

/// The entry is what its path is named, and was read as what its name says
/// it is.
pub open spec fn entry_read<F: EnvironmentFs>(
    filesystem: F,
    path: Chars,
    entry: SiteEntry,
) -> bool {
    &&& entry.name@ == file_name(path)
    &&& match entry_kind(entry.name@) {
        EntryKind::Distribution => exists|
            record: Result<Vec<u8>, String>,
            direct_url: Result<Vec<u8>, String>,
        |
            #[trigger] distribution_read(filesystem, path, record, direct_url, entry.read),
        EntryKind::PathFile => exists|bytes: Result<Vec<u8>, String>| #[trigger]
            reads(filesystem, path, bytes) && entry.read == EntryRead::PathFile(held_bytes(bytes)),
        _ => entry.read is Nothing,
    }
}

/// The order in which a directory lists its entries is no input.
pub proof fn lemma_listing_order_is_no_input(a: Seq<Chars>, b: Seq<Chars>)
    requires
        a.to_multiset() == b.to_multiset(),
    ensures
        sorting(a) == sorting(b),
{
    lemma_sorting_exists(a);
    lemma_sorting(sorting(a), b);
}

/// The entries are those of the listing, in the order of its paths.
pub open spec fn entries_read<F: EnvironmentFs>(
    filesystem: F,
    listed: Seq<Chars>,
    entries: Seq<SiteEntry>,
) -> bool {
    &&& entries.len() == sorting(listed).len()
    &&& forall|i: int|
        0 <= i < entries.len() ==> entry_read(
            filesystem,
            sorting(listed)[i],
            #[trigger] entries[i],
        )
}

/// What a listing of the packages comes to.
pub open spec fn packages_read<F: EnvironmentFs>(
    filesystem: F,
    listed: Result<Vec<String>, String>,
    reading: SiteReading,
) -> bool {
    match listed {
        Err(_) => reading is Unreadable,
        Ok(paths) => reading matches SiteReading::Entries(entries) && entries_read(
            filesystem,
            all_chars(paths@),
            entries@,
        ),
    }
}

/// What comes of listing the packages.
pub open spec fn directory_read<F: EnvironmentFs>(
    filesystem: F,
    directory: Chars,
    reading: SiteReading,
) -> bool {
    exists|listed: Result<Vec<String>, String>| #[trigger]
        lists(filesystem, directory, listed) && packages_read(filesystem, listed, reading)
}

/// What comes of looking where the packages lie.
pub open spec fn site_read<F: EnvironmentFs>(
    filesystem: F,
    found: Option<Chars>,
    reading: SiteReading,
) -> bool {
    match found {
        None => reading is NoSitePackages,
        Some(directory) => directory_read(filesystem, directory, reading),
    }
}

/// The reading is what the filesystem answered about the environment that
/// the settings configure. Without a configured `venv` nothing is read.
pub open spec fn read_from<F: EnvironmentFs>(
    filesystem: F,
    workspace_root: Chars,
    settings: PythonSettings,
    reading: SiteReading,
) -> bool {
    match settings.venv_path {
        None => reading is NoVenv,
        Some(venv) => exists|found: Option<Chars>| #[trigger]
            found_site(filesystem, path_join(workspace_root, venv@), found) && site_read(
                filesystem,
                found,
                reading,
            ),
    }
}

fn kept(read: Result<Vec<u8>, String>) -> (bytes: Option<Vec<u8>>)
    ensures
        bytes == held_bytes(read),
{
    match read {
        Ok(held) => Some(held),
        Err(_) => None,
    }
}

fn read_entry<F: EnvironmentFs>(path: &str, filesystem: &F) -> (entry: SiteEntry)
    ensures
        entry_read(*filesystem, path@, entry),
{
    let name = name_of_path(path);
    let read = match kind_of_entry(name.as_str()) {
        EntryKind::Distribution => {
            let record = asks_bytes(filesystem, join_path(path, "RECORD").as_str());
            let direct_url = asks_bytes(filesystem, join_path(path, "direct_url.json").as_str());
            let ghost answers = (record, direct_url);
            let read = EntryRead::Distribution {
                record: kept(record),
                direct_url: kept(direct_url),
            };
            assert(distribution_read(*filesystem, path@, answers.0, answers.1, read));
            read
        },
        EntryKind::PathFile => EntryRead::PathFile(kept(asks_bytes(filesystem, path))),
        _ => EntryRead::Nothing,
    };
    SiteEntry { name, read }
}

/// Read the environment that the settings configure.
pub fn read_environment<F: EnvironmentFs>(
    workspace_root: &str,
    settings: &PythonSettings,
    filesystem: &F,
) -> (reading: SiteReading)
    ensures
        read_from(*filesystem, workspace_root@, *settings, reading),
{
    let venv = match &settings.venv_path {
        Some(venv) => join_path(workspace_root, venv.as_str()),
        None => return SiteReading::NoVenv,
    };
    let found = site_packages(venv.as_str(), filesystem);
    let ghost site = optional_chars(found);
    let directory = match found {
        Some(directory) => directory,
        None => {
            assert(site_read(*filesystem, site, SiteReading::NoSitePackages));
            return SiteReading::NoSitePackages;
        },
    };
    let answer = asks_listing(filesystem, directory.as_str());
    let ghost heard = answer;
    assert(lists(*filesystem, directory@, heard));
    assert(site == Some(directory@));
    let listed = match answer {
        Ok(listed) => listed,
        Err(_) => {
            assert(packages_read(*filesystem, heard, SiteReading::Unreadable));
            assert(directory_read(*filesystem, directory@, SiteReading::Unreadable));
            assert(site_read(*filesystem, site, SiteReading::Unreadable));
            return SiteReading::Unreadable;
        },
    };
    let paths = sorted_texts(listed.as_slice());
    let ghost order = sorting(all_chars(listed@));
    proof {
        lemma_sorting(all_chars(paths@), all_chars(listed@));
        assert(all_chars(paths@) == order);
    }
    let mut entries: Vec<SiteEntry> = Vec::new();
    let mut at: usize = 0;
    while at < paths.len()
        invariant
            at <= paths@.len(),
            entries@.len() == at,
            all_chars(paths@) == order,
            forall|i: int|
                0 <= i < at ==> entry_read(*filesystem, order[i], #[trigger] entries@[i]),
        decreases paths@.len() - at,
    {
        assert(order[at as int] == paths@[at as int]@);
        entries.push(read_entry(paths[at].as_str(), filesystem));
        at = at + 1;
    }
    let reading = SiteReading::Entries(entries);
    proof {
        assert(order.len() == paths@.len());
        assert(entries_read(*filesystem, all_chars(listed@), entries@));
        assert(packages_read(*filesystem, heard, reading));
        assert(directory_read(*filesystem, directory@, reading));
        assert(site_read(*filesystem, site, reading));
    }
    reading
}

/// Fingerprint the interpreter and the environment it resolves imports
/// through, over an injected filesystem.
pub fn environment_identity_with<F: EnvironmentFs>(
    workspace_root: &str,
    settings: &PythonSettings,
    filesystem: &F,
) -> (identity: EnvironmentIdentity)
    ensures
        exists|reading: SiteReading| #[trigger]
            read_from(*filesystem, workspace_root@, *settings, reading) && identifies(
                identity,
                *settings,
                reading,
            ),
{
    let reading = read_environment(workspace_root, settings, filesystem);
    identity_of(settings, &reading)
}

// ---------------------------------------------------------------------
// Laws of two environments
// ---------------------------------------------------------------------

/// A name that an entry of a directory can have.
pub open spec fn entry_name(name: Chars) -> bool {
    plain_name(name) && name != ".."@
}

/// The paths of those names in a directory.
pub open spec fn paths_in(directory: Chars, names: Seq<Chars>) -> Seq<Chars> {
    names.map_values(|name: Chars| path_join(directory, name))
}

/// However the directory is listed, it holds those names, in some order.
pub open spec fn holds_names<F: EnvironmentFs>(
    filesystem: F,
    directory: Chars,
    names: Seq<Chars>,
) -> bool {
    &&& forall|i: int| 0 <= i < names.len() ==> entry_name(#[trigger] names[i])
    &&& forall|listed: Result<Vec<String>, String>| #[trigger]
        lists(filesystem, directory, listed) ==> listed is Ok && all_chars(
            listed->Ok_0@,
        ).to_multiset() == paths_in(directory, names).to_multiset()
}

/// The same bytes were read, or the same could not be.
pub open spec fn same_read(a: EntryRead, b: EntryRead) -> bool {
    &&& record_bytes(a) == record_bytes(b)
    &&& direct_url_bytes(a) == direct_url_bytes(b)
    &&& path_file_bytes(a) == path_file_bytes(b)
}

/// However the two entries are read, they hold the same.
pub open spec fn entries_alike<F: EnvironmentFs, G: EnvironmentFs>(
    filesystem: F,
    path: Chars,
    other_filesystem: G,
    other_path: Chars,
) -> bool {
    forall|a: SiteEntry, b: SiteEntry| #[trigger]
        entry_read(filesystem, path, a) && #[trigger] entry_read(other_filesystem, other_path, b)
            ==> same_read(a.read, b.read)
}

/// The two directories hold the same names with the same contents.
pub open spec fn directories_alike<F: EnvironmentFs, G: EnvironmentFs>(
    filesystem: F,
    directory: Chars,
    other_filesystem: G,
    other_directory: Chars,
    names: Seq<Chars>,
) -> bool {
    &&& holds_names(filesystem, directory, names)
    &&& holds_names(other_filesystem, other_directory, names)
    &&& forall|i: int|
        0 <= i < names.len() ==> entries_alike(
            filesystem,
            path_join(directory, #[trigger] names[i]),
            other_filesystem,
            path_join(other_directory, names[i]),
        )
}

/// The packages of the configured environment lie in that directory.
pub open spec fn packages_lie_in<F: EnvironmentFs>(
    filesystem: F,
    workspace_root: Chars,
    settings: PythonSettings,
    directory: Chars,
) -> bool {
    &&& settings.venv_path is Some
    &&& forall|found: Option<Chars>| #[trigger]
        found_site(filesystem, path_join(workspace_root, settings.venv_path->0@), found) ==> found
            == Some(directory)
}

/// Why an environment is not proven.
pub open spec fn reason_unproven(assurance: EnvironmentAssurance) -> Option<Chars> {
    match assurance {
        EnvironmentAssurance::Proven => None,
        EnvironmentAssurance::Unknown { reason } => Some(reason@),
    }
}

proof fn lemma_name_in_directory(directory: Chars, name: Chars)
    requires
        entry_name(name),
    ensures
        file_name(path_join(directory, name)) == name,
{
    let names = seq![name];
    assert(path_of(names) == name);
    lemma_components_of_join(directory, names);
    let parts = components(path_join(directory, name));
    assert(parts.last() == name);
    reveal_strlit("/");
    reveal_strlit(".");
    assert("."@ =~= seq!['.']);
    if name == "/"@ {
        assert(name[0] == '/');
        assert(name.contains('/'));
    }
}

proof fn lemma_sorted_paths(directory: Chars, names: Seq<Chars>)
    requires
        forall|i: int| 0 <= i < names.len() ==> entry_name(#[trigger] names[i]),
    ensures
        sorting(paths_in(directory, names)) == paths_in(directory, sorting(names)),
        sorting(names).len() == names.len(),
        forall|i: int|
            0 <= i < sorting(names).len() ==> names.contains(#[trigger] sorting(names)[i]),
{
    broadcast use vstd::seq_lib::group_to_multiset_ensures;

    let start = if directory.len() == 0 || directory.last() == '/' {
        directory
    } else {
        directory.push('/')
    };
    let extend = |name: Chars| start + name;
    lemma_sorting_exists(names);
    let sorted = sorting(names);
    vstd::seq_lib::to_multiset_len(sorted);
    vstd::seq_lib::to_multiset_len(names);
    assert forall|i: int| 0 <= i < sorted.len() implies names.contains(#[trigger] sorted[i]) by {
        assert(sorted.contains(sorted[i]));
        assert(sorted.to_multiset().contains(sorted[i]));
    }
    assert forall|i: int| 0 <= i < names.len() implies path_join(directory, #[trigger] names[i])
        == start + names[i] by {
        lemma_relative(names[i]);
    }
    assert(paths_in(directory, names) =~= names.map_values(extend));
    assert forall|i: int| 0 <= i < sorted.len() implies path_join(directory, #[trigger] sorted[i])
        == start + sorted[i] by {
        let k = choose|k: int| 0 <= k < names.len() && names[k] == sorted[i];
        assert(entry_name(names[k]));
        lemma_relative(sorted[i]);
    }
    assert(paths_in(directory, sorted) =~= sorted.map_values(extend));
    lemma_sorting_with_a_shared_start(names, start);
}

proof fn lemma_relative(name: Chars)
    requires
        entry_name(name),
    ensures
        !is_absolute(name),
{
    assert(name.contains(name[0]));
}

proof fn lemma_same_entries(a: Seq<SiteEntry>, b: Seq<SiteEntry>)
    requires
        a.len() == b.len(),
        forall|i: int|
            0 <= i < a.len() ==> (#[trigger] a[i]).name@ == b[i].name@ && same_read(
                a[i].read,
                b[i].read,
            ),
    ensures
        with_entries(a) == with_entries(b),
    decreases a.len(),
{
    if a.len() > 0 {
        assert forall|i: int| 0 <= i < a.len() - 1 implies (
        #[trigger] a.drop_last()[i]).name@ == b.drop_last()[i].name@ && same_read(
            a.drop_last()[i].read,
            b.drop_last()[i].read,
        ) by {
            assert(a[i].name@ == b[i].name@);
        }
        lemma_same_entries(a.drop_last(), b.drop_last());
        assert(a[a.len() - 1].name@ == b[a.len() - 1].name@);
    }
}

proof fn lemma_directories_read_alike<F: EnvironmentFs, G: EnvironmentFs>(
    filesystem: F,
    directory: Chars,
    reading: SiteReading,
    other_filesystem: G,
    other_directory: Chars,
    other_reading: SiteReading,
    names: Seq<Chars>,
)
    requires
        directories_alike(filesystem, directory, other_filesystem, other_directory, names),
        directory_read(filesystem, directory, reading),
        directory_read(other_filesystem, other_directory, other_reading),
    ensures
        observed_in(reading) == observed_in(other_reading),
{
    let listed = choose|listed: Result<Vec<String>, String>| #[trigger]
        lists(filesystem, directory, listed) && packages_read(filesystem, listed, reading);
    let other_listed = choose|listed: Result<Vec<String>, String>| #[trigger]
        lists(other_filesystem, other_directory, listed) && packages_read(
            other_filesystem,
            listed,
            other_reading,
        );
    let paths = all_chars(listed->Ok_0@);
    let other_paths = all_chars(other_listed->Ok_0@);
    lemma_listing_order_is_no_input(paths, paths_in(directory, names));
    lemma_listing_order_is_no_input(other_paths, paths_in(other_directory, names));
    lemma_sorted_paths(directory, names);
    lemma_sorted_paths(other_directory, names);
    let sorted = sorting(names);
    let entries = reading->Entries_0@;
    let other_entries = other_reading->Entries_0@;
    assert forall|i: int| 0 <= i < entries.len() implies (#[trigger] entries[i]).name@
        == other_entries[i].name@ && same_read(entries[i].read, other_entries[i].read) by {
        let k = choose|k: int| 0 <= k < names.len() && names[k] == sorted[i];
        assert(entry_name(names[k]));
        lemma_name_in_directory(directory, names[k]);
        lemma_name_in_directory(other_directory, names[k]);
        assert(sorting(paths)[i] == path_join(directory, names[k]));
        assert(sorting(other_paths)[i] == path_join(other_directory, names[k]));
        assert(entry_read(filesystem, path_join(directory, names[k]), entries[i]));
        assert(entry_read(
            other_filesystem,
            path_join(other_directory, names[k]),
            other_entries[i],
        ));
    }
    lemma_same_entries(entries, other_entries);
}

/// Two roots with the same inputs have one environment: where the packages
/// of both hold the same names with the same contents, in whichever order
/// they are listed, the fingerprint, the assurance and the number of
/// distributions are the same.
pub proof fn lemma_same_packages_same_environment<F: EnvironmentFs, G: EnvironmentFs>(
    settings: PythonSettings,
    names: Seq<Chars>,
    filesystem: F,
    workspace_root: Chars,
    directory: Chars,
    reading: SiteReading,
    identity: EnvironmentIdentity,
    other_filesystem: G,
    other_root: Chars,
    other_directory: Chars,
    other_reading: SiteReading,
    other_identity: EnvironmentIdentity,
)
    requires
        packages_lie_in(filesystem, workspace_root, settings, directory),
        packages_lie_in(other_filesystem, other_root, settings, other_directory),
        directories_alike(filesystem, directory, other_filesystem, other_directory, names),
        read_from(filesystem, workspace_root, settings, reading),
        read_from(other_filesystem, other_root, settings, other_reading),
        identifies(identity, settings, reading),
        identifies(other_identity, settings, other_reading),
    ensures
        identity.fingerprint@ == other_identity.fingerprint@,
        reason_unproven(identity.assurance) == reason_unproven(other_identity.assurance),
        identity.distributions == other_identity.distributions,
{
    lemma_directories_read_alike(
        filesystem,
        directory,
        reading,
        other_filesystem,
        other_directory,
        other_reading,
        names,
    );
}

/// The distributions among the entries, by name and version.
pub open spec fn distributions_of(entries: Seq<SiteEntry>) -> Seq<Chars>
    decreases entries.len(),
{
    if entries.len() == 0 {
        Seq::empty()
    } else {
        let earlier = distributions_of(entries.drop_last());
        let name = entries.last().name@;
        if entry_kind(name) == EntryKind::Distribution {
            earlier.push(without(name, ".dist-info"@))
        } else {
            earlier
        }
    }
}

/// What the distributions among the entries recorded of their install.
pub open spec fn records_of(entries: Seq<SiteEntry>) -> Seq<(Chars, Chars)>
    decreases entries.len(),
{
    if entries.len() == 0 {
        Seq::empty()
    } else {
        let earlier = records_of(entries.drop_last());
        let name = entries.last().name@;
        match record_bytes(entries.last().read) {
            Some(bytes) => if entry_kind(name) == EntryKind::Distribution {
                earlier.push((without(name, ".dist-info"@), lossy_text(bytes)))
            } else {
                earlier
            },
            None => earlier,
        }
    }
}

/// The fact that a record comes to.
pub open spec fn record_fact(record: (Chars, Chars)) -> (Chars, Chars) {
    (
        "record:"@ + record.0,
        fingerprint_text("python-dist-record-1"@, seq![("record"@, record.1)]),
    )
}

pub open spec fn names_distribution(fact: (Chars, Chars)) -> bool {
    fact.0 == "distribution"@
}

pub open spec fn names_record(fact: (Chars, Chars)) -> bool {
    fact.0.len() > 0 && fact.0[0] == 'r'
}

proof fn lemma_one_more_fact(facts: Fields, name: Chars, value: Chars)
    ensures
        facts.push((name, value)).filter(|fact: (Chars, Chars)| names_distribution(fact)) == (
        if names_distribution((name, value)) {
            facts.filter(|fact: (Chars, Chars)| names_distribution(fact)).push((name, value))
        } else {
            facts.filter(|fact: (Chars, Chars)| names_distribution(fact))
        }),
        facts.push((name, value)).filter(|fact: (Chars, Chars)| names_record(fact)) == (
        if names_record((name, value)) {
            facts.filter(|fact: (Chars, Chars)| names_record(fact)).push((name, value))
        } else {
            facts.filter(|fact: (Chars, Chars)| names_record(fact))
        }),
{
    facts.lemma_filter_push((name, value), |fact: (Chars, Chars)| names_distribution(fact));
    facts.lemma_filter_push((name, value), |fact: (Chars, Chars)| names_record(fact));
}

proof fn lemma_kinds_of_facts(rest: Chars, value: Chars)
    ensures
        names_distribution(("distribution"@, value)),
        !names_record(("distribution"@, value)),
        names_record(("record:"@ + rest, value)),
        !names_distribution(("record:"@ + rest, value)),
        !names_record(("direct_url:"@ + rest, value)),
        !names_distribution(("direct_url:"@ + rest, value)),
        !names_record(("egg_info"@, value)),
        !names_distribution(("egg_info"@, value)),
        !names_record(("egg_link"@, value)),
        !names_distribution(("egg_link"@, value)),
        !names_record(("pth:"@ + rest, value)),
        !names_distribution(("pth:"@ + rest, value)),
{
    reveal_strlit("distribution");
    reveal_strlit("record:");
    reveal_strlit("direct_url:");
    reveal_strlit("egg_info");
    reveal_strlit("egg_link");
    reveal_strlit("pth:");
    let kind = "distribution"@;
    assert(kind[0] == 'd' && kind[2] == 's');
    assert(("record:"@ + rest)[0] == 'r');
    assert(("direct_url:"@ + rest)[0] == 'd');
    assert(("direct_url:"@ + rest)[2] == 'r');
    assert(("pth:"@ + rest)[0] == 'p');
    assert("egg_info"@[0] == 'e');
    assert("egg_link"@[0] == 'e');
}

proof fn lemma_facts_of_an_entry(observed: Observed, entry: SiteEntry)
    ensures
        with_entry(observed, entry).facts.filter(
            |fact: (Chars, Chars)| names_distribution(fact),
        ) == ({
            let held = observed.facts.filter(|fact: (Chars, Chars)| names_distribution(fact));
            if entry_kind(entry.name@) == EntryKind::Distribution {
                held.push(("distribution"@, without(entry.name@, ".dist-info"@)))
            } else {
                held
            }
        }),
        with_entry(observed, entry).facts.filter(|fact: (Chars, Chars)| names_record(fact)) == ({
            let held = observed.facts.filter(|fact: (Chars, Chars)| names_record(fact));
            match record_bytes(entry.read) {
                Some(bytes) => if entry_kind(entry.name@) == EntryKind::Distribution {
                    held.push(
                        record_fact((without(entry.name@, ".dist-info"@), lossy_text(bytes))),
                    )
                } else {
                    held
                },
                None => held,
            }
        }),
{
    let name = entry.name@;
    let facts = observed.facts;
    match entry_kind(name) {
        EntryKind::Distribution => {
            let stem = without(name, ".dist-info"@);
            lemma_kinds_of_facts(stem, stem);
            lemma_one_more_fact(facts, "distribution"@, stem);
            let seen = facts.push(("distribution"@, stem));
            let recorded = match record_bytes(entry.read) {
                Some(bytes) => {
                    let fact = record_fact((stem, lossy_text(bytes)));
                    lemma_kinds_of_facts(stem, fact.1);
                    lemma_one_more_fact(seen, fact.0, fact.1);
                    seen.push(fact)
                },
                None => seen,
            };
            if let Some(bytes) = direct_url_bytes(entry.read) {
                let value = fingerprint_text(
                    "python-dist-direct-url-1"@,
                    seq![("direct_url"@, lossy_text(bytes))],
                );
                lemma_kinds_of_facts(stem, value);
                lemma_one_more_fact(recorded, "direct_url:"@ + stem, value);
            }
        },
        EntryKind::EggInfo => {
            let stem = without(name, ".egg-info"@);
            lemma_kinds_of_facts(stem, stem);
            lemma_one_more_fact(facts, "egg_info"@, stem);
        },
        EntryKind::EggLink => {
            lemma_kinds_of_facts(name, name);
            lemma_one_more_fact(facts, "egg_link"@, name);
        },
        EntryKind::PathFile => {
            if let Some(bytes) = path_file_bytes(entry.read) {
                let value = fingerprint_text("python-pth-1"@, seq![("pth"@, lossy_text(bytes))]);
                lemma_kinds_of_facts(name, value);
                lemma_one_more_fact(facts, "pth:"@ + name, value);
            }
        },
        EntryKind::Other => {},
    }
}

proof fn lemma_facts_name_the_packages(entries: Seq<SiteEntry>)
    ensures
        with_entries(entries).facts.filter(|fact: (Chars, Chars)| names_distribution(fact))
            == distributions_of(entries).map_values(|stem: Chars| ("distribution"@, stem)),
        with_entries(entries).facts.filter(|fact: (Chars, Chars)| names_record(fact))
            == records_of(entries).map_values(|record: (Chars, Chars)| record_fact(record)),
    decreases entries.len(),
{
    reveal_with_fuel(Seq::filter, 1);
    let named = |stem: Chars| ("distribution"@, stem);
    let recorded = |record: (Chars, Chars)| record_fact(record);
    if entries.len() == 0 {
        assert(distributions_of(entries).map_values(named) =~= Seq::empty());
        assert(records_of(entries).map_values(recorded) =~= Seq::empty());
    } else {
        let rest = entries.drop_last();
        lemma_facts_name_the_packages(rest);
        lemma_facts_of_an_entry(with_entries(rest), entries.last());
        assert(with_entries(entries).facts.filter(
            |fact: (Chars, Chars)| names_distribution(fact),
        ) =~= distributions_of(entries).map_values(named));
        assert(with_entries(entries).facts.filter(|fact: (Chars, Chars)| names_record(fact))
            =~= records_of(entries).map_values(recorded));
    }
}

/// Two environments with the same fingerprint hold the same distributions,
/// of the same versions, with the same records of their install: renaming
/// one to another version, or installing other contents under its name,
/// moves the fingerprint.
pub proof fn lemma_same_fingerprint_same_packages(
    settings: PythonSettings,
    entries: Vec<SiteEntry>,
    identity: EnvironmentIdentity,
    other_settings: PythonSettings,
    other_entries: Vec<SiteEntry>,
    other_identity: EnvironmentIdentity,
)
    requires
        identifies(identity, settings, SiteReading::Entries(entries)),
        identifies(other_identity, other_settings, SiteReading::Entries(other_entries)),
        identity.fingerprint@ == other_identity.fingerprint@,
    ensures
        distributions_of(entries@) == distributions_of(other_entries@),
        records_of(entries@) == records_of(other_entries@),
{
    lemma_same_fingerprint_same_environment(
        identity,
        settings,
        SiteReading::Entries(entries),
        other_identity,
        other_settings,
        SiteReading::Entries(other_entries),
    );
    lemma_facts_name_the_packages(entries@);
    lemma_facts_name_the_packages(other_entries@);
    let named = |stem: Chars| ("distribution"@, stem);
    let recorded = |record: (Chars, Chars)| record_fact(record);
    let a = distributions_of(entries@);
    let b = distributions_of(other_entries@);
    assert(a.map_values(named) == b.map_values(named));
    assert(a.map_values(named).len() == a.len() && b.map_values(named).len() == b.len());
    assert forall|i: int| 0 <= i < a.len() implies a[i] == b[i] by {
        assert(a.map_values(named)[i] == b.map_values(named)[i]);
    }
    assert(a =~= b);
    let c = records_of(entries@);
    let d = records_of(other_entries@);
    assert(c.map_values(recorded) == d.map_values(recorded));
    assert(c.map_values(recorded).len() == c.len() && d.map_values(recorded).len() == d.len());
    assert forall|i: int| 0 <= i < c.len() implies c[i] == d[i] by {
        assert(c.map_values(recorded)[i] == d.map_values(recorded)[i]);
        assert(record_fact(c[i]) == record_fact(d[i]));
        let start = "record:"@;
        assert(c[i].0 =~= (start + c[i].0).skip(start.len() as int));
        assert(d[i].0 =~= (start + d[i].0).skip(start.len() as int));
        let mine = seq![("record"@, c[i].1)];
        let theirs = seq![("record"@, d[i].1)];
        lemma_fingerprint_identifies_its_inputs(
            "python-dist-record-1"@,
            mine,
            "python-dist-record-1"@,
            theirs,
        );
        assert(mine[0] == theirs[0]);
    }
    assert(c =~= d);
}

} // verus!
