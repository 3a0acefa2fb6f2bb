//! What is established of an installed environment.

use vstd::prelude::*;

use crate::fingerprint::{fingerprint_text, Fields};
use crate::json::{nested_flag, parsed_json};
use crate::paths::path_join;
use crate::python_semantic::environment::{
    distribution_read, entry_read, environment_fields, file_name, first_visible, found_site,
    identifies, is_directory, observed_in, read_from, reads, says_something, with_entries,
    with_entry, EntryRead, EnvironmentAssurance, EnvironmentFs, EnvironmentIdentity, SiteEntry,
    SiteReading,
};
use crate::python_semantic::host::PythonSettings;
use crate::text::{chars_or_empty, lossy_text, split, whitespace, Chars};

verus! {

// ---------------------------------------------------------------------
// What proves an environment
// ---------------------------------------------------------------------

proof fn lemma_endings()
    ensures
        ".dist-info"@.len() == 10,
        ".egg-info"@.len() == 9,
        ".egg-link"@.len() == 9,
        ".pth"@.len() == 4,
        ".dist-info"@.last() == 'o',
        ".egg-info"@.last() == 'o',
        ".egg-link"@.last() == 'k',
        ".pth"@.last() == 'h',
        ".dist-info"@[4] == 't',
        ".egg-info"@[3] == 'g',
{
    reveal_strlit(".dist-info");
    reveal_strlit(".egg-info");
    reveal_strlit(".egg-link");
    reveal_strlit(".pth");
}

proof fn lemma_kept_reason(entries: Seq<SiteEntry>, at: int)
    requires
        0 <= at < entries.len(),
        with_entries(entries).unproven is None,
    ensures
        with_entry(with_entries(entries.take(at)), entries[at]).unproven is None,
    decreases entries.len(),
{
    if at == entries.len() - 1 {
        assert(entries.drop_last() =~= entries.take(at));
    } else {
        lemma_kept_reason(entries.drop_last(), at);
        assert(entries.drop_last().take(at) =~= entries.take(at));
    }
}

/// No environment is proven with a legacy install, a link to a checkout, a
/// distribution whose `RECORD` was not read, or a path file that was not.
pub proof fn law_what_is_not_pinned_is_not_proven(
    identity: EnvironmentIdentity,
    settings: PythonSettings,
    entries: Vec<SiteEntry>,
    at: int,
)
    requires
        identifies(identity, settings, SiteReading::Entries(entries)),
        identity.assurance is Proven,
        0 <= at < entries@.len(),
    ensures
        !".egg-info"@.is_suffix_of(entries@[at].name@),
        !".egg-link"@.is_suffix_of(entries@[at].name@),
        ".dist-info"@.is_suffix_of(entries@[at].name@) ==> (entries@[at].read
            matches EntryRead::Distribution { record, .. } && record is Some),
        ".pth"@.is_suffix_of(entries@[at].name@) ==> (entries@[at].read
            matches EntryRead::PathFile(bytes) && bytes is Some),
{
    lemma_endings();
    lemma_kept_reason(entries@, at);
    let name = entries@[at].name@;
    if ".dist-info"@.is_suffix_of(name) {
        assert(name[name.len() - 6] == ".dist-info"@[4]);
        if ".egg-info"@.is_suffix_of(name) {
            assert(name[name.len() - 6] == ".egg-info"@[3]);
        }
        assert(name.last() == ".dist-info"@.last());
    }
    if ".egg-info"@.is_suffix_of(name) {
        assert(name.last() == ".egg-info"@.last());
    }
    if ".egg-link"@.is_suffix_of(name) {
        assert(name.last() == ".egg-link"@.last());
    }
    if ".pth"@.is_suffix_of(name) {
        assert(name.last() == ".pth"@.last());
    }
}

/// No environment is proven with an editable install, or with one whose
/// origin cannot be understood.
pub proof fn law_editable_source_is_not_proven(
    identity: EnvironmentIdentity,
    settings: PythonSettings,
    entries: Vec<SiteEntry>,
    at: int,
    record: Option<Vec<u8>>,
    origin: Vec<u8>,
)
    requires
        identifies(identity, settings, SiteReading::Entries(entries)),
        identity.assurance is Proven,
        0 <= at < entries@.len(),
        ".dist-info"@.is_suffix_of(entries@[at].name@),
        entries@[at].read == (EntryRead::Distribution { record, direct_url: Some(origin) }),
    ensures
        parsed_json(lossy_text(origin@)) is Ok,
        nested_flag(parsed_json(lossy_text(origin@))->Ok_0, "dir_info"@, "editable"@) != Some(true),
{
    lemma_kept_reason(entries@, at);
}

/// No environment is proven with a path file of which a line says anything.
pub proof fn law_an_added_path_is_not_proven(
    identity: EnvironmentIdentity,
    settings: PythonSettings,
    entries: Vec<SiteEntry>,
    at: int,
    bytes: Vec<u8>,
    line: int,
)
    requires
        identifies(identity, settings, SiteReading::Entries(entries)),
        identity.assurance is Proven,
        0 <= at < entries@.len(),
        ".pth"@.is_suffix_of(entries@[at].name@),
        entries@[at].read == EntryRead::PathFile(Some(bytes)),
        0 <= line < split(lossy_text(bytes@), '\n').len(),
    ensures
        !says_something(split(lossy_text(bytes@), '\n')[line]),
{
    lemma_endings();
    lemma_kept_reason(entries@, at);
    let name = entries@[at].name@;
    assert(name.last() == ".pth"@.last());
    if ".dist-info"@.is_suffix_of(name) {
        assert(name.last() == ".dist-info"@.last());
    }
    if ".egg-info"@.is_suffix_of(name) {
        assert(name.last() == ".egg-info"@.last());
    }
    if ".egg-link"@.is_suffix_of(name) {
        assert(name.last() == ".egg-link"@.last());
    }
}

/// A line says something exactly when its first character that is not white
/// space is there and begins no comment.
pub proof fn law_blank_lines_and_comments_say_nothing(line: Chars)
    ensures
        says_something(line) <==> exists|i: int|
            0 <= i < line.len() && !whitespace(#[trigger] line[i]) && line[i] != '#' && forall|
                j: int,
            |
                0 <= j < i ==> whitespace(#[trigger] line[j]),
    decreases line.len(),
{
    if line.len() > 0 {
        let rest = line.skip(1);
        law_blank_lines_and_comments_say_nothing(rest);
        if whitespace(line[0]) {
            if says_something(line) {
                let i = choose|i: int|
                    0 <= i < rest.len() && !whitespace(#[trigger] rest[i]) && rest[i] != '#'
                        && forall|j: int| 0 <= j < i ==> whitespace(#[trigger] rest[j]);
                assert(line[i + 1] == rest[i]);
                assert forall|j: int| 0 <= j < i + 1 implies whitespace(#[trigger] line[j]) by {
                    if j > 0 {
                        assert(line[j] == rest[j - 1]);
                    }
                }
            }
            if exists|i: int|
                0 <= i < line.len() && !whitespace(#[trigger] line[i]) && line[i] != '#' && forall|
                    j: int,
                |
                    0 <= j < i ==> whitespace(#[trigger] line[j]) {
                let i = choose|i: int|
                    0 <= i < line.len() && !whitespace(#[trigger] line[i]) && line[i] != '#'
                        && forall|j: int| 0 <= j < i ==> whitespace(#[trigger] line[j]);
                assert(i > 0);
                assert(rest[i - 1] == line[i]);
                assert forall|j: int| 0 <= j < i - 1 implies whitespace(#[trigger] rest[j]) by {
                    assert(rest[j] == line[j + 1]);
                }
            }
        } else {
            assert(first_visible(line) == Some(line[0]));
        }
    }
}

/// Where every entry that matters is pinned, the environment is proven.
pub proof fn law_a_pinned_environment_is_proven(
    identity: EnvironmentIdentity,
    settings: PythonSettings,
    entries: Vec<SiteEntry>,
)
    requires
        identifies(identity, settings, SiteReading::Entries(entries)),
        forall|i: int|
            0 <= i < entries@.len() ==> {
                let name = (#[trigger] entries@[i]).name@;
                ||| ".dist-info"@.is_suffix_of(name) && (entries@[i].read
                    matches EntryRead::Distribution { record: Some(_), direct_url: None })
                ||| !".dist-info"@.is_suffix_of(name) && !".egg-info"@.is_suffix_of(name)
                    && !".egg-link"@.is_suffix_of(name) && !".pth"@.is_suffix_of(name)
            },
    ensures
        identity.assurance is Proven,
{
    lemma_pinned_so_far(entries@, entries@.len() as int);
    assert(entries@.take(entries@.len() as int) =~= entries@);
}

proof fn lemma_pinned_so_far(entries: Seq<SiteEntry>, upto: int)
    requires
        0 <= upto <= entries.len(),
        forall|i: int|
            0 <= i < entries.len() ==> {
                let name = (#[trigger] entries[i]).name@;
                ||| ".dist-info"@.is_suffix_of(name) && (entries[i].read
                    matches EntryRead::Distribution { record: Some(_), direct_url: None })
                ||| !".dist-info"@.is_suffix_of(name) && !".egg-info"@.is_suffix_of(name)
                    && !".egg-link"@.is_suffix_of(name) && !".pth"@.is_suffix_of(name)
            },
    ensures
        with_entries(entries.take(upto)).unproven is None,
    decreases upto,
{
    if upto > 0 {
        lemma_pinned_so_far(entries, upto - 1);
        let now = entries.take(upto);
        assert(now.drop_last() =~= entries.take(upto - 1));
        assert(now.last() == entries[upto - 1]);
    }
}

/// An environment that could not be looked at is not proven, and says why.
pub proof fn law_an_unseen_environment_says_why(
    identity: EnvironmentIdentity,
    settings: PythonSettings,
    reading: SiteReading,
)
    requires
        identifies(identity, settings, reading),
        !(reading is Entries),
    ensures
        identity.assurance matches EnvironmentAssurance::Unknown { reason } && reason@
            == match reading {
            SiteReading::NoVenv => "no venv path is configured"@,
            SiteReading::NoSitePackages => "no site-packages under the configured venv"@,
            _ => "site-packages could not be read"@,
        },
{
}

/// The first reason that was met is the one that is told.
pub proof fn law_the_first_reason_is_told(entries: Seq<SiteEntry>, next: SiteEntry)
    ensures
        with_entries(entries).unproven is Some ==> with_entries(entries.push(next)).unproven
            == with_entries(entries).unproven,
        ".egg-link"@.is_suffix_of(next.name@) && with_entries(entries).unproven is None
            ==> with_entries(entries.push(next)).unproven == Some(
            next.name@ + " links a source checkout"@,
        ),
{
    lemma_endings();
    assert(entries.push(next).drop_last() =~= entries);
    let name = next.name@;
    if ".egg-link"@.is_suffix_of(name) {
        assert(name.last() == ".egg-link"@.last());
        if ".dist-info"@.is_suffix_of(name) {
            assert(name.last() == ".dist-info"@.last());
        }
        if ".egg-info"@.is_suffix_of(name) {
            assert(name.last() == ".egg-info"@.last());
        }
    }
}

/// Each distribution counts once, a legacy one too, and nothing else does.
pub proof fn law_distributions_are_counted(entries: Seq<SiteEntry>, next: SiteEntry)
    ensures
        with_entries(Seq::<SiteEntry>::empty()).distributions == 0,
        with_entries(entries.push(next)).distributions == with_entries(entries).distributions + (
        if ".dist-info"@.is_suffix_of(next.name@) || ".egg-info"@.is_suffix_of(next.name@) {
            1int
        } else {
            0
        }),
{
    assert(entries.push(next).drop_last() =~= entries);
}

// ---------------------------------------------------------------------
// What the fingerprint holds
// ---------------------------------------------------------------------

proof fn lemma_facts_stay(entries: Seq<SiteEntry>, upto: int, at: int)
    requires
        0 <= upto <= entries.len(),
        0 <= at < with_entries(entries.take(upto)).facts.len(),
    ensures
        at < with_entries(entries).facts.len(),
        with_entries(entries).facts[at] == with_entries(entries.take(upto)).facts[at],
    decreases entries.len(),
{
    if upto == entries.len() {
        assert(entries.take(upto) =~= entries);
    } else {
        assert(entries.drop_last().take(upto) =~= entries.take(upto));
        lemma_facts_stay(entries.drop_last(), upto, at);
    }
}

proof fn lemma_a_fact_of_an_entry(entries: Seq<SiteEntry>, at: int, fact: (Chars, Chars))
    requires
        0 <= at < entries.len(),
        with_entry(with_entries(entries.take(at)), entries[at]).facts.contains(fact),
    ensures
        with_entries(entries).facts.contains(fact),
{
    let upto = entries.take(at + 1);
    assert(upto.drop_last() =~= entries.take(at));
    assert(upto.last() == entries[at]);
    let i = choose|i: int|
        0 <= i < with_entries(upto).facts.len() && with_entries(upto).facts[i] == fact;
    lemma_facts_stay(entries, at + 1, i);
    assert(with_entries(entries).facts[i] == fact);
}

/// Whatever a distribution holds moves the fingerprint: its name and
/// version, its record and its origin are each a fact of it.
pub proof fn law_a_distribution_leaves_its_facts(
    entries: Seq<SiteEntry>,
    at: int,
    stem: Chars,
    record: Vec<u8>,
    origin: Vec<u8>,
)
    requires
        0 <= at < entries.len(),
        entries[at].name@ == stem + ".dist-info"@,
        entries[at].read == (EntryRead::Distribution {
            record: Some(record),
            direct_url: Some(origin),
        }),
    ensures
        with_entries(entries).facts.contains(("distribution"@, stem)),
        with_entries(entries).facts.contains(
            (
                "record:"@ + stem,
                fingerprint_text(
                    "python-dist-record-1"@,
                    seq![("record"@, lossy_text(record@))],
                ),
            ),
        ),
        with_entries(entries).facts.contains(
            (
                "direct_url:"@ + stem,
                fingerprint_text(
                    "python-dist-direct-url-1"@,
                    seq![("direct_url"@, lossy_text(origin@))],
                ),
            ),
        ),
{
    let earlier = with_entries(entries.take(at));
    let name = entries[at].name@;
    assert(".dist-info"@.is_suffix_of(name)) by {
        assert(name.subrange(name.len() - ".dist-info"@.len(), name.len() as int)
            =~= ".dist-info"@);
    }
    assert(name.take(name.len() - ".dist-info"@.len()) =~= stem);
    let now = with_entry(earlier, entries[at]).facts;
    let n = earlier.facts.len() as int;
    let a = ("distribution"@, stem);
    let b = (
        "record:"@ + stem,
        fingerprint_text("python-dist-record-1"@, seq![("record"@, lossy_text(record@))]),
    );
    let c = (
        "direct_url:"@ + stem,
        fingerprint_text("python-dist-direct-url-1"@, seq![("direct_url"@, lossy_text(origin@))]),
    );
    assert(now[n] == a);
    assert(now[n + 1] == b);
    assert(now[n + 2] == c);
    lemma_a_fact_of_an_entry(entries, at, a);
    lemma_a_fact_of_an_entry(entries, at, b);
    lemma_a_fact_of_an_entry(entries, at, c);
}

/// What a path file holds moves the fingerprint, under the file's name.
pub proof fn law_a_path_file_leaves_its_fact(
    entries: Seq<SiteEntry>,
    at: int,
    stem: Chars,
    bytes: Vec<u8>,
)
    requires
        0 <= at < entries.len(),
        entries[at].name@ == stem + ".pth"@,
        entries[at].read == EntryRead::PathFile(Some(bytes)),
    ensures
        with_entries(entries).facts.contains(
            (
                "pth:"@ + stem + ".pth"@,
                fingerprint_text("python-pth-1"@, seq![("pth"@, lossy_text(bytes@))]),
            ),
        ),
{
    lemma_endings();
    let name = entries[at].name@;
    assert(".pth"@.is_suffix_of(name)) by {
        assert(name.subrange(name.len() - ".pth"@.len(), name.len() as int) =~= ".pth"@);
    }
    assert(name.last() == ".pth"@.last());
    if ".dist-info"@.is_suffix_of(name) {
        assert(name.last() == ".dist-info"@.last());
    }
    if ".egg-info"@.is_suffix_of(name) {
        assert(name.last() == ".egg-info"@.last());
    }
    if ".egg-link"@.is_suffix_of(name) {
        assert(name.last() == ".egg-link"@.last());
    }
    let earlier = with_entries(entries.take(at));
    let now = with_entry(earlier, entries[at]).facts;
    assert("pth:"@ + name =~= "pth:"@ + stem + ".pth"@);
    let fact = (
        "pth:"@ + stem + ".pth"@,
        fingerprint_text("python-pth-1"@, seq![("pth"@, lossy_text(bytes@))]),
    );
    assert(now[earlier.facts.len() as int] == fact);
    lemma_a_fact_of_an_entry(entries, at, fact);
}

/// The interpreter and the environment's path are part of the fingerprint,
/// before the facts.
pub proof fn law_the_interpreter_is_part_of_the_environment(
    identity: EnvironmentIdentity,
    settings: PythonSettings,
    reading: SiteReading,
)
    requires
        identifies(identity, settings, reading),
    ensures
        exists|fields: Fields|
            identity.fingerprint@ == #[trigger] fingerprint_text("python-semantic-env-3"@, fields)
                && fields.len() == 2 + observed_in(reading).facts.len() && fields[0] == (
                "python_path"@,
                chars_or_empty(settings.python_path),
            ) && fields[1] == ("venv_path"@, chars_or_empty(settings.venv_path)) && fields.skip(2)
                == observed_in(reading).facts,
{
    let fields = environment_fields(settings, observed_in(reading));
    assert(fields.skip(2) =~= observed_in(reading).facts);
    assert(identity.fingerprint@ == fingerprint_text("python-semantic-env-3"@, fields));
}

// ---------------------------------------------------------------------
// Reading
// ---------------------------------------------------------------------

/// A distribution is read from the `RECORD` and the `direct_url.json` below
/// it: what could be read is held as it was read, and what could not be is
/// not there.
pub proof fn law_a_distribution_is_read_below_its_path<F: EnvironmentFs>(
    filesystem: F,
    path: Chars,
    entry: SiteEntry,
)
    requires
        entry_read(filesystem, path, entry),
        ".dist-info"@.is_suffix_of(entry.name@),
    ensures
        entry.name@ == file_name(path),
        entry.read matches EntryRead::Distribution { record, direct_url } && exists|
            of_record: Result<Vec<u8>, String>,
            of_origin: Result<Vec<u8>, String>,
        |
            #[trigger] reads(filesystem, path_join(path, "RECORD"@), of_record)
                && #[trigger] reads(filesystem, path_join(path, "direct_url.json"@), of_origin)
                && record == (match of_record {
                Ok(bytes) => Some(bytes),
                Err(_) => None,
            }) && direct_url == (match of_origin {
                Ok(bytes) => Some(bytes),
                Err(_) => None,
            }),
{
    let (of_record, of_origin) = choose|
        of_record: Result<Vec<u8>, String>,
        of_origin: Result<Vec<u8>, String>,
    |
        #[trigger] distribution_read(filesystem, path, of_record, of_origin, entry.read);
    assert(reads(filesystem, path_join(path, "RECORD"@), of_record));
    assert(reads(filesystem, path_join(path, "direct_url.json"@), of_origin));
}

/// Without a configured environment nothing is read; a relative one is
/// looked for below the Workspace.
pub proof fn law_an_environment_is_read_where_it_is_configured<F: EnvironmentFs>(
    filesystem: F,
    workspace_root: Chars,
    settings: PythonSettings,
    reading: SiteReading,
)
    requires
        read_from(filesystem, workspace_root, settings, reading),
    ensures
        settings.venv_path is None <==> reading is NoVenv,
        settings.venv_path is Some && reading is NoSitePackages ==> found_site(
            filesystem,
            path_join(workspace_root, settings.venv_path->0@),
            None,
        ),
{
    if let Some(venv) = settings.venv_path {
        let found = choose|found: Option<Chars>| #[trigger]
            found_site(filesystem, path_join(workspace_root, venv@), found)
                && crate::python_semantic::environment::site_read(filesystem, found, reading);
        if reading is NoSitePackages {
            if let Some(directory) = found {
                assert(crate::python_semantic::environment::directory_read(
                    filesystem,
                    directory,
                    reading,
                ));
            }
            assert(found is None);
        }
    }
}

/// The packages lie in a directory named `site-packages`; one that is said
/// to lie directly in `Lib` is taken before any in `lib`.
pub proof fn law_packages_lie_in_site_packages<F: EnvironmentFs>(
    filesystem: F,
    venv: Chars,
    found: Option<Chars>,
)
    requires
        found_site(filesystem, venv, found),
    ensures
        found matches Some(path) ==> exists|parent: Chars| #[trigger]
            path_join(parent, "site-packages"@) == path,
        !is_directory(filesystem, path_join(path_join(venv, "Lib"@), "site-packages"@), false)
            ==> found == Some(path_join(path_join(venv, "Lib"@), "site-packages"@)),
        !is_directory(filesystem, path_join(path_join(venv, "Lib"@), "site-packages"@), true)
            ==> exists|listed: Result<Vec<String>, String>|
            #[trigger] crate::python_semantic::environment::lists(
                filesystem,
                path_join(venv, "lib"@),
                listed,
            ) && (listed is Err ==> found is None),
{
    if let Some(path) = found {
        if path != path_join(path_join(venv, "Lib"@), "site-packages"@) {
            let listed = choose|listed: Result<Vec<String>, String>|
                #[trigger] crate::python_semantic::environment::lists(
                    filesystem,
                    path_join(venv, "lib"@),
                    listed,
                ) && crate::python_semantic::environment::listed_site(filesystem, listed, found);
            let entries = crate::text::all_chars(listed->Ok_0@);
            let answers = choose|answers: Seq<bool>| #[trigger]
                crate::python_semantic::environment::chosen_site(
                    filesystem,
                    entries,
                    answers,
                    found,
                );
            lemma_candidates(entries, answers, path);
        }
    }
}

proof fn lemma_candidates(entries: Seq<Chars>, answers: Seq<bool>, path: Chars)
    requires
        answers.len() == entries.len(),
        crate::python_semantic::environment::site_candidates(entries, answers).contains(path),
    ensures
        exists|parent: Chars| #[trigger] path_join(parent, "site-packages"@) == path,
        exists|i: int|
            0 <= i < entries.len() && answers[i] && path_join(
                #[trigger] entries[i],
                "site-packages"@,
            ) == path,
    decreases entries.len(),
{
    let all = crate::python_semantic::environment::site_candidates(entries, answers);
    if entries.len() > 0 {
        let earlier = crate::python_semantic::environment::site_candidates(
            entries.drop_last(),
            answers.drop_last(),
        );
        if earlier.contains(path) {
            lemma_candidates(entries.drop_last(), answers.drop_last(), path);
            let i = choose|i: int|
                0 <= i < entries.drop_last().len() && answers.drop_last()[i] && path_join(
                    #[trigger] entries.drop_last()[i],
                    "site-packages"@,
                ) == path;
            assert(entries[i] == entries.drop_last()[i]);
        } else {
            let i = choose|i: int| 0 <= i < all.len() && all[i] == path;
            if i < earlier.len() {
                assert(earlier[i] == path);
            }
            assert(answers.last());
            assert(path_join(entries[entries.len() - 1], "site-packages"@) == path);
        }
    }
}

/// A directory counts only where it was said to be one.
pub proof fn law_only_a_directory_is_a_candidate(
    entries: Seq<Chars>,
    answers: Seq<bool>,
    path: Chars,
)
    requires
        answers.len() == entries.len(),
        crate::python_semantic::environment::site_candidates(entries, answers).contains(path),
    ensures
        exists|i: int|
            0 <= i < entries.len() && answers[i] && path_join(
                #[trigger] entries[i],
                "site-packages"@,
            ) == path,
{
    lemma_candidates(entries, answers, path);
}

/// Of what a listing of `lib` gave, a directory is chosen only if the
/// filesystem said that this very path is one, and no other that it said so
/// of comes before it.
pub proof fn law_the_first_directory_is_chosen<F: EnvironmentFs>(
    filesystem: F,
    entries: Seq<Chars>,
    answers: Seq<bool>,
    found: Option<Chars>,
)
    requires
        crate::python_semantic::environment::chosen_site(filesystem, entries, answers, found),
    ensures
        found matches Some(path) ==> is_directory(filesystem, path, true),
        found is None ==> forall|i: int|
            0 <= i < entries.len() ==> is_directory(
                filesystem,
                path_join(#[trigger] entries[i], "site-packages"@),
                false,
            ),
        found matches Some(path) ==> forall|i: int|
            0 <= i < entries.len() && answers[i] ==> !crate::python_semantic::environment::path_before(
                path_join(#[trigger] entries[i], "site-packages"@),
                path,
            ),
{
    let all = crate::python_semantic::environment::site_candidates(entries, answers);
    if let Some(path) = found {
        lemma_candidates(entries, answers, path);
        let i = choose|i: int|
            0 <= i < entries.len() && answers[i] && path_join(
                #[trigger] entries[i],
                "site-packages"@,
            ) == path;
        assert(entries[i] == entries[i]);
        assert forall|i: int|
            0 <= i < entries.len()
                && answers[i] implies !crate::python_semantic::environment::path_before(
            path_join(#[trigger] entries[i], "site-packages"@),
            path,
        ) by {
            lemma_candidate_of(entries, answers, i);
            let k = choose|k: int|
                0 <= k < all.len() && all[k] == path_join(entries[i], "site-packages"@);
            assert(!crate::python_semantic::environment::path_before(all[k], path));
        }
    } else {
        assert forall|i: int| 0 <= i < entries.len() implies is_directory(
            filesystem,
            path_join(#[trigger] entries[i], "site-packages"@),
            false,
        ) by {
            if answers[i] {
                lemma_candidate_of(entries, answers, i);
            }
        }
    }
}

proof fn lemma_candidate_of(entries: Seq<Chars>, answers: Seq<bool>, at: int)
    requires
        answers.len() == entries.len(),
        0 <= at < entries.len(),
        answers[at],
    ensures
        crate::python_semantic::environment::site_candidates(entries, answers).contains(
            path_join(entries[at], "site-packages"@),
        ),
    decreases entries.len(),
{
    let all = crate::python_semantic::environment::site_candidates(entries, answers);
    let earlier = crate::python_semantic::environment::site_candidates(
        entries.drop_last(),
        answers.drop_last(),
    );
    let path = path_join(entries[at], "site-packages"@);
    if at == entries.len() - 1 {
        assert(all[all.len() - 1] == path);
    } else {
        lemma_candidate_of(entries.drop_last(), answers.drop_last(), at);
        let k = choose|k: int| 0 <= k < earlier.len() && earlier[k] == path;
        assert(all[k] == path);
    }
}

} // verus!
